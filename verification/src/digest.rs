//! The digest computer: a 64-byte cryptographic hash of canonical text,
//! the cache key under which structurally identical queries meet.

use vstd::prelude::*;

use blake2::{Blake2b512, Digest};

verus! {

/// The BLAKE2b-512 digest of a character sequence (of its UTF-8 bytes),
/// a function of the text alone.
pub uninterp spec fn blake2b512_of(text: Seq<char>) -> Seq<u8>;

/// Relies on blake2's `Blake2b512` through the `Digest` trait: the 64-byte
/// BLAKE2b-512 digest of the UTF-8 bytes of `text`, deterministic in
/// `text` alone.
#[verifier::external_body]
pub(crate) fn hash(text: &str) -> (r: [u8; 64])
    ensures
        r@ == blake2b512_of(text@),
{
    let mut result = [0u8; 64];
    result.copy_from_slice(&Blake2b512::new_with_prefix(text.as_bytes()).finalize());
    result
}

} // verus!

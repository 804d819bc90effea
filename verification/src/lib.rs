//! Query normalizer: rewrites literal constants in a tokenized query into
//! synthetic parameters, splits statements, reconstructs canonical source
//! text and digests it, so that queries differing only in literal values
//! share one cache key.

pub mod digest;
pub mod laws;
pub mod normalize;
pub mod scan;
pub mod serialize;
pub mod text;
pub mod tokens;

//! Canonical re-serialization of a token sequence: token spellings joined
//! with the minimal whitespace consistent with the operator-adjacency rules.

use vstd::prelude::*;

use crate::tokens::{is_operator, is_operator_kind, tseq, Kind, Token, TokenV};

verus! {

/// Whether one space must stand before token `t` when the previous emitted
/// token was non-operator (`needs_space`): operator-class tokens and
/// parameter references never take a space before them.
pub open spec fn space_before(needs_space: bool, t: TokenV) -> bool {
    needs_space && !is_operator_kind(t.kind) && t.kind != Kind::Argument
}

/// The canonical text of `toks[i..]`, entered with the given
/// needs-space flag.
pub open spec fn serialize_rest(toks: Seq<TokenV>, i: int, needs_space: bool) -> Seq<char>
    decreases toks.len() - i,
{
    if i < 0 || i >= toks.len() {
        Seq::empty()
    } else {
        (if space_before(needs_space, toks[i]) {
            " "@
        } else {
            Seq::<char>::empty()
        }) + toks[i].text + serialize_rest(toks, i + 1, !is_operator_kind(toks[i].kind))
    }
}

/// The canonical text of a whole token sequence.
pub open spec fn serialized(toks: Seq<TokenV>) -> Seq<char> {
    serialize_rest(toks, 0, false)
}

/// Reconstructs canonical source text from a token sequence, inserting one
/// space between adjacent tokens exactly where neither side is
/// self-delimiting.
pub fn serialize_tokens(tokens: &Vec<Token>) -> (r: String)
    ensures
        r@ == serialized(tseq(tokens@)),
{
    let ghost ts = tseq(tokens@);
    let mut buf = String::from_str("");
    let mut needs_space = false;
    let mut i: usize = 0;
    proof {
        reveal_strlit("");
        assert(buf@ + serialize_rest(ts, 0, false) =~= serialize_rest(ts, 0, false));
    }
    while i < tokens.len()
        invariant
            ts == tseq(tokens@),
            i <= tokens@.len(),
            buf@ + serialize_rest(ts, i as int, needs_space) == serialized(ts),
        decreases tokens@.len() - i,
    {
        let t = &tokens[i];
        assert(t@ == ts[i as int]);
        let ghost buf0 = buf@;
        let t_op = is_operator(t);
        if needs_space && !t_op && !matches!(t.kind, Kind::Argument) {
            buf.append(" ");
        }
        buf.append(t.text.as_str());
        proof {
            let sp: Seq<char> = if space_before(needs_space, ts[i as int]) {
                " "@
            } else {
                Seq::<char>::empty()
            };
            assert(buf@ =~= buf0 + sp + ts[i as int].text);
            assert(serialize_rest(ts, i as int, needs_space) == sp + ts[i as int].text
                + serialize_rest(ts, i + 1, !is_operator_kind(ts[i as int].kind)));
            assert(buf@ + serialize_rest(ts, i + 1, !is_operator_kind(ts[i as int].kind)) =~= buf0
                + serialize_rest(ts, i as int, needs_space));
        }
        needs_space = !t_op;
        i += 1;
    }
    proof {
        assert(serialize_rest(ts, i as int, needs_space) =~= Seq::<char>::empty());
        assert(buf@ + Seq::<char>::empty() =~= buf@);
    }
    buf
}

} // verus!

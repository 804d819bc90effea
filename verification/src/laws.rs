//! Properties of normalization that relate its components: determinism of
//! the result, bypass correctness, and statement splitting.

use vstd::prelude::*;

use crate::normalize::{
    bypasses, extracts, init_state, is_admin_keyword, literal_type_name, normalize_entry,
    rewrite_from, var_name, var_tokens, EntryV, RwResult, RwState,
};
use crate::scan::{
    arg_body, has_named, has_positional, is_named_arg, is_positional_arg, max_positional,
    named_texts, scan_spec, spelled_index,
};
use crate::serialize::{serialize_rest, serialized};
use crate::tokens::{Kind, Pos, TokenV};

verus! {

/// Determinism: the normalization result is a function of the token
/// sequence and end position alone, so two results for the same input
/// agree on the digest, the canonical text, and the extracted variables.
pub proof fn lemma_determinism(e1: EntryV, e2: EntryV, ts: Seq<TokenV>, end: Pos)
    requires
        e1 == normalize_entry(ts, end),
        e2 == normalize_entry(ts, end),
    ensures
        e1.hash == e2.hash,
        e1.processed_source == e2.processed_source,
        e1.variables == e2.variables,
{
}

/// Bypass correctness: a query that opens with an administrative/DDL
/// keyword is never rewritten — no variables are extracted, the style
/// flags are the defaults, and the canonical text serializes the original
/// tokens verbatim.
pub proof fn lemma_bypass(ts: Seq<TokenV>, end: Pos)
    requires
        ts.len() > 0,
        ts[0].kind == Kind::Keyword,
        is_admin_keyword(ts[0].text),
    ensures
        normalize_entry(ts, end).variables.len() == 0,
        !normalize_entry(ts, end).named_args,
        normalize_entry(ts, end).first_arg is None,
        normalize_entry(ts, end).processed_source == serialized(ts),
        normalize_entry(ts, end).tokens == ts,
{
    match scan_spec(ts) {
        None => {},
        Some((named, start)) => {
            assert(rewrite_from(ts, 0, init_state(start), named) == RwResult::Bypass);
        },
    }
}

/// The number of top-level statement separators at positions `i` and
/// beyond, not counting one that ends the sequence.
pub open spec fn n_seps_from(ts: Seq<TokenV>, i: int) -> int
    decreases ts.len() - i,
{
    if i < 0 || i >= ts.len() {
        0
    } else {
        (if ts[i].kind == Kind::Semicolon && i + 1 < ts.len() {
            1int
        } else {
            0int
        }) + n_seps_from(ts, i + 1)
    }
}

proof fn lemma_rewrite_statements(ts: Seq<TokenV>, i: int, s: RwState, named: bool)
    requires
        0 <= i <= ts.len(),
        rewrite_from(ts, i, s, named) is Done,
    ensures
        rewrite_from(ts, i, s, named)->Done_0.all.len() == s.all.len() + n_seps_from(ts, i) + 1,
    decreases ts.len() - i,
{
    if i < ts.len() {
        let t = ts[i];
        if crate::normalize::extracts(t, s.out) {
            lemma_rewrite_statements(
                ts,
                i + 1,
                RwState {
                    out: s.out + crate::normalize::var_tokens(
                        "__std__"@,
                        crate::normalize::literal_type_name(t.kind),
                        crate::normalize::var_name(named, s.counter),
                        t.span,
                    ),
                    cur: s.cur.push(t.value->Some_0),
                    all: s.all,
                    counter: s.counter + 1,
                    last_was_set: s.last_was_set,
                },
                named,
            );
        } else if crate::normalize::bypasses(t, s.last_was_set) {
        } else if t.kind == Kind::Semicolon {
            if i + 1 < ts.len() {
                lemma_rewrite_statements(
                    ts,
                    i + 1,
                    RwState {
                        out: s.out.push(t),
                        cur: Seq::empty(),
                        all: s.all.push(s.cur),
                        counter: s.counter,
                        last_was_set: false,
                    },
                    named,
                );
            } else {
                lemma_rewrite_statements(
                    ts,
                    i + 1,
                    RwState {
                        out: s.out.push(t),
                        cur: s.cur,
                        all: s.all,
                        counter: s.counter,
                        last_was_set: false,
                    },
                    named,
                );
            }
        } else if t.kind == Kind::Keyword && crate::text::eq_upper(t.text, "SET"@) {
            lemma_rewrite_statements(
                ts,
                i + 1,
                RwState {
                    out: s.out.push(t),
                    cur: s.cur,
                    all: s.all,
                    counter: s.counter,
                    last_was_set: true,
                },
                named,
            );
        } else {
            lemma_rewrite_statements(
                ts,
                i + 1,
                RwState {
                    out: s.out.push(t),
                    cur: s.cur,
                    all: s.all,
                    counter: s.counter,
                    last_was_set: false,
                },
                named,
            );
        }
    }
}

/// Two tokens that agree in kind, spelling and decoded value, differing
/// at most in their source spans.
pub open spec fn same_shape(a: TokenV, b: TokenV) -> bool {
    a.kind == b.kind && a.text == b.text && a.value == b.value
}

/// Two token sequences equal up to source spans: what differently-spaced
/// spellings of one query lex to.
pub open spec fn same_shapes(x: Seq<TokenV>, y: Seq<TokenV>) -> bool {
    x.len() == y.len() && forall|i: int| 0 <= i < x.len() ==> same_shape(#[trigger] x[i], y[i])
}

proof fn lemma_same_shapes_drop_last(x: Seq<TokenV>, y: Seq<TokenV>)
    requires
        same_shapes(x, y),
        x.len() > 0,
    ensures
        same_shapes(x.drop_last(), y.drop_last()),
{
    assert forall|i: int| 0 <= i < x.drop_last().len() implies same_shape(
        #[trigger] x.drop_last()[i],
        y.drop_last()[i],
    ) by {
        assert(x.drop_last()[i] == x[i]);
        assert(y.drop_last()[i] == y[i]);
    }
}

proof fn lemma_max_positional_same(x: Seq<TokenV>, y: Seq<TokenV>)
    requires
        same_shapes(x, y),
    ensures
        max_positional(x) == max_positional(y),
    decreases x.len(),
{
    if x.len() > 0 {
        lemma_same_shapes_drop_last(x, y);
        lemma_max_positional_same(x.drop_last(), y.drop_last());
        assert(same_shape(x.last(), y.last()));
        assert(arg_body(x.last()) == arg_body(y.last()));
    }
}

proof fn lemma_scan_same(x: Seq<TokenV>, y: Seq<TokenV>)
    requires
        same_shapes(x, y),
    ensures
        scan_spec(x) == scan_spec(y),
{
    assert(has_positional(x) <==> has_positional(y)) by {
        if has_positional(x) {
            let i = choose|i: int| 0 <= i < x.len() && is_positional_arg(#[trigger] x[i]);
            assert(same_shape(x[i], y[i]));
            assert(is_positional_arg(y[i]));
        }
        if has_positional(y) {
            let i = choose|i: int| 0 <= i < y.len() && is_positional_arg(#[trigger] y[i]);
            assert(same_shape(x[i], y[i]));
            assert(is_positional_arg(x[i]));
        }
    }
    assert(has_named(x) <==> has_named(y)) by {
        if has_named(x) {
            let i = choose|i: int| 0 <= i < x.len() && is_named_arg(#[trigger] x[i]);
            assert(same_shape(x[i], y[i]));
            assert(is_named_arg(y[i]));
        }
        if has_named(y) {
            let i = choose|i: int| 0 <= i < y.len() && is_named_arg(#[trigger] y[i]);
            assert(same_shape(x[i], y[i]));
            assert(is_named_arg(x[i]));
        }
    }
    assert(named_texts(x) =~= named_texts(y)) by {
        assert forall|name: Seq<char>| #[trigger] named_texts(x).contains(name) implies named_texts(
            y,
        ).contains(name) by {
            let i = choose|i: int|
                0 <= i < x.len() && is_named_arg(#[trigger] x[i]) && x[i].text == name;
            assert(same_shape(x[i], y[i]));
        }
        assert forall|name: Seq<char>| #[trigger] named_texts(y).contains(name) implies named_texts(
            x,
        ).contains(name) by {
            let i = choose|i: int|
                0 <= i < y.len() && is_named_arg(#[trigger] y[i]) && y[i].text == name;
            assert(same_shape(x[i], y[i]));
        }
    }
    lemma_max_positional_same(x, y);
}

proof fn lemma_serialize_same(x: Seq<TokenV>, y: Seq<TokenV>, i: int, needs_space: bool)
    requires
        same_shapes(x, y),
    ensures
        serialize_rest(x, i, needs_space) == serialize_rest(y, i, needs_space),
    decreases x.len() - i,
{
    if 0 <= i < x.len() {
        assert(same_shape(x[i], y[i]));
        lemma_serialize_same(x, y, i + 1, !crate::tokens::is_operator_kind(x[i].kind));
    }
}

proof fn lemma_same_shapes_append_group(
    a: Seq<TokenV>,
    b: Seq<TokenV>,
    g1: Seq<TokenV>,
    g2: Seq<TokenV>,
)
    requires
        same_shapes(a, b),
        same_shapes(g1, g2),
    ensures
        same_shapes(a + g1, b + g2),
{
    assert forall|i: int| 0 <= i < (a + g1).len() implies same_shape(
        #[trigger] (a + g1)[i],
        (b + g2)[i],
    ) by {
        if i < a.len() {
            assert((a + g1)[i] == a[i]);
            assert((b + g2)[i] == b[i]);
        } else {
            assert((a + g1)[i] == g1[i - a.len()]);
            assert((b + g2)[i] == g2[i - a.len()]);
        }
    }
}

proof fn lemma_var_tokens_same_shapes(
    module: Seq<char>,
    typ: Seq<char>,
    var: Seq<char>,
    s1: crate::tokens::Span,
    s2: crate::tokens::Span,
)
    ensures
        same_shapes(var_tokens(module, typ, var, s1), var_tokens(module, typ, var, s2)),
{
    let g1 = var_tokens(module, typ, var, s1);
    let g2 = var_tokens(module, typ, var, s2);
    assert forall|i: int| 0 <= i < g1.len() implies same_shape(#[trigger] g1[i], g2[i]) by {
        if i == 0 {
        } else if i == 1 {
        } else if i == 2 {
        } else if i == 3 {
        } else if i == 4 {
        } else if i == 5 {
        } else if i == 6 {
        } else {
            assert(i == 7);
        }
    }
}

/// The rewrite depends on spans only through the spans it copies into the
/// output: on inputs equal up to spans it makes the same decisions and
/// extracts the same values.
proof fn lemma_rewrite_same(
    x: Seq<TokenV>,
    y: Seq<TokenV>,
    i: int,
    sx: RwState,
    sy: RwState,
    named: bool,
)
    requires
        same_shapes(x, y),
        same_shapes(sx.out, sy.out),
        sx.cur == sy.cur,
        sx.all == sy.all,
        sx.counter == sy.counter,
        sx.last_was_set == sy.last_was_set,
    ensures
        rewrite_from(x, i, sx, named) is Bypass <==> rewrite_from(y, i, sy, named) is Bypass,
        rewrite_from(x, i, sx, named) matches RwResult::Done(dx) ==> (rewrite_from(
            y,
            i,
            sy,
            named,
        ) matches RwResult::Done(dy) && same_shapes(dx.out, dy.out) && dx.cur == dy.cur && dx.all
            == dy.all && dx.counter == dy.counter),
    decreases x.len() - i,
{
    if i < 0 || i >= x.len() {
    } else {
        let tx = x[i];
        let ty = y[i];
        assert(same_shape(tx, ty));
        if sx.out.len() > 0 {
            assert(same_shape(sx.out.last(), sy.out.last()));
        }
        assert(extracts(tx, sx.out) == extracts(ty, sy.out));
        if extracts(tx, sx.out) {
            let gx = var_tokens(
                "__std__"@,
                literal_type_name(tx.kind),
                var_name(named, sx.counter),
                tx.span,
            );
            let gy = var_tokens(
                "__std__"@,
                literal_type_name(ty.kind),
                var_name(named, sy.counter),
                ty.span,
            );
            lemma_var_tokens_same_shapes(
                "__std__"@,
                literal_type_name(tx.kind),
                var_name(named, sx.counter),
                tx.span,
                ty.span,
            );
            lemma_same_shapes_append_group(sx.out, sy.out, gx, gy);
            lemma_rewrite_same(
                x,
                y,
                i + 1,
                RwState {
                    out: sx.out + gx,
                    cur: sx.cur.push(tx.value->Some_0),
                    all: sx.all,
                    counter: sx.counter + 1,
                    last_was_set: sx.last_was_set,
                },
                RwState {
                    out: sy.out + gy,
                    cur: sy.cur.push(ty.value->Some_0),
                    all: sy.all,
                    counter: sy.counter + 1,
                    last_was_set: sy.last_was_set,
                },
                named,
            );
        } else if bypasses(tx, sx.last_was_set) {
        } else {
            let ox = sx.out.push(tx);
            let oy = sy.out.push(ty);
            assert(same_shapes(ox, oy)) by {
                assert forall|j: int| 0 <= j < ox.len() implies same_shape(
                    #[trigger] ox[j],
                    oy[j],
                ) by {
                    if j < sx.out.len() {
                        assert(ox[j] == sx.out[j]);
                        assert(oy[j] == sy.out[j]);
                    } else {
                        assert(ox[j] == tx);
                        assert(oy[j] == ty);
                    }
                }
            }
            if tx.kind == Kind::Semicolon {
                if i + 1 < x.len() {
                    lemma_rewrite_same(
                        x,
                        y,
                        i + 1,
                        RwState {
                            out: ox,
                            cur: Seq::empty(),
                            all: sx.all.push(sx.cur),
                            counter: sx.counter,
                            last_was_set: false,
                        },
                        RwState {
                            out: oy,
                            cur: Seq::empty(),
                            all: sy.all.push(sy.cur),
                            counter: sy.counter,
                            last_was_set: false,
                        },
                        named,
                    );
                } else {
                    lemma_rewrite_same(
                        x,
                        y,
                        i + 1,
                        RwState {
                            out: ox,
                            cur: sx.cur,
                            all: sx.all,
                            counter: sx.counter,
                            last_was_set: false,
                        },
                        RwState {
                            out: oy,
                            cur: sy.cur,
                            all: sy.all,
                            counter: sy.counter,
                            last_was_set: false,
                        },
                        named,
                    );
                }
            } else {
                let flag = tx.kind == Kind::Keyword && crate::text::eq_upper(tx.text, "SET"@);
                lemma_rewrite_same(
                    x,
                    y,
                    i + 1,
                    RwState {
                        out: ox,
                        cur: sx.cur,
                        all: sx.all,
                        counter: sx.counter,
                        last_was_set: flag,
                    },
                    RwState {
                        out: oy,
                        cur: sy.cur,
                        all: sy.all,
                        counter: sy.counter,
                        last_was_set: flag,
                    },
                    named,
                );
            }
        }
    }
}

/// Digest stability: normalization reads spans only to copy them, so two
/// token sequences equal up to spans — differently-spaced spellings of
/// one query — yield the same canonical text, digest, variables and
/// argument-style flags.
pub proof fn lemma_digest_stability(x: Seq<TokenV>, y: Seq<TokenV>, ex: Pos, ey: Pos)
    requires
        same_shapes(x, y),
    ensures
        normalize_entry(x, ex).processed_source == normalize_entry(y, ey).processed_source,
        normalize_entry(x, ex).hash == normalize_entry(y, ey).hash,
        normalize_entry(x, ex).variables == normalize_entry(y, ey).variables,
        normalize_entry(x, ex).named_args == normalize_entry(y, ey).named_args,
        normalize_entry(x, ex).first_arg == normalize_entry(y, ey).first_arg,
{
    lemma_scan_same(x, y);
    match scan_spec(x) {
        None => {
            lemma_serialize_same(x, y, 0, false);
        },
        Some((named, start)) => {
            lemma_rewrite_same(x, y, 0, init_state(start), init_state(start), named);
            match rewrite_from(x, 0, init_state(start), named) {
                RwResult::Bypass => {
                    lemma_serialize_same(x, y, 0, false);
                },
                RwResult::Done(dx) => {
                    let dy = rewrite_from(y, 0, init_state(start), named)->Done_0;
                    lemma_serialize_same(dx.out, dy.out, 0, false);
                },
            }
        },
    }
}

/// Statement splitting: where the rewrite runs to completion, the
/// per-statement variable lists number one more than the top-level
/// separators (a trailing separator opens no extra empty statement).
pub proof fn lemma_statement_splitting(ts: Seq<TokenV>, end: Pos)
    requires
        match scan_spec(ts) {
            Some((named, start)) => rewrite_from(ts, 0, init_state(start), named) is Done,
            None => false,
        },
    ensures
        normalize_entry(ts, end).variables.len() == n_seps_from(ts, 0) + 1,
{
    let (named, start) = scan_spec(ts)->Some_0;
    lemma_rewrite_statements(ts, 0, init_state(start), named);
}

} // verus!

//! The rewriter: a single forward pass over a tokenized query that
//! extracts literal constants into typed synthetic parameters, splits
//! statements on top-level semicolons, detects non-normalizable
//! statements (which bypass extraction wholesale), and assembles the
//! canonical text, its digest, and the per-statement literal values.

use vstd::prelude::*;

use crate::digest::{blake2b512_of, hash};
use crate::scan::{scan_spec, scan_vars};
use crate::serialize::{serialize_tokens, serialized};
use crate::text::{dec_digits, eq_upper, push_decimal, str_eq, text_eq_upper};
use crate::tokens::{copy_string, tseq, Kind, Pos, Span, Token, TokenV, Value, ValueV};

verus! {

/// One extracted literal value, in extraction order within its statement.
#[derive(Debug, PartialEq)]
pub struct Variable {
    pub value: Value,
}

impl View for Variable {
    type V = ValueV;

    open spec fn view(&self) -> ValueV {
        self.value@
    }
}

/// Why normalization failed hard: only a tokenizer-level lexical error
/// does; `Assertion` is a reserved hook for internal invariant violations
/// and is never constructed here.
#[derive(Debug)]
pub enum Error {
    Tokenizer(String, Pos),
    Assertion(String, Pos),
}

/// A failure reported by the token source: a message and the span where
/// tokenization stopped.
#[derive(Debug)]
pub struct TokenizerFailure {
    pub message: String,
    pub span: Span,
}

/// What the token source hands over: the token sequence or a failure, and
/// the position just past the last consumed token (available either way).
pub struct TokenizerOutput {
    pub tokens: Result<Vec<Token>, TokenizerFailure>,
    pub end_pos: Pos,
}

/// The normalization result.
pub struct Entry {
    pub processed_source: String,
    pub hash: [u8; 64],
    pub tokens: Vec<Token>,
    pub variables: Vec<Vec<Variable>>,
    pub end_pos: Pos,
    pub named_args: bool,
    pub first_arg: Option<usize>,
}

/// The mathematical value of an `Entry`.
#[verifier::ext_equal]
pub struct EntryV {
    pub processed_source: Seq<char>,
    pub hash: Seq<u8>,
    pub tokens: Seq<TokenV>,
    pub variables: Seq<Seq<ValueV>>,
    pub end_pos: Pos,
    pub named_args: bool,
    pub first_arg: Option<int>,
}

pub open spec fn vars_view(s: Seq<Variable>) -> Seq<ValueV> {
    s.map_values(|v: Variable| v@)
}

pub open spec fn varss_view(s: Seq<Vec<Variable>>) -> Seq<Seq<ValueV>> {
    s.map_values(|vs: Vec<Variable>| vars_view(vs@))
}

impl View for Entry {
    type V = EntryV;

    open spec fn view(&self) -> EntryV {
        EntryV {
            processed_source: self.processed_source@,
            hash: self.hash@,
            tokens: tseq(self.tokens@),
            variables: varss_view(self.variables@),
            end_pos: self.end_pos,
            named_args: self.named_args,
            first_arg: match self.first_arg {
                Some(u) => Some(u as int),
                None => None,
            },
        }
    }
}

/// The literal kinds the rewriter extracts.
pub open spec fn is_literal_kind(k: Kind) -> bool {
    k == Kind::IntConst || k == Kind::FloatConst || k == Kind::BigIntConst || k
        == Kind::DecimalConst || k == Kind::Str
}

/// The type name annotating a synthesized parameter for each literal kind.
pub open spec fn literal_type_name(k: Kind) -> Seq<char> {
    if k == Kind::IntConst {
        "int64"@
    } else if k == Kind::FloatConst {
        "float64"@
    } else if k == Kind::BigIntConst {
        "bigint"@
    } else if k == Kind::DecimalConst {
        "decimal"@
    } else {
        "str"@
    }
}

/// The special cases under which an integer literal is left untouched:
/// right after a member-access dot (a tuple accessor), the `LIMIT 1`
/// idiom, and the minimum signed 64-bit boundary magnitude.
pub open spec fn int_kept(t: TokenV, out: Seq<TokenV>) -> bool {
    (out.len() > 0 && out.last().kind == Kind::Dot) || (t.text == "1"@ && out.len() > 0
        && out.last().kind == Kind::Keyword && eq_upper(out.last().text, "LIMIT"@)) || t.text
        == "9223372036854775808"@
}

/// Whether the rewriter extracts token `t`, given the rewritten output
/// so far.
pub open spec fn extracts(t: TokenV, out: Seq<TokenV>) -> bool {
    is_literal_kind(t.kind) && !(t.kind == Kind::IntConst && int_kept(t, out))
}

/// The administrative/DDL keywords whose statements are never normalized.
pub open spec fn is_admin_keyword(t: Seq<char>) -> bool {
    eq_upper(t, "CONFIGURE"@) || eq_upper(t, "CREATE"@) || eq_upper(t, "ALTER"@) || eq_upper(
        t,
        "DROP"@,
    ) || eq_upper(t, "START"@) || eq_upper(t, "ANALYZE"@)
}

/// Whether token `t` aborts the whole rewrite: an administrative keyword,
/// or the `GLOBAL` half of `SET GLOBAL`.
pub open spec fn bypasses(t: TokenV, last_was_set: bool) -> bool {
    t.kind == Kind::Keyword && (is_admin_keyword(t.text) || (last_was_set && eq_upper(
        t.text,
        "GLOBAL"@,
    )))
}

/// The spelling of the `n`-th synthesized parameter reference.
pub open spec fn var_name(named: bool, n: int) -> Seq<char> {
    if named {
        "$__edb_arg_"@ + dec_digits(n)
    } else {
        "$"@ + dec_digits(n)
    }
}

/// The eight tokens of a type-annotated parameter expression
/// `(<module::typ>var)`, all carrying the originating literal's span.
pub open spec fn var_tokens(module: Seq<char>, typ: Seq<char>, var: Seq<char>, span: Span) -> Seq<
    TokenV,
> {
    seq![
        TokenV { kind: Kind::OpenParen, text: "("@, span: span, value: None },
        TokenV { kind: Kind::Less, text: "<"@, span: span, value: None },
        TokenV { kind: Kind::Ident, text: module, span: span, value: None },
        TokenV { kind: Kind::Namespace, text: "::"@, span: span, value: None },
        TokenV { kind: Kind::Ident, text: typ, span: span, value: Some(ValueV::Str(typ)) },
        TokenV { kind: Kind::Greater, text: ">"@, span: span, value: None },
        TokenV { kind: Kind::Argument, text: var, span: span, value: None },
        TokenV { kind: Kind::CloseParen, text: ")"@, span: span, value: None },
    ]
}

/// The rewriter's running state: the rewritten output, the current
/// statement's extracted values, the closed statements' values, the next
/// parameter index, and the one-token lookback for `SET GLOBAL`.
#[verifier::ext_equal]
pub struct RwState {
    pub out: Seq<TokenV>,
    pub cur: Seq<ValueV>,
    pub all: Seq<Seq<ValueV>>,
    pub counter: int,
    pub last_was_set: bool,
}

/// How the forward pass ends: aborted wholesale, or done with a final
/// state.
#[verifier::ext_equal]
pub enum RwResult {
    Bypass,
    Done(RwState),
}

pub open spec fn init_state(start: int) -> RwState {
    RwState {
        out: Seq::empty(),
        cur: Seq::empty(),
        all: Seq::empty(),
        counter: start,
        last_was_set: false,
    }
}

/// The forward pass from token `i` in state `s`: extracts literals,
/// retains everything else, flushes statements at non-final semicolons,
/// and aborts on bypass keywords. At the end the in-progress statement is
/// flushed (even if empty).
pub open spec fn rewrite_from(ts: Seq<TokenV>, i: int, s: RwState, named: bool) -> RwResult
    decreases ts.len() - i,
{
    if i < 0 || i >= ts.len() {
        RwResult::Done(
            RwState {
                out: s.out,
                cur: s.cur,
                all: s.all.push(s.cur),
                counter: s.counter,
                last_was_set: s.last_was_set,
            },
        )
    } else {
        let t = ts[i];
        if extracts(t, s.out) {
            rewrite_from(
                ts,
                i + 1,
                RwState {
                    out: s.out + var_tokens(
                        "__std__"@,
                        literal_type_name(t.kind),
                        var_name(named, s.counter),
                        t.span,
                    ),
                    cur: s.cur.push(t.value->Some_0),
                    all: s.all,
                    counter: s.counter + 1,
                    last_was_set: s.last_was_set,
                },
                named,
            )
        } else if bypasses(t, s.last_was_set) {
            RwResult::Bypass
        } else if t.kind == Kind::Semicolon {
            if i + 1 < ts.len() {
                rewrite_from(
                    ts,
                    i + 1,
                    RwState {
                        out: s.out.push(t),
                        cur: Seq::empty(),
                        all: s.all.push(s.cur),
                        counter: s.counter,
                        last_was_set: false,
                    },
                    named,
                )
            } else {
                rewrite_from(
                    ts,
                    i + 1,
                    RwState {
                        out: s.out.push(t),
                        cur: s.cur,
                        all: s.all,
                        counter: s.counter,
                        last_was_set: false,
                    },
                    named,
                )
            }
        } else if t.kind == Kind::Keyword && eq_upper(t.text, "SET"@) {
            rewrite_from(
                ts,
                i + 1,
                RwState {
                    out: s.out.push(t),
                    cur: s.cur,
                    all: s.all,
                    counter: s.counter,
                    last_was_set: true,
                },
                named,
            )
        } else {
            rewrite_from(
                ts,
                i + 1,
                RwState {
                    out: s.out.push(t),
                    cur: s.cur,
                    all: s.all,
                    counter: s.counter,
                    last_was_set: false,
                },
                named,
            )
        }
    }
}

/// The pass-through result: the original tokens serialized verbatim, no
/// extracted variables, positional style, no synthesized parameter.
pub open spec fn passthrough_entry(ts: Seq<TokenV>, end: Pos) -> EntryV {
    EntryV {
        processed_source: serialized(ts),
        hash: blake2b512_of(serialized(ts)),
        tokens: ts,
        variables: Seq::empty(),
        end_pos: end,
        named_args: false,
        first_arg: None,
    }
}

/// What normalization returns for a successfully tokenized query: the
/// pass-through result where the scan rejects the query or a bypass
/// keyword aborts the rewrite, and otherwise the rewritten tokens, their
/// canonical text and digest, the per-statement values, and the first
/// synthesized index if any literal was extracted.
pub open spec fn normalize_entry(ts: Seq<TokenV>, end: Pos) -> EntryV {
    match scan_spec(ts) {
        None => passthrough_entry(ts, end),
        Some((named, start)) => match rewrite_from(ts, 0, init_state(start), named) {
            RwResult::Bypass => passthrough_entry(ts, end),
            RwResult::Done(s) => EntryV {
                processed_source: serialized(s.out),
                hash: blake2b512_of(serialized(s.out)),
                tokens: s.out,
                variables: s.all,
                end_pos: end,
                named_args: named,
                first_arg: if s.counter <= start {
                    None
                } else {
                    Some(start)
                },
            },
        },
    }
}

/// Every literal-kind token carries a decoded value; the token source
/// must uphold this.
pub open spec fn lit_values_present(ts: Seq<TokenV>) -> bool {
    forall|i: int|
        0 <= i < ts.len() && is_literal_kind(#[trigger] ts[i].kind) ==> ts[i].value is Some
}

/// The number of literal-kind tokens.
pub open spec fn n_lits(ts: Seq<TokenV>) -> int
    decreases ts.len(),
{
    if ts.len() == 0 {
        0
    } else {
        n_lits(ts.drop_last()) + if is_literal_kind(ts.last().kind) {
            1int
        } else {
            0int
        }
    }
}

/// Synthesized parameter indices stay within `usize`; with pre-existing
/// references this is a genuine machine limit on the input.
pub open spec fn counter_fits(ts: Seq<TokenV>) -> bool {
    match scan_spec(ts) {
        Some((named, start)) => start + n_lits(ts) <= usize::MAX as int,
        None => true,
    }
}

proof fn lemma_n_lits_nonneg(ts: Seq<TokenV>)
    ensures
        n_lits(ts) >= 0,
    decreases ts.len(),
{
    if ts.len() > 0 {
        lemma_n_lits_nonneg(ts.drop_last());
    }
}

proof fn lemma_n_lits_bounds(ts: Seq<TokenV>, j: int)
    requires
        0 <= j <= ts.len(),
    ensures
        0 <= n_lits(ts.take(j)) <= n_lits(ts),
    decreases ts.len() - j,
{
    lemma_n_lits_nonneg(ts.take(j));
    if j < ts.len() {
        let t = ts.take(j + 1);
        assert(t.drop_last() =~= ts.take(j));
        assert(n_lits(t) >= n_lits(ts.take(j)));
        lemma_n_lits_bounds(ts, j + 1);
    } else {
        assert(ts.take(j) =~= ts);
    }
}

/// Appends the eight tokens of a type-annotated parameter expression
/// `(<module::typ>var)` to `res`, each carrying `span`.
fn push_var(res: &mut Vec<Token>, module: &str, typ: &str, var: String, span: Span)
    ensures
        tseq(final(res)@) == tseq(old(res)@) + var_tokens(module@, typ@, var@, span),
{
    let ghost expect = tseq(old(res)@) + var_tokens(module@, typ@, var@, span);
    res.push(Token { kind: Kind::OpenParen, text: String::from_str("("), span: span, value: None });
    res.push(Token { kind: Kind::Less, text: String::from_str("<"), span: span, value: None });
    res.push(Token { kind: Kind::Ident, text: String::from_str(module), span: span, value: None });
    res.push(
        Token { kind: Kind::Namespace, text: String::from_str("::"), span: span, value: None },
    );
    res.push(
        Token {
            kind: Kind::Ident,
            text: String::from_str(typ),
            span: span,
            value: Some(Value::Str(String::from_str(typ))),
        },
    );
    res.push(Token { kind: Kind::Greater, text: String::from_str(">"), span: span, value: None });
    res.push(Token { kind: Kind::Argument, text: var, span: span, value: None });
    res.push(Token { kind: Kind::CloseParen, text: String::from_str(")"), span: span, value: None });
    proof {
        assert(tseq(res@) =~= expect);
    }
}

/// The spelling of the next synthesized parameter reference: a synthetic
/// name in named style, a bare index in positional style.
fn format_var_name(named: bool, n: usize) -> (r: String)
    ensures
        r@ == var_name(named, n as int),
{
    let mut s = if named {
        String::from_str("$__edb_arg_")
    } else {
        String::from_str("$")
    };
    push_decimal(&mut s, n);
    s
}

/// Whether `text` spells an administrative/DDL keyword, up to ASCII case.
fn is_admin_keyword_text(text: &String) -> (r: bool)
    ensures
        r == is_admin_keyword(text@),
{
    text_eq_upper(text.as_str(), "CONFIGURE") || text_eq_upper(text.as_str(), "CREATE")
        || text_eq_upper(text.as_str(), "ALTER") || text_eq_upper(text.as_str(), "DROP")
        || text_eq_upper(text.as_str(), "START") || text_eq_upper(text.as_str(), "ANALYZE")
}

/// Builds the pass-through result over the original tokens.
fn passthrough(tokens: Vec<Token>, end_pos: Pos) -> (r: Entry)
    ensures
        r@ == passthrough_entry(tseq(tokens@), end_pos),
{
    let processed_source = serialize_tokens(&tokens);
    let h = hash(processed_source.as_str());
    let e = Entry {
        hash: h,
        processed_source,
        tokens,
        variables: Vec::new(),
        end_pos,
        named_args: false,
        first_arg: None,
    };
    proof {
        assert(varss_view(Seq::<Vec<Variable>>::empty()) =~= Seq::<Seq<ValueV>>::empty());
        assert(e@ =~= passthrough_entry(tseq(e.tokens@), end_pos));
    }
    e
}

/// Normalizes a tokenized query: propagates a tokenizer failure as
/// `Error::Tokenizer`, and otherwise returns the entry that
/// [`normalize_entry`] describes — literals extracted into typed
/// synthetic parameters, statements split on non-final top-level
/// semicolons, canonical text and its digest, unless the argument scan or
/// a bypass keyword forces the verbatim pass-through result.
pub fn normalize(source: TokenizerOutput) -> (r: Result<Entry, Error>)
    requires
        match source.tokens {
            Ok(ts) => lit_values_present(tseq(ts@)) && counter_fits(tseq(ts@)),
            Err(_) => true,
        },
    ensures
        match source.tokens {
            Err(f) => match r {
                Err(Error::Tokenizer(m, p)) => m@ == f.message@ && p == f.span.start,
                _ => false,
            },
            Ok(ts) => match r {
                Ok(e) => e@ == normalize_entry(tseq(ts@), source.end_pos),
                _ => false,
            },
        },
{
    let TokenizerOutput { tokens: tok_result, end_pos } = source;
    let tokens = match tok_result {
        Ok(ts) => ts,
        Err(f) => {
            return Err(Error::Tokenizer(f.message, f.span.start));
        },
    };
    let ghost ts = tseq(tokens@);
    let (named_args, var_idx) = match scan_vars(&tokens) {
        Some(pair) => pair,
        None => {
            return Ok(passthrough(tokens, end_pos));
        },
    };
    let ghost start = var_idx as int;
    let mut rewritten_tokens: Vec<Token> = Vec::new();
    let mut all_variables: Vec<Vec<Variable>> = Vec::new();
    let mut variables: Vec<Variable> = Vec::new();
    let mut counter: usize = var_idx;
    let mut last_was_set = false;
    let mut bypass = false;
    let mut idx: usize = 0;
    proof {
        assert(vars_view(Seq::<Variable>::empty()) =~= Seq::<ValueV>::empty());
        assert(varss_view(Seq::<Vec<Variable>>::empty()) =~= Seq::<Seq<ValueV>>::empty());
        assert((RwState {
            out: tseq(rewritten_tokens@),
            cur: vars_view(variables@),
            all: varss_view(all_variables@),
            counter: counter as int,
            last_was_set: last_was_set,
        }) =~= init_state(start));
        assert(ts.take(0) =~= Seq::<TokenV>::empty());
    }
    while idx < tokens.len() && !bypass
        invariant
            ts == tseq(tokens@),
            idx <= ts.len(),
            start == var_idx as int,
            scan_spec(ts) == Some((named_args, start)),
            lit_values_present(ts),
            start + n_lits(ts) <= usize::MAX as int,
            start <= counter as int <= start + n_lits(ts.take(idx as int)),
            !bypass ==> rewrite_from(ts, 0, init_state(start), named_args) == rewrite_from(
                ts,
                idx as int,
                (RwState {
                    out: tseq(rewritten_tokens@),
                    cur: vars_view(variables@),
                    all: varss_view(all_variables@),
                    counter: counter as int,
                    last_was_set: last_was_set,
                }),
                named_args,
            ),
            bypass ==> rewrite_from(ts, 0, init_state(start), named_args) == RwResult::Bypass,
        decreases
                (if bypass {
                    0int
                } else {
                    1int
                }),
                ts.len() - idx,
    {
        let ghost s_now = RwState {
            out: tseq(rewritten_tokens@),
            cur: vars_view(variables@),
            all: varss_view(all_variables@),
            counter: counter as int,
            last_was_set: last_was_set,
        };
        let ghost pre = ts.take(idx as int);
        let ghost pre2 = ts.take(idx as int + 1);
        proof {
            assert(pre2.drop_last() =~= pre);
            assert(pre2.last() == ts[idx as int]);
            lemma_n_lits_bounds(ts, idx as int + 1);
        }
        let t = &tokens[idx];
        assert(t@ == ts[idx as int]);
        let is_lit = matches!(
            t.kind,
            Kind::IntConst | Kind::FloatConst | Kind::BigIntConst | Kind::DecimalConst | Kind::Str
        );
        assert(is_lit == is_literal_kind(t@.kind));
        let mut keep_int = false;
        if matches!(t.kind, Kind::IntConst) {
            if rewritten_tokens.len() > 0 {
                let last = &rewritten_tokens[rewritten_tokens.len() - 1];
                assert(last@ == s_now.out.last());
                if matches!(last.kind, Kind::Dot) {
                    keep_int = true;
                } else if matches!(last.kind, Kind::Keyword) && str_eq(t.text.as_str(), "1")
                    && text_eq_upper(last.text.as_str(), "LIMIT") {
                    keep_int = true;
                }
            }
            if str_eq(t.text.as_str(), "9223372036854775808") {
                keep_int = true;
            }
            assert(keep_int == int_kept(ts[idx as int], s_now.out));
        }
        if is_lit && !keep_int {
            assert(extracts(ts[idx as int], s_now.out));
            let typ: &str = match t.kind {
                Kind::IntConst => "int64",
                Kind::FloatConst => "float64",
                Kind::BigIntConst => "bigint",
                Kind::DecimalConst => "decimal",
                _ => "str",
            };
            assert(typ@ == literal_type_name(t@.kind));
            let var = format_var_name(named_args, counter);
            push_var(&mut rewritten_tokens, "__std__", typ, var, t.span);
            let value = match &t.value {
                Some(v) => v.clone(),
                None => vstd::pervasive::unreached(),
            };
            variables.push(Variable { value });
            proof {
                assert(n_lits(pre2) == n_lits(pre) + 1);
            }
            counter += 1;
            proof {
                let s_next = RwState {
                    out: tseq(rewritten_tokens@),
                    cur: vars_view(variables@),
                    all: varss_view(all_variables@),
                    counter: counter as int,
                    last_was_set: last_was_set,
                };
                assert(vars_view(variables@) =~= s_now.cur.push(ts[idx as int].value->Some_0));
                assert(s_next =~= (RwState {
                    out: s_now.out + var_tokens(
                        "__std__"@,
                        literal_type_name(ts[idx as int].kind),
                        var_name(named_args, s_now.counter),
                        ts[idx as int].span,
                    ),
                    cur: s_now.cur.push(ts[idx as int].value->Some_0),
                    all: s_now.all,
                    counter: s_now.counter + 1,
                    last_was_set: s_now.last_was_set,
                }));
                assert(rewrite_from(ts, idx as int, s_now, named_args) == rewrite_from(
                    ts,
                    idx as int + 1,
                    s_next,
                    named_args,
                ));
            }
        } else {
            let is_bypass = matches!(t.kind, Kind::Keyword) && (is_admin_keyword_text(&t.text) || (
            last_was_set && text_eq_upper(t.text.as_str(), "GLOBAL")));
            assert(is_bypass == bypasses(ts[idx as int], s_now.last_was_set));
            assert(!extracts(ts[idx as int], s_now.out));
            if is_bypass {
                bypass = true;
                proof {
                    assert(rewrite_from(ts, idx as int, s_now, named_args) == RwResult::Bypass);
                }
            } else if matches!(t.kind, Kind::Semicolon) {
                let ghost all0 = varss_view(all_variables@);
                let ghost cur0 = vars_view(variables@);
                if idx + 1 < tokens.len() {
                    all_variables.push(variables);
                    variables = Vec::new();
                    proof {
                        assert(varss_view(all_variables@) =~= all0.push(cur0));
                        assert(vars_view(variables@) =~= Seq::<ValueV>::empty());
                    }
                }
                rewritten_tokens.push(t.clone());
                last_was_set = false;
                proof {
                    let s_next = RwState {
                        out: tseq(rewritten_tokens@),
                        cur: vars_view(variables@),
                        all: varss_view(all_variables@),
                        counter: counter as int,
                        last_was_set: false,
                    };
                    assert(tseq(rewritten_tokens@) =~= s_now.out.push(ts[idx as int]));
                    if idx as int + 1 < ts.len() {
                        assert(s_next =~= (RwState {
                            out: s_now.out.push(ts[idx as int]),
                            cur: Seq::empty(),
                            all: s_now.all.push(s_now.cur),
                            counter: s_now.counter,
                            last_was_set: false,
                        }));
                    } else {
                        assert(s_next =~= (RwState {
                            out: s_now.out.push(ts[idx as int]),
                            cur: s_now.cur,
                            all: s_now.all,
                            counter: s_now.counter,
                            last_was_set: false,
                        }));
                    }
                    assert(rewrite_from(ts, idx as int, s_now, named_args) == rewrite_from(
                        ts,
                        idx as int + 1,
                        s_next,
                        named_args,
                    ));
                }
            } else {
                let is_set = matches!(t.kind, Kind::Keyword) && text_eq_upper(
                    t.text.as_str(),
                    "SET",
                );
                rewritten_tokens.push(t.clone());
                last_was_set = is_set;
                proof {
                    let s_next = RwState {
                        out: tseq(rewritten_tokens@),
                        cur: vars_view(variables@),
                        all: varss_view(all_variables@),
                        counter: counter as int,
                        last_was_set: is_set,
                    };
                    assert(tseq(rewritten_tokens@) =~= s_now.out.push(ts[idx as int]));
                    assert(rewrite_from(ts, idx as int, s_now, named_args) == rewrite_from(
                        ts,
                        idx as int + 1,
                        s_next,
                        named_args,
                    ));
                }
            }
        }
        if !bypass {
            idx += 1;
        }
    }
    if bypass {
        let e = passthrough(tokens, end_pos);
        proof {
            assert(normalize_entry(ts, end_pos) == passthrough_entry(ts, end_pos));
        }
        return Ok(e);
    }
    let ghost s_now = RwState {
        out: tseq(rewritten_tokens@),
        cur: vars_view(variables@),
        all: varss_view(all_variables@),
        counter: counter as int,
        last_was_set: last_was_set,
    };
    all_variables.push(variables);
    let ghost s_final = RwState {
        out: s_now.out,
        cur: s_now.cur,
        all: s_now.all.push(s_now.cur),
        counter: s_now.counter,
        last_was_set: s_now.last_was_set,
    };
    proof {
        assert(varss_view(all_variables@) =~= s_now.all.push(s_now.cur));
        assert(rewrite_from(ts, idx as int, s_now, named_args) == RwResult::Done(s_final));
    }
    let processed_source = serialize_tokens(&rewritten_tokens);
    let h = hash(processed_source.as_str());
    let first_arg = if counter <= var_idx {
        None
    } else {
        Some(var_idx)
    };
    let e = Entry {
        hash: h,
        processed_source,
        named_args,
        first_arg,
        tokens: rewritten_tokens,
        variables: all_variables,
        end_pos,
    };
    proof {
        assert(rewrite_from(ts, 0, init_state(start), named_args) == RwResult::Done(s_final));
        assert(e@.tokens =~= s_final.out);
        assert(e@ =~= normalize_entry(ts, end_pos));
    }
    Ok(e)
}

} // verus!

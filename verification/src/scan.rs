//! The argument scanner: classifies pre-existing parameter references as
//! positional (`$0`) or named (`$name`), rejects a mix of the two, and
//! yields the next free positional index.

use vstd::prelude::*;

use crate::text::str_eq;
use crate::tokens::{copy_string, tseq, Kind, Token, TokenV};

verus! {

pub open spec fn is_dec_digit(c: char) -> bool {
    '0' <= c && c <= '9'
}

pub open spec fn digit_val(c: char) -> int {
    c as int - '0' as int
}

pub open spec fn all_digits(s: Seq<char>) -> bool {
    forall|i: int| 0 <= i < s.len() ==> is_dec_digit(#[trigger] s[i])
}

/// The numeric value of a digit string, most significant digit first.
pub open spec fn digits_value(s: Seq<char>) -> int
    decreases s.len(),
{
    if s.len() == 0 {
        0
    } else {
        digits_value(s.drop_last()) * 10 + digit_val(s.last())
    }
}

/// The digit run of an unsigned decimal spelling: one leading `+` sign is
/// accepted and skipped.
pub open spec fn parse_body(s: Seq<char>) -> Seq<char> {
    if s.len() > 0 && s[0] == '+' {
        s.skip(1)
    } else {
        s
    }
}

/// Whether `s` spells an unsigned decimal integer that fits in `usize`:
/// an optional `+`, one or more digits, value at most `usize::MAX`.
pub open spec fn spells_index(s: Seq<char>) -> bool {
    let d = parse_body(s);
    d.len() > 0 && all_digits(d) && digits_value(d) <= usize::MAX as int
}

/// The value spelled by `s`, where `spells_index(s)` holds.
pub open spec fn spelled_index(s: Seq<char>) -> int {
    digits_value(parse_body(s))
}

/// The reference name of an argument token: its text without the leading
/// `$`.
pub open spec fn arg_body(t: TokenV) -> Seq<char> {
    t.text.skip(1)
}

/// An argument token that refers to a positional parameter.
pub open spec fn is_positional_arg(t: TokenV) -> bool {
    t.kind == Kind::Argument && t.text.len() >= 1 && spells_index(arg_body(t))
}

/// An argument token that refers to a named parameter.
pub open spec fn is_named_arg(t: TokenV) -> bool {
    t.kind == Kind::Argument && !is_positional_arg(t)
}

pub open spec fn has_positional(ts: Seq<TokenV>) -> bool {
    exists|i: int| 0 <= i < ts.len() && is_positional_arg(#[trigger] ts[i])
}

pub open spec fn has_named(ts: Seq<TokenV>) -> bool {
    exists|i: int| 0 <= i < ts.len() && is_named_arg(#[trigger] ts[i])
}

/// The distinct spellings (with the `$`) of the named references.
pub open spec fn named_texts(ts: Seq<TokenV>) -> Set<Seq<char>> {
    Set::new(
        |name: Seq<char>|
            exists|i: int| 0 <= i < ts.len() && is_named_arg(#[trigger] ts[i]) && ts[i].text == name,
    )
}

/// The largest positional index referred to, or -1 where there is none.
pub open spec fn max_positional(ts: Seq<TokenV>) -> int
    decreases ts.len(),
{
    if ts.len() == 0 {
        -1
    } else {
        let rest = max_positional(ts.drop_last());
        let l = ts.last();
        if is_positional_arg(l) && spelled_index(arg_body(l)) > rest {
            spelled_index(arg_body(l))
        } else {
            rest
        }
    }
}

/// What the scan decides for a token sequence: `None` for a mix of styles
/// (or a positional index already at the `usize` limit); otherwise the
/// argument style and the next free positional index (positional) or the
/// count of distinct names (named).
pub open spec fn scan_spec(ts: Seq<TokenV>) -> Option<(bool, int)> {
    if has_named(ts) {
        if has_positional(ts) {
            None
        } else {
            Some((true, named_texts(ts).len() as int))
        }
    } else {
        if max_positional(ts) == usize::MAX as int {
            None
        } else {
            Some((false, max_positional(ts) + 1))
        }
    }
}

proof fn lemma_digits_value_nonneg(s: Seq<char>)
    requires
        all_digits(s),
    ensures
        digits_value(s) >= 0,
    decreases s.len(),
{
    if s.len() > 0 {
        assert(all_digits(s.drop_last()));
        lemma_digits_value_nonneg(s.drop_last());
    }
}

/// Extending a digit run never shrinks its value.
proof fn lemma_digits_value_mono(s: Seq<char>, k: int)
    requires
        all_digits(s),
        0 <= k <= s.len(),
    ensures
        digits_value(s.subrange(0, k)) <= digits_value(s),
    decreases s.len() - k,
{
    if k < s.len() {
        let t = s.subrange(0, k + 1);
        assert(t.drop_last() =~= s.subrange(0, k));
        assert(all_digits(t.drop_last()));
        lemma_digits_value_nonneg(t.drop_last());
        assert(digits_value(t) == digits_value(s.subrange(0, k)) * 10 + digit_val(t.last()));
        assert(is_dec_digit(t.last()));
        assert(digits_value(s.subrange(0, k)) <= digits_value(t));
        lemma_digits_value_mono(s, k + 1);
    } else {
        assert(s.subrange(0, k) =~= s);
    }
}

/// Parses the name of an argument token (its text after the `$`) as an
/// unsigned decimal index, exactly as an unsigned integer parse does:
/// an optional leading `+`, then one or more digits, and the value must
/// fit in `usize`.
pub fn parse_arg_index(text: &str) -> (r: Option<usize>)
    requires
        text@.len() >= 1,
    ensures
        match r {
            Some(v) => spells_index(text@.skip(1)) && v as int == spelled_index(text@.skip(1)),
            None => !spells_index(text@.skip(1)),
        },
{
    let n = text.unicode_len();
    let ghost body = text@.skip(1);
    let mut i: usize = 1;
    if n > 1 && text.get_char(1) == '+' {
        i = 2;
    }
    let ghost start = i as int;
    let ghost d = parse_body(body);
    proof {
        assert(d =~= text@.skip(start));
    }
    if i == n {
        assert(d.len() == 0);
        return None;
    }
    let mut val: usize = 0;
    while i < n
        invariant
            n == text@.len(),
            start <= i <= n,
            1 <= start <= 2,
            start < n,
            d == parse_body(text@.skip(1)),
            d == text@.skip(start),
            d.len() == n - start,
            all_digits(d.subrange(0, i - start)),
            val == digits_value(d.subrange(0, i - start)),
        decreases n - i,
    {
        let c = text.get_char(i);
        assert(d[i - start] == c);
        if !('0' <= c && c <= '9') {
            assert(!is_dec_digit(d[i - start]));
            assert(!all_digits(d));
            return None;
        }
        let dig = (c as u32 - '0' as u32) as usize;
        assert(dig as int == digit_val(c));
        let ghost pre2 = d.subrange(0, i + 1 - start);
        proof {
            assert(pre2.drop_last() =~= d.subrange(0, i - start));
            assert(pre2.last() == d[i - start]);
            assert(digits_value(pre2) == val * 10 + dig);
            assert(all_digits(pre2));
        }
        let limit = (usize::MAX - dig) / 10;
        if val > limit {
            proof {
                let m = usize::MAX as int - dig;
                assert(m == 10 * (m / 10) + m % 10);
                assert(0 <= m % 10 < 10);
                assert(val * 10 + dig > usize::MAX as int);
                if all_digits(d) {
                    lemma_digits_value_mono(d, i + 1 - start);
                    assert(digits_value(d) > usize::MAX as int);
                }
            }
            return None;
        }
        proof {
            let m = usize::MAX as int - dig;
            assert(m == 10 * (m / 10) + m % 10);
            assert(0 <= m % 10 < 10);
            assert(val * 10 + dig <= usize::MAX as int);
        }
        val = val * 10 + dig;
        i += 1;
    }
    proof {
        assert(d.subrange(0, n - start) =~= d);
    }
    Some(val)
}

/// Whether `text` already occurs among the collected name spellings.
fn contains_name(names: &Vec<String>, text: &String) -> (r: bool)
    ensures
        r == names@.map_values(|s: String| s@).contains(text@),
{
    let ghost views = names@.map_values(|s: String| s@);
    let mut k: usize = 0;
    while k < names.len()
        invariant
            views == names@.map_values(|s: String| s@),
            k <= views.len(),
            forall|j: int| 0 <= j < k ==> views[j] != text@,
        decreases views.len() - k,
    {
        let nk = &names[k];
        if str_eq(nk.as_str(), text.as_str()) {
            assert(views[k as int] == text@);
            return true;
        }
        k += 1;
    }
    false
}

/// Inspects a token sequence for pre-existing parameter references and
/// decides the argument style: `Some((false, next))` when every reference
/// is positional (`next` is one past the largest index, or 0), and
/// `Some((true, count))` when every reference is named (`count` distinct
/// names). `None` signals a non-normalizable query: mixed styles, or a
/// positional index already at the `usize` limit.
pub fn scan_vars(tokens: &Vec<Token>) -> (r: Option<(bool, usize)>)
    ensures
        match r {
            Some((named, n)) => scan_spec(tseq(tokens@)) == Some((named, n as int)),
            None => scan_spec(tseq(tokens@)) is None,
        },
{
    let ghost ts = tseq(tokens@);
    let mut max_seen: Option<usize> = None;
    let mut names: Vec<String> = Vec::new();
    let mut idx: usize = 0;
    while idx < tokens.len()
        invariant
            ts == tseq(tokens@),
            idx <= ts.len(),
            match max_seen {
                None => max_positional(ts.take(idx as int)) == -1,
                Some(m) => m as int == max_positional(ts.take(idx as int)),
            },
            names@.map_values(|s: String| s@).no_duplicates(),
            names@.map_values(|s: String| s@).to_set() == named_texts(ts.take(idx as int)),
        decreases ts.len() - idx,
    {
        let ghost pre = ts.take(idx as int);
        let ghost pre2 = ts.take(idx as int + 1);
        proof {
            assert(pre2.drop_last() =~= pre);
            assert(pre2.last() == ts[idx as int]);
        }
        let t = &tokens[idx];
        assert(t@ == ts[idx as int]);
        let mut named_here = false;
        if matches!(t.kind, Kind::Argument) {
            if t.text.as_str().unicode_len() >= 1 {
                match parse_arg_index(t.text.as_str()) {
                    Some(v) => {
                        assert(is_positional_arg(ts[idx as int]));
                        let replace = match max_seen {
                            None => true,
                            Some(m) => v > m,
                        };
                        if replace {
                            max_seen = Some(v);
                        }
                    },
                    None => {
                        named_here = true;
                    },
                }
            } else {
                named_here = true;
            }
            assert(named_here ==> is_named_arg(ts[idx as int]));
        }
        if named_here {
            let present = contains_name(&names, &t.text);
            let ghost old_views = names@.map_values(|s: String| s@);
            if !present {
                names.push(copy_string(&t.text));
                proof {
                    let new_views = names@.map_values(|s: String| s@);
                    assert(new_views =~= old_views.push(t@.text));
                    assert(new_views.drop_last() =~= old_views);
                    assert(new_views.no_duplicates());
                }
            }
            proof {
                let new_views = names@.map_values(|s: String| s@);
                if !present {
                    assert(new_views =~= old_views.push(t@.text));
                }
                assert forall|name: Seq<char>| #[trigger] named_texts(pre2).contains(name) implies new_views.to_set().contains(
                    name,
                ) by {
                    let i = choose|i: int|
                        0 <= i < pre2.len() && is_named_arg(#[trigger] pre2[i]) && pre2[i].text
                            == name;
                    if i < idx as int {
                        assert(pre[i] == pre2[i]);
                        assert(named_texts(pre).contains(name));
                        assert(old_views.to_set().contains(name));
                        assert(old_views.contains(name));
                        let j = choose|j: int| 0 <= j < old_views.len() && old_views[j] == name;
                        assert(new_views[j] == name);
                        assert(new_views.contains(name));
                    } else {
                        assert(name == t@.text);
                        if present {
                            assert(old_views.contains(name));
                            let j = choose|j: int| 0 <= j < old_views.len() && old_views[j] == name;
                            assert(new_views[j] == name);
                        } else {
                            assert(new_views.last() == name);
                        }
                        assert(new_views.contains(name));
                    }
                }
                assert forall|name: Seq<char>| #[trigger] new_views.to_set().contains(name) implies named_texts(
                    pre2,
                ).contains(name) by {
                    assert(new_views.contains(name));
                    let j = choose|j: int| 0 <= j < new_views.len() && new_views[j] == name;
                    if j < old_views.len() {
                        assert(old_views[j] == name);
                        assert(old_views.contains(name));
                        assert(named_texts(pre).contains(name));
                        let i = choose|i: int|
                            0 <= i < pre.len() && is_named_arg(#[trigger] pre[i]) && pre[i].text
                                == name;
                        assert(pre2[i] == pre[i]);
                    } else {
                        assert(name == t@.text);
                        assert(pre2[idx as int] == ts[idx as int]);
                    }
                }
                assert(names@.map_values(|s: String| s@).to_set() =~= named_texts(pre2));
            }
        } else {
            proof {
                assert forall|name: Seq<char>| #[trigger] named_texts(pre2).contains(name) implies named_texts(
                    pre,
                ).contains(name) by {
                    let i = choose|i: int|
                        0 <= i < pre2.len() && is_named_arg(#[trigger] pre2[i]) && pre2[i].text
                            == name;
                    assert(!is_named_arg(ts[idx as int]));
                    assert(i < idx as int);
                    assert(pre[i] == pre2[i]);
                }
                assert forall|name: Seq<char>| #[trigger] named_texts(pre).contains(name) implies named_texts(
                    pre2,
                ).contains(name) by {
                    let i = choose|i: int|
                        0 <= i < pre.len() && is_named_arg(#[trigger] pre[i]) && pre[i].text
                            == name;
                    assert(pre2[i] == pre[i]);
                }
                assert(named_texts(pre2) =~= named_texts(pre));
            }
        }
        idx += 1;
    }
    proof {
        assert(ts.take(ts.len() as int) =~= ts);
        lemma_max_positional_none(ts);
        lemma_named_texts_empty(ts);
    }
    let ghost views = names@.map_values(|s: String| s@);
    if names.len() == 0 {
        proof {
            assert(views.len() == 0);
            if has_named(ts) {
                let i = choose|i: int| 0 <= i < ts.len() && is_named_arg(#[trigger] ts[i]);
                assert(named_texts(ts).contains(ts[i].text));
                assert(views.to_set().contains(ts[i].text));
                assert(views.contains(ts[i].text));
            }
            assert(!has_named(ts));
        }
        match max_seen {
            None => Some((false, 0)),
            Some(m) => {
                if m == usize::MAX {
                    None
                } else {
                    Some((false, m + 1))
                }
            },
        }
    } else {
        proof {
            assert(views.len() > 0);
            assert(views.contains(views[0]));
            assert(views.to_set().contains(views[0]));
            assert(named_texts(ts).contains(views[0]));
            assert(has_named(ts));
            views.unique_seq_to_set();
        }
        if max_seen.is_some() {
            proof {
                assert(max_positional(ts) >= 0);
                assert(has_positional(ts));
            }
            None
        } else {
            Some((true, names.len()))
        }
    }
}

/// `max_positional` is -1 exactly where no positional reference occurs.
proof fn lemma_max_positional_none(ts: Seq<TokenV>)
    ensures
        (max_positional(ts) == -1) <==> !has_positional(ts),
        max_positional(ts) >= -1,
    decreases ts.len(),
{
    if ts.len() > 0 {
        lemma_max_positional_none(ts.drop_last());
        let l = ts.last();
        if is_positional_arg(l) {
            let d = parse_body(arg_body(l));
            assert(all_digits(d));
            lemma_digits_value_nonneg(d);
            assert(spelled_index(arg_body(l)) >= 0);
            assert(max_positional(ts) >= 0);
            assert(has_positional(ts));
        } else {
            if has_positional(ts) {
                let i = choose|i: int| 0 <= i < ts.len() && is_positional_arg(#[trigger] ts[i]);
                assert(i < ts.len() - 1);
                assert(ts.drop_last()[i] == ts[i]);
                assert(has_positional(ts.drop_last()));
            }
            if has_positional(ts.drop_last()) {
                let i = choose|i: int|
                    0 <= i < ts.drop_last().len() && is_positional_arg(
                        #[trigger] ts.drop_last()[i],
                    );
                assert(ts[i] == ts.drop_last()[i]);
                assert(has_positional(ts));
            }
        }
    }
}

/// The set of named spellings is empty exactly where no named reference
/// occurs.
proof fn lemma_named_texts_empty(ts: Seq<TokenV>)
    ensures
        named_texts(ts).is_empty() <==> !has_named(ts),
{
    if has_named(ts) {
        let i = choose|i: int| 0 <= i < ts.len() && is_named_arg(#[trigger] ts[i]);
        assert(named_texts(ts).contains(ts[i].text));
        assert(!named_texts(ts).is_empty());
    } else {
        assert forall|name: Seq<char>| !(#[trigger] named_texts(ts).contains(name)) by {
            if named_texts(ts).contains(name) {
                let i = choose|i: int|
                    0 <= i < ts.len() && is_named_arg(#[trigger] ts[i]) && ts[i].text == name;
                assert(has_named(ts));
            }
        }
        assert(named_texts(ts) =~= Set::<Seq<char>>::empty());
    }
}

} // verus!

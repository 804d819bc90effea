//! Character and string helpers: exact and ASCII-case-insensitive
//! comparison, and decimal formatting of parameter indices.

use vstd::prelude::*;

verus! {

/// Exact equality of two strings, as equality of their character sequences.
pub fn str_eq(a: &str, b: &str) -> (r: bool)
    ensures
        r == (a@ == b@),
{
    let n = a.unicode_len();
    let m = b.unicode_len();
    if n != m {
        return false;
    }
    let mut i: usize = 0;
    while i < n
        invariant
            n == a@.len(),
            m == b@.len(),
            n == m,
            i <= n,
            forall|j: int| 0 <= j < i ==> a@[j] == b@[j],
        decreases n - i,
    {
        if a.get_char(i) != b.get_char(i) {
            return false;
        }
        i += 1;
    }
    proof {
        assert(a@ =~= b@);
    }
    true
}

/// Character `c` reads, ASCII-case-insensitively, as the uppercase letter
/// `u`: either it is `u` itself or the corresponding lowercase letter.
pub open spec fn reads_as_upper(c: char, u: char) -> bool {
    c == u || c as int == u as int + 32
}

/// Text `t` equals the uppercase ASCII word `u` up to ASCII case.
pub open spec fn eq_upper(t: Seq<char>, u: Seq<char>) -> bool {
    t.len() == u.len() && forall|i: int| 0 <= i < u.len() ==> reads_as_upper(t[i], #[trigger] u[i])
}

/// Whether `t` spells the uppercase ASCII word `upper`, ignoring ASCII case.
pub fn text_eq_upper(t: &str, upper: &str) -> (r: bool)
    ensures
        r == eq_upper(t@, upper@),
{
    let n = t.unicode_len();
    let m = upper.unicode_len();
    if n != m {
        return false;
    }
    let mut i: usize = 0;
    while i < n
        invariant
            n == t@.len(),
            m == upper@.len(),
            n == m,
            i <= n,
            forall|j: int| 0 <= j < i ==> reads_as_upper(t@[j], #[trigger] upper@[j]),
        decreases n - i,
    {
        let a = t.get_char(i);
        let u = upper.get_char(i);
        let av = a as u32;
        let uv = u as u32;
        if !(a == u || (av >= 32 && av - 32 == uv)) {
            return false;
        }
        i += 1;
    }
    true
}

/// One decimal digit as a character; total, with digits outside 0..9
/// mapped to '0'.
pub open spec fn digit_char(d: int) -> char {
    if d == 1 {
        '1'
    } else if d == 2 {
        '2'
    } else if d == 3 {
        '3'
    } else if d == 4 {
        '4'
    } else if d == 5 {
        '5'
    } else if d == 6 {
        '6'
    } else if d == 7 {
        '7'
    } else if d == 8 {
        '8'
    } else if d == 9 {
        '9'
    } else {
        '0'
    }
}

/// The decimal spelling of a non-negative integer, without sign or leading
/// zeros (the spelling of 0 is "0").
pub open spec fn dec_digits(n: int) -> Seq<char>
    decreases n,
{
    if n < 10 {
        seq![digit_char(n)]
    } else {
        dec_digits(n / 10) + seq![digit_char(n % 10)]
    }
}

/// Appends the decimal spelling of `n` to `s`.
pub fn push_decimal(s: &mut String, n: usize)
    ensures
        final(s)@ == old(s)@ + dec_digits(n as int),
    decreases n,
{
    let ghost s0 = old(s)@;
    if n >= 10 {
        push_decimal(s, n / 10);
    }
    let d = n % 10;
    let c: &str = if d == 1 {
        "1"
    } else if d == 2 {
        "2"
    } else if d == 3 {
        "3"
    } else if d == 4 {
        "4"
    } else if d == 5 {
        "5"
    } else if d == 6 {
        "6"
    } else if d == 7 {
        "7"
    } else if d == 8 {
        "8"
    } else if d == 9 {
        "9"
    } else {
        "0"
    };
    s.append(c);
    proof {
        reveal_strlit("0");
        reveal_strlit("1");
        reveal_strlit("2");
        reveal_strlit("3");
        reveal_strlit("4");
        reveal_strlit("5");
        reveal_strlit("6");
        reveal_strlit("7");
        reveal_strlit("8");
        reveal_strlit("9");
        assert(c@ =~= seq![digit_char(d as int)]);
        if n < 10 {
            assert(d == n);
            assert(s@ =~= s0 + dec_digits(n as int));
        } else {
            assert(s@ =~= s0 + (dec_digits(n as int / 10) + seq![digit_char(n as int % 10)]));
            assert(s@ =~= s0 + dec_digits(n as int));
        }
    }
}

} // verus!

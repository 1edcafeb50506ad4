//! The texts accepted for a `double` node.
//!
//! XML-RPC carries a double as text; this layer only accepts text that is
//! a valid floating-point literal, and it keeps the text verbatim.  The
//! grammar is the one machine parsers accept: an optional sign, then
//! either a special spelling (`inf`, `infinity`, `nan`, in any letter
//! case) or a decimal number — digits with at most one decimal point among
//! them, optionally followed by an exponent marker, an optional sign, and
//! at least one digit.

use vstd::prelude::*;
use vstd::string::StrSliceExecFns;

verus! {

/// A decimal digit.
pub open spec fn is_digit_char(c: char) -> bool {
    '0' <= c && c <= '9'
}

/// A leading sign.
pub open spec fn is_sign_char(c: char) -> bool {
    c == '+' || c == '-'
}

/// An exponent marker.
pub open spec fn is_exp_char(c: char) -> bool {
    c == 'e' || c == 'E'
}

/// The text with its leading sign removed, if it has one.
pub open spec fn unsigned_part(s: Seq<char>) -> Seq<char> {
    if s.len() > 0 && is_sign_char(s[0]) {
        s.subrange(1, s.len() as int)
    } else {
        s
    }
}

/// The spellings of the non-finite values, letter case notwithstanding.
pub open spec fn special_ok(t: Seq<char>) -> bool {
    ||| (t.len() == 3 && (t[0] == 'i' || t[0] == 'I') && (t[1] == 'n' || t[1] == 'N') && (t[2]
        == 'f' || t[2] == 'F'))
    ||| (t.len() == 8 && (t[0] == 'i' || t[0] == 'I') && (t[1] == 'n' || t[1] == 'N') && (t[2]
        == 'f' || t[2] == 'F') && (t[3] == 'i' || t[3] == 'I') && (t[4] == 'n' || t[4] == 'N')
        && (t[5] == 'i' || t[5] == 'I') && (t[6] == 't' || t[6] == 'T') && (t[7] == 'y' || t[7]
        == 'Y'))
    ||| (t.len() == 3 && (t[0] == 'n' || t[0] == 'N') && (t[1] == 'a' || t[1] == 'A') && (t[2]
        == 'n' || t[2] == 'N'))
}

/// A mantissa: digits with at most one decimal point among them, and at
/// least one digit.
pub open spec fn mantissa_ok(m: Seq<char>) -> bool {
    &&& forall|k: int| 0 <= k < m.len() ==> is_digit_char(#[trigger] m[k]) || m[k] == '.'
    &&& forall|k1: int, k2: int|
        0 <= k1 < k2 < m.len() ==> !((#[trigger] m[k1]) == '.' && (#[trigger] m[k2]) == '.')
    &&& exists|k: int| 0 <= k < m.len() && is_digit_char(#[trigger] m[k])
}

/// An exponent after its marker: an optional sign, then at least one
/// digit.
pub open spec fn exponent_ok(t: Seq<char>) -> bool {
    let u = unsigned_part(t);
    u.len() > 0 && forall|k: int| 0 <= k < u.len() ==> is_digit_char(#[trigger] u[k])
}

/// Whether `t` splits into a mantissa and an optional exponent at
/// position `p`: no exponent marker stands before `p`, the part before
/// `p` is a mantissa, and either `p` is the end of the text or an
/// exponent marker followed by a well-formed exponent stands there.
pub open spec fn number_split_at(t: Seq<char>, p: int) -> bool {
    &&& 0 <= p <= t.len()
    &&& forall|k: int| 0 <= k < p ==> !is_exp_char(#[trigger] t[k])
    &&& mantissa_ok(t.subrange(0, p))
    &&& (p == t.len() || (is_exp_char(t[p]) && exponent_ok(t.subrange(p + 1, t.len() as int))))
}

/// A finite number: a mantissa, optionally followed by an exponent.
pub open spec fn number_ok(t: Seq<char>) -> bool {
    exists|p: int| #[trigger] number_split_at(t, p)
}

/// The texts accepted for a `double`: an optional sign, then either a
/// special spelling or a finite number, such as `3`, `-3.14`, `.5`, `2.`,
/// `9e-3`, `inf`, `NaN`.
pub open spec fn is_double_text(s: Seq<char>) -> bool {
    special_ok(unsigned_part(s)) || number_ok(unsigned_part(s))
}

/// The split position of a valid number is forced: it is the first
/// exponent marker, or the end of the text if there is none.
proof fn lemma_number_split(t: Seq<char>, q: int)
    requires
        0 <= q <= t.len(),
        forall|k: int| 0 <= k < q ==> !is_exp_char(#[trigger] t[k]),
        q < t.len() ==> is_exp_char(t[q]),
    ensures
        number_ok(t) == (mantissa_ok(t.subrange(0, q)) && (q == t.len() || exponent_ok(
            t.subrange(q + 1, t.len() as int)))),
{
    if mantissa_ok(t.subrange(0, q)) && (q == t.len() || exponent_ok(
        t.subrange(q + 1, t.len() as int),
    )) {
        assert(number_split_at(t, q));
    }
    if number_ok(t) {
        let p = choose|p: int| number_split_at(t, p);
        if p < q {
            assert(is_exp_char(t[p]));
            assert(false);
        }
        if p > q {
            assert(!is_exp_char(t[q]));
            assert(false);
        }
        assert(p == q);
    }
}

/// Whether every character of `s` in `[from, to)` is a decimal digit.
fn all_digits(s: &str, from: usize, to: usize) -> (r: bool)
    requires
        from <= to <= s@.len(),
    ensures
        r == forall|k: int| from <= k < to ==> is_digit_char(#[trigger] s@[k]),
{
    let mut i: usize = from;
    let mut r: bool = true;
    while i < to
        invariant
            from <= i <= to <= s@.len(),
            r == forall|k: int| from <= k < i ==> is_digit_char(#[trigger] s@[k]),
        decreases to - i,
    {
        let c = s.get_char(i);
        if !('0' <= c && c <= '9') {
            r = false;
        }
        i += 1;
    }
    r
}

/// Whether the text of `s` from `start` on is a special spelling.
fn special_at(s: &str, start: usize) -> (r: bool)
    requires
        start <= s@.len(),
    ensures
        r == special_ok(s@.subrange(start as int, s@.len() as int)),
{
    let n: usize = s.unicode_len();
    let m: usize = n - start;
    if m == 3 {
        let c0 = s.get_char(start);
        let c1 = s.get_char(start + 1);
        let c2 = s.get_char(start + 2);
        ((c0 == 'i' || c0 == 'I') && (c1 == 'n' || c1 == 'N') && (c2 == 'f' || c2 == 'F')) || ((
        c0 == 'n' || c0 == 'N') && (c1 == 'a' || c1 == 'A') && (c2 == 'n' || c2 == 'N'))
    } else if m == 8 {
        let c0 = s.get_char(start);
        let c1 = s.get_char(start + 1);
        let c2 = s.get_char(start + 2);
        let c3 = s.get_char(start + 3);
        let c4 = s.get_char(start + 4);
        let c5 = s.get_char(start + 5);
        let c6 = s.get_char(start + 6);
        let c7 = s.get_char(start + 7);
        (c0 == 'i' || c0 == 'I') && (c1 == 'n' || c1 == 'N') && (c2 == 'f' || c2 == 'F') && (c3
            == 'i' || c3 == 'I') && (c4 == 'n' || c4 == 'N') && (c5 == 'i' || c5 == 'I') && (c6
            == 't' || c6 == 'T') && (c7 == 'y' || c7 == 'Y')
    } else {
        false
    }
}

/// Whether the text of `s` in `[from, to)` is a mantissa.
fn mantissa_at(s: &str, from: usize, to: usize) -> (r: bool)
    requires
        from <= to <= s@.len(),
    ensures
        r == mantissa_ok(s@.subrange(from as int, to as int)),
{
    let ghost m = s@.subrange(from as int, to as int);
    let mut i: usize = from;
    let mut ok: bool = true;
    let mut digit_seen: bool = false;
    let mut dot_seen: bool = false;
    let mut second_dot: bool = false;
    while i < to
        invariant
            from <= i <= to <= s@.len(),
            m == s@.subrange(from as int, to as int),
            ok == forall|k: int|
                0 <= k < i - from ==> is_digit_char(#[trigger] m[k]) || m[k] == '.',
            digit_seen == exists|k: int| 0 <= k < i - from && is_digit_char(#[trigger] m[k]),
            dot_seen == exists|k: int| 0 <= k < i - from && (#[trigger] m[k]) == '.',
            second_dot == exists|k1: int, k2: int|
                0 <= k1 < k2 < i - from && (#[trigger] m[k1]) == '.' && (#[trigger] m[k2])
                    == '.',
        decreases to - i,
    {
        let c = s.get_char(i);
        proof {
            assert(m[i - from] == s@[i as int]);
        }
        if '0' <= c && c <= '9' {
            digit_seen = true;
        } else if c == '.' {
            if dot_seen {
                second_dot = true;
            }
            dot_seen = true;
        } else {
            ok = false;
        }
        i += 1;
    }
    ok && digit_seen && !second_dot
}

/// Whether the text of `s` in `[from, to)` is a well-formed exponent.
fn exponent_at(s: &str, from: usize, to: usize) -> (r: bool)
    requires
        from <= to <= s@.len(),
    ensures
        r == exponent_ok(s@.subrange(from as int, to as int)),
{
    let ghost t = s@.subrange(from as int, to as int);
    let dfrom: usize = if from < to {
        let c = s.get_char(from);
        if c == '+' || c == '-' {
            from + 1
        } else {
            from
        }
    } else {
        from
    };
    proof {
        assert(unsigned_part(t) =~= s@.subrange(dfrom as int, to as int));
    }
    if dfrom == to {
        return false;
    }
    let r = all_digits(s, dfrom, to);
    proof {
        let u = unsigned_part(t);
        if r {
            assert forall|k: int| 0 <= k < u.len() implies is_digit_char(#[trigger] u[k]) by {
                assert(u[k] == s@[dfrom + k]);
            }
        }
        if !r {
            assert(!(forall|k: int| dfrom <= k < to ==> is_digit_char(#[trigger] s@[k])));
            if forall|k: int| 0 <= k < u.len() ==> is_digit_char(#[trigger] u[k]) {
                assert forall|k: int| dfrom <= k < to implies is_digit_char(#[trigger] s@[k]) by {
                    assert(s@[k] == u[k - dfrom]);
                }
            }
        }
    }
    r
}

/// Whether `s` is text this layer accepts for a `double`.
pub fn double_text_valid(s: &str) -> (r: bool)
    ensures
        r == is_double_text(s@),
{
    let n: usize = s.unicode_len();
    let start: usize = if n > 0 {
        let c = s.get_char(0);
        if c == '+' || c == '-' {
            1
        } else {
            0
        }
    } else {
        0
    };
    let ghost t = unsigned_part(s@);
    proof {
        assert(t =~= s@.subrange(start as int, n as int));
    }
    if special_at(s, start) {
        return true;
    }
    // find the first exponent marker at or after `start`
    let mut p: usize = n;
    let mut i: usize = start;
    while i < n
        invariant
            start <= i <= n,
            n == s@.len(),
            start <= p <= n,
            p < n ==> is_exp_char(s@[p as int]) && forall|k: int|
                start <= k < p ==> !is_exp_char(#[trigger] s@[k]),
            p == n ==> forall|k: int| start <= k < i ==> !is_exp_char(#[trigger] s@[k]),
        decreases n - i,
    {
        if p == n {
            let c = s.get_char(i);
            if c == 'e' || c == 'E' {
                p = i;
            }
        }
        i += 1;
    }
    let mant = mantissa_at(s, start, p);
    let expo = if p == n {
        true
    } else {
        exponent_at(s, p + 1, n)
    };
    proof {
        let q = p - start;
        assert(t.subrange(0, q as int) =~= s@.subrange(start as int, p as int));
        if p < n {
            assert(t.subrange(q + 1, t.len() as int) =~= s@.subrange(p + 1, n as int));
        }
        lemma_number_split(t, q as int);
    }
    mant && expo
}

} // verus!

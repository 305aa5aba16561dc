//! The grammar of a number in a scenario: a decimal literal of a binary64
//! value, with optional sign, fraction and exponent, or one of the words
//! `inf`, `infinity` and `nan` in any mix of upper and lower case.

use vstd::prelude::*;

verus! {

/// A decimal digit.
pub open spec fn is_digit(c: char) -> bool {
    '0' <= c <= '9'
}

/// A plus or minus sign.
pub open spec fn is_sign(c: char) -> bool {
    c == '+' || c == '-'
}

/// The letter that opens an exponent.
pub open spec fn is_exp_mark(c: char) -> bool {
    c == 'e' || c == 'E'
}

/// Only digits; the empty sequence counts.
pub open spec fn is_digits(s: Seq<char>) -> bool {
    forall|i: int| 0 <= i < s.len() ==> is_digit(#[trigger] s[i])
}

/// Digits with at most one point among them, and at least one digit:
/// `7`, `5.`, `.5`, `3.14`.
pub open spec fn is_decimal(s: Seq<char>) -> bool {
    ||| s.len() >= 1 && is_digits(s)
    ||| s.len() >= 2 && exists|k: int|
        0 <= k < s.len() && #[trigger] s[k] == '.' && is_digits(s.take(k)) && is_digits(
            s.skip(k + 1),
        )
}

/// An exponent: the mark, an optional sign, then at least one digit.
pub open spec fn is_exponent(s: Seq<char>) -> bool {
    &&& s.len() >= 2
    &&& is_exp_mark(s[0])
    &&& if is_sign(s[1]) {
        s.len() >= 3 && is_digits(s.skip(2))
    } else {
        is_digits(s.skip(1))
    }
}

/// A decimal, followed by an exponent or by nothing.
pub open spec fn is_number(s: Seq<char>) -> bool {
    ||| is_decimal(s)
    ||| exists|k: int| 0 < k < s.len() && is_decimal(#[trigger] s.take(k)) && is_exponent(s.skip(k))
}

/// `s` spells `word`, letter by letter, in either case. `word` is given in
/// lower case and `upper` is the same word in upper case.
pub open spec fn spells(s: Seq<char>, word: Seq<char>, upper: Seq<char>) -> bool {
    &&& s.len() == word.len()
    &&& forall|i: int| 0 <= i < s.len() ==> #[trigger] s[i] == word[i] || s[i] == upper[i]
}

/// One of the three words for a value that is no finite number.
pub open spec fn is_special(s: Seq<char>) -> bool {
    ||| spells(s, seq!['i', 'n', 'f'], seq!['I', 'N', 'F'])
    ||| spells(s, seq!['n', 'a', 'n'], seq!['N', 'A', 'N'])
    ||| spells(
        s,
        seq!['i', 'n', 'f', 'i', 'n', 'i', 't', 'y'],
        seq!['I', 'N', 'F', 'I', 'N', 'I', 'T', 'Y'],
    )
}

/// A literal without its sign.
pub open spec fn is_unsigned_literal(s: Seq<char>) -> bool {
    is_special(s) || is_number(s)
}

/// A literal of a binary64 value: an optional sign, then a special word or a
/// number. Nothing may stand before or after it, white space included.
pub open spec fn is_float_literal(s: Seq<char>) -> bool {
    ||| is_unsigned_literal(s)
    ||| s.len() >= 1 && is_sign(s[0]) && is_unsigned_literal(s.skip(1))
}

/// `a` and `b` mark the longest stretch at the start of `t` that is made of
/// digits and at most one point: digits up to `a`, then, if a point stands
/// at `a`, the point and digits up to `b`; without a point `b` is `a`.
spec fn mantissa_ends(t: Seq<char>, a: int, b: int) -> bool {
    &&& 0 <= a <= b <= t.len()
    &&& forall|i: int| 0 <= i < a ==> is_digit(#[trigger] t[i])
    &&& a < t.len() ==> !is_digit(t[a])
    &&& if a < t.len() && t[a] == '.' {
        &&& a < b
        &&& forall|i: int| a < i < b ==> is_digit(#[trigger] t[i])
        &&& b < t.len() ==> !is_digit(t[b])
    } else {
        b == a
    }
}

/// Whether the stretch that `mantissa_ends` describes holds a digit.
spec fn mantissa_has_digit(a: int, b: int) -> bool {
    a >= 1 || b >= a + 2
}

/// A decimal at the start of `t` lies within the stretch of `mantissa_ends`,
/// and that stretch then holds a digit.
proof fn lemma_decimal_within(t: Seq<char>, a: int, b: int, k: int)
    requires
        mantissa_ends(t, a, b),
        0 <= k <= t.len(),
        is_decimal(t.take(k)),
    ensures
        k <= b,
        mantissa_has_digit(a, b),
{
    let u = t.take(k);
    if u.len() >= 1 && is_digits(u) {
        if k > a {
            assert(is_digit(u[a]));
        }
        assert(is_digit(u[0]));
    } else {
        let p = choose|p: int|
            0 <= p < u.len() && #[trigger] u[p] == '.' && is_digits(u.take(p)) && is_digits(
                u.skip(p + 1),
            );
        if p < a {
            assert(is_digit(t[p]));
        }
        if p > a {
            assert(is_digit(u.take(p)[a]));
        }
        assert(p == a);
        if k > b {
            assert(is_digit(u.skip(p + 1)[b - p - 1]));
        }
        if a == 0 {
            assert(is_digit(u.skip(p + 1)[0]));
            assert(b != a + 1);
        }
    }
}

/// The stretch of `mantissa_ends`, if it holds a digit, is a decimal.
proof fn lemma_decimal_whole(t: Seq<char>, a: int, b: int)
    requires
        mantissa_ends(t, a, b),
        mantissa_has_digit(a, b),
    ensures
        is_decimal(t.take(b)),
{
    let u = t.take(b);
    if b == a {
        assert(is_digits(u));
    } else {
        assert(u[a] == '.');
        assert(is_digits(u.take(a)));
        assert(is_digits(u.skip(a + 1))) by {
            assert forall|i: int| 0 <= i < u.skip(a + 1).len() implies is_digit(
                #[trigger] u.skip(a + 1)[i],
            ) by {
                assert(u.skip(a + 1)[i] == t[a + 1 + i]);
            }
        }
    }
}

/// End of the run of digits that starts at `from`.
fn digits_end(s: &[char], from: usize) -> (end: usize)
    requires
        from <= s.len(),
    ensures
        from <= end <= s.len(),
        forall|i: int| from <= i < end ==> is_digit(#[trigger] s@[i]),
        end < s.len() ==> !is_digit(s@[end as int]),
{
    let mut end: usize = from;
    while end < s.len() && '0' <= s[end] && s[end] <= '9'
        invariant
            from <= end <= s.len(),
            forall|i: int| from <= i < end ==> is_digit(#[trigger] s@[i]),
        decreases s.len() - end,
    {
        end += 1;
    }
    end
}

/// Decides `is_special`.
fn special(s: &[char]) -> (r: bool)
    ensures
        r == is_special(s@),
{
    let n = s.len();
    if n == 3 {
        let inf = (s[0] == 'i' || s[0] == 'I') && (s[1] == 'n' || s[1] == 'N') && (s[2] == 'f'
            || s[2] == 'F');
        let nan = (s[0] == 'n' || s[0] == 'N') && (s[1] == 'a' || s[1] == 'A') && (s[2] == 'n'
            || s[2] == 'N');
        inf || nan
    } else if n == 8 {
        (s[0] == 'i' || s[0] == 'I') && (s[1] == 'n' || s[1] == 'N') && (s[2] == 'f' || s[2]
            == 'F') && (s[3] == 'i' || s[3] == 'I') && (s[4] == 'n' || s[4] == 'N') && (s[5] == 'i'
            || s[5] == 'I') && (s[6] == 't' || s[6] == 'T') && (s[7] == 'y' || s[7] == 'Y')
    } else {
        false
    }
}

/// Decides `is_unsigned_literal`.
fn unsigned_literal(s: &[char]) -> (r: bool)
    ensures
        r == is_unsigned_literal(s@),
{
    if special(s) {
        return true;
    }
    let n = s.len();
    let a = digits_end(s, 0);
    let b = if a < n && s[a] == '.' {
        digits_end(s, a + 1)
    } else {
        a
    };
    assert(mantissa_ends(s@, a as int, b as int));
    proof {
        lemma_number_ends(s@, a as int, b as int);
    }
    if a == 0 && b < 2 {
        return false;
    }
    proof {
        lemma_decimal_whole(s@, a as int, b as int);
    }
    if b == n {
        assert(s@.take(b as int) =~= s@);
        return true;
    }
    if s[b] != 'e' && s[b] != 'E' {
        return false;
    }
    let c = if b + 1 < n && (s[b + 1] == '+' || s[b + 1] == '-') {
        b + 2
    } else {
        b + 1
    };
    let d = digits_end(s, c);
    proof {
        let e = s@.skip(b as int);
        if d > c && d == n {
            if c == b + 2 {
                assert(is_digits(e.skip(2)));
            } else {
                assert(is_digits(e.skip(1)));
                assert(is_digit(e[1]));
            }
            assert(is_exponent(e));
        } else {
            if is_exponent(e) {
                if c == b + 2 {
                    assert(is_sign(e[1]));
                    if d < n {
                        assert(is_digit(e.skip(2)[d - b - 2]));
                    }
                } else {
                    if is_sign(e[1]) {
                        assert(b + 1 == n);
                    } else if d < n {
                        assert(is_digit(e.skip(1)[d - b - 1]));
                    }
                }
            }
        }
    }
    d > c && d == n
}

/// Where a number can end its decimal: in a text with the stretch of
/// `mantissa_ends`, a number is a decimal over exactly that stretch, followed
/// by nothing or by an exponent.
proof fn lemma_number_ends(t: Seq<char>, a: int, b: int)
    requires
        mantissa_ends(t, a, b),
    ensures
        is_number(t) <==> mantissa_has_digit(a, b) && (b == t.len() || (0 < b && is_exponent(
            t.skip(b),
        ))),
{
    if is_number(t) {
        if is_decimal(t) {
            assert(t.take(t.len() as int) =~= t);
            lemma_decimal_within(t, a, b, t.len() as int);
        } else {
            let k = choose|k: int|
                0 < k < t.len() && is_decimal(#[trigger] t.take(k)) && is_exponent(t.skip(k));
            lemma_decimal_within(t, a, b, k);
            assert(t.skip(k)[0] == t[k]);
            if k < b {
                if k < a {
                    assert(is_digit(t[k]));
                } else if k > a {
                    assert(is_digit(t[k]));
                }
            }
            assert(k == b);
        }
    }
    if mantissa_has_digit(a, b) && (b == t.len() || (0 < b && is_exponent(t.skip(b)))) {
        lemma_decimal_whole(t, a, b);
        if b == t.len() {
            assert(t.take(b) =~= t);
        }
    }
}

/// Decides whether `s` is a literal of a binary64 value.
pub fn float_literal(s: &[char]) -> (r: bool)
    ensures
        r == is_float_literal(s@),
{
    if s.len() >= 1 && (s[0] == '+' || s[0] == '-') {
        let rest = vstd::slice::slice_subrange(s, 1, s.len());
        assert(rest@ =~= s@.skip(1));
        proof {
            if is_unsigned_literal(s@) {
                lemma_unsigned_start(s@);
            }
        }
        unsigned_literal(rest)
    } else {
        unsigned_literal(s)
    }
}

/// A literal without sign starts with a digit, a point or a letter.
proof fn lemma_unsigned_start(s: Seq<char>)
    requires
        is_unsigned_literal(s),
    ensures
        s.len() >= 1,
        !is_sign(s[0]),
{
    if is_special(s) {
        assert(s[0] == 'i' || s[0] == 'I' || s[0] == 'n' || s[0] == 'N');
    } else {
        let u = if is_decimal(s) {
            s
        } else {
            let k = choose|k: int|
                0 < k < s.len() && is_decimal(#[trigger] s.take(k)) && is_exponent(s.skip(k));
            s.take(k)
        };
        assert(is_decimal(u));
        assert(u[0] == s[0]);
        if u.len() >= 1 && is_digits(u) {
            assert(is_digit(u[0]));
        } else {
            let p = choose|p: int|
                0 <= p < u.len() && #[trigger] u[p] == '.' && is_digits(u.take(p)) && is_digits(
                    u.skip(p + 1),
                );
            if p > 0 {
                assert(is_digit(u.take(p)[0]));
            }
        }
    }
}

} // verus!

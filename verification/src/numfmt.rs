//! Decimal rendering and parsing of integers, as they appear in the
//! wire format and in topic names.
//!
//! `spec_dec_digits` is the canonical decimal form of a natural number
//! (no leading zeros); `spec_int_chars` adds the sign. The spec-level
//! parser `spec_parse_int` accepts exactly the canonical forms that fit
//! in an `i32`, and `lemma_parse_int_of_chars` proves it inverts the
//! rendering.

use vstd::prelude::*;

verus! {

/// The decimal digit character for `d` (meaningful for `0 <= d <= 9`).
pub open spec fn digit_char(d: int) -> char {
    (48 + d) as char
}

/// Canonical decimal digits of `n`, most significant first.
pub open spec fn spec_dec_digits(n: nat) -> Seq<char>
    decreases n,
{
    if n < 10 {
        seq![digit_char(n as int)]
    } else {
        spec_dec_digits(n / 10) + seq![digit_char((n % 10) as int)]
    }
}

/// Canonical character form of an integer: optional minus sign, then digits.
pub open spec fn spec_int_chars(n: int) -> Seq<char> {
    if n < 0 {
        seq!['-'] + spec_dec_digits((-n) as nat)
    } else {
        spec_dec_digits(n as nat)
    }
}

pub open spec fn is_digit(c: char) -> bool {
    '0' <= c && c <= '9'
}

/// Numeric value of a digit character.
pub open spec fn digit_val(c: char) -> int {
    c as int - 48
}

/// First index at or after `i` that does not hold a digit.
pub open spec fn digits_end(s: Seq<char>, i: int) -> int
    decreases s.len() - i,
{
    if 0 <= i && i < s.len() && is_digit(s[i]) {
        digits_end(s, i + 1)
    } else {
        i
    }
}

/// Value of the digit run `s[i..j]`, read as a decimal number.
pub open spec fn digits_val(s: Seq<char>, i: int, j: int) -> int
    decreases j - i,
{
    if i < j {
        digits_val(s, i, j - 1) * 10 + digit_val(s[j - 1])
    } else {
        0
    }
}

/// Parses a canonical unsigned decimal at index `i`: at least one digit,
/// no leading zero, at most ten digits. Returns the value and the index
/// just past the digits.
pub open spec fn spec_parse_uint(s: Seq<char>, i: int) -> Option<(int, int)> {
    let j = digits_end(s, i);
    if j == i {
        None
    } else if j - i > 10 {
        None
    } else if s[i] == '0' && j > i + 1 {
        None
    } else {
        Some((digits_val(s, i, j), j))
    }
}

/// Parses a canonical `i32` at index `i`: optional minus sign (never on
/// zero), canonical digits, value within `i32` range.
pub open spec fn spec_parse_int(s: Seq<char>, i: int) -> Option<(int, int)> {
    if 0 <= i && i < s.len() && s[i] == '-' {
        match spec_parse_uint(s, i + 1) {
            Some((v, j)) => if 1 <= v && v <= 2147483648 {
                Some((-v, j))
            } else {
                None
            },
            None => None,
        }
    } else {
        match spec_parse_uint(s, i) {
            Some((v, j)) => if v <= 2147483647 {
                Some((v, j))
            } else {
                None
            },
            None => None,
        }
    }
}

/// Appends the canonical decimal digits of `n` to `out`.
pub fn push_dec_u64(out: &mut Vec<char>, n: u64)
    ensures
        final(out)@ == old(out)@ + spec_dec_digits(n as nat),
    decreases n,
{
    if n < 10 {
        out.push((48 + n as u8) as char);
        assert(out@ =~= old(out)@ + spec_dec_digits(n as nat));
    } else {
        push_dec_u64(out, n / 10);
        out.push((48 + (n % 10) as u8) as char);
        assert(out@ =~= old(out)@ + spec_dec_digits(n as nat));
    }
}

/// Appends the canonical character form of `n` to `out`.
pub fn push_dec_i32(out: &mut Vec<char>, n: i32)
    ensures
        final(out)@ == old(out)@ + spec_int_chars(n as int),
{
    if n < 0 {
        out.push('-');
        let m: u64 = (-(n as i64)) as u64;
        push_dec_u64(out, m);
        assert(out@ =~= old(out)@ + spec_int_chars(n as int));
    } else {
        push_dec_u64(out, n as u64);
    }
}

/// Every character of the canonical decimal form is a digit.
pub proof fn lemma_dec_digits_are_digits(n: nat)
    ensures
        spec_dec_digits(n).len() >= 1,
        forall|k: int| 0 <= k < spec_dec_digits(n).len() ==> is_digit(#[trigger] spec_dec_digits(n)[k]),
    decreases n,
{
    if n < 10 {
    } else {
        lemma_dec_digits_are_digits(n / 10);
    }
}

/// The canonical decimal form starts with `'0'` only for zero itself.
pub proof fn lemma_dec_digits_first(n: nat)
    ensures
        n > 0 ==> spec_dec_digits(n)[0] != '0',
        n == 0 ==> spec_dec_digits(n) == seq!['0'],
    decreases n,
{
    if n < 10 {
    } else {
        lemma_dec_digits_first(n / 10);
    }
}

pub open spec fn pow10(k: nat) -> int
    decreases k,
{
    if k == 0 {
        1
    } else {
        10 * pow10((k - 1) as nat)
    }
}

/// Numbers below `10^k` take at most `k` digits.
pub proof fn lemma_dec_digits_len(n: nat, k: nat)
    requires
        k >= 1,
        n < pow10(k),
    ensures
        spec_dec_digits(n).len() <= k,
    decreases n,
{
    if n < 10 {
    } else {
        assert(pow10(k) == 10 * pow10((k - 1) as nat));
        lemma_dec_digits_len(n / 10, (k - 1) as nat);
    }
}

pub proof fn lemma_pow10_pos(a: nat)
    ensures
        0 < pow10(a),
    decreases a,
{
    if a > 0 {
        lemma_pow10_pos((a - 1) as nat);
    }
}

pub proof fn lemma_pow10_mono(a: nat, b: nat)
    requires
        a <= b,
    ensures
        0 < pow10(a) <= pow10(b),
    decreases b,
{
    lemma_pow10_pos(a);
    if a < b {
        lemma_pow10_mono(a, (b - 1) as nat);
    }
}

/// The value of a digit run is bounded by a power of ten in its length.
pub proof fn lemma_digits_val_bound(s: Seq<char>, i: int, j: int)
    requires
        0 <= i <= j <= s.len(),
        forall|k: int| i <= k < j ==> is_digit(#[trigger] s[k]),
    ensures
        0 <= digits_val(s, i, j) < pow10((j - i) as nat),
    decreases j - i,
{
    if i < j {
        lemma_digits_val_bound(s, i, j - 1);
        let v = digits_val(s, i, j - 1);
        let p = pow10((j - 1 - i) as nat);
        assert(0 <= digit_val(s[j - 1]) <= 9);
        assert(v * 10 + 9 < p * 10) by (nonlinear_arith)
            requires
                0 <= v && v < p;
        assert(pow10((j - i) as nat) == 10 * pow10((j - i - 1) as nat));
    }
}

/// A run of digits followed by a non-digit (or the end) ends exactly there.
pub proof fn lemma_digits_end_of(s: Seq<char>, i: int, j: int)
    requires
        0 <= i <= j <= s.len(),
        forall|k: int| i <= k < j ==> is_digit(#[trigger] s[k]),
        j == s.len() || !is_digit(s[j]),
    ensures
        digits_end(s, i) == j,
    decreases j - i,
{
    if i < j {
        lemma_digits_end_of(s, i + 1, j);
    }
}

/// Reading back the canonical digits of `n` yields `n`.
pub proof fn lemma_digits_val_of(s: Seq<char>, i: int, n: nat)
    requires
        0 <= i,
        i + spec_dec_digits(n).len() <= s.len(),
        s.subrange(i, i + spec_dec_digits(n).len() as int) == spec_dec_digits(n),
    ensures
        digits_val(s, i, i + spec_dec_digits(n).len() as int) == n,
    decreases n,
{
    let ds = spec_dec_digits(n);
    let len = ds.len() as int;
    if n < 10 {
        assert(s.subrange(i, i + 1)[0] == s[i]);
        assert(s[i] == ds[0]);
        assert(digits_val(s, i, i) == 0);
        assert(digits_val(s, i, i + 1) == digit_val(s[i]));
        assert(digit_val(digit_char(n as int)) == n);
    } else {
        let dsh = spec_dec_digits(n / 10);
        let lh = dsh.len() as int;
        assert(ds == dsh + seq![digit_char((n % 10) as int)]);
        assert(s.subrange(i, i + lh) =~= dsh) by {
            assert(forall|k: int| 0 <= k < lh ==> s.subrange(i, i + len)[k] == #[trigger] s.subrange(i, i + lh)[k]);
        }
        lemma_digits_val_of(s, i, n / 10);
        assert(s[i + len - 1] == ds[len - 1]);
        assert(ds[len - 1] == digit_char((n % 10) as int));
        assert(digits_val(s, i, i + len) == digits_val(s, i, i + len - 1) * 10 + digit_val(s[i + len - 1]));
        assert(digits_val(s, i, i + len) == (n / 10) * 10 + (n % 10));
        assert((n / 10) * 10 + (n % 10) == n) by (nonlinear_arith);
    }
}

/// The spec parser inverts the canonical rendering: if the characters of
/// `n` stand at `i` and no digit follows them, parsing at `i` yields `n`.
pub proof fn lemma_parse_int_of_chars(s: Seq<char>, i: int, n: int)
    requires
        -2147483648 <= n <= 2147483647,
        0 <= i,
        i + spec_int_chars(n).len() <= s.len(),
        s.subrange(i, i + spec_int_chars(n).len() as int) == spec_int_chars(n),
        i + spec_int_chars(n).len() == s.len() || !is_digit(s[i + spec_int_chars(n).len()]),
    ensures
        spec_parse_int(s, i) == Some((n, i + spec_int_chars(n).len() as int)),
{
    assert(pow10(10) == 10000000000) by {
        reveal_with_fuel(pow10, 11);
    }
    if n >= 0 {
        let m = n as nat;
        let ds = spec_dec_digits(m);
        let len = ds.len() as int;
        lemma_dec_digits_are_digits(m);
        lemma_dec_digits_first(m);
        lemma_dec_digits_len(m, 10);
        assert(forall|k: int| i <= k < i + len ==> is_digit(#[trigger] s[k])) by {
            assert(forall|k: int| i <= k < i + len ==> s[k] == ds[k - i]);
        }
        lemma_digits_end_of(s, i, i + len);
        lemma_digits_val_of(s, i, m);
        assert(s.subrange(i, i + len)[0] == s[i]);
        assert(s[i] == ds[0]);
        if m == 0 {
            assert(s[i] == '0' && len == 1);
        } else {
            assert(s[i] != '0');
        }
        // A minus sign never begins the rendering of a non-negative number.
        assert(s[i] != '-');
    } else {
        let m = (-n) as nat;
        let ics = spec_int_chars(n);
        let ds = spec_dec_digits(m);
        let len = ds.len() as int;
        assert(ics == seq!['-'] + ds);
        assert(s.subrange(i, i + ics.len() as int)[0] == s[i]);
        assert(s[i] == '-');
        assert(s.subrange(i + 1, i + 1 + len) =~= ds) by {
            assert(forall|k: int| 0 <= k < len ==> s.subrange(i, i + ics.len() as int)[k + 1] == #[trigger] s.subrange(i + 1, i + 1 + len)[k]);
        }
        lemma_dec_digits_are_digits(m);
        lemma_dec_digits_first(m);
        lemma_dec_digits_len(m, 10);
        assert(forall|k: int| i + 1 <= k < i + 1 + len ==> is_digit(#[trigger] s[k])) by {
            assert(forall|k: int| i + 1 <= k < i + 1 + len ==> s[k] == ds[k - i - 1]);
        }
        lemma_digits_end_of(s, i + 1, i + 1 + len);
        lemma_digits_val_of(s, i + 1, m);
        assert(s[i + 1] == ds[0]);
        assert(s[i + 1] != '0');
    }
}

/// Canonical renderings are injective: equal character forms mean equal numbers.
pub proof fn lemma_int_chars_injective(a: int, b: int)
    requires
        -2147483648 <= a <= 2147483647,
        -2147483648 <= b <= 2147483647,
        spec_int_chars(a) == spec_int_chars(b),
    ensures
        a == b,
{
    let s = spec_int_chars(a);
    assert(s.subrange(0, s.len() as int) =~= s);
    lemma_parse_int_of_chars(s, 0, a);
    lemma_parse_int_of_chars(s, 0, b);
}

} // verus!

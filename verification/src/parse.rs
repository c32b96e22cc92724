//! Parsing delimited pairs, whole numbers and decimal fractions.
//!
//! [`parse_pair`] splits a string at the *first* occurrence of a separator
//! character and parses the two sides independently; text after a second
//! separator stays part of the right-hand side and makes it malformed.  The
//! element types say exactly which strings they accept: an optional sign and
//! decimal digits for `i32`, and the same with at most one decimal point for
//! [`Frac`].  [`parse_complex`] reads a point of the complex plane from the
//! form `"real,imaginary"`.

use vstd::prelude::*;
use vstd::arithmetic::mul::{lemma_mul_basics, lemma_mul_nonnegative};
use vstd::string::StrSliceExecFns;
use crate::rational::{Frac, lemma_mul_zero};
use crate::complex::Complex;

verus! {

/// `c` is a decimal digit.
pub open spec fn is_digit(c: char) -> bool {
    48 <= c as u32 <= 57
}

/// The numeric value of a digit character.
pub open spec fn digit_val(c: char) -> int {
    c as u32 - 48
}

/// Every character of `s` is a decimal digit.
pub open spec fn all_digits(s: Seq<char>) -> bool {
    forall|i: int| 0 <= i < s.len() ==> is_digit(#[trigger] s[i])
}

/// The number written by a digit string, most significant digit first.
pub open spec fn digits_val(s: Seq<char>) -> int
    decreases s.len(),
{
    if s.len() == 0 {
        0
    } else {
        digits_val(s.drop_last()) * 10 + digit_val(s.last())
    }
}

/// Ten to the `k`.
pub open spec fn pow10(k: nat) -> int
    decreases k,
{
    if k == 0 {
        1
    } else {
        10 * pow10((k - 1) as nat)
    }
}

/// The number written by appending the digits of `s` to a number `seed`.
pub open spec fn extend_val(seed: int, s: Seq<char>) -> int {
    seed * pow10(s.len()) + digits_val(s)
}

/// The index of the first occurrence of `sep` in `s`, if any.
pub open spec fn first_sep_index(s: Seq<char>, sep: char) -> Option<int>
    decreases s.len(),
{
    if s.len() == 0 {
        None
    } else if s[0] == sep {
        Some(0)
    } else {
        match first_sep_index(s.skip(1), sep) {
            Some(i) => Some(i + 1),
            None => None,
        }
    }
}

/// The digits of `s` without a leading sign character.
pub open spec fn int_body(s: Seq<char>) -> Seq<char> {
    if s.len() > 0 && (s[0] == '-' || s[0] == '+') {
        s.skip(1)
    } else {
        s
    }
}

/// `-1` when `s` starts with a minus sign, `1` otherwise.
pub open spec fn int_sign(s: Seq<char>) -> int {
    if s.len() > 0 && s[0] == '-' {
        -1
    } else {
        1
    }
}

proof fn lemma_pow10_positive(k: nat)
    ensures
        pow10(k) >= 1,
    decreases k,
{
    if k > 0 {
        lemma_pow10_positive((k - 1) as nat);
    }
}

proof fn lemma_pow10_monotonic(j: nat, k: nat)
    requires
        j <= k,
    ensures
        pow10(j) <= pow10(k),
    decreases k,
{
    if j < k {
        lemma_pow10_monotonic(j, (k - 1) as nat);
        lemma_pow10_positive((k - 1) as nat);
    }
}

proof fn lemma_pow10_values()
    ensures
        pow10(17) == 100000000000000000,
        pow10(18) == 1000000000000000000,
        pow10(19) == 10000000000000000000,
{
    reveal_with_fuel(pow10, 20);
}

/// Regrouping of a product with the factor ten.
proof fn lemma_shift_ten(x: int, p: int) by (nonlinear_arith)
    ensures
        x * (10 * p) == (x * p) * 10,
{
}

/// A nonnegative number does not shrink when scaled by a positive factor.
proof fn lemma_scale_up(x: int, p: int) by (nonlinear_arith)
    requires
        x >= 0,
        p >= 1,
    ensures
        x * p >= x,
{
}

proof fn lemma_all_digits_take(s: Seq<char>, k: int)
    requires
        all_digits(s),
        0 <= k <= s.len(),
    ensures
        all_digits(s.take(k)),
{
    assert forall|i: int| 0 <= i < s.take(k).len() implies is_digit(#[trigger] s.take(k)[i]) by {
        assert(s.take(k)[i] == s[i]);
    }
}

proof fn lemma_digits_val_nonneg(s: Seq<char>)
    requires
        all_digits(s),
    ensures
        digits_val(s) >= 0,
    decreases s.len(),
{
    if s.len() > 0 {
        assert(all_digits(s.drop_last())) by {
            lemma_all_digits_take(s, s.len() - 1);
            assert(s.drop_last() =~= s.take(s.len() - 1));
        }
        lemma_digits_val_nonneg(s.drop_last());
        assert(is_digit(s.last()));
    }
}

proof fn lemma_extend_val_nonneg(seed: int, s: Seq<char>)
    requires
        seed >= 0,
        all_digits(s),
    ensures
        extend_val(seed, s) >= 0,
{
    lemma_pow10_positive(s.len());
    lemma_mul_nonnegative(seed, pow10(s.len()));
    lemma_digits_val_nonneg(s);
}

/// Reading one more digit multiplies the accumulated value by ten and adds
/// the digit.
proof fn lemma_extend_val_step(seed: int, s: Seq<char>, k: int)
    requires
        0 <= k < s.len(),
    ensures
        extend_val(seed, s.take(k + 1)) == extend_val(seed, s.take(k)) * 10 + digit_val(s[k]),
{
    assert(s.take(k + 1).drop_last() =~= s.take(k));
    assert(s.take(k + 1).last() == s[k]);
    assert(pow10((k + 1) as nat) == 10 * pow10(k as nat));
    lemma_shift_ten(seed, pow10(k as nat));
}

/// The value of a digit string is at least the value of any of its prefixes.
proof fn lemma_extend_val_prefix_le(seed: int, s: Seq<char>, k: int)
    requires
        seed >= 0,
        all_digits(s),
        0 <= k <= s.len(),
    ensures
        extend_val(seed, s.take(k)) <= extend_val(seed, s),
    decreases s.len() - k,
{
    if k < s.len() {
        lemma_extend_val_step(seed, s, k);
        lemma_all_digits_take(s, k);
        lemma_extend_val_nonneg(seed, s.take(k));
        assert(is_digit(s[k]));
        lemma_extend_val_prefix_le(seed, s, k + 1);
    } else {
        assert(s.take(k) =~= s);
    }
}

/// Appending digit strings composes their values.
proof fn lemma_digits_val_append(a: Seq<char>, b: Seq<char>)
    ensures
        digits_val(a + b) == extend_val(digits_val(a), b),
    decreases b.len(),
{
    if b.len() == 0 {
        assert(a + b =~= a);
        lemma_mul_basics(digits_val(a));
    } else {
        lemma_digits_val_append(a, b.drop_last());
        assert((a + b).drop_last() =~= a + b.drop_last());
        assert((a + b).last() == b.last());
        assert(pow10(b.len()) == 10 * pow10((b.len() - 1) as nat));
        lemma_shift_ten(digits_val(a), pow10((b.len() - 1) as nat));
    }
}

/// Appending digits to a nonnegative number never shrinks it.
proof fn lemma_extend_val_ge_seed(seed: int, s: Seq<char>)
    requires
        seed >= 0,
        all_digits(s),
    ensures
        extend_val(seed, s) >= seed,
{
    lemma_pow10_positive(s.len());
    lemma_scale_up(seed, pow10(s.len()));
    lemma_digits_val_nonneg(s);
}

proof fn lemma_first_sep_found(s: Seq<char>, sep: char, i: int)
    requires
        0 <= i < s.len(),
        s[i] == sep,
        forall|j: int| 0 <= j < i ==> s[j] != sep,
    ensures
        first_sep_index(s, sep) == Some(i),
    decreases i,
{
    if i > 0 {
        let t = s.skip(1);
        assert(t[i - 1] == s[i]);
        assert forall|j: int| 0 <= j < i - 1 implies t[j] != sep by {
            assert(t[j] == s[j + 1]);
        }
        lemma_first_sep_found(t, sep, i - 1);
    }
}

proof fn lemma_first_sep_none(s: Seq<char>, sep: char)
    requires
        forall|j: int| 0 <= j < s.len() ==> s[j] != sep,
    ensures
        first_sep_index(s, sep) is None,
    decreases s.len(),
{
    if s.len() > 0 {
        let t = s.skip(1);
        assert forall|j: int| 0 <= j < t.len() implies t[j] != sep by {
            assert(t[j] == s[j + 1]);
        }
        lemma_first_sep_none(t, sep);
    }
}

/// The index of the first occurrence of `c` in `s` at or after `from`, or
/// the length of `s` when there is none.
fn find_char_from(s: &str, from: usize, c: char) -> (r: usize)
    requires
        from <= s@.len(),
    ensures
        from <= r <= s@.len(),
        r < s@.len() ==> s@[r as int] == c,
        forall|j: int| from <= j < r ==> s@[j] != c,
{
    let n: usize = s.unicode_len();
    let mut i: usize = from;
    while i < n
        invariant
            from <= i <= n,
            n == s@.len(),
            forall|j: int| from <= j < i ==> s@[j] != c,
        decreases n - i,
    {
        if s.get_char(i) == c {
            return i;
        }
        i = i + 1;
    }
    i
}

/// Scans the characters of `s` between `from` and `to` and appends their
/// digit values to `seed`.  Fails when a character is not a digit or the
/// resulting number would not fit an `i64`.
fn accumulate_digits(s: &str, from: usize, to: usize, seed: u64) -> (r: Option<u64>)
    requires
        from <= to <= s@.len(),
        seed <= i64::MAX as u64,
    ensures
        ({
            let part = s@.subrange(from as int, to as int);
            match r {
                Some(m) => all_digits(part) && m as int == extend_val(seed as int, part) && m
                    <= i64::MAX as u64,
                None => !(all_digits(part) && extend_val(seed as int, part) <= i64::MAX),
            }
        }),
{
    let ghost part = s@.subrange(from as int, to as int);
    let mut mag: u128 = seed as u128;
    let mut i: usize = from;
    proof {
        assert(part.take(0) =~= Seq::<char>::empty());
        lemma_mul_basics(seed as int);
    }
    while i < to
        invariant
            from <= i <= to <= s@.len(),
            part == s@.subrange(from as int, to as int),
            seed <= i64::MAX as u64,
            all_digits(part.take(i - from)),
            mag as int == extend_val(seed as int, part.take(i - from)),
            mag <= i64::MAX as u128,
        decreases to - i,
    {
        let ghost k = i - from;
        let c = s.get_char(i);
        let v: u32 = c as u32;
        proof {
            assert(part[k as int] == s@[i as int]);
        }
        if v < 48 || v > 57 {
            proof {
                assert(!is_digit(part[k as int]));
            }
            return None;
        }
        let d: u32 = v - 48;
        mag = mag * 10 + d as u128;
        proof {
            lemma_extend_val_step(seed as int, part, k as int);
            assert forall|j: int| 0 <= j < k + 1 implies is_digit(#[trigger] part.take(k as int + 1)[j]) by {
                assert(part.take(k as int + 1)[j] == part[j]);
                if j < k {
                    assert(part.take(k as int)[j] == part[j]);
                }
            }
        }
        i = i + 1;
        if mag > i64::MAX as u128 {
            proof {
                if all_digits(part) {
                    lemma_extend_val_prefix_le(seed as int, part, i - from);
                }
            }
            return None;
        }
    }
    proof {
        assert(part.take(to - from) =~= part);
    }
    Some(mag as u64)
}

/// A type that can be read from a string of characters, with an exact
/// statement of which strings are accepted and what value each denotes.
pub trait FromChars: Sized {
    /// What `from_chars` returns on each input.
    spec fn parse_spec(s: Seq<char>) -> Option<Self>;

    /// Parses `s`, returning exactly what `parse_spec` says.
    fn from_chars(s: &str) -> (r: Option<Self>)
        ensures
            r == Self::parse_spec(s@),
    ;
}

/// What `i32` parsing accepts: an optional sign, then one or more decimal
/// digits and nothing else, with the value in range.
pub open spec fn parse_i32_spec(s: Seq<char>) -> Option<i32> {
    let body = int_body(s);
    let v = int_sign(s) * digits_val(body);
    if body.len() > 0 && all_digits(body) && i32::MIN <= v <= i32::MAX {
        Some(v as i32)
    } else {
        None
    }
}

/// Parses an `i32` written as an optional sign followed by decimal digits.
pub fn parse_i32(s: &str) -> (r: Option<i32>)
    ensures
        r == parse_i32_spec(s@),
{
    let n: usize = s.unicode_len();
    if n == 0 {
        return None;
    }
    let first = s.get_char(0);
    let neg = first == '-';
    let start: usize = if neg || first == '+' {
        1
    } else {
        0
    };
    let ghost body = int_body(s@);
    proof {
        assert(body =~= s@.subrange(start as int, n as int));
    }
    if start == n {
        return None;
    }
    match accumulate_digits(s, start, n, 0) {
        None => {
            proof {
                if all_digits(body) && i32::MIN <= int_sign(s@) * digits_val(body) <= i32::MAX {
                    lemma_mul_zero(0, pow10(body.len()));
                    lemma_digits_val_nonneg(body);
                    assert(int_sign(s@) * digits_val(body) <= i32::MAX);
                    assert(extend_val(0, body) <= i64::MAX);
                }
            }
            None
        },
        Some(m) => {
            proof {
                lemma_mul_zero(0, pow10(body.len()));
                assert(m as int == digits_val(body));
            }
            if neg {
                let v2: i64 = -(m as i64);
                if v2 < i32::MIN as i64 {
                    None
                } else {
                    Some(v2 as i32)
                }
            } else {
                if m > i32::MAX as u64 {
                    None
                } else {
                    Some(m as i32)
                }
            }
        },
    }
}

impl FromChars for i32 {
    open spec fn parse_spec(s: Seq<char>) -> Option<i32> {
        parse_i32_spec(s)
    }

    fn from_chars(s: &str) -> (r: Option<i32>) {
        parse_i32(s)
    }
}

/// What decimal-fraction parsing accepts: an optional sign, then decimal
/// digits with at most one decimal point among them, at least one digit in
/// all, with mantissa and power-of-ten denominator each fitting an `i64`.
/// The value is exactly `sign * digits / 10^(digits after the point)`.
pub open spec fn parse_frac_spec(s: Seq<char>) -> Option<Frac> {
    let body = int_body(s);
    let sign = int_sign(s);
    match first_sep_index(body, '.') {
        None => {
            if body.len() > 0 && all_digits(body) && digits_val(body) <= i64::MAX {
                Some(Frac { n: (sign * digits_val(body)) as i64, d: 1 })
            } else {
                None
            }
        },
        Some(k) => {
            let ipart = body.take(k);
            let fpart = body.skip(k + 1);
            if (ipart.len() > 0 || fpart.len() > 0) && all_digits(ipart) && all_digits(fpart)
                && pow10(fpart.len()) <= i64::MAX && digits_val(ipart + fpart) <= i64::MAX {
                Some(
                    Frac {
                        n: (sign * digits_val(ipart + fpart)) as i64,
                        d: pow10(fpart.len()) as i64,
                    },
                )
            } else {
                None
            }
        },
    }
}

/// A fraction accepted by `parse_frac_spec` has a positive denominator.
pub proof fn lemma_parse_frac_wf(s: Seq<char>)
    ensures
        parse_frac_spec(s) matches Some(f) ==> f.wf(),
{
    let body = int_body(s);
    match first_sep_index(body, '.') {
        None => {},
        Some(k) => {
            let fpart = body.skip(k + 1);
            lemma_pow10_positive(fpart.len());
        },
    }
}

/// Ten to the `k`, computed exactly.
fn pow10_i64(k: usize) -> (r: i64)
    requires
        k <= 18,
    ensures
        r as int == pow10(k as nat),
        r >= 1,
{
    let mut acc: i64 = 1;
    let mut j: usize = 0;
    while j < k
        invariant
            j <= k <= 18,
            acc as int == pow10(j as nat),
            acc >= 1,
        decreases k - j,
    {
        proof {
            lemma_pow10_monotonic(j as nat, 17);
            lemma_pow10_values();
            assert(pow10((j + 1) as nat) == 10 * pow10(j as nat));
        }
        acc = acc * 10;
        j = j + 1;
    }
    acc
}

/// Parses a decimal fraction: an optional sign, digits, and at most one
/// decimal point.
#[verifier::rlimit(50)]
pub fn parse_frac(s: &str) -> (r: Option<Frac>)
    ensures
        r == parse_frac_spec(s@),
{
    let n: usize = s.unicode_len();
    if n == 0 {
        return None;
    }
    let first = s.get_char(0);
    let neg = first == '-';
    let start: usize = if neg || first == '+' {
        1
    } else {
        0
    };
    let ghost body = int_body(s@);
    proof {
        assert(body =~= s@.subrange(start as int, n as int));
    }
    if start == n {
        proof {
            assert(body.len() == 0);
        }
        return None;
    }
    let di: usize = find_char_from(s, start, '.');
    if di == n {
        // No decimal point: a plain whole number.
        proof {
            assert forall|j: int| 0 <= j < body.len() implies body[j] != '.' by {
                assert(body[j] == s@[start + j]);
            }
            lemma_first_sep_none(body, '.');
        }
        match accumulate_digits(s, start, n, 0) {
            None => {
                proof {
                    lemma_mul_zero(0, pow10(body.len()));
                }
                None
            },
            Some(m) => {
                proof {
                    lemma_mul_zero(0, pow10(body.len()));
                    assert(m as int == digits_val(body));
                    lemma_digits_val_nonneg(body);
                }
                let nn: i64 = if neg {
                    -(m as i64)
                } else {
                    m as i64
                };
                let f = Frac { n: nn, d: 1 };
                proof {
                    assert(parse_frac_spec(s@) matches Some(g) && g =~= f);
                }
                Some(f)
            },
        }
    } else {
        let ghost k = di - start;
        let ghost ipart = body.take(k as int);
        let ghost fpart = body.skip(k as int + 1);
        proof {
            assert(body[k as int] == s@[di as int]);
            assert forall|j: int| 0 <= j < k implies body[j] != '.' by {
                assert(body[j] == s@[start + j]);
            }
            lemma_first_sep_found(body, '.', k as int);
            assert(ipart =~= s@.subrange(start as int, di as int));
            assert(fpart =~= s@.subrange(di as int + 1, n as int));
        }
        if start == di && di + 1 == n {
            // A lone decimal point: no digits at all.
            return None;
        }
        let m1 = match accumulate_digits(s, start, di, 0) {
            None => {
                proof {
                    lemma_mul_zero(0, pow10(ipart.len()));
                    if all_digits(ipart) && all_digits(fpart) && digits_val(ipart + fpart)
                        <= i64::MAX {
                        lemma_digits_val_nonneg(ipart);
                        lemma_digits_val_append(ipart, fpart);
                        lemma_extend_val_ge_seed(digits_val(ipart), fpart);
                    }
                }
                return None;
            },
            Some(m1) => m1,
        };
        let m = match accumulate_digits(s, di + 1, n, m1) {
            None => {
                proof {
                    lemma_mul_zero(0, pow10(ipart.len()));
                    lemma_digits_val_append(ipart, fpart);
                }
                return None;
            },
            Some(m) => m,
        };
        proof {
            lemma_mul_zero(0, pow10(ipart.len()));
            lemma_digits_val_append(ipart, fpart);
            assert(m as int == digits_val(ipart + fpart));
        }
        let fl: usize = n - (di + 1);
        if fl > 18 {
            proof {
                lemma_pow10_values();
                lemma_pow10_monotonic(19, fl as nat);
            }
            return None;
        }
        let den: i64 = pow10_i64(fl);
        proof {
            lemma_pow10_monotonic(fl as nat, 18);
            lemma_pow10_values();
            lemma_digits_val_nonneg(ipart + fpart);
        }
        let nn: i64 = if neg {
            -(m as i64)
        } else {
            m as i64
        };
        let f = Frac { n: nn, d: den };
        proof {
            assert(parse_frac_spec(s@) matches Some(g) && g =~= f);
        }
        Some(f)
    }
}

impl FromChars for Frac {
    open spec fn parse_spec(s: Seq<char>) -> Option<Frac> {
        parse_frac_spec(s)
    }

    fn from_chars(s: &str) -> (r: Option<Frac>) {
        parse_frac(s)
    }
}

/// What pair parsing accepts: the string is split at the first occurrence of
/// the separator, and both sides must parse.
pub open spec fn parse_pair_spec<T: FromChars>(s: Seq<char>, separator: char) -> Option<(T, T)> {
    match first_sep_index(s, separator) {
        None => None,
        Some(i) => match (T::parse_spec(s.take(i)), T::parse_spec(s.skip(i + 1))) {
            (Some(l), Some(r)) => Some((l, r)),
            _ => None,
        },
    }
}

/// Parses a pair of values separated by `separator` from the string `s`.
///
/// The split happens at the first occurrence of the separator; with no
/// occurrence, or when either side fails to parse, the whole parse fails.
pub fn parse_pair<T: FromChars>(s: &str, separator: char) -> (r: Option<(T, T)>)
    ensures
        r == parse_pair_spec::<T>(s@, separator),
{
    let n: usize = s.unicode_len();
    let i: usize = find_char_from(s, 0, separator);
    if i == n {
        proof {
            lemma_first_sep_none(s@, separator);
        }
        return None;
    }
    proof {
        lemma_first_sep_found(s@, separator, i as int);
    }
    let left = s.substring_char(0, i);
    let right = s.substring_char(i + 1, n);
    proof {
        assert(left@ =~= s@.take(i as int));
        assert(right@ =~= s@.skip(i as int + 1));
    }
    let lv = T::from_chars(left);
    let rv = T::from_chars(right);
    match (lv, rv) {
        (Some(l), Some(r2)) => Some((l, r2)),
        _ => None,
    }
}

/// What complex parsing accepts: two decimal fractions joined by a comma.
pub open spec fn parse_complex_spec(s: Seq<char>) -> Option<Complex> {
    match parse_pair_spec::<Frac>(s, ',') {
        Some((re, im)) => Some(Complex { re, im }),
        None => None,
    }
}

/// Parses a complex number from a string of the form `"real,imaginary"`.
pub fn parse_complex(s: &str) -> (r: Option<Complex>)
    ensures
        r == parse_complex_spec(s@),
        r matches Some(c) ==> c.wf(),
{
    proof {
        match first_sep_index(s@, ',') {
            Some(i) => {
                lemma_parse_frac_wf(s@.take(i));
                lemma_parse_frac_wf(s@.skip(i + 1));
            },
            None => {},
        }
    }
    match parse_pair::<Frac>(s, ',') {
        Some((re, im)) => Some(Complex { re, im }),
        None => None,
    }
}

} // verus!

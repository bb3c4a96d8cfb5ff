//! Decimal numbers as the size parsers read them.
//!
//! The grammar is that of `f64::from_str` (sign, `inf`/`infinity`/`nan`,
//! digits with an optional fraction, an optional exponent); the value is the
//! exact decimal the text denotes. A size is that value times a unit
//! multiplier, rounded toward zero and clamped to `0..=u64::MAX` the way a
//! float-to-integer `as` conversion clamps (negative and NaN to 0, positive
//! infinity and anything too large to `u64::MAX`).

use vstd::prelude::*;
use vstd::arithmetic::power::{pow, lemma_pow_positive, lemma_pow_adds, lemma_pow_increases};
use vstd::arithmetic::div_mod::{lemma_div_denominator, lemma_hoist_over_denominator, lemma_div_is_ordered, lemma_basic_div, lemma_div_multiples_vanish};
use vstd::arithmetic::mul::lemma_mul_nonnegative;
use crate::text::{concat, digit_pred, is_ascii_digit, is_digit, lemma_run_len_at, run_len, slice_chars};

verus! {

/// What a decimal text denotes.
pub enum Decimal {
    NotANumber,
    Infinite { negative: bool },
    /// `mantissa * 10^exp10`, negated when `negative`.
    Finite { negative: bool, mantissa: nat, exp10: int },
}

pub open spec fn digit_value(c: char) -> nat {
    (c as int - '0' as int) as nat
}

/// The number a string of decimal digits spells.
pub open spec fn digits_value(s: Seq<char>) -> nat
    decreases s.len(),
{
    if s.len() == 0 {
        0
    } else {
        digits_value(s.drop_last()) * 10 + digit_value(s.last())
    }
}

pub open spec fn all_digits(s: Seq<char>) -> bool {
    forall|i: int| 0 <= i < s.len() ==> is_digit(#[trigger] s[i])
}

pub open spec fn ascii_lower(c: char) -> char {
    if 'A' <= c && c <= 'Z' {
        ((c as int) + 32) as char
    } else {
        c
    }
}

/// Whether `s` equals the lower-case ASCII word `w` ignoring ASCII case.
pub open spec fn eq_ignore_ascii_case(s: Seq<char>, w: Seq<char>) -> bool {
    s.len() == w.len() && forall|i: int| 0 <= i < s.len() ==> #[trigger] ascii_lower(s[i]) == w[i]
}

/// End of the integer digits of an unsigned number.
pub open spec fn int_end(b: Seq<char>) -> int {
    run_len(b, digit_pred()) as int
}

pub open spec fn has_point(b: Seq<char>) -> bool {
    int_end(b) < b.len() && b[int_end(b)] == '.'
}

/// End of the fraction digits (after the point), or of the integer digits
/// when there is no point.
pub open spec fn frac_end(b: Seq<char>) -> int {
    if has_point(b) {
        int_end(b) + 1 + run_len(b.skip(int_end(b) + 1), digit_pred())
    } else {
        int_end(b)
    }
}

pub open spec fn frac_len(b: Seq<char>) -> int {
    if has_point(b) {
        frac_end(b) - int_end(b) - 1
    } else {
        0
    }
}

/// The mantissa digits: integer digits then fraction digits.
pub open spec fn mantissa_digits(b: Seq<char>) -> Seq<char> {
    if has_point(b) {
        b.take(int_end(b)) + b.subrange(int_end(b) + 1, frac_end(b))
    } else {
        b.take(int_end(b))
    }
}

/// The exponent that follows the mantissa: `Some(0)` when there is none,
/// `None` when what follows is not `e`/`E`, an optional sign and digits.
pub open spec fn parse_exponent(rest: Seq<char>) -> Option<int> {
    if rest.len() == 0 {
        Some(0)
    } else if rest[0] == 'e' || rest[0] == 'E' {
        let x = rest.skip(1);
        let x_negative = x.len() > 0 && x[0] == '-';
        let xd = if x.len() > 0 && (x[0] == '+' || x[0] == '-') { x.skip(1) } else { x };
        if xd.len() > 0 && all_digits(xd) {
            Some(if x_negative { -(digits_value(xd) as int) } else { digits_value(xd) as int })
        } else {
            None
        }
    } else {
        None
    }
}

/// An unsigned number `digits[.digits][(e|E)[sign]digits]` with at least one
/// mantissa digit: `Some((m, e))` for `m * 10^e`, or `None` for other text.
pub open spec fn parse_unsigned_number(b: Seq<char>) -> Option<(nat, int)> {
    if int_end(b) + frac_len(b) == 0 {
        None
    } else {
        match parse_exponent(b.skip(frac_end(b))) {
            Some(x) => Some((digits_value(mantissa_digits(b)), x - frac_len(b))),
            None => None,
        }
    }
}

pub open spec fn number_mantissa(b: Seq<char>) -> nat {
    match parse_unsigned_number(b) {
        Some((m, _e)) => m,
        None => 0,
    }
}

pub open spec fn number_exp(b: Seq<char>) -> int {
    match parse_unsigned_number(b) {
        Some((_m, e)) => e,
        None => 0,
    }
}

/// What `f64::from_str` accepts, and the exact value of what it accepts.
pub open spec fn parse_decimal(s: Seq<char>) -> Option<Decimal> {
    let signed = s.len() > 0 && (s[0] == '+' || s[0] == '-');
    let negative = s.len() > 0 && s[0] == '-';
    let body = if signed { s.skip(1) } else { s };
    if eq_ignore_ascii_case(body, seq!['i', 'n', 'f']) || eq_ignore_ascii_case(
        body,
        seq!['i', 'n', 'f', 'i', 'n', 'i', 't', 'y'],
    ) {
        Some(Decimal::Infinite { negative })
    } else if eq_ignore_ascii_case(body, seq!['n', 'a', 'n']) {
        Some(Decimal::NotANumber)
    } else {
        match parse_unsigned_number(body) {
            Some((m, e)) => Some(Decimal::Finite { negative, mantissa: m, exp10: e }),
            None => None,
        }
    }
}

/// `floor(m * mult * 10^e)`.
pub open spec fn scaled_floor(m: nat, e: int, mult: nat) -> int {
    if e >= 0 {
        m * mult * pow(10, e as nat)
    } else {
        ((m * mult) as int) / pow(10, (-e) as nat)
    }
}

pub open spec fn clamp_u64(x: int) -> u64 {
    if x > u64::MAX {
        u64::MAX
    } else {
        x as u64
    }
}

/// `(value * mult) as u64` on the exact value: toward zero, clamped, NaN to 0.
pub open spec fn times_as_u64(d: Decimal, mult: nat) -> u64 {
    match d {
        Decimal::NotANumber => 0,
        Decimal::Infinite { negative } => if negative { 0 } else { u64::MAX },
        Decimal::Finite { negative, mantissa, exp10 } => if negative {
            0
        } else {
            clamp_u64(scaled_floor(mantissa, exp10, mult))
        },
    }
}

/// A decimal text times `mult`, as a byte count: `None` when the text is not
/// a number. The product is exact (the floor of the decimal value times
/// `mult`, clamped to `u64`). Parsing to `f64`, multiplying and truncating can
/// give one less where the decimal has no exact binary form: "2.01" times 1000
/// is 2010 here and 2009 in `f64`.
pub open spec fn scaled_parse(s: Seq<char>, mult: nat) -> Option<u64> {
    match parse_decimal(s) {
        Some(d) => Some(times_as_u64(d, mult)),
        None => None,
    }
}

// ---------------------------------------------------------------- lemmas

pub proof fn lemma_digits_concat(a: Seq<char>, b: Seq<char>)
    ensures
        digits_value(a + b) == digits_value(a) * pow(10, b.len()) + digits_value(b),
    decreases b.len(),
{
    if b.len() == 0 {
        assert(a + b == a);
        assert(digits_value(b) == 0);
        assert(pow(10, 0) == 1) by {
            vstd::arithmetic::power::lemma_pow0(10);
        }
    } else {
        let ab = a + b;
        assert(ab.drop_last() == a + b.drop_last());
        assert(ab.last() == b.last());
        lemma_digits_concat(a, b.drop_last());
        let p: int = pow(10, (b.len() - 1) as nat);
        lemma_pow_positive(10, (b.len() - 1) as nat);
        assert(pow(10, b.len()) == 10 * p) by {
            vstd::arithmetic::power::lemma_pow1(10);
            lemma_pow_adds(10, 1, (b.len() - 1) as nat);
        }
        let va: int = digits_value(a) as int;
        let vb1: int = digits_value(b.drop_last()) as int;
        let d: int = digit_value(b.last()) as int;
        assert(digits_value(ab) == digits_value(ab.drop_last()) * 10 + digit_value(ab.last()));
        assert(digits_value(ab.drop_last()) == va * p + vb1);
        assert(digits_value(b) == vb1 * 10 + d);
        assert((va * p + vb1) * 10 + d == va * (10 * p) + (vb1 * 10 + d)) by (nonlinear_arith);
        assert(digits_value(ab) == va * pow(10, b.len()) + digits_value(b));
    }
}

pub proof fn lemma_digits_upper(s: Seq<char>)
    requires
        all_digits(s),
    ensures
        digits_value(s) < pow(10, s.len()),
    decreases s.len(),
{
    if s.len() == 0 {
        vstd::arithmetic::power::lemma_pow0(10);
    } else {
        assert(all_digits(s.drop_last())) by {
            assert forall|i: int| 0 <= i < s.drop_last().len() implies is_digit(#[trigger] s.drop_last()[i]) by {
                assert(s.drop_last()[i] == s[i]);
            }
        }
        lemma_digits_upper(s.drop_last());
        let p = pow(10, (s.len() - 1) as nat);
        assert(pow(10, s.len()) == 10 * p) by {
            vstd::arithmetic::power::lemma_pow1(10);
            lemma_pow_adds(10, 1, (s.len() - 1) as nat);
        }
        assert(is_digit(s.last()));
        let v1 = digits_value(s.drop_last());
        assert(v1 + 1 <= p);
        assert(v1 * 10 + 10 <= p * 10) by (nonlinear_arith)
            requires v1 + 1 <= p;
    }
}

pub proof fn lemma_digits_lower(s: Seq<char>)
    requires
        all_digits(s),
        s.len() > 0,
        s[0] != '0',
    ensures
        digits_value(s) >= pow(10, (s.len() - 1) as nat),
{
    let first = s.take(1);
    let rest = s.skip(1);
    assert(s == first + rest);
    lemma_digits_concat(first, rest);
    assert(first.drop_last().len() == 0);
    assert(digits_value(first.drop_last()) == 0);
    assert(first.last() == s[0]);
    assert(digits_value(first) == digit_value(s[0]));
    assert(is_digit(s[0]));
    assert(digit_value(s[0]) >= 1);
    lemma_pow_positive(10, rest.len());
    let p = pow(10, rest.len());
    assert(digit_value(s[0]) * p >= p) by (nonlinear_arith)
        requires digit_value(s[0]) >= 1, p > 0;
}

pub proof fn lemma_digits_leading_zeros(z: Seq<char>, s: Seq<char>)
    requires
        forall|i: int| 0 <= i < z.len() ==> #[trigger] z[i] == '0',
    ensures
        digits_value(z + s) == digits_value(s),
    decreases z.len(),
{
    lemma_digits_concat(z, s);
    lemma_zeros_value(z);
}

proof fn lemma_zeros_value(z: Seq<char>)
    requires
        forall|i: int| 0 <= i < z.len() ==> #[trigger] z[i] == '0',
    ensures
        digits_value(z) == 0,
    decreases z.len(),
{
    if z.len() > 0 {
        assert forall|i: int| 0 <= i < z.drop_last().len() implies #[trigger] z.drop_last()[i] == '0' by {
            assert(z.drop_last()[i] == z[i]);
        }
        lemma_zeros_value(z.drop_last());
        assert(z.last() == '0');
    }
}

/// The right-to-left fold computes `floor(mult * 0.f1f2...fL)`.
pub open spec fn frac_fold(f: Seq<char>, mult: nat) -> nat
    decreases f.len(),
{
    if f.len() == 0 {
        0
    } else {
        (mult * digit_value(f[0]) + frac_fold(f.skip(1), mult)) / 10
    }
}

pub proof fn lemma_frac_fold(f: Seq<char>, mult: nat)
    requires
        all_digits(f),
    ensures
        frac_fold(f, mult) == ((mult * digits_value(f)) as int) / pow(10, f.len()),
        mult > 0 ==> frac_fold(f, mult) < mult,
        mult == 0 ==> frac_fold(f, mult) == 0,
    decreases f.len(),
{
    lemma_pow_positive(10, f.len());
    if f.len() == 0 {
        vstd::arithmetic::power::lemma_pow0(10);
        assert(digits_value(f) == 0);
        assert(frac_fold(f, mult) == 0);
        assert(((mult * digits_value(f)) as int) / pow(10, f.len()) == 0);
    } else {
        let r = f.skip(1);
        assert(all_digits(r)) by {
            assert forall|i: int| 0 <= i < r.len() implies is_digit(#[trigger] r[i]) by {
                assert(r[i] == f[i + 1]);
            }
        }
        lemma_frac_fold(r, mult);
        assert(f == f.take(1) + r);
        lemma_digits_concat(f.take(1), r);
        assert(f.take(1).drop_last().len() == 0);
        assert(digits_value(f.take(1).drop_last()) == 0);
        assert(f.take(1).last() == f[0]);
        assert(digits_value(f.take(1)) == digit_value(f[0]));
        let d = digit_value(f[0]);
        assert(is_digit(f[0]));
        assert(d <= 9);
        let q = pow(10, r.len());
        lemma_pow_positive(10, r.len());
        assert(pow(10, f.len()) == q * 10) by {
            vstd::arithmetic::power::lemma_pow1(10);
            lemma_pow_adds(10, r.len(), 1);
        }
        let vr = digits_value(r);
        lemma_digits_upper(r);
        // mult * value(f) == mult * vr + (mult * d) * q
        let x = mult * vr;
        assert(mult * (d * q + vr) == x + (mult * d) * q) by (nonlinear_arith)
            requires x == mult * vr;
        assert(digits_value(f) == d * q + vr);
        lemma_mul_nonnegative(mult as int, vr as int);
        lemma_hoist_over_denominator(x as int, (mult * d) as int, q as nat);
        // (x / q + mult * d) / 10 == ((x + mult*d*q) / q) / 10 == (x + mult*d*q) / (q*10)
        lemma_mul_nonnegative((mult * d) as int, q as int);
        lemma_div_denominator((x + (mult * d) * q) as int, q as int, 10);
        let fr = frac_fold(r, mult);
        assert(fr == (x as int) / q);
        assert(frac_fold(f, mult) == (mult * d + fr) / 10);
        assert((x as int) / q + (mult * d) == (x + (mult * d) * q) / q);
        assert(((x + (mult * d) * q) / q) / 10 == (x + (mult * d) * q) / (q * 10));
        assert((mult * digits_value(f)) as int == x + (mult * d) * q);
        assert(frac_fold(f, mult) == ((mult * digits_value(f)) as int) / pow(10, f.len()));
        // bound: frac_fold(r) < mult (or == 0), so (mult*d + fold) < 10*mult
        if mult > 0 {
            let fr = frac_fold(r, mult);
            assert(mult * d + fr < 10 * mult) by (nonlinear_arith)
                requires d <= 9, fr < mult;
        }
    }
}

pub proof fn lemma_pow10_facts()
    ensures
        pow(10, 20) == 100000000000000000000int,
        pow(10, 10) == 10000000000int,
        pow(10, 20) > u64::MAX,
{
    reveal_with_fuel(pow, 21);
}

/// A value with at least `21 - e` integer digits overflows a `u64`.
pub proof fn lemma_big(m: nat, n: nat, e: int, mult: nat)
    requires
        n >= 1,
        m >= pow(10, (n - 1) as nat),
        mult >= 1,
        n + e >= 21,
    ensures
        scaled_floor(m, e, mult) >= pow(10, 20),
{
    lemma_pow10_facts();
    let k = (n - 1 + e) as nat;
    lemma_pow_increases(10, 20, k);
    lemma_pow_positive(10, k);
    if e >= 0 {
        lemma_pow_adds(10, (n - 1) as nat, e as nat);
        lemma_pow_positive(10, (n - 1) as nat);
        lemma_pow_positive(10, e as nat);
        let a = pow(10, (n - 1) as nat);
        let b = pow(10, e as nat);
        assert(m * mult * b >= a * b) by (nonlinear_arith)
            requires m >= a, mult >= 1, b > 0, a > 0;
    } else {
        let ne = (-e) as nat;
        lemma_pow_adds(10, k, ne);
        lemma_pow_positive(10, ne);
        let a = pow(10, k);
        let b = pow(10, ne);
        assert(pow(10, (n - 1) as nat) == a * b);
        assert(m * mult >= a * b) by (nonlinear_arith)
            requires m >= a * b, mult >= 1, b > 0, a > 0;
        lemma_div_is_ordered(a * b, (m * mult) as int, b);
        lemma_div_multiples_vanish(a, b);
        assert((b * a) / b == a);
        assert(a * b == b * a) by (nonlinear_arith);
    }
}

/// A value whose first significant digit lies more than ten places after the
/// point is less than one even after multiplying by up to `2^30`.
pub proof fn lemma_tiny(m: nat, n: nat, e: int, mult: nat)
    requires
        m < pow(10, n),
        mult <= 0x4000_0000,
        e < 0,
        n + 10 < -e,
    ensures
        scaled_floor(m, e, mult) == 0,
{
    lemma_pow10_facts();
    let ne = (-e) as nat;
    lemma_pow_positive(10, n);
    lemma_pow_adds(10, n, 10);
    lemma_pow_increases(10, n + 10, ne);
    let a = pow(10, n);
    assert(m * mult < a * pow(10, 10)) by (nonlinear_arith)
        requires m < a, mult <= 0x4000_0000, pow(10, 10) == 10000000000int;
    lemma_basic_div((m * mult) as int, pow(10, ne));
}

// ---------------------------------------------------------------- exec

fn digit_of(c: char) -> (d: u64)
    requires
        is_digit(c),
    ensures
        d == digit_value(c),
        d <= 9,
{
    let v: u32 = c as u32;
    (v - 48) as u64
}


proof fn lemma_all_digits_skip(d: Seq<char>, k: int)
    requires
        all_digits(d),
        0 <= k <= d.len(),
    ensures
        all_digits(d.skip(k)),
        all_digits(d.take(k)),
{
    assert forall|i: int| 0 <= i < d.skip(k).len() implies is_digit(#[trigger] d.skip(k)[i]) by {
        assert(d.skip(k)[i] == d[i + k]);
    }
    assert forall|i: int| 0 <= i < d.take(k).len() implies is_digit(#[trigger] d.take(k)[i]) by {
        assert(d.take(k)[i] == d[i]);
    }
}

/// `floor(mult * 0.d[lo]d[lo+1]...)`, folded from the last digit back.
fn fold_frac(d: &Vec<char>, lo: usize, mult: u64) -> (c: u64)
    requires
        all_digits(d@),
        lo <= d.len(),
        1 <= mult <= 0x4000_0000,
    ensures
        c == frac_fold(d@.skip(lo as int), mult as nat),
        c < mult,
{
    let mut c: u64 = 0;
    let mut j: usize = d.len();
    proof {
        assert(d@.skip(j as int).len() == 0);
    }
    while j > lo
        invariant
            lo <= j <= d.len(),
            all_digits(d@),
            1 <= mult <= 0x4000_0000,
            c == frac_fold(d@.skip(j as int), mult as nat),
            c < mult,
        decreases j,
    {
        let ghost t = d@.skip(j - 1);
        proof {
            assert(t.skip(1) == d@.skip(j as int));
            assert(t[0] == d@[j - 1]);
            assert(is_digit(d@[j - 1]));
            lemma_all_digits_skip(d@, j - 1);
            lemma_frac_fold(t, mult as nat);
        }
        let g = digit_of(d[j - 1]);
        assert(mult * g <= mult * 9) by (nonlinear_arith)
            requires g <= 9;
        c = (mult * g + c) / 10;
        j = j - 1;
    }
    c
}

/// The number the digits `d[lo..hi]` spell, for at most twenty digits.
fn small_value(d: &Vec<char>, lo: usize, hi: usize) -> (v: u128)
    requires
        all_digits(d@),
        lo <= hi <= d.len(),
        hi - lo <= 20,
    ensures
        v == digits_value(d@.subrange(lo as int, hi as int)),
        v < pow(10, (hi - lo) as nat),
{
    let mut v: u128 = 0;
    let mut i = lo;
    proof {
        assert(d@.subrange(lo as int, lo as int).len() == 0);
        vstd::arithmetic::power::lemma_pow0(10);
    }
    while i < hi
        invariant
            lo <= i <= hi <= d.len(),
            hi - lo <= 20,
            all_digits(d@),
            v == digits_value(d@.subrange(lo as int, i as int)),
            v < pow(10, (i - lo) as nat),
        decreases hi - i,
    {
        proof {
            lemma_pow10_facts();
            lemma_pow_increases(10, (i - lo + 1) as nat, 20);
            vstd::arithmetic::power::lemma_pow1(10);
            lemma_pow_adds(10, (i - lo) as nat, 1);
            assert(d@.subrange(lo as int, i + 1).drop_last() == d@.subrange(lo as int, i as int));
            assert(d@.subrange(lo as int, i + 1).last() == d@[i as int]);
            assert(is_digit(d@[i as int]));
        }
        let g = digit_of(d[i]);
        let ghost p = pow(10, (i - lo) as nat);
        assert(v * 10 + g < p * 10) by (nonlinear_arith)
            requires v < p, g <= 9;
        v = v * 10 + g as u128;
        i = i + 1;
    }
    v
}

/// `clamp(floor(digits_value(d) * mult * 10^e))`, for exponents that fit.
pub fn scale_digits(d: &Vec<char>, e: i128, mult: u64) -> (r: u64)
    requires
        all_digits(d@),
        1 <= mult <= 0x4000_0000,
        -0x10_0000_0000_0000_0000_0000_0000 <= e <= 0x10_0000_0000_0000_0000_0000_0000,
    ensures
        r == clamp_u64(scaled_floor(digits_value(d@), e as int, mult as nat)),
{
    let mut z: usize = 0;
    while z < d.len() && d[z] == '0'
        invariant
            z <= d.len(),
            forall|i: int| 0 <= i < z ==> #[trigger] d@[i] == '0',
        decreases d.len() - z,
    {
        z = z + 1;
    }
    let ghost dp = d@.skip(z as int);
    let ghost m = digits_value(d@);
    proof {
        assert(d@ == d@.take(z as int) + dp);
        lemma_digits_leading_zeros(d@.take(z as int), dp);
        lemma_all_digits_skip(d@, z as int);
        lemma_pow10_facts();
    }
    assert(m == digits_value(dp));
    if z == d.len() {
        assert(dp.len() == 0);
        assert(m == 0);
        assert(m * mult == 0) by (nonlinear_arith)
            requires m == 0;
        assert(scaled_floor(m, e as int, mult as nat) == 0) by {
            if e < 0 {
                lemma_pow_positive(10, (-e) as nat);
                vstd::arithmetic::div_mod::lemma_div_of0(pow(10, (-e) as nat));
            } else {
                assert(m * mult * pow(10, e as nat) == 0) by (nonlinear_arith)
                    requires m * mult == 0;
            }
        }
        return 0;
    }
    let n = d.len() - z;
    proof {
        assert(dp[0] == d@[z as int]);
        lemma_digits_lower(dp);
        lemma_digits_upper(dp);
    }
    let p: i128 = n as i128 + e;
    if p > 20 {
        proof {
            lemma_big(m, n as nat, e as int, mult as nat);
        }
        return u64::MAX;
    }
    if p < -10 {
        proof {
            lemma_tiny(m, n as nat, e as int, mult as nat);
        }
        return 0;
    }
    if p >= n as i128 {
        // No fraction: m * 10^e * mult with e in 0..=20 and at most 20 digits in all.
        let mut v = small_value(d, z, d.len());
        assert(d@.subrange(z as int, d@.len() as int) == dp);
        let ee = e as u64;
        let mut k: u64 = 0;
        proof {
            vstd::arithmetic::power::lemma_pow0(10);
            assert(m * 1 == m);
        }
        while k < ee
            invariant
                k <= ee <= 20,
                n + ee <= 20,
                v == m * pow(10, k as nat),
                v < pow(10, (n + k) as nat),
                m < pow(10, n as nat),
            decreases ee - k,
        {
            proof {
                lemma_pow10_facts();
                lemma_pow_increases(10, (n + k + 1) as nat, 20);
                vstd::arithmetic::power::lemma_pow1(10);
                lemma_pow_adds(10, k as nat, 1);
                lemma_pow_adds(10, (n + k) as nat, 1);
                let q = pow(10, k as nat);
                assert(m * q * 10 == m * (q * 10)) by (nonlinear_arith);
            }
            v = v * 10;
            k = k + 1;
        }
        proof {
            lemma_pow10_facts();
            lemma_pow_increases(10, (n + ee) as nat, 20);
            assert(v * mult <= pow(10, 20) * 0x4000_0000) by (nonlinear_arith)
                requires v < pow(10, 20), mult <= 0x4000_0000;
            let q = pow(10, ee as nat);
            assert(m * q * mult == m * mult * q) by (nonlinear_arith);
        }
        let w = v * (mult as u128);
        if w > u64::MAX as u128 {
            return u64::MAX;
        }
        return w as u64;
    }
    if p >= 0 {
        // Integer digits d[z..z+p], fraction digits d[z+p..].
        let pu = p as usize;
        let iv = small_value(d, z, z + pu);
        let c = fold_frac(d, z + pu, mult);
        proof {
            let a = dp.take(p as int);
            let f = dp.skip(p as int);
            assert(dp == a + f);
            assert(a == d@.subrange(z as int, z + pu));
            assert(f == d@.skip(z + pu));
            lemma_digits_concat(a, f);
            lemma_all_digits_skip(dp, p as int);
            lemma_frac_fold(f, mult as nat);
            let l = f.len();
            assert(l == n - pu);
            assert(-e == l);
            let q = pow(10, l);
            lemma_pow_positive(10, l);
            let x = mult * digits_value(f);
            lemma_mul_nonnegative(mult as int, digits_value(f) as int);
            assert(m * mult == x + (iv * mult) * q) by (nonlinear_arith)
                requires m == iv * q + digits_value(f), x == mult * digits_value(f);
            lemma_hoist_over_denominator(x as int, (iv * mult) as int, q as nat);
            lemma_pow_increases(10, pu as nat, 20);
            assert(iv * mult <= pow(10, 20) * 0x4000_0000) by (nonlinear_arith)
                requires iv < pow(10, 20), mult <= 0x4000_0000;
            lemma_pow_increases(10, pu as nat, 20);
        }
        let w = iv * (mult as u128) + c as u128;
        if w > u64::MAX as u128 {
            return u64::MAX;
        }
        return w as u64;
    }
    // -10 <= p < 0: every digit is a fraction digit, after -p zeros.
    let mut c = fold_frac(d, z, mult);
    let k = (-p) as u64;
    let mut j: u64 = 0;
    proof {
        lemma_frac_fold(dp, mult as nat);
        vstd::arithmetic::power::lemma_pow0(10);
        lemma_pow_positive(10, n as nat);
    }
    let ghost x = (mult * m) as int;
    let ghost l = n as nat;
    assert(c == x / pow(10, l)) by {
        assert(pow(10, l) * 1 == pow(10, l));
    }
    while j < k
        invariant
            j <= k <= 10,
            x >= 0,
            c == x / pow(10, (l + j) as nat),
        decreases k - j,
    {
        proof {
            lemma_pow_positive(10, (l + j) as nat);
            lemma_div_denominator(x, pow(10, (l + j) as nat), 10);
            vstd::arithmetic::power::lemma_pow1(10);
            lemma_pow_adds(10, (l + j) as nat, 1);
        }
        c = c / 10;
        j = j + 1;
    }
    assert((l + k) as int == -e);
    assert(m * mult == mult * m) by (nonlinear_arith);
    c
}

/// Exponents at or beyond this bound saturate the result either way.
const EXP_CAP: u128 = 0x1_0000_0000_0000_0000_0000_0000;

/// Beyond twenty decimal places in either direction, only whether the value is
/// zero matters.
pub proof fn lemma_same_clamp_huge(m: nat, e1: int, e2: int, mult: nat)
    requires
        e1 >= 20,
        e2 >= 20,
        mult >= 1,
    ensures
        clamp_u64(scaled_floor(m, e1, mult)) == clamp_u64(scaled_floor(m, e2, mult)),
{
    lemma_pow10_facts();
    if m == 0 {
        assert(m * mult * pow(10, e1 as nat) == 0) by (nonlinear_arith)
            requires m == 0;
        assert(m * mult * pow(10, e2 as nat) == 0) by (nonlinear_arith)
            requires m == 0;
    } else {
        lemma_pow_increases(10, 20, e1 as nat);
        lemma_pow_increases(10, 20, e2 as nat);
        let a = pow(10, e1 as nat);
        let b = pow(10, e2 as nat);
        assert(m * mult * a >= a) by (nonlinear_arith)
            requires m >= 1, mult >= 1, a > 0;
        assert(m * mult * b >= b) by (nonlinear_arith)
            requires m >= 1, mult >= 1, b > 0;
    }
}

fn skip_digits(v: &Vec<char>, from: usize) -> (i: usize)
    requires
        from <= v.len(),
    ensures
        from <= i <= v.len(),
        i - from == run_len(v@.skip(from as int), digit_pred()),
        forall|j: int| from <= j < i ==> is_digit(#[trigger] v@[j]),
{
    let mut i = from;
    while i < v.len() && is_ascii_digit(v[i])
        invariant
            from <= i <= v.len(),
            forall|j: int| from <= j < i ==> is_digit(#[trigger] v@[j]),
        decreases v.len() - i,
    {
        i = i + 1;
    }
    proof {
        let t = v@.skip(from as int);
        assert forall|j: int| 0 <= j < i - from implies #[trigger] digit_pred()(t[j]) by {
            assert(t[j] == v@[from + j]);
        }
        if i < v.len() {
            assert(t[i - from] == v@[i as int]);
        }
        lemma_run_len_at(t, digit_pred(), i - from);
    }
    i
}

fn is_letter(c: char, lower: char) -> (b: bool)
    requires
        'a' <= lower <= 'z',
    ensures
        b == (ascii_lower(c) == lower),
{
    c == lower || (c as u32) + 32 == lower as u32
}

fn matches_word(b: &Vec<char>, w: &[char]) -> (r: bool)
    requires
        forall|i: int| 0 <= i < w@.len() ==> 'a' <= #[trigger] w@[i] <= 'z',
    ensures
        r == eq_ignore_ascii_case(b@, w@),
{
    if b.len() != w.len() {
        return false;
    }
    let mut i: usize = 0;
    while i < b.len()
        invariant
            i <= b.len() == w@.len(),
            forall|j: int| 0 <= j < w@.len() ==> 'a' <= #[trigger] w@[j] <= 'z',
            forall|j: int| 0 <= j < i ==> #[trigger] ascii_lower(b@[j]) == w@[j],
        decreases b.len() - i,
    {
        if !is_letter(b[i], w[i]) {
            return false;
        }
        i = i + 1;
    }
    true
}

/// The pieces of an unsigned number: its digits, the count of fraction
/// digits, and the exponent's sign and value (clamped to `EXP_CAP`).
struct NumberParts {
    digits: Vec<char>,
    frac_len: usize,
    exp_negative: bool,
    exp_capped: u128,
    exp_value: Ghost<nat>,
}

/// Parses the exponent part that starts at `j`.
fn parse_exponent_at(b: &Vec<char>, j: usize) -> (r: Option<(bool, u128, Ghost<nat>)>)
    requires
        j <= b.len(),
    ensures
        match r {
            None => parse_exponent(b@.skip(j as int)) is None,
            Some((neg, capped, exact)) => {
                &&& parse_exponent(b@.skip(j as int)) == Some(
                    if neg { -(exact@ as int) } else { exact@ as int },
                )
                &&& capped == (if exact@ >= EXP_CAP { EXP_CAP as nat } else { exact@ })
            },
        },
{
    let ghost s = b@;
    let ghost rest = s.skip(j as int);
    if j == b.len() {
        assert(rest.len() == 0);
        return Some((false, 0, Ghost(0)));
    }
    assert(rest[0] == s[j as int]);
    if b[j] != 'e' && b[j] != 'E' {
        return None;
    }
    let ghost x = rest.skip(1);
    assert(x == s.skip(j + 1));
    let exp_negative = j + 1 < b.len() && b[j + 1] == '-';
    let xs = if j + 1 < b.len() && (b[j + 1] == '+' || b[j + 1] == '-') { j + 2 } else { j + 1 };
    proof {
        if j + 1 < b.len() {
            assert(x[0] == s[j + 1]);
        }
        if xs == j + 2 {
            assert(x.skip(1) == s.skip(xs as int));
        } else {
            assert(x == s.skip(xs as int));
        }
    }
    if xs >= b.len() {
        assert(s.skip(xs as int).len() == 0);
        return None;
    }
    let ghost xd = s.skip(xs as int);
    assert(parse_exponent(rest) == (if xd.len() > 0 && all_digits(xd) {
        Some(if exp_negative { -(digits_value(xd) as int) } else { digits_value(xd) as int })
    } else {
        None::<int>
    }));
    let mut k = xs;
    let mut value: u128 = 0;
    let ghost mut exact: nat = 0;
    while k < b.len()
        invariant
            xs <= k <= b.len(),
            forall|q: int| xs <= q < k ==> is_digit(#[trigger] s[q]),
            s == b@,
            exact == digits_value(s.subrange(xs as int, k as int)),
            value == (if exact >= EXP_CAP { EXP_CAP as nat } else { exact }),
            xd == s.skip(xs as int),
            rest == b@.skip(j as int),
            xd.len() > 0,
            parse_exponent(rest) == (if xd.len() > 0 && all_digits(xd) {
                Some(if exp_negative { -(digits_value(xd) as int) } else { digits_value(xd) as int })
            } else {
                None::<int>
            }),
        decreases b.len() - k,
    {
        if !is_ascii_digit(b[k]) {
            proof {
                assert(s.skip(xs as int)[k - xs] == s[k as int]);
                assert(!all_digits(s.skip(xs as int)));
            }
            return None;
        }
        let g = digit_of(b[k]);
        proof {
            assert(s.subrange(xs as int, k + 1).drop_last() == s.subrange(xs as int, k as int));
            assert(s.subrange(xs as int, k + 1).last() == s[k as int]);
            exact = exact * 10 + g as nat;
        }
        if value >= EXP_CAP {
            value = EXP_CAP;
        } else {
            value = value * 10 + g as u128;
            if value > EXP_CAP {
                value = EXP_CAP;
            }
        }
        k = k + 1;
    }
    proof {
        assert(s.subrange(xs as int, b@.len() as int) == s.skip(xs as int));
        assert forall|q: int| 0 <= q < s.skip(xs as int).len() implies is_digit(
            #[trigger] s.skip(xs as int)[q],
        ) by {
            assert(s.skip(xs as int)[q] == s[xs + q]);
        }
    }
    Some((exp_negative, value, Ghost(exact)))
}

fn parse_unsigned(b: &Vec<char>) -> (r: Option<NumberParts>)
    ensures
        match r {
            None => parse_unsigned_number(b@) is None,
            Some(parts) => {
                &&& parse_unsigned_number(b@) is Some
                &&& all_digits(parts.digits@)
                &&& parts.digits@.len() <= b@.len()
                &&& parts.frac_len <= b@.len()
                &&& number_mantissa(b@) == digits_value(parts.digits@)
                &&& number_exp(b@) == (if parts.exp_negative {
                    -(parts.exp_value@ as int)
                } else {
                    parts.exp_value@ as int
                }) - parts.frac_len
                &&& parts.exp_capped == (if parts.exp_value@ >= EXP_CAP {
                    EXP_CAP as nat
                } else {
                    parts.exp_value@
                })
            },
        },
{
    let ghost s = b@;
    let i = skip_digits(b, 0);
    assert(s.skip(0) == s);
    assert(i == int_end(s));
    let point = i < b.len() && b[i] == '.';
    assert(point == has_point(s));
    let mut j = i;
    if point {
        j = skip_digits(b, i + 1);
    }
    assert(j == frac_end(s));
    let flen = if point { j - i - 1 } else { 0 };
    assert(flen == frac_len(s));
    if i + flen == 0 {
        return None;
    }
    let int_part = slice_chars(b, 0, i);
    let frac_part = if point { slice_chars(b, i + 1, j) } else { Vec::new() };
    let digits = concat(&int_part, &frac_part);
    proof {
        assert(int_part@ == s.take(i as int));
        if !point {
            assert(frac_part@ =~= Seq::<char>::empty());
            assert(digits@ == s.take(i as int));
        }
        assert(digits@ == mantissa_digits(s));
        assert forall|k: int| 0 <= k < digits@.len() implies is_digit(#[trigger] digits@[k]) by {
            if k < i {
                assert(digits@[k] == s[k]);
            } else {
                assert(digits@[k] == s[k + 1]);
            }
        }
    }
    match parse_exponent_at(b, j) {
        None => None,
        Some((neg, capped, exact)) => Some(
            NumberParts {
                digits,
                frac_len: flen,
                exp_negative: neg,
                exp_capped: capped,
                exp_value: exact,
            },
        ),
    }
}

/// `(text.parse::<f64>()? * mult) as u64`, on the exact decimal value.
pub fn parse_scaled(v: &Vec<char>, mult: u64) -> (r: Option<u64>)
    requires
        1 <= mult <= 0x4000_0000,
    ensures
        r == scaled_parse(v@, mult as nat),
{
    let signed = v.len() > 0 && (v[0] == '+' || v[0] == '-');
    let negative = v.len() > 0 && v[0] == '-';
    let body = if signed { slice_chars(v, 1, v.len()) } else { slice_chars(v, 0, v.len()) };
    proof {
        if signed {
            assert(body@ == v@.skip(1));
        } else {
            assert(body@ == v@);
        }
    }
    let inf: [char; 3] = ['i', 'n', 'f'];
    let infinity: [char; 8] = ['i', 'n', 'f', 'i', 'n', 'i', 't', 'y'];
    let nan: [char; 3] = ['n', 'a', 'n'];
    assert(inf@ == seq!['i', 'n', 'f']);
    assert(infinity@ == seq!['i', 'n', 'f', 'i', 'n', 'i', 't', 'y']);
    assert(nan@ == seq!['n', 'a', 'n']);
    if matches_word(&body, &inf) || matches_word(&body, &infinity) {
        return Some(if negative { 0 } else { u64::MAX });
    }
    if matches_word(&body, &nan) {
        return Some(0);
    }
    match parse_unsigned(&body) {
        None => None,
        Some(parts) => {
            if negative {
                return Some(0);
            }
            let ghost m = digits_value(parts.digits@);
            let ghost e = number_exp(body@);
            let k = parts.frac_len as i128;
            proof {
                lemma_digits_upper(parts.digits@);
            }
            let r = if parts.exp_capped >= EXP_CAP {
                if parts.exp_negative {
                    let ec = -(EXP_CAP as i128) - k;
                    proof {
                        lemma_tiny(m, parts.digits@.len(), e, mult as nat);
                        lemma_tiny(m, parts.digits@.len(), ec as int, mult as nat);
                    }
                    scale_digits(&parts.digits, ec, mult)
                } else {
                    let ec = (EXP_CAP as i128) - k;
                    proof {
                        lemma_same_clamp_huge(m, e, ec as int, mult as nat);
                    }
                    scale_digits(&parts.digits, ec, mult)
                }
            } else {
                let x = parts.exp_capped as i128;
                let e_exec = if parts.exp_negative { -x - k } else { x - k };
                assert(e_exec == e);
                scale_digits(&parts.digits, e_exec, mult)
            };
            Some(r)
        },
    }
}
} // verus!

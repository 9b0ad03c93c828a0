//! IEEE-754 binary64 numbers, carried as `u64` bit patterns.
//!
//! The language's numeric values are IEEE double-precision numbers. The
//! library holds them as their bit patterns and performs the arithmetic
//! through `rustc_apfloat`, a software implementation of IEEE-754 whose
//! results are a deterministic function of the operand bit patterns alone.
//! Each operation is named by an uninterpreted spec function, and every
//! contract above this module speaks of those names.
use rustc_apfloat::Float;
use vstd::prelude::*;

verus! {

/// Bit pattern of the IEEE binary64 value `0.0`.
pub const ZERO_BITS: u64 = 0x0000_0000_0000_0000;

/// Bit pattern of the IEEE binary64 value `1.0`.
pub const ONE_BITS: u64 = 0x3FF0_0000_0000_0000;

/// The IEEE binary64 sum of the two numbers with the given bit patterns.
pub uninterp spec fn add_bits_of(a: u64, b: u64) -> u64;

/// The IEEE binary64 difference of the numbers with the given bit patterns.
pub uninterp spec fn sub_bits_of(a: u64, b: u64) -> u64;

/// The IEEE binary64 product of the numbers with the given bit patterns.
pub uninterp spec fn mul_bits_of(a: u64, b: u64) -> u64;

/// The IEEE binary64 quotient of the numbers with the given bit patterns.
pub uninterp spec fn div_bits_of(a: u64, b: u64) -> u64;

/// IEEE equality of the numbers with the given bit patterns
/// (`NaN != NaN`, `0.0 == -0.0`).
pub uninterp spec fn eq_bits_of(a: u64, b: u64) -> bool;

/// The binary64 value nearest to the decimal numeral written in `s`.
pub uninterp spec fn literal_bits_of(s: Seq<char>) -> u64;

/// The binary64 value nearest to the integer `n`.
pub uninterp spec fn u64_bits_of(n: u64) -> u64;

/// The decimal rendering of the number with the given bit pattern.
pub uninterp spec fn format_bits_of(a: u64) -> Seq<char>;

/// Relies on `rustc_apfloat::ieee::Double::add_r` with round-to-nearest-even:
/// IEEE binary64 addition, a deterministic function of the operand bits.
#[verifier::external_body]
pub(crate) fn add_bits(a: u64, b: u64) -> (r: u64)
    ensures
        r == add_bits_of(a, b),
{
    let x = rustc_apfloat::ieee::Double::from_bits(a as u128);
    let y = rustc_apfloat::ieee::Double::from_bits(b as u128);
    (x + y).value.to_bits() as u64
}

/// Relies on `rustc_apfloat::ieee::Double::sub_r` with round-to-nearest-even:
/// IEEE binary64 subtraction, a deterministic function of the operand bits.
#[verifier::external_body]
pub(crate) fn sub_bits(a: u64, b: u64) -> (r: u64)
    ensures
        r == sub_bits_of(a, b),
{
    let x = rustc_apfloat::ieee::Double::from_bits(a as u128);
    let y = rustc_apfloat::ieee::Double::from_bits(b as u128);
    (x - y).value.to_bits() as u64
}

/// Relies on `rustc_apfloat::ieee::Double::mul_r` with round-to-nearest-even:
/// IEEE binary64 multiplication, a deterministic function of the operand bits.
#[verifier::external_body]
pub(crate) fn mul_bits(a: u64, b: u64) -> (r: u64)
    ensures
        r == mul_bits_of(a, b),
{
    let x = rustc_apfloat::ieee::Double::from_bits(a as u128);
    let y = rustc_apfloat::ieee::Double::from_bits(b as u128);
    (x * y).value.to_bits() as u64
}

/// Relies on `rustc_apfloat::ieee::Double::div_r` with round-to-nearest-even:
/// IEEE binary64 division, a deterministic function of the operand bits
/// (division by zero yields an infinity or NaN, never a fault).
#[verifier::external_body]
pub(crate) fn div_bits(a: u64, b: u64) -> (r: u64)
    ensures
        r == div_bits_of(a, b),
{
    let x = rustc_apfloat::ieee::Double::from_bits(a as u128);
    let y = rustc_apfloat::ieee::Double::from_bits(b as u128);
    (x / y).value.to_bits() as u64
}

/// Relies on `PartialEq for rustc_apfloat::ieee::IeeeFloat`: IEEE equality
/// of the two numbers, a deterministic function of the operand bits.
#[verifier::external_body]
pub(crate) fn eq_bits(a: u64, b: u64) -> (r: bool)
    ensures
        r == eq_bits_of(a, b),
{
    let x = rustc_apfloat::ieee::Double::from_bits(a as u128);
    let y = rustc_apfloat::ieee::Double::from_bits(b as u128);
    x == y
}

pub open spec fn is_digit(c: char) -> bool {
    ('0' as u32) <= (c as u32) <= ('9' as u32)
}

/// First position at or after `i` that does not hold a digit.
pub open spec fn digit_run(s: Seq<char>, i: int) -> int
    decreases s.len() - i,
{
    if i < 0 || i >= s.len() {
        i
    } else if is_digit(s[i]) {
        digit_run(s, i + 1)
    } else {
        i
    }
}

/// True of the numerals the grammar admits: one or more digits, optionally
/// followed by a point and one or more digits.
pub open spec fn spec_is_numeral(s: Seq<char>) -> bool {
    let d = digit_run(s, 0);
    0 < d && (d == s.len() || (d < s.len() && s[d] == '.' && d + 1 < s.len() && digit_run(s, d + 1)
        == s.len()))
}

/// Relies on `rustc_apfloat::ieee::Double::from_str_r` with
/// round-to-nearest-even: the binary64 value nearest to the decimal numeral,
/// a deterministic function of the characters alone. Parsing a string of the
/// numeral shape admitted by the grammar cannot fail.
#[verifier::external_body]
pub(crate) fn literal_bits(s: &str) -> (r: u64)
    requires
        spec_is_numeral(s@),
    ensures
        r == literal_bits_of(s@),
{
    match s.parse::<rustc_apfloat::ieee::Double>() {
        Ok(v) => v.to_bits() as u64,
        Err(_) => 0,
    }
}

/// Relies on `rustc_apfloat::ieee::Double::from_u128_r` with
/// round-to-nearest-even: the binary64 value nearest to the given integer,
/// a deterministic function of it.
#[verifier::external_body]
pub(crate) fn u64_bits(n: u64) -> (r: u64)
    ensures
        r == u64_bits_of(n),
{
    rustc_apfloat::ieee::Double::from_u128(n as u128).value.to_bits() as u64
}

/// Relies on `Display for rustc_apfloat::ieee::IeeeFloat`: a decimal form
/// with enough digits to round-trip, a deterministic function of the bits
/// (an integer-valued number prints without a decimal point).
#[verifier::external_body]
pub(crate) fn format_bits(a: u64) -> (r: String)
    ensures
        r@ == format_bits_of(a),
{
    format!("{}", rustc_apfloat::ieee::Double::from_bits(a as u128))
}

/// One summation step for the built-in sine: term `k` is the previous term
/// times `x^2 / ((2k)(2k+1))`, added or subtracted in alternation.
pub open spec fn spec_sin_iter(x2: u64, t: u64, k: u64, s: u64) -> u64
    decreases 26 - k,
{
    if k >= 26 {
        s
    } else {
        let t2 = div_bits_of(mul_bits_of(t, x2), u64_bits_of((2 * k * (2 * k + 1)) as u64));
        let s2 = if k % 2 == 1 {
            sub_bits_of(s, t2)
        } else {
            add_bits_of(s, t2)
        };
        spec_sin_iter(x2, t2, (k + 1) as u64, s2)
    }
}

/// One summation step for the built-in cosine, with term divisors
/// `(2k-1)(2k)`.
pub open spec fn spec_cos_iter(x2: u64, t: u64, k: u64, s: u64) -> u64
    decreases 26 - k,
{
    if k >= 26 {
        s
    } else {
        let t2 = div_bits_of(mul_bits_of(t, x2), u64_bits_of(((2 * k - 1) * 2 * k) as u64));
        let s2 = if k % 2 == 1 {
            sub_bits_of(s, t2)
        } else {
            add_bits_of(s, t2)
        };
        spec_cos_iter(x2, t2, (k + 1) as u64, s2)
    }
}

/// The built-in sine: a truncated Maclaurin series summed in IEEE binary64
/// arithmetic. An approximation; no accuracy beyond this defining sum is
/// promised.
pub open spec fn spec_sin_bits(x: u64) -> u64 {
    spec_sin_iter(mul_bits_of(x, x), x, 1, x)
}

/// The built-in cosine: a truncated Maclaurin series summed in IEEE binary64
/// arithmetic.
pub open spec fn spec_cos_bits(x: u64) -> u64 {
    spec_cos_iter(mul_bits_of(x, x), ONE_BITS, 1, ONE_BITS)
}

fn sin_iter(x2: u64, t: u64, k: u64, s: u64) -> (r: u64)
    requires
        1 <= k,
    ensures
        r == spec_sin_iter(x2, t, k, s),
    decreases 26 - k,
{
    if k >= 26 {
        s
    } else {
        proof {
            assert(2 * k * (2 * k + 1) <= 2550) by (nonlinear_arith)
                requires
                    k <= 25,
            ;
        }
        let t2 = div_bits(mul_bits(t, x2), u64_bits(2 * k * (2 * k + 1)));
        let s2 = if k % 2 == 1 {
            sub_bits(s, t2)
        } else {
            add_bits(s, t2)
        };
        sin_iter(x2, t2, k + 1, s2)
    }
}

fn cos_iter(x2: u64, t: u64, k: u64, s: u64) -> (r: u64)
    requires
        1 <= k,
    ensures
        r == spec_cos_iter(x2, t, k, s),
    decreases 26 - k,
{
    if k >= 26 {
        s
    } else {
        proof {
            assert((2 * k - 1) * 2 * k <= 2550) by (nonlinear_arith)
                requires
                    1 <= k <= 25,
            ;
        }
        let t2 = div_bits(mul_bits(t, x2), u64_bits((2 * k - 1) * 2 * k));
        let s2 = if k % 2 == 1 {
            sub_bits(s, t2)
        } else {
            add_bits(s, t2)
        };
        cos_iter(x2, t2, k + 1, s2)
    }
}

/// Built-in sine on a bit pattern.
pub fn sin_bits(x: u64) -> (r: u64)
    ensures
        r == spec_sin_bits(x),
{
    sin_iter(mul_bits(x, x), x, 1, x)
}

/// Built-in cosine on a bit pattern.
pub fn cos_bits(x: u64) -> (r: u64)
    ensures
        r == spec_cos_bits(x),
{
    cos_iter(mul_bits(x, x), ONE_BITS, 1, ONE_BITS)
}

} // verus!

//! The two-tier numeric tower: exact unsigned 64-bit integers, and IEEE-754
//! double precision numbers carried as their bit patterns (`u64`).
//!
//! Integer parsing is implemented and verified here.  Every floating-point
//! operation goes through a trusted wrapper around the `rustc_apfloat`
//! soft-float library, which computes on bit patterns; each wrapper's result
//! is named by an uninterpreted spec function, since stating IEEE-754
//! arithmetic in full is not the business of this crate.

use vstd::prelude::*;
use vstd::string::*;

use rustc_apfloat::Float;

verus! {

/// Bit pattern of the double precision constant pi, bound as `pi` in the
/// global environment.
pub const PI_BITS: u64 = 0x400921FB54442D18;

/// Bit patterns of positive and negative zero, the additive identities.
pub open spec fn is_zero_bits(b: u64) -> bool {
    b == 0u64 || b == 0x8000000000000000u64
}

pub fn float_is_zero(b: u64) -> (r: bool)
    ensures
        r == is_zero_bits(b),
{
    b == 0u64 || b == 0x8000000000000000u64
}

pub open spec fn is_digit(c: char) -> bool {
    '0' <= c && c <= '9'
}

pub open spec fn digit_val(c: char) -> nat {
    if is_digit(c) {
        ((c as nat) - ('0' as nat)) as nat
    } else {
        0
    }
}

pub open spec fn all_digits(s: Seq<char>) -> bool {
    forall|i: int| 0 <= i < s.len() ==> is_digit(#[trigger] s[i])
}

/// The number denoted by a run of decimal digits, most significant first.
pub open spec fn digits_val(s: Seq<char>) -> nat
    decreases s.len(),
{
    if s.len() == 0 {
        0
    } else {
        digits_val(s.drop_last()) * 10 + digit_val(s.last())
    }
}

/// The digit run of an integer token: an optional leading `+` is skipped.
pub open spec fn u64_token_digits(s: Seq<char>) -> Seq<char> {
    if s.len() > 0 && s[0] == '+' {
        s.drop_first()
    } else {
        s
    }
}

/// Does `s` denote an unsigned 64-bit integer: an optional `+`, then at
/// least one decimal digit, with a value that fits in 64 bits?
pub open spec fn is_u64_token(s: Seq<char>) -> bool {
    let d = u64_token_digits(s);
    d.len() > 0 && all_digits(d) && digits_val(d) <= u64::MAX
}

/// What integer parsing returns for a token.
pub open spec fn parse_u64_s(s: Seq<char>) -> Option<u64> {
    if is_u64_token(s) {
        Some(digits_val(u64_token_digits(s)) as u64)
    } else {
        None
    }
}

proof fn lemma_take_step(s: Seq<char>, i: int)
    requires
        0 <= i < s.len(),
    ensures
        s.take(i + 1).drop_last() =~= s.take(i),
        s.take(i + 1).last() == s[i],
        digits_val(s.take(i + 1)) == digits_val(s.take(i)) * 10 + digit_val(s[i]),
{
    assert(digits_val(s.take(i + 1)) == digits_val(s.take(i + 1).drop_last()) * 10 + digit_val(
        s.take(i + 1).last(),
    ));
}

/// Appending digits never shrinks the value of a digit run.
proof fn lemma_digits_val_mono(s: Seq<char>, i: int)
    requires
        0 <= i <= s.len(),
    ensures
        digits_val(s) >= digits_val(s.take(i)),
    decreases s.len() - i,
{
    if i < s.len() {
        lemma_take_step(s, i);
        lemma_digits_val_mono(s, i + 1);
    } else {
        assert(s.take(i) =~= s);
    }
}

/// Parse a token as an unsigned 64-bit decimal integer, exactly as the
/// reader's atom classification demands: an optional `+` sign, then decimal
/// digits; overflow and stray characters are rejected.
pub fn parse_u64(tok: &str) -> (r: Option<u64>)
    ensures
        r == parse_u64_s(tok@),
{
    let n: usize = tok.unicode_len();
    let start: usize = if n > 0 && tok.get_char(0) == '+' {
        1
    } else {
        0
    };
    let ghost d: Seq<char> = u64_token_digits(tok@);
    proof {
        assert(d =~= tok@.skip(start as int));
    }
    if n == start {
        return None;
    }
    let mut acc: u64 = 0;
    let mut i: usize = start;
    while i < n
        invariant
            start <= i <= n,
            n == tok@.len(),
            d == u64_token_digits(tok@),
            d == tok@.skip(start as int),
            d.len() == n - start,
            all_digits(d.take(i - start)),
            acc == digits_val(d.take(i - start)),
        decreases n - i,
    {
        let c: char = tok.get_char(i);
        proof {
            assert(d[i - start] == tok@[i as int]);
        }
        if !('0' <= c && c <= '9') {
            proof {
                assert(!is_digit(d[i - start]));
                assert(!all_digits(d));
            }
            return None;
        }
        let dv: u64 = (c as u32 - '0' as u32) as u64;
        proof {
            lemma_take_step(d, i - start);
        }
        let shifted: u64 = match acc.checked_mul(10) {
            Some(x) => x,
            None => {
                proof {
                    lemma_digits_val_mono(d, i + 1 - start);
                    assert(digits_val(d.take(i + 1 - start)) > u64::MAX);
                    assert(!is_u64_token(tok@));
                }
                return None;
            },
        };
        let next: u64 = match shifted.checked_add(dv) {
            Some(x) => x,
            None => {
                proof {
                    lemma_digits_val_mono(d, i + 1 - start);
                }
                return None;
            },
        };
        acc = next;
        i = i + 1;
    }
    proof {
        assert(d.take(n - start) =~= d);
    }
    Some(acc)
}

/// The double precision value, as a bit pattern, that `rustc_apfloat`'s
/// decimal-to-binary conversion gives for a token, if the token is in its
/// floating-point grammar.
pub uninterp spec fn f64_parse(s: Seq<char>) -> Option<u64>;

/// The characters that can begin a token of the floating-point grammar: a
/// digit, a sign, a dot, or the first letter of an infinity or NaN
/// spelling.  A token starting with anything else is a symbol.
pub open spec fn can_begin_float(c: char) -> bool {
    is_digit(c) || c == '+' || c == '-' || c == '.' || c == 'i' || c == 'I' || c == 'n' || c == 'N'
        || c == 's' || c == 'S'
}

/// The double precision value, as a bit pattern, nearest to an unsigned
/// 64-bit integer.
pub uninterp spec fn f64_of_int(i: u64) -> u64;

/// IEEE-754 double precision sum of two bit patterns.
pub uninterp spec fn f64_add(a: u64, b: u64) -> u64;

/// IEEE-754 double precision difference of two bit patterns.
pub uninterp spec fn f64_sub(a: u64, b: u64) -> u64;

/// IEEE-754 double precision product of two bit patterns.
pub uninterp spec fn f64_mul(a: u64, b: u64) -> u64;

/// IEEE-754 double precision quotient of two bit patterns.
pub uninterp spec fn f64_div(a: u64, b: u64) -> u64;

/// IEEE-754 `<` on two double precision bit patterns.
pub uninterp spec fn f64_lt(a: u64, b: u64) -> bool;

/// IEEE-754 `<=` on two double precision bit patterns.
pub uninterp spec fn f64_le(a: u64, b: u64) -> bool;

/// IEEE-754 `==` on two double precision bit patterns.
pub uninterp spec fn f64_eq(a: u64, b: u64) -> bool;

/// Relies on `<rustc_apfloat::ieee::Double as FromStr>::from_str`:
/// correctly rounded text-to-double conversion, a function of the
/// characters alone; malformed text gives `Err`, never a panic.  After an
/// optional sign, its grammar offers only decimal and hex forms (first a
/// digit or a dot) and the `inf`/`Inf`/`INFINITY`/`NaN` spellings with an
/// optional `s`/`S` prefix, so a token beginning with any other character
/// is never a float.
#[verifier::external_body]
pub fn float_from_token(tok: &str) -> (r: Option<u64>)
    ensures
        r == f64_parse(tok@),
        tok@.len() > 0 && !can_begin_float(tok@[0]) ==> r is None,
{
    match tok.parse::<rustc_apfloat::ieee::Double>() {
        Ok(d) => Some(d.to_bits() as u64),
        Err(_) => None,
    }
}

/// Relies on `rustc_apfloat::Float::from_u128`: round-to-nearest conversion
/// of an unsigned integer to double precision.
#[verifier::external_body]
pub fn float_of_int(i: u64) -> (r: u64)
    ensures
        r == f64_of_int(i),
{
    <rustc_apfloat::ieee::Double as rustc_apfloat::Float>::from_u128(i as u128).value.to_bits()
        as u64
}

/// Relies on `<rustc_apfloat::ieee::Double as core::ops::Add>::add`:
/// IEEE-754 addition, round to nearest even.
#[verifier::external_body]
pub fn float_add(a: u64, b: u64) -> (r: u64)
    ensures
        r == f64_add(a, b),
{
    (rustc_apfloat::ieee::Double::from_bits(a as u128)
        + rustc_apfloat::ieee::Double::from_bits(b as u128)).value.to_bits() as u64
}

/// Relies on `<rustc_apfloat::ieee::Double as core::ops::Sub>::sub`:
/// IEEE-754 subtraction, round to nearest even.
#[verifier::external_body]
pub fn float_sub(a: u64, b: u64) -> (r: u64)
    ensures
        r == f64_sub(a, b),
{
    (rustc_apfloat::ieee::Double::from_bits(a as u128)
        - rustc_apfloat::ieee::Double::from_bits(b as u128)).value.to_bits() as u64
}

/// Relies on `<rustc_apfloat::ieee::Double as core::ops::Mul>::mul`:
/// IEEE-754 multiplication, round to nearest even.
#[verifier::external_body]
pub fn float_mul(a: u64, b: u64) -> (r: u64)
    ensures
        r == f64_mul(a, b),
{
    (rustc_apfloat::ieee::Double::from_bits(a as u128)
        * rustc_apfloat::ieee::Double::from_bits(b as u128)).value.to_bits() as u64
}

/// Relies on `<rustc_apfloat::ieee::Double as core::ops::Div>::div`:
/// IEEE-754 division, round to nearest even.
#[verifier::external_body]
pub fn float_div(a: u64, b: u64) -> (r: u64)
    ensures
        r == f64_div(a, b),
{
    (rustc_apfloat::ieee::Double::from_bits(a as u128)
        / rustc_apfloat::ieee::Double::from_bits(b as u128)).value.to_bits() as u64
}

/// Relies on `<rustc_apfloat::ieee::IeeeFloat<_> as PartialOrd>::lt`:
/// IEEE-754 ordering; false on NaN operands.
#[verifier::external_body]
pub fn float_lt(a: u64, b: u64) -> (r: bool)
    ensures
        r == f64_lt(a, b),
{
    rustc_apfloat::ieee::Double::from_bits(a as u128) < rustc_apfloat::ieee::Double::from_bits(
        b as u128,
    )
}

/// Relies on `<rustc_apfloat::ieee::IeeeFloat<_> as PartialOrd>::le`:
/// IEEE-754 ordering; false on NaN operands.
#[verifier::external_body]
pub fn float_le(a: u64, b: u64) -> (r: bool)
    ensures
        r == f64_le(a, b),
{
    rustc_apfloat::ieee::Double::from_bits(a as u128) <= rustc_apfloat::ieee::Double::from_bits(
        b as u128,
    )
}

/// Relies on `<rustc_apfloat::ieee::IeeeFloat<_> as PartialEq>::eq`:
/// IEEE-754 equality; the two zeros are equal, NaN equals nothing.
#[verifier::external_body]
pub fn float_eq(a: u64, b: u64) -> (r: bool)
    ensures
        r == f64_eq(a, b),
{
    rustc_apfloat::ieee::Double::from_bits(a as u128) == rustc_apfloat::ieee::Double::from_bits(
        b as u128,
    )
}

} // verus!

//! Arbitrary-precision naturals, provided by `num_bigint::BigUint`.
//!
//! The library only ever reads a `BigUint` through `big_val`, the natural
//! number it stands for.
use vstd::prelude::*;

use num_bigint::BigUint;
use num_traits::One;

verus! {

#[verifier::external_type_specification]
#[verifier::external_body]
pub struct ExBigUint(BigUint);

/// The natural number that a `BigUint` holds.
pub uninterp spec fn big_val(b: BigUint) -> nat;

/// The value of a sequence of ASCII decimal digits, most significant first.
pub open spec fn decimal_value(s: Seq<char>) -> nat
    decreases s.len(),
{
    if s.len() == 0 {
        0
    } else {
        decimal_value(s.drop_last()) * 10 + digit_value(s.last())
    }
}

pub open spec fn digit_value(c: char) -> nat {
    (c as nat - '0' as nat) as nat
}

pub open spec fn is_ascii_digit(c: char) -> bool {
    '0' <= c && c <= '9'
}

pub open spec fn all_ascii_digits(s: Seq<char>) -> bool {
    forall|k: int| 0 <= k < s.len() ==> is_ascii_digit(#[trigger] s[k])
}

/// Relies on `<BigUint as FromStr>::from_str` (`from_str_radix` with radix 10):
/// a non-empty run of ASCII digits gives its decimal value; a character that
/// is neither an ASCII digit, `_` nor `+` is refused.
#[verifier::external_body]
pub(crate) fn big_from_decimal(s: &str) -> (r: Option<BigUint>)
    ensures
        s@.len() > 0 && all_ascii_digits(s@) ==> r.is_some() && big_val(r.unwrap())
            == decimal_value(s@),
        (exists|k: int|
            0 <= k < s@.len() && !is_ascii_digit(#[trigger] s@[k]) && s@[k] != '_' && s@[k]
                != '+') ==> r.is_none(),
{
    <BigUint as std::str::FromStr>::from_str(s).ok()
}

/// Relies on `<BigUint as Clone>::clone`: a copy of the same number.
pub assume_specification[ <BigUint as Clone>::clone ](b: &BigUint) -> (r: BigUint)
    ensures
        big_val(r) == big_val(*b),
;

/// Relies on `<BigUint as One>::one`: the number one.
#[verifier::external_body]
pub(crate) fn big_one() -> (r: BigUint)
    ensures
        big_val(r) == 1,
{
    BigUint::one()
}

/// Relies on `<BigUint as From<u64>>::from`: the same number.
#[verifier::external_body]
pub(crate) fn big_from_u64(n: u64) -> (r: BigUint)
    ensures
        big_val(r) == n as nat,
{
    BigUint::from(n)
}

/// Relies on `<BigUint as Add>::add`: the sum.
#[verifier::external_body]
pub(crate) fn big_add(a: BigUint, b: BigUint) -> (r: BigUint)
    ensures
        big_val(r) == big_val(a) + big_val(b),
{
    a + b
}

/// Relies on `<BigUint as Mul>::mul`: the product.
#[verifier::external_body]
pub(crate) fn big_mul(a: BigUint, b: BigUint) -> (r: BigUint)
    ensures
        big_val(r) == big_val(a) * big_val(b),
{
    a * b
}

/// Relies on `<BigUint as PartialEq>::eq`: digits are kept normalised, so two
/// numbers compare equal exactly when their values are equal.
#[verifier::external_body]
pub(crate) fn big_eq(a: &BigUint, b: &BigUint) -> (r: bool)
    ensures
        r == (big_val(*a) == big_val(*b)),
{
    *a == *b
}

} // verus!

use crate::le_value::{le_bytes_nat, le_limbs_nat};
use crate::numerals::{dec_chars, numeral_value, valid_numeral};
use num_bigint::BigUint;
use vstd::prelude::*;

verus! {

#[verifier::external_type_specification]
#[verifier::external_body]
pub struct ExBigUint(BigUint);

/// The natural number that a `BigUint` holds.
pub uninterp spec fn biguint_nat(x: BigUint) -> nat;

/// Relies on `num_bigint::BigUint::parse_bytes`: it accepts exactly the
/// numerals of `valid_numeral` (one optional leading plus, underscore
/// separators, case-insensitive digits below the base) and returns the value
/// those digits denote in the given base. Bases outside 2..=36 are refused by
/// an assertion inside the crate, so they are excluded here.
#[verifier::external_body]
pub(crate) fn biguint_parse_bytes(s: &[u8], base: u32) -> (r: Option<BigUint>)
    requires
        2 <= base <= 36,
    ensures
        r is Some <==> valid_numeral(s@, base),
        r is Some ==> biguint_nat(r.unwrap()) == numeral_value(s@, base),
{
    BigUint::parse_bytes(s, base)
}

/// Relies on `num_bigint::BigUint::to_u64_digits`: the 64-bit digits of the
/// value, least significant first, with no zero top digit (zero gives the
/// empty vector).
#[verifier::external_body]
pub(crate) fn biguint_to_u64_digits(x: &BigUint) -> (r: Vec<u64>)
    ensures
        le_limbs_nat(r@) == biguint_nat(*x),
        r@.len() > 0 ==> r@.last() != 0,
{
    x.to_u64_digits()
}

/// Relies on `num_bigint::BigUint::from_bytes_le`: the value denoted by the
/// bytes in little-endian order.
#[verifier::external_body]
pub(crate) fn biguint_from_bytes_le(b: &[u8]) -> (r: BigUint)
    ensures
        biguint_nat(r) == le_bytes_nat(b@),
{
    BigUint::from_bytes_le(b)
}

/// Relies on the `Div` impl of `num_bigint::BigUint`: the exact quotient,
/// rounded down. Division by zero panics inside the crate, so it is excluded
/// here.
#[verifier::external_body]
pub(crate) fn biguint_div(x: &BigUint, y: &BigUint) -> (r: BigUint)
    requires
        biguint_nat(*y) != 0,
    ensures
        biguint_nat(r) == biguint_nat(*x) / biguint_nat(*y),
{
    x / y
}

/// Relies on the `Display` impl of `num_bigint::BigUint`: the plain decimal
/// numeral of the value, with no sign and no separators.
#[verifier::external_body]
pub(crate) fn biguint_to_string(x: &BigUint) -> (r: String)
    ensures
        r@ == dec_chars(biguint_nat(*x)),
{
    x.to_string()
}

} // verus!

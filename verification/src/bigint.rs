use crate::biguint::{
    biguint_div, biguint_from_bytes_le, biguint_nat, biguint_parse_bytes, biguint_to_string,
    biguint_to_u64_digits,
};
use crate::errors::Error;
use crate::le_value::{
    bit_of, le_bytes_nat, le_limbs_nat, lemma_bit_of_high, lemma_bit_split,
    lemma_le_bytes_nat_append, lemma_le_bytes_nat_injective, lemma_le_limbs_first,
    lemma_le_limbs_nat_append, lemma_le_limbs_nat_bound, lemma_le_limbs_nat_injective,
    lemma_le_limbs_nat_lower, lemma_le_limbs_order, lemma_le_limbs_split, lemma_u64_le_bytes_nat,
};
use crate::numerals::{
    dec_bytes, dec_chars, lemma_decimal_round_trip, numeral_value, valid_numeral,
};
use num_bigint::BigUint;
use vstd::arithmetic::div_mod::{lemma_div_nonincreasing, lemma_fundamental_div_mod};
use vstd::arithmetic::power2::{lemma2_to64, lemma_pow2_strictly_increases, pow2};
use vstd::bytes::{
    lemma_auto_spec_u64_to_from_le_bytes, spec_u64_to_le_bytes, u64_from_le_bytes, u64_to_le_bytes,
};
use vstd::prelude::*;
use vstd::slice::slice_subrange;

verus! {

broadcast use vstd::array::group_array_axioms;

/// Width of the fixed integer type in bits.
pub const BIGINT256_NUM_BITS: usize = 256;

/// Number of 64-bit limbs.
pub const BIGINT256_NUM_LIMBS: usize = 4;

/// Bytes per limb in the canonical encoding.
pub const BIGINT256_LIMB_BYTES: usize = 8;

/// Total length of the canonical byte encoding.
pub const BIGINT256_SERIALIZED_BYTES: usize = 32;

/// A 256-bit unsigned integer, stored as four 64-bit limbs with the least
/// significant limb first.
#[derive(Clone, Copy, Debug, PartialEq, Eq)]
pub struct CamlBigInteger256(pub [u64; 4]);

/// The outcome of comparing two values.
#[derive(Clone, Copy, Debug, PartialEq, Eq, Structural)]
pub enum Cmp {
    Less,
    Equal,
    Greater,
}

/// The natural number a value represents.
pub open spec fn bigint_nat(x: CamlBigInteger256) -> nat {
    le_limbs_nat(x.0@)
}

/// The canonical 32-byte little-endian encoding of a value.
pub open spec fn serialized(x: CamlBigInteger256) -> Seq<u8> {
    spec_u64_to_le_bytes(x.0@[0]) + spec_u64_to_le_bytes(x.0@[1]) + spec_u64_to_le_bytes(x.0@[2])
        + spec_u64_to_le_bytes(x.0@[3])
}

/// Every representable value lies below 2^256.
pub proof fn lemma_bigint_nat_bound(x: CamlBigInteger256)
    ensures
        bigint_nat(x) < pow2(256),
{
    lemma_le_limbs_nat_bound(x.0@);
}

/// Two values representing the same number are equal.
pub proof fn lemma_bigint_nat_injective(a: CamlBigInteger256, b: CamlBigInteger256)
    requires
        bigint_nat(a) == bigint_nat(b),
    ensures
        a == b,
{
    lemma_le_limbs_nat_injective(a.0@, b.0@);
    assert(a.0 =~= b.0);
}

/// The canonical encoding is 32 bytes long and denotes, in base 256, exactly
/// the value encoded.
pub proof fn lemma_serialized_value(x: CamlBigInteger256)
    ensures
        serialized(x).len() == 32,
        le_bytes_nat(serialized(x)) == bigint_nat(x),
{
    let s = x.0@;
    let e0 = spec_u64_to_le_bytes(s[0]);
    let e1 = spec_u64_to_le_bytes(s[1]);
    let e2 = spec_u64_to_le_bytes(s[2]);
    let e3 = spec_u64_to_le_bytes(s[3]);
    lemma_u64_le_bytes_nat(s[0]);
    lemma_u64_le_bytes_nat(s[1]);
    lemma_u64_le_bytes_nat(s[2]);
    lemma_u64_le_bytes_nat(s[3]);
    lemma_le_bytes_nat_append(e0, e1);
    lemma_le_bytes_nat_append(e0 + e1, e2);
    lemma_le_bytes_nat_append(e0 + e1 + e2, e3);
    lemma_le_limbs_nat_4(s);
}

/// The value of a four-limb sequence, written out by place.
pub proof fn lemma_le_limbs_nat_4(s: Seq<u64>)
    requires
        s.len() == 4,
    ensures
        le_limbs_nat(s) == s[0] + s[1] * pow2(64) + s[2] * pow2(128) + s[3] * pow2(192),
{
    lemma2_to64();
    let s3 = s.drop_last();
    let s2 = s3.drop_last();
    let s1 = s2.drop_last();
    assert(s1.drop_last() =~= Seq::<u64>::empty());
    assert(le_limbs_nat(Seq::<u64>::empty()) == 0);
    assert(le_limbs_nat(s1) == s[0] * pow2(0));
    assert(le_limbs_nat(s2) == s[0] * pow2(0) + s[1] * pow2(64));
    assert(le_limbs_nat(s3) == s[0] * pow2(0) + s[1] * pow2(64) + s[2] * pow2(128));
}

/// Law: serializing the value decoded from any 32-byte buffer yields the
/// buffer back.
pub proof fn lemma_serialize_deserialize(w: CamlBigInteger256, b: Seq<u8>)
    requires
        b.len() == 32,
        bigint_nat(w) == le_bytes_nat(b),
    ensures
        serialized(w) == b,
{
    lemma_serialized_value(w);
    lemma_le_bytes_nat_injective(serialized(w), b);
}

/// Law: decoding the serialization of any value yields the value back.
pub proof fn lemma_deserialize_serialize(v: CamlBigInteger256, w: CamlBigInteger256)
    requires
        bigint_nat(w) == le_bytes_nat(serialized(v)),
    ensures
        w == v,
{
    lemma_serialized_value(v);
    lemma_bigint_nat_injective(w, v);
}

/// Law: the decimal rendering of any representable value parses back to the
/// value itself: the rendering is a well-formed decimal numeral whose value
/// fits, so parsing succeeds, and the parsed value is the rendered one.
pub proof fn lemma_decimal_text_round_trip(v: CamlBigInteger256, w: CamlBigInteger256)
    requires
        bigint_nat(w) == numeral_value(dec_bytes(bigint_nat(v)), 10),
    ensures
        valid_numeral(dec_bytes(bigint_nat(v)), 10),
        numeral_value(dec_bytes(bigint_nat(v)), 10) < pow2(256),
        w == v,
{
    lemma_bigint_nat_bound(v);
    lemma_decimal_round_trip(bigint_nat(v));
    lemma_bigint_nat_injective(w, v);
}

/// A sequence of zero limbs denotes zero.
pub proof fn lemma_le_limbs_zero(s: Seq<u64>)
    requires
        forall|i: int| 0 <= i < s.len() ==> s[i] == 0,
    ensures
        le_limbs_nat(s) == 0,
    decreases s.len(),
{
    if s.len() > 0 {
        lemma_le_limbs_zero(s.drop_last());
    }
}

/// Whether bit i of limb l is set, as executable code.
fn limb_bit(l: u64, i: u64) -> (r: bool)
    requires
        i < 64,
    ensures
        r == bit_of(l as nat, i as nat),
{
    proof {
        vstd::bits::lemma_u64_shr_is_div(l, i);
        assert(((l >> i) & 1) == (l >> i) % 2) by (bit_vector);
    }
    ((l >> i) & 1) == 1
}

impl CamlBigInteger256 {
    /// Encodes the value as its canonical 32-byte little-endian buffer.
    pub fn to_bytes(&self) -> (r: Vec<u8>)
        ensures
            r@ == serialized(*self),
            r@.len() == 32,
            le_bytes_nat(r@) == bigint_nat(*self),
    {
        let mut out = u64_to_le_bytes(self.0[0]);
        let mut b1 = u64_to_le_bytes(self.0[1]);
        let mut b2 = u64_to_le_bytes(self.0[2]);
        let mut b3 = u64_to_le_bytes(self.0[3]);
        out.append(&mut b1);
        out.append(&mut b2);
        out.append(&mut b3);
        proof {
            lemma_serialized_value(*self);
            assert(out@ =~= serialized(*self));
        }
        out
    }

    /// Decodes a canonical 32-byte little-endian buffer; any other length is
    /// a deserialization error.
    pub fn of_bytes(x: &[u8]) -> (r: Result<Self, Error>)
        ensures
            r is Ok <==> x@.len() == 32,
            r is Ok ==> bigint_nat(r.unwrap()) == le_bytes_nat(x@) && serialized(r.unwrap())
                == x@,
            r is Err ==> r == Err::<Self, Error>(Error::DeserializationError),
    {
        if x.len() != BIGINT256_SERIALIZED_BYTES {
            return Err(Error::DeserializationError);
        }
        let l0 = u64_from_le_bytes(slice_subrange(x, 0, 8));
        let l1 = u64_from_le_bytes(slice_subrange(x, 8, 16));
        let l2 = u64_from_le_bytes(slice_subrange(x, 16, 24));
        let l3 = u64_from_le_bytes(slice_subrange(x, 24, 32));
        let result = CamlBigInteger256([l0, l1, l2, l3]);
        proof {
            lemma_auto_spec_u64_to_from_le_bytes();
            assert(result.0@[0] == l0 && result.0@[1] == l1 && result.0@[2] == l2 && result.0@[3]
                == l3);
            assert(serialized(result) =~= x@);
            lemma_serialized_value(result);
        }
        Ok(result)
    }

    /// Total order on the represented values.
    pub fn compare(&self, other: &Self) -> (r: Cmp)
        ensures
            r == Cmp::Less <==> bigint_nat(*self) < bigint_nat(*other),
            r == Cmp::Equal <==> bigint_nat(*self) == bigint_nat(*other),
            r == Cmp::Greater <==> bigint_nat(*self) > bigint_nat(*other),
    {
        let a = &self.0;
        let b = &other.0;
        if a[3] != b[3] {
            proof {
                if a@[3] < b@[3] {
                    lemma_le_limbs_order(self.0@, other.0@, 3);
                } else {
                    lemma_le_limbs_order(other.0@, self.0@, 3);
                }
            }
            if a[3] < b[3] {
                Cmp::Less
            } else {
                Cmp::Greater
            }
        } else if a[2] != b[2] {
            proof {
                if a@[2] < b@[2] {
                    lemma_le_limbs_order(self.0@, other.0@, 2);
                } else {
                    lemma_le_limbs_order(other.0@, self.0@, 2);
                }
            }
            if a[2] < b[2] {
                Cmp::Less
            } else {
                Cmp::Greater
            }
        } else if a[1] != b[1] {
            proof {
                if a@[1] < b@[1] {
                    lemma_le_limbs_order(self.0@, other.0@, 1);
                } else {
                    lemma_le_limbs_order(other.0@, self.0@, 1);
                }
            }
            if a[1] < b[1] {
                Cmp::Less
            } else {
                Cmp::Greater
            }
        } else if a[0] != b[0] {
            proof {
                if a@[0] < b@[0] {
                    lemma_le_limbs_order(self.0@, other.0@, 0);
                } else {
                    lemma_le_limbs_order(other.0@, self.0@, 0);
                }
            }
            if a[0] < b[0] {
                Cmp::Less
            } else {
                Cmp::Greater
            }
        } else {
            proof {
                assert(self.0@ =~= other.0@);
            }
            Cmp::Equal
        }
    }

    /// Whether bit i (0-indexed from the least significant bit) is set; bits
    /// at or beyond the width read as zero.
    pub fn test_bit(&self, i: usize) -> (r: bool)
        ensures
            r == bit_of(bigint_nat(*self), i as nat),
    {
        if i >= BIGINT256_NUM_BITS {
            proof {
                lemma_bigint_nat_bound(*self);
                if i > 256 {
                    lemma_pow2_strictly_increases(256, i as nat);
                }
                lemma_bit_of_high(bigint_nat(*self), i as nat);
            }
            return false;
        }
        let q = i / 64;
        let b = (i % 64) as u64;
        let s = Ghost(self.0@);
        proof {
            lemma_fundamental_div_mod(i as int, 64);
            lemma_le_limbs_split(s@, q as int);
            lemma_bit_split(
                le_limbs_nat(s@.take(q as int)),
                le_limbs_nat(s@.skip(q as int)),
                (64 * q) as nat,
                i as nat,
            );
            lemma_le_limbs_first(s@.skip(q as int));
            assert(pow2(64) == 0x10000000000000000) by {
                lemma2_to64();
            }
            lemma_bit_split(
                s@.skip(q as int)[0] as nat,
                le_limbs_nat(s@.skip(q as int).skip(1)),
                64,
                b as nat,
            );
        }
        limb_bit(self.0[q], b)
    }

    /// Converts the value, losslessly, to an arbitrary-precision integer.
    pub fn to_biguint(&self) -> (r: BigUint)
        ensures
            biguint_nat(r) == bigint_nat(*self),
    {
        let bytes = self.to_bytes();
        biguint_from_bytes_le(bytes.as_slice())
    }

    /// Converts an arbitrary-precision integer down to the fixed width; a
    /// value of 2^256 or more does not fit and is rejected.
    pub fn of_biguint(x: &BigUint) -> (r: Result<Self, Error>)
        ensures
            r is Ok <==> biguint_nat(*x) < pow2(256),
            r is Ok ==> bigint_nat(r.unwrap()) == biguint_nat(*x),
            r is Err ==> r == Err::<Self, Error>(Error::InvalidArgument),
    {
        let digits = biguint_to_u64_digits(x);
        if digits.len() > 4 {
            proof {
                lemma_le_limbs_nat_lower(digits@);
                if 64 * (digits@.len() - 1) > 256 {
                    lemma_pow2_strictly_increases(256, (64 * (digits@.len() - 1)) as nat);
                }
            }
            return Err(Error::InvalidArgument);
        }
        let l0 = if digits.len() > 0 {
            digits[0]
        } else {
            0
        };
        let l1 = if digits.len() > 1 {
            digits[1]
        } else {
            0
        };
        let l2 = if digits.len() > 2 {
            digits[2]
        } else {
            0
        };
        let l3 = if digits.len() > 3 {
            digits[3]
        } else {
            0
        };
        let result = CamlBigInteger256([l0, l1, l2, l3]);
        proof {
            let pad = result.0@.skip(digits@.len() as int);
            assert(result.0@ =~= digits@ + pad);
            lemma_le_limbs_nat_append(digits@, pad);
            lemma_le_limbs_zero(pad);
            lemma_bigint_nat_bound(result);
        }
        Ok(result)
    }

    /// Integer division of the represented values; a zero divisor is
    /// reported as an error.
    pub fn checked_div(&self, other: &Self) -> (r: Result<Self, Error>)
        ensures
            r is Ok <==> bigint_nat(*other) != 0,
            r is Ok ==> bigint_nat(r.unwrap()) == bigint_nat(*self) / bigint_nat(*other),
            r is Err ==> r == Err::<Self, Error>(Error::DivisionByZero),
    {
        if other.0[0] == 0 && other.0[1] == 0 && other.0[2] == 0 && other.0[3] == 0 {
            proof {
                lemma_le_limbs_zero(other.0@);
            }
            return Err(Error::DivisionByZero);
        }
        proof {
            if bigint_nat(*other) == 0 {
                let zero = CamlBigInteger256([0u64, 0u64, 0u64, 0u64]);
                lemma_le_limbs_zero(zero.0@);
                lemma_bigint_nat_injective(*other, zero);
            }
        }
        let xb = self.to_biguint();
        let yb = other.to_biguint();
        let q = biguint_div(&xb, &yb);
        proof {
            lemma_bigint_nat_bound(*self);
            lemma_div_nonincreasing(bigint_nat(*self) as int, bigint_nat(*other) as int);
        }
        match Self::of_biguint(&q) {
            Ok(v) => Ok(v),
            Err(_) => Err(Error::DivisionByZero),
        }
    }
}

// ---------------------------------------------------------------------------
// The boundary entry points.
// ---------------------------------------------------------------------------
/// Parses an unsigned numeral in the given base. The base must lie in
/// 2..=36: outside that range the underlying parser does not return.
pub fn caml_bigint_256_of_numeral(s: &[u8], base: u32) -> (r: Result<CamlBigInteger256, Error>)
    requires
        2 <= base <= 36,
    ensures
        r is Ok <==> valid_numeral(s@, base) && numeral_value(s@, base) < pow2(256),
        r is Ok ==> bigint_nat(r.unwrap()) == numeral_value(s@, base),
        r is Err ==> r == Err::<CamlBigInteger256, Error>(Error::InvalidArgument),
{
    match biguint_parse_bytes(s, base) {
        Some(data) => match CamlBigInteger256::of_biguint(&data) {
            Ok(v) => Ok(v),
            Err(_) => Err(Error::InvalidArgument),
        },
        None => Err(Error::InvalidArgument),
    }
}

/// Parses an unsigned decimal numeral.
pub fn caml_bigint_256_of_decimal_string(s: &[u8]) -> (r: Result<CamlBigInteger256, Error>)
    ensures
        r is Ok <==> valid_numeral(s@, 10) && numeral_value(s@, 10) < pow2(256),
        r is Ok ==> bigint_nat(r.unwrap()) == numeral_value(s@, 10),
        r is Err ==> r == Err::<CamlBigInteger256, Error>(Error::InvalidArgument),
{
    caml_bigint_256_of_numeral(s, 10)
}

/// Number of limbs of the fixed width.
pub fn caml_bigint_256_num_limbs() -> (r: isize)
    ensures
        r == BIGINT256_NUM_LIMBS,
{
    BIGINT256_NUM_LIMBS as isize
}

/// Bytes per limb of the canonical encoding.
pub fn caml_bigint_256_bytes_per_limb() -> (r: isize)
    ensures
        r == BIGINT256_LIMB_BYTES,
{
    BIGINT256_LIMB_BYTES as isize
}

/// Integer division; a zero divisor is reported as an error.
pub fn caml_bigint_256_div(x: &CamlBigInteger256, y: &CamlBigInteger256) -> (r: Result<
    CamlBigInteger256,
    Error,
>)
    ensures
        r is Ok <==> bigint_nat(*y) != 0,
        r is Ok ==> bigint_nat(r.unwrap()) == bigint_nat(*x) / bigint_nat(*y),
        r is Err ==> r == Err::<CamlBigInteger256, Error>(Error::DivisionByZero),
{
    x.checked_div(y)
}

/// Total order comparison, reported as -1, 0 or 1.
pub fn caml_bigint_256_compare(x: &CamlBigInteger256, y: &CamlBigInteger256) -> (r: isize)
    ensures
        r == -1 <==> bigint_nat(*x) < bigint_nat(*y),
        r == 0 <==> bigint_nat(*x) == bigint_nat(*y),
        r == 1 <==> bigint_nat(*x) > bigint_nat(*y),
{
    match x.compare(y) {
        Cmp::Less => -1,
        Cmp::Equal => 0,
        Cmp::Greater => 1,
    }
}

/// The decimal rendering of the value.
pub fn caml_bigint_256_to_string(x: &CamlBigInteger256) -> (r: String)
    ensures
        r@ == dec_chars(bigint_nat(*x)),
{
    let b = x.to_biguint();
    biguint_to_string(&b)
}

/// Whether bit i is set; a negative index is not representable and is
/// reported as an error.
pub fn caml_bigint_256_test_bit(x: &CamlBigInteger256, i: isize) -> (r: Result<bool, Error>)
    ensures
        r is Ok <==> i >= 0,
        r is Ok ==> r.unwrap() == bit_of(bigint_nat(*x), i as nat),
        r is Err ==> r == Err::<bool, Error>(Error::InvalidArgument),
{
    if i < 0 {
        return Err(Error::InvalidArgument);
    }
    Ok(x.test_bit(i as usize))
}

/// The canonical 32-byte little-endian encoding.
pub fn caml_bigint_256_to_bytes(x: &CamlBigInteger256) -> (r: Vec<u8>)
    ensures
        r@ == serialized(*x),
        le_bytes_nat(r@) == bigint_nat(*x),
{
    x.to_bytes()
}

/// Decodes the canonical 32-byte little-endian encoding.
pub fn caml_bigint_256_of_bytes(x: &[u8]) -> (r: Result<CamlBigInteger256, Error>)
    ensures
        r is Ok <==> x@.len() == 32,
        r is Ok ==> bigint_nat(r.unwrap()) == le_bytes_nat(x@) && serialized(r.unwrap()) == x@,
        r is Err ==> r == Err::<CamlBigInteger256, Error>(Error::DeserializationError),
{
    CamlBigInteger256::of_bytes(x)
}

/// An explicit copy entry point; the type is an ordinary value.
pub fn caml_bigint_256_deep_copy(x: CamlBigInteger256) -> (r: CamlBigInteger256)
    ensures
        r == x,
{
    x
}

} // verus!

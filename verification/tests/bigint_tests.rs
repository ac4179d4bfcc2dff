use bigint_256::bigint::{
    caml_bigint_256_bytes_per_limb, caml_bigint_256_compare, caml_bigint_256_deep_copy,
    caml_bigint_256_div, caml_bigint_256_num_limbs, caml_bigint_256_of_bytes,
    caml_bigint_256_of_decimal_string, caml_bigint_256_of_numeral, caml_bigint_256_test_bit,
    caml_bigint_256_to_bytes, caml_bigint_256_to_string, CamlBigInteger256, Cmp,
};
use bigint_256::errors::Error;
use num_bigint::BigUint;

#[test]
fn parse_decimal_zero_gives_zero_limbs() {
    let v = caml_bigint_256_of_decimal_string(b"0").unwrap();
    assert_eq!(v.0, [0u64, 0, 0, 0]);
    assert_eq!(caml_bigint_256_to_string(&v), "0");
}

#[test]
fn parse_two_pow_128_and_serialize() {
    let v = caml_bigint_256_of_decimal_string(b"340282366920938463463374607431768211456")
        .unwrap();
    assert_eq!(v.0, [0u64, 0, 1, 0]);
    let bytes = caml_bigint_256_to_bytes(&v);
    assert_eq!(bytes.len(), 32);
    let mut expected = vec![0u8; 32];
    expected[16] = 1;
    assert_eq!(bytes, expected);
    let w = caml_bigint_256_of_bytes(&bytes).unwrap();
    assert_eq!(w, v);
    assert_eq!(
        caml_bigint_256_to_string(&v),
        "340282366920938463463374607431768211456"
    );
}

#[test]
fn serialize_deserialize_round_trip() {
    let v = CamlBigInteger256([
        0x0123456789abcdef,
        0xfedcba9876543210,
        0x0011223344556677,
        0x8899aabbccddeeff,
    ]);
    let bytes = caml_bigint_256_to_bytes(&v);
    assert_eq!(bytes.len(), 32);
    assert_eq!(bytes[0], 0xef);
    assert_eq!(bytes[7], 0x01);
    assert_eq!(bytes[8], 0x10);
    assert_eq!(bytes[31], 0x88);
    let w = caml_bigint_256_of_bytes(&bytes).unwrap();
    assert_eq!(w, v);
}

#[test]
fn deserialize_serialize_round_trip_on_buffer() {
    let mut buf = vec![0u8; 32];
    for (i, b) in buf.iter_mut().enumerate() {
        *b = (7 * i + 3) as u8;
    }
    let v = caml_bigint_256_of_bytes(&buf).unwrap();
    let back = caml_bigint_256_to_bytes(&v);
    assert_eq!(back, buf);
}

#[test]
fn deserialize_short_buffer_is_error() {
    let buf = vec![0u8; 31];
    assert_eq!(
        caml_bigint_256_of_bytes(&buf),
        Err(Error::DeserializationError)
    );
    let buf = vec![0u8; 33];
    assert_eq!(
        caml_bigint_256_of_bytes(&buf),
        Err(Error::DeserializationError)
    );
}

#[test]
fn compare_small_values() {
    let five = caml_bigint_256_of_decimal_string(b"5").unwrap();
    let ten = caml_bigint_256_of_decimal_string(b"10").unwrap();
    assert_eq!(caml_bigint_256_compare(&five, &ten), -1);
    assert_eq!(caml_bigint_256_compare(&ten, &ten), 0);
    assert_eq!(caml_bigint_256_compare(&ten, &five), 1);
    assert_eq!(five.compare(&ten), Cmp::Less);
    assert_eq!(ten.compare(&ten), Cmp::Equal);
    assert_eq!(ten.compare(&five), Cmp::Greater);
}

#[test]
fn compare_uses_high_limbs() {
    let a = CamlBigInteger256([u64::MAX, u64::MAX, u64::MAX, 0]);
    let b = CamlBigInteger256([0, 0, 0, 1]);
    assert_eq!(caml_bigint_256_compare(&a, &b), -1);
    assert_eq!(caml_bigint_256_compare(&b, &a), 1);
}

#[test]
fn test_bit_of_two_pow_five() {
    let v = CamlBigInteger256([32, 0, 0, 0]);
    assert_eq!(caml_bigint_256_test_bit(&v, 5), Ok(true));
    assert_eq!(caml_bigint_256_test_bit(&v, 4), Ok(false));
    assert_eq!(caml_bigint_256_test_bit(&v, 6), Ok(false));
}

#[test]
fn test_bit_across_limbs_and_bounds() {
    let v = caml_bigint_256_of_decimal_string(b"340282366920938463463374607431768211456")
        .unwrap();
    assert_eq!(caml_bigint_256_test_bit(&v, 128), Ok(true));
    assert_eq!(caml_bigint_256_test_bit(&v, 127), Ok(false));
    assert_eq!(caml_bigint_256_test_bit(&v, 129), Ok(false));
    assert_eq!(caml_bigint_256_test_bit(&v, 300), Ok(false));
    assert_eq!(
        caml_bigint_256_test_bit(&v, -1),
        Err(Error::InvalidArgument)
    );
}

#[test]
fn division_by_zero_is_error() {
    let ten = caml_bigint_256_of_decimal_string(b"10").unwrap();
    let zero = caml_bigint_256_of_decimal_string(b"0").unwrap();
    assert_eq!(caml_bigint_256_div(&ten, &zero), Err(Error::DivisionByZero));
}

#[test]
fn division_values() {
    let ten = caml_bigint_256_of_decimal_string(b"10").unwrap();
    let three = caml_bigint_256_of_decimal_string(b"3").unwrap();
    let q = caml_bigint_256_div(&ten, &three).unwrap();
    assert_eq!(q.0, [3, 0, 0, 0]);
    let big = caml_bigint_256_of_decimal_string(b"340282366920938463463374607431768211456")
        .unwrap();
    let two = caml_bigint_256_of_decimal_string(b"2").unwrap();
    let half = caml_bigint_256_div(&big, &two).unwrap();
    assert_eq!(half.0, [0, 1 << 63, 0, 0]);
}

#[test]
fn of_numeral_bases() {
    let v = caml_bigint_256_of_numeral(b"ff", 16).unwrap();
    assert_eq!(v.0, [255, 0, 0, 0]);
    let v = caml_bigint_256_of_numeral(b"FF", 16).unwrap();
    assert_eq!(v.0, [255, 0, 0, 0]);
    let v = caml_bigint_256_of_numeral(b"101", 2).unwrap();
    assert_eq!(v.0, [5, 0, 0, 0]);
    let v = caml_bigint_256_of_numeral(b"zz", 36).unwrap();
    assert_eq!(v.0, [35 * 36 + 35, 0, 0, 0]);
}

#[test]
fn of_numeral_accepts_plus_and_separators() {
    let v = caml_bigint_256_of_numeral(b"+42", 10).unwrap();
    assert_eq!(v.0, [42, 0, 0, 0]);
    let v = caml_bigint_256_of_numeral(b"1_000", 10).unwrap();
    assert_eq!(v.0, [1000, 0, 0, 0]);
}

#[test]
fn of_numeral_rejects_malformed_input() {
    assert_eq!(
        caml_bigint_256_of_numeral(b"", 10),
        Err(Error::InvalidArgument)
    );
    assert_eq!(
        caml_bigint_256_of_numeral(b"12a", 10),
        Err(Error::InvalidArgument)
    );
    assert_eq!(
        caml_bigint_256_of_numeral(b"-5", 10),
        Err(Error::InvalidArgument)
    );
    assert_eq!(
        caml_bigint_256_of_numeral(b"++1", 10),
        Err(Error::InvalidArgument)
    );
    assert_eq!(
        caml_bigint_256_of_numeral(b"_1", 10),
        Err(Error::InvalidArgument)
    );
    assert_eq!(
        caml_bigint_256_of_numeral(b"1 2", 10),
        Err(Error::InvalidArgument)
    );
}

#[test]
fn of_decimal_string_rejects_values_that_do_not_fit() {
    // 2^256 is one past the largest representable value.
    let too_big = b"115792089237316195423570985008687907853269984665640564039457584007913129639936";
    assert_eq!(
        caml_bigint_256_of_decimal_string(too_big),
        Err(Error::InvalidArgument)
    );
    // 2^256 - 1 still fits.
    let max = b"115792089237316195423570985008687907853269984665640564039457584007913129639935";
    let v = caml_bigint_256_of_decimal_string(max).unwrap();
    assert_eq!(v.0, [u64::MAX, u64::MAX, u64::MAX, u64::MAX]);
    assert_eq!(
        caml_bigint_256_to_string(&v),
        std::str::from_utf8(max).unwrap()
    );
}

#[test]
fn decimal_round_trip_through_text() {
    let inputs: [&[u8]; 4] = [
        b"1",
        b"18446744073709551616",
        b"999999999999999999999999999999",
        b"115792089237316195423570985008687907853269984665640564039457584007913129639935",
    ];
    for s in inputs {
        let v = caml_bigint_256_of_decimal_string(s).unwrap();
        let text = caml_bigint_256_to_string(&v);
        let w = caml_bigint_256_of_decimal_string(text.as_bytes()).unwrap();
        assert_eq!(w, v);
        assert_eq!(text.as_bytes(), s);
    }
}

#[test]
fn biguint_conversions_round_trip() {
    let v = caml_bigint_256_of_decimal_string(b"123456789123456789").unwrap();
    let b = v.to_biguint();
    assert_eq!(b, BigUint::from(123456789123456789u64));
    let w = CamlBigInteger256::of_biguint(&b).unwrap();
    assert_eq!(w, v);
}

#[test]
fn of_biguint_rejects_oversized_values() {
    let big = BigUint::from(1u8) << 256u32;
    assert_eq!(
        CamlBigInteger256::of_biguint(&big),
        Err(Error::InvalidArgument)
    );
    let max = (BigUint::from(1u8) << 256u32) - BigUint::from(1u8);
    let v = CamlBigInteger256::of_biguint(&max).unwrap();
    assert_eq!(v.0, [u64::MAX, u64::MAX, u64::MAX, u64::MAX]);
}

#[test]
fn limb_metadata_constants() {
    assert_eq!(caml_bigint_256_num_limbs(), 4);
    assert_eq!(caml_bigint_256_bytes_per_limb(), 8);
}

#[test]
fn deep_copy_returns_equal_value() {
    let v = CamlBigInteger256([1, 2, 3, 4]);
    let w = caml_bigint_256_deep_copy(v);
    assert_eq!(w, v);
}

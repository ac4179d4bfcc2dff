use bigint_256::bigint::{caml_bigint_256_of_decimal_string, CamlBigInteger256};
use bigint_256::flat_vector::{FlatVectorElem, WasmFlatVector};

#[test]
fn pack_two_u32_elements_concatenates_their_bytes() {
    let e0: u32 = 0x01020304;
    let e1: u32 = 0xa0b0c0d0;
    let packed = WasmFlatVector::from_vec(vec![e0, e1]).into_bytes();
    let mut expected = e0.flatten();
    expected.extend(e1.flatten());
    assert_eq!(packed.len(), 8);
    assert_eq!(packed, expected);
    assert_eq!(packed, vec![0x04, 0x03, 0x02, 0x01, 0xd0, 0xc0, 0xb0, 0xa0]);
}

#[test]
fn unpack_reproduces_u32_elements_in_order() {
    let bytes = vec![0x04, 0x03, 0x02, 0x01, 0xd0, 0xc0, 0xb0, 0xa0];
    let v: WasmFlatVector<u32> = WasmFlatVector::from_bytes(bytes);
    assert_eq!(v.len(), 2);
    assert_eq!(*v.get(0), 0x01020304);
    assert_eq!(*v.get(1), 0xa0b0c0d0);
}

#[test]
fn u32_flatten_unflatten_identity() {
    let e: u32 = 0xdeadbeef;
    let restored = <u32 as FlatVectorElem>::unflatten(e.flatten());
    assert_eq!(restored, e);
}

#[test]
fn unpack_pack_round_trip_on_bytes() {
    let mut bytes = Vec::new();
    for i in 0..12u8 {
        bytes.push(i * 17 + 1);
    }
    let v: WasmFlatVector<u32> = WasmFlatVector::from_bytes(bytes.clone());
    assert_eq!(v.len(), 3);
    let back = v.into_bytes();
    assert_eq!(back, bytes);
}

#[test]
fn empty_buffer_unpacks_to_no_elements() {
    let v: WasmFlatVector<u32> = WasmFlatVector::from_bytes(Vec::new());
    assert_eq!(v.len(), 0);
    assert_eq!(v.into_bytes(), Vec::<u8>::new());
}

#[test]
fn bigint_elements_round_trip_through_flat_vector() {
    let a = caml_bigint_256_of_decimal_string(b"1").unwrap();
    let b = caml_bigint_256_of_decimal_string(b"340282366920938463463374607431768211456")
        .unwrap();
    let packed = WasmFlatVector::from_vec(vec![a, b]).into_bytes();
    assert_eq!(packed.len(), 64);
    assert_eq!(packed[0], 1);
    assert_eq!(packed[48], 1);
    let v: WasmFlatVector<CamlBigInteger256> = WasmFlatVector::from_bytes(packed);
    let elems = v.into_vec();
    assert_eq!(elems, vec![a, b]);
}

#[test]
fn flattened_size_matches_encoding_length() {
    assert_eq!(<u32 as FlatVectorElem>::flattened_size(), 4);
    assert_eq!(<CamlBigInteger256 as FlatVectorElem>::flattened_size(), 32);
    let e: u32 = 5;
    assert_eq!(e.flatten().len(), 4);
}

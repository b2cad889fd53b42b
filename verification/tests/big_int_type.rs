use big_num_manager::BigInt;
use big_num_manager::big_int_to_lower_hex;
use big_num_manager::from_hex_to_big_int;
use num_bigint::BigInt as NumBigInt;

#[test]
fn test_from_sign_magnitude() {
    let b = BigInt::from_sign_magnitude(false, vec![1, 2]).unwrap();
    assert_eq!(b, BigInt::from_i128(0x12_i128));

    let b = BigInt::from_sign_magnitude(true, vec![15, 15]).unwrap();
    assert_eq!(b, BigInt::from_i128(-255_i128));

    let leading_zeros = BigInt::from_sign_magnitude(false, vec![0, 0, 5]).unwrap();
    assert_eq!(leading_zeros, BigInt::from_i128(5_i128));

    let negative_zero = BigInt::from_sign_magnitude(true, vec![0, 0]).unwrap();
    assert_eq!(negative_zero, BigInt::default());

    assert!(BigInt::from_sign_magnitude(false, vec![1, 16]).is_none());
}

#[test]
fn test_accessors() {
    let b = BigInt::from_i128(255_i128);
    assert!(!b.is_negative());
    assert_eq!(b.hex_digits(), vec![15, 15]);

    let n = BigInt::from_i128(-0x123_i128);
    assert!(n.is_negative());
    assert_eq!(n.hex_digits(), vec![1, 2, 3]);

    let zero = BigInt::default();
    assert!(!zero.is_negative());
    assert_eq!(zero.hex_digits(), Vec::<u8>::new());
}

#[test]
fn test_equality_and_clone() {
    assert_eq!(BigInt::from_i128(5_i128), BigInt::from_i128(5_i128));
    assert_ne!(BigInt::from_i128(5_i128), BigInt::from_i128(-5_i128));
    assert_ne!(BigInt::from_i128(5_i128), BigInt::from_i128(6_i128));
    let b = BigInt::from_i128(-100000000_i128);
    assert_eq!(b.clone(), b);
}

#[test]
fn test_i128_extremes() {
    let max = BigInt::from_i128(i128::MAX);
    assert_eq!(
        big_int_to_lower_hex(&max),
        "0x7fffffffffffffffffffffffffffffff"
    );
    let min = BigInt::from_i128(i128::MIN);
    assert_eq!(
        big_int_to_lower_hex(&min),
        "-0x80000000000000000000000000000000"
    );
}

#[test]
fn test_matches_reference_bigint() {
    let ours = from_hex_to_big_int("0x52B7D2DCC80CD2E4000000").unwrap();
    let theirs = NumBigInt::parse_bytes(b"52B7D2DCC80CD2E4000000", 16).unwrap();
    assert_eq!(big_int_to_lower_hex(&ours), format!("{:#x}", theirs));

    let ours = from_hex_to_big_int("0x5F5E100").unwrap();
    let theirs = NumBigInt::parse_bytes(b"5F5E100", 16).unwrap();
    assert_eq!(big_int_to_lower_hex(&ours), format!("{:#x}", theirs));
}

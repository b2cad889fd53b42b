use big_num_manager::BigInt;
use big_num_manager::big_int_to_lower_hex;
use big_num_manager::big_int_to_upper_hex;
use big_num_manager::from_hex_to_big_int;

#[test]
fn test_hex() {
    let big_num = BigInt::default();
    assert_eq!(from_hex_to_big_int("0x0").unwrap(), big_num);

    let big_num = BigInt::from_i128(100000000000000000000000000_i128);
    assert_eq!(
        from_hex_to_big_int("0x52B7D2DCC80CD2E4000000").unwrap(),
        big_num
    );
    assert_eq!(big_int_to_upper_hex(&big_num), "0x52B7D2DCC80CD2E4000000");

    let big_num = BigInt::from_i128(100000000_i128);
    assert_eq!(from_hex_to_big_int("0x5F5E100").unwrap(), big_num);
    assert_eq!(big_int_to_lower_hex(&big_num), "0x5f5e100");
    assert_eq!(big_int_to_upper_hex(&big_num), "0x5F5E100");

    let big_num = BigInt::from_i128(20000000_i128);
    assert_eq!(from_hex_to_big_int("0x1312D00").unwrap(), big_num);
    assert_eq!(big_int_to_lower_hex(&big_num), "0x1312d00");
    assert_eq!(big_int_to_upper_hex(&big_num), "0x1312D00");
}

#[test]
fn test_round_trip() {
    let values: Vec<i128> = vec![0, 1, 15, 16, 255, 20000000, 100000000, i128::MAX];
    for v in values {
        let b = BigInt::from_i128(v);
        assert_eq!(from_hex_to_big_int(&big_int_to_lower_hex(&b)).unwrap(), b);
        assert_eq!(from_hex_to_big_int(&big_int_to_upper_hex(&b)).unwrap(), b);
    }
}

#[test]
fn test_parse_case_insensitive() {
    let b = BigInt::from_i128(100000000000000000000000000_i128);
    let lower = big_int_to_lower_hex(&b);
    let upper = big_int_to_upper_hex(&b);
    assert_ne!(lower, upper);
    assert_eq!(
        from_hex_to_big_int(&lower).unwrap(),
        from_hex_to_big_int(&upper).unwrap()
    );
    assert_eq!(
        from_hex_to_big_int("0xabcdef").unwrap(),
        from_hex_to_big_int("0xABCDEF").unwrap()
    );
}

#[test]
fn test_prefix_optional() {
    assert_eq!(
        from_hex_to_big_int("5f5e100").unwrap(),
        from_hex_to_big_int("0x5f5e100").unwrap()
    );
    assert_eq!(
        from_hex_to_big_int("0").unwrap(),
        from_hex_to_big_int("0x0").unwrap()
    );
}

#[test]
fn test_prefix_stripped_only_once() {
    assert!(from_hex_to_big_int("0x0x5").is_err());
    assert_eq!(
        from_hex_to_big_int("0x5").unwrap(),
        BigInt::from_i128(5_i128)
    );
}

#[test]
fn test_parse_invalid() {
    assert!(from_hex_to_big_int("0xZZ").is_err());
    assert!(from_hex_to_big_int("").is_err());
    assert!(from_hex_to_big_int("0x").is_err());
    assert!(from_hex_to_big_int("0X5").is_err());
    assert!(from_hex_to_big_int("-0xff").is_err());
    assert!(from_hex_to_big_int("0x 5").is_err());
}

#[test]
fn test_parse_error_diagnostics() {
    let e = from_hex_to_big_int("0xZZ").unwrap_err();
    assert_eq!(e.input(), "0xZZ");
    assert_eq!(
        e.message(),
        "failed to parse hex big int 0xZZ (parse returned None)"
    );
}

#[test]
fn test_zero() {
    let zero = BigInt::from_i128(0_i128);
    assert_eq!(zero, BigInt::default());
    assert_eq!(big_int_to_lower_hex(&zero), "0x0");
    assert_eq!(big_int_to_upper_hex(&zero), "0x0");
    assert_eq!(from_hex_to_big_int("000").unwrap(), zero);
    assert_eq!(from_hex_to_big_int("0x000").unwrap(), zero);
}

#[test]
fn test_negative_render() {
    let b = BigInt::from_i128(-255_i128);
    assert_eq!(big_int_to_lower_hex(&b), "-0xff");
    assert_eq!(big_int_to_upper_hex(&b), "-0xFF");
    assert!(from_hex_to_big_int(&big_int_to_lower_hex(&b)).is_err());
}

#[test]
fn test_adapter_scenario() {
    let b = BigInt::from_i128(100000000_i128);
    let encoded = big_int_to_lower_hex(&b);
    assert_eq!(encoded, "0x5f5e100");
    assert_eq!(from_hex_to_big_int(&encoded).unwrap(), b);
}

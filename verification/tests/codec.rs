use jitterbug::codec::{
    be_bytes, be_value, format_decimal, parse_unsigned, u128_from_be_bytes, u128_to_be_bytes, u32_from_be_bytes,
    u32_to_be_bytes,
};

#[test]
fn big_endian_integers() {
    assert_eq!(u32_to_be_bytes(0x01020304), vec![1, 2, 3, 4]);
    assert_eq!(u32_from_be_bytes(&[0xde, 0xad, 0xbe, 0xef]), 0xdeadbeef);
    assert_eq!(u128_to_be_bytes(1), [vec![0u8; 15], vec![1]].concat());
    assert_eq!(u128_from_be_bytes(&u128::MAX.to_be_bytes()), u128::MAX);
    assert_eq!(u128_to_be_bytes(123456789012345678901234567890).as_slice(), &123456789012345678901234567890u128.to_be_bytes());
    assert_eq!(be_bytes(0x0102, 1), vec![2]);
    assert_eq!(be_value(&[]), 0);
    assert_eq!(be_value(&[1, 0]), 256);
}

#[test]
fn decimal_parsing_like_from_str() {
    assert_eq!(parse_unsigned(b"8080", 65535), Some(8080));
    assert_eq!(parse_unsigned(b"+5", 65535), Some(5));
    assert_eq!(parse_unsigned(b"0065535", 65535), Some(65535));
    assert_eq!(parse_unsigned(b"65536", 65535), None);
    assert_eq!(parse_unsigned(b"", 65535), None);
    assert_eq!(parse_unsigned(b"+", 65535), None);
    assert_eq!(parse_unsigned(b"-1", 65535), None);
    assert_eq!(parse_unsigned(b"12a", 65535), None);
    assert_eq!(parse_unsigned(b" 1", 65535), None);
    assert_eq!(parse_unsigned(b"340282366920938463463374607431768211455", u128::MAX), Some(u128::MAX));
    assert_eq!(parse_unsigned(b"340282366920938463463374607431768211456", u128::MAX), None);
}

#[test]
fn decimal_formatting() {
    assert_eq!(format_decimal(0), b"0".to_vec());
    assert_eq!(format_decimal(65535), b"65535".to_vec());
    assert_eq!(format_decimal(u128::MAX), u128::MAX.to_string().into_bytes());
    assert_eq!(parse_unsigned(&format_decimal(8080), 65535), Some(8080));
}

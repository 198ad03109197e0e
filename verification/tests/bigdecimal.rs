use bigdecimal::num_bigint::{BigInt, Sign, ToBigInt};
use bigdecimal::BigDecimal;
use klickhouse::values::bigdecimal::{
    convert, from_sql, pad_with_zeros, to_sql, to_sql_with, Conversions, DecimalParts,
};
use klickhouse::{u256, KlickhouseError, Type, Value};
use std::str::FromStr;

fn parts(d: &BigDecimal) -> DecimalParts {
    let (digits, scale) = d.as_bigint_and_exponent();
    let (sign, magnitude) = digits.to_bytes_be();
    DecimalParts { negative: sign == Sign::Minus, magnitude, scale }
}

fn decimal(d: &DecimalParts) -> BigDecimal {
    let sign = if d.negative { Sign::Minus } else { Sign::Plus };
    BigDecimal::new(BigInt::from_bytes_be(sign, &d.magnitude), d.scale)
}

#[test]
fn test_from_sql_integers() {
    let typ = Type::Int8;
    let result = decimal(&from_sql(&typ, Value::Int8(42)).unwrap());
    assert_eq!(result, BigDecimal::from(42));

    let typ = Type::Int16;
    let result = decimal(&from_sql(&typ, Value::Int16(1234)).unwrap());
    assert_eq!(result, BigDecimal::from(1234));

    let typ = Type::UInt8;
    let result = decimal(&from_sql(&typ, Value::UInt8(200)).unwrap());
    assert_eq!(result, BigDecimal::from(200));
}

#[test]
fn test_from_sql_decimals() {
    let typ = Type::Decimal32(2);
    let result = decimal(&from_sql(&typ, Value::Decimal32(2, 1234)).unwrap());
    let expected = BigDecimal::from_str("12.34").unwrap();
    assert_eq!(result, expected);

    let typ = Type::Decimal64(3);
    let result = decimal(&from_sql(&typ, Value::Decimal64(3, 123456)).unwrap());
    let expected = BigDecimal::from_str("123.456").unwrap();
    assert_eq!(result, expected);
}

#[test]
fn test_to_sql_none_decimal128() {
    let bd = BigDecimal::from(987654321);
    let result = to_sql(&parts(&bd), None).unwrap();
    let expected = Value::Decimal128(0, 987654321);
    assert_eq!(result, expected);
}

#[test]
fn test_to_sql_decimal32_success() {
    let bd = BigDecimal::from(1234);
    let type_hint = Type::Decimal32(2);
    let result = to_sql(&parts(&bd), Some(&type_hint)).unwrap();
    let expected = Value::Decimal32(2, 1234);
    assert_eq!(result, expected);
}

#[test]
fn test_to_sql_decimal32_out_of_range() {
    let bd = BigDecimal::from_str("123.456").unwrap();
    let err = to_sql(&parts(&bd), Some(&Type::Decimal32(2)));
    assert!(err.is_err());
}

#[test]
fn test_to_sql_uint8_success() {
    let bd = BigDecimal::from(255);
    let result = to_sql(&parts(&bd), Some(&Type::UInt8)).unwrap();
    let expected = Value::UInt8(255);
    assert_eq!(result, expected);
}

#[test]
fn test_to_sql_int8_out_of_range() {
    let bd = BigDecimal::from(200);
    let err = to_sql(&parts(&bd), Some(&Type::Int8));
    assert!(err.is_err());
}

#[test]
fn test_pad_with_zeros_success() {
    let slice = vec![1, 2, 3];
    let padded = pad_with_zeros(&slice, 32).unwrap();
    let mut expected = [0u8; 32];
    expected[32 - slice.len()..].copy_from_slice(&slice);
    assert_eq!(padded, expected);
}

#[test]
fn test_pad_with_zeros_error() {
    let slice = vec![0u8; 33];
    let err = pad_with_zeros(&slice, 32);
    assert!(err.is_err());
}

#[test]
fn test_to_sql_uint256_success() {
    let bd = BigDecimal::from(123456789);
    let result = to_sql(&parts(&bd), Some(&Type::UInt256)).unwrap();
    let bigint = bd.to_bigint().unwrap();
    let (_, bytes) = bigint.to_bytes_be();
    let padded = pad_with_zeros(&bytes, 32).unwrap();
    let expected = Value::UInt256(u256(padded));
    assert_eq!(result, expected);
}

#[test]
fn test_to_sql_none_fractional_fail() {
    let bd = BigDecimal::from_str("123.456").unwrap();
    let err = to_sql(&parts(&bd), None);
    assert!(err.is_err());
}

#[test]
fn from_sql_covers_the_wide_integers() {
    let max = from_sql(&Type::UInt128, Value::UInt128(u128::MAX)).unwrap();
    assert_eq!(decimal(&max), BigDecimal::from(u128::MAX));
    let min = from_sql(&Type::Int128, Value::Int128(i128::MIN)).unwrap();
    assert_eq!(decimal(&min), BigDecimal::from(i128::MIN));
    assert!(min.negative);
    let zero = from_sql(&Type::Int64, Value::Int64(0)).unwrap();
    assert_eq!(zero, DecimalParts { negative: false, magnitude: vec![], scale: 0 });
    let mut bytes = [0u8; 32];
    bytes[0] = 0x7f;
    bytes[31] = 0xfe;
    let wide = from_sql(&Type::UInt256, Value::UInt256(u256(bytes))).unwrap();
    let expected = (BigInt::from(0x7f) << 248usize) + BigInt::from(0xfe);
    assert_eq!(decimal(&wide), BigDecimal::from(expected));
    match from_sql(&Type::String, Value::string("1")) {
        Err(KlickhouseError::UnexpectedType(Type::String)) => {}
        other => panic!("{other:?}"),
    }
}

#[test]
fn conversions_are_those_of_the_decimal() {
    let c = convert(&parts(&BigDecimal::from_str("-12.75").unwrap())).unwrap();
    assert_eq!(
        c,
        Conversions {
            scale: 2,
            as_i64: Some(-12),
            as_i128: Some(-12),
            as_u64: None,
            as_u128: None,
            integer: Some(vec![12]),
            is_integer: false,
        }
    );
    let c = convert(&parts(&BigDecimal::from_str("300.00").unwrap())).unwrap();
    assert_eq!(c.as_u64, Some(300));
    assert!(c.is_integer);
    assert_eq!(c.integer, Some(vec![1, 44]));
}

#[test]
fn to_sql_goes_by_the_conversions() {
    let c = Conversions {
        scale: 3,
        as_i64: Some(70000),
        as_i128: Some(70000),
        as_u64: Some(70000),
        as_u128: Some(70000),
        integer: Some(vec![1, 17, 112]),
        is_integer: true,
    };
    assert_eq!(to_sql_with(&c, None).unwrap(), Value::Decimal128(3, 70000));
    assert_eq!(to_sql_with(&c, Some(&Type::Decimal32(3))).unwrap(), Value::Decimal32(3, 70000));
    assert!(to_sql_with(&c, Some(&Type::Decimal32(2))).is_err());
    assert_eq!(to_sql_with(&c, Some(&Type::Decimal64(5))).unwrap(), Value::Decimal64(5, 70000));
    assert_eq!(to_sql_with(&c, Some(&Type::Decimal128(3))).unwrap(), Value::Decimal128(3, 70000));
    assert!(to_sql_with(&c, Some(&Type::UInt16)).is_err());
    assert!(to_sql_with(&c, Some(&Type::Int16)).is_err());
    assert_eq!(to_sql_with(&c, Some(&Type::UInt32)).unwrap(), Value::UInt32(70000));
    assert_eq!(to_sql_with(&c, Some(&Type::Int32)).unwrap(), Value::Int32(70000));
    assert_eq!(to_sql_with(&c, Some(&Type::UInt64)).unwrap(), Value::UInt64(70000));
    assert_eq!(to_sql_with(&c, Some(&Type::Int64)).unwrap(), Value::Int64(70000));
    assert_eq!(to_sql_with(&c, Some(&Type::UInt128)).unwrap(), Value::UInt128(70000));
    assert_eq!(to_sql_with(&c, Some(&Type::Int128)).unwrap(), Value::Int128(70000));
    let mut expected = [0u8; 32];
    expected[29..].copy_from_slice(&[1, 17, 112]);
    assert_eq!(to_sql_with(&c, Some(&Type::UInt256)).unwrap(), Value::UInt256(u256(expected)));
    assert!(matches!(
        to_sql_with(&c, Some(&Type::String)),
        Err(KlickhouseError::SerializeError(_))
    ));
    let fractional = Conversions { is_integer: false, ..c.clone() };
    assert!(to_sql_with(&fractional, None).is_err());
}

#[test]
fn a_scale_out_of_range_is_a_serialize_error() {
    for scale in [i64::MIN, i64::MIN + 1, -1_000_001, 1_000_001, i64::MAX] {
        let d = DecimalParts { negative: false, magnitude: vec![1], scale };
        assert_eq!(convert(&d), None, "{scale}");
        for hint in [None, Some(&Type::Int64), Some(&Type::UInt256), Some(&Type::Decimal32(2))] {
            match to_sql(&d, hint) {
                Err(KlickhouseError::SerializeError(text)) => {
                    assert_eq!(text, "the scale of the decimal is out of range")
                }
                other => panic!("{scale}: {other:?}"),
            }
        }
    }
    let d = DecimalParts { negative: false, magnitude: vec![1], scale: -1_000 };
    assert!(convert(&d).is_some());
}

#[test]
fn conversions_are_the_integer_part_where_it_fits() {
    let cases: [(&str, Option<i64>, Option<u64>, bool, Vec<u8>); 9] = [
        ("0", Some(0), Some(0), false, vec![0]),
        ("-0.5", Some(0), None, false, vec![0]),
        ("0.999", Some(0), Some(0), false, vec![0]),
        ("-12.75", Some(-12), None, true, vec![12]),
        ("12e2", Some(1200), Some(1200), false, vec![4, 176]),
        ("9223372036854775807.9", Some(i64::MAX), Some(i64::MAX as u64), false, vec![127, 255, 255, 255, 255, 255, 255, 255]),
        ("-9223372036854775808.9", Some(i64::MIN), None, true, vec![128, 0, 0, 0, 0, 0, 0, 0]),
        ("9223372036854775808", None, Some(1 << 63), false, vec![128, 0, 0, 0, 0, 0, 0, 0]),
        ("18446744073709551616", None, None, false, vec![1, 0, 0, 0, 0, 0, 0, 0, 0]),
    ];
    for (text, as_i64, as_u64, _negative, integer) in cases {
        let c = convert(&parts(&BigDecimal::from_str(text).unwrap())).unwrap();
        assert_eq!(c.as_i64, as_i64, "{text}");
        assert_eq!(c.as_u64, as_u64, "{text}");
        assert_eq!(c.as_i128.map(|v| v as i64 as i128 == v), Some(as_i64.is_some()), "{text}");
        assert_eq!(c.integer, Some(integer), "{text}");
    }
    let d = DecimalParts { negative: true, magnitude: vec![0, 0], scale: 3 };
    let c = convert(&d).unwrap();
    assert_eq!((c.as_i64, c.as_u64, c.as_u128), (Some(0), Some(0), Some(0)));
}

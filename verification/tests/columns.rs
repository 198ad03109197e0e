use klickhouse::{
    i256, u256, ByteReader, Date, DateTime, DynDateTime64, KlickhouseError, MultiPolygon, Point,
    Polygon, Ring, Type, Value,
};
use uuid::Uuid;

fn encode(type_: &Type, values: &[Value]) -> Result<Vec<u8>, KlickhouseError> {
    let mut output = vec![];
    type_.serialize_prefix(&mut output);
    type_.serialize_column(&values.to_vec(), &mut output)?;
    Ok(output)
}

fn roundtrip_values(type_: &Type, values: &[Value]) -> Result<Vec<Value>, KlickhouseError> {
    let output = encode(type_, values)?;
    let total = output.len();
    let mut input = ByteReader::new(output);
    type_.deserialize_prefix(&mut input)?;
    let deserialized = type_.deserialize_column(&mut input, values.len())?;
    assert_eq!(input.remaining(), 0, "{total} bytes were written");
    Ok(deserialized)
}

fn utc() -> String {
    "UTC".to_string()
}

#[test]
fn roundtrip_u8() {
    let values = &[Value::UInt8(12), Value::UInt8(24), Value::UInt8(30)];
    assert_eq!(&values[..], roundtrip_values(&Type::UInt8, &values[..]).unwrap());
}

#[test]
fn roundtrip_u16() {
    let values = &[Value::UInt16(12), Value::UInt16(24), Value::UInt16(30000)];
    assert_eq!(&values[..], roundtrip_values(&Type::UInt16, &values[..]).unwrap());
}

#[test]
fn roundtrip_u32() {
    let values = &[Value::UInt32(12), Value::UInt32(24), Value::UInt32(900000)];
    assert_eq!(&values[..], roundtrip_values(&Type::UInt32, &values[..]).unwrap());
}

#[test]
fn roundtrip_u64() {
    let values = &[Value::UInt64(12), Value::UInt64(24), Value::UInt64(9000000000)];
    assert_eq!(&values[..], roundtrip_values(&Type::UInt64, &values[..]).unwrap());
}

#[test]
fn roundtrip_u128() {
    let values = &[
        Value::UInt128(12),
        Value::UInt128(24),
        Value::UInt128(9000000000),
        Value::UInt128(9000000000u128 * 9000000000),
    ];
    assert_eq!(&values[..], roundtrip_values(&Type::UInt128, &values[..]).unwrap());
}

#[test]
fn roundtrip_u256() {
    let values = &[Value::UInt256(u256([0u8; 32])), Value::UInt256(u256([7u8; 32]))];
    assert_eq!(&values[..], roundtrip_values(&Type::UInt256, &values[..]).unwrap());
}

#[test]
fn roundtrip_i8() {
    let values = &[Value::Int8(12), Value::Int8(24), Value::Int8(30), Value::Int8(-30)];
    assert_eq!(&values[..], roundtrip_values(&Type::Int8, &values[..]).unwrap());
}

#[test]
fn roundtrip_i16() {
    let values = &[Value::Int16(12), Value::Int16(24), Value::Int16(30000), Value::Int16(-30000)];
    assert_eq!(&values[..], roundtrip_values(&Type::Int16, &values[..]).unwrap());
}

#[test]
fn roundtrip_i32() {
    let values = &[Value::Int32(12), Value::Int32(24), Value::Int32(900000), Value::Int32(-900000)];
    assert_eq!(&values[..], roundtrip_values(&Type::Int32, &values[..]).unwrap());
}

#[test]
fn roundtrip_i64() {
    let values = &[
        Value::Int64(12),
        Value::Int64(24),
        Value::Int64(9000000000),
        Value::Int64(-9000000000),
    ];
    assert_eq!(&values[..], roundtrip_values(&Type::Int64, &values[..]).unwrap());
}

#[test]
fn roundtrip_i128() {
    let values = &[
        Value::Int128(12),
        Value::Int128(24),
        Value::Int128(9000000000),
        Value::Int128(9000000000i128 * 9000000000),
        Value::Int128(-9000000000i128 * 9000000000),
    ];
    assert_eq!(&values[..], roundtrip_values(&Type::Int128, &values[..]).unwrap());
}

#[test]
fn roundtrip_i256() {
    let values = &[Value::Int256(i256([0u8; 32])), Value::Int256(i256([7u8; 32]))];
    assert_eq!(&values[..], roundtrip_values(&Type::Int256, &values[..]).unwrap());
}

#[test]
fn roundtrip_f32() {
    let values = &[
        Value::Float32(1.0_f32.to_bits()),
        Value::Float32(0.0_f32.to_bits()),
        Value::Float32(100.0_f32.to_bits()),
        Value::Float32(100000.0_f32.to_bits()),
        Value::Float32(1000000.0_f32.to_bits()),
        Value::Float32((-1000000.0_f32).to_bits()),
        Value::Float32(f32::NAN.to_bits()),
        Value::Float32(f32::INFINITY.to_bits()),
        Value::Float32(f32::NEG_INFINITY.to_bits()),
    ];
    assert_eq!(&values[..], roundtrip_values(&Type::Float32, &values[..]).unwrap());
}

#[test]
fn roundtrip_f64() {
    let values = &[
        Value::Float64(1.0_f64.to_bits()),
        Value::Float64(0.0_f64.to_bits()),
        Value::Float64(100.0_f64.to_bits()),
        Value::Float64(100000.0_f64.to_bits()),
        Value::Float64(1000000.0_f64.to_bits()),
        Value::Float64((-1000000.0_f64).to_bits()),
        Value::Float64(f64::NAN.to_bits()),
        Value::Float64(f64::INFINITY.to_bits()),
        Value::Float64(f64::NEG_INFINITY.to_bits()),
    ];
    assert_eq!(&values[..], roundtrip_values(&Type::Float64, &values[..]).unwrap());
}

#[test]
fn roundtrip_d32() {
    let values = &[
        Value::Decimal32(5, 12),
        Value::Decimal32(5, 24),
        Value::Decimal32(5, 900000),
        Value::Decimal32(5, -900000),
    ];
    assert_eq!(&values[..], roundtrip_values(&Type::Decimal32(5), &values[..]).unwrap());
}

#[test]
fn roundtrip_d64() {
    let values = &[
        Value::Decimal64(5, 12),
        Value::Decimal64(5, 24),
        Value::Decimal64(5, 9000000000),
        Value::Decimal64(5, -9000000000),
    ];
    assert_eq!(&values[..], roundtrip_values(&Type::Decimal64(5), &values[..]).unwrap());
}

#[test]
fn roundtrip_d128() {
    let values = &[
        Value::Decimal128(5, 12),
        Value::Decimal128(5, 24),
        Value::Decimal128(5, 9000000000),
        Value::Decimal128(5, 9000000000i128 * 9000000000),
        Value::Decimal128(5, -9000000000i128 * 9000000000),
    ];
    assert_eq!(&values[..], roundtrip_values(&Type::Decimal128(5), &values[..]).unwrap());
}

#[test]
fn roundtrip_d256() {
    let values = &[
        Value::Decimal256(5, i256([0u8; 32])),
        Value::Decimal256(5, i256([7u8; 32])),
    ];
    assert_eq!(&values[..], roundtrip_values(&Type::Decimal256(5), &values[..]).unwrap());
}

#[test]
fn roundtrip_null_int() {
    let values = &[
        Value::UInt32(35),
        Value::UInt32(90),
        Value::Null,
        Value::UInt32(120),
        Value::UInt32(10000),
        Value::Null,
    ];
    assert_eq!(
        &values[..],
        roundtrip_values(&Type::Nullable(Box::new(Type::UInt32)), &values[..]).unwrap()
    );
}

#[test]
fn roundtrip_string() {
    let values = &[
        Value::string(""),
        Value::string("t"),
        Value::string("test"),
        Value::string("TESTST"),
        Value::string("日本語"),
    ];
    assert_eq!(&values[..], roundtrip_values(&Type::String, &values[..]).unwrap());
    assert_eq!(&values[..], roundtrip_values(&Type::FixedString(32), &values[..]).unwrap());
}

#[test]
fn fixed_string_rejects_longer_input() {
    let values = &[Value::string("t"), Value::string("test")];
    match roundtrip_values(&Type::FixedString(3), &values[..]) {
        Err(KlickhouseError::SerializeError(_)) => {}
        other => panic!("{other:?}"),
    }
    let exact = &[Value::string("abc")];
    assert_eq!(encode(&Type::FixedString(3), exact).unwrap(), b"abc".to_vec());
    let padded = &[Value::string("a")];
    assert_eq!(encode(&Type::FixedString(3), padded).unwrap(), vec![b'a', 0, 0]);
}

#[test]
fn roundtrip_null_string() {
    let values = &[
        Value::string(""),
        Value::Null,
        Value::string("t"),
        Value::string("test"),
        Value::Null,
        Value::string("TESTST"),
        Value::string("日本語"),
        Value::Null,
    ];
    assert_eq!(
        &values[..],
        roundtrip_values(&Type::Nullable(Box::new(Type::String)), &values[..]).unwrap()
    );
}

#[test]
fn roundtrip_uuid() {
    let values = &[
        Value::Uuid(Uuid::from_u128(0).as_u128()),
        Value::Uuid(Uuid::from_u128(1).as_u128()),
        Value::Uuid(Uuid::from_u128(456345634563456).as_u128()),
    ];
    assert_eq!(&values[..], roundtrip_values(&Type::Uuid, &values[..]).unwrap());
}

#[test]
fn uuid_halves_are_swapped_on_the_wire() {
    let id = Uuid::parse_str("00112233-4455-6677-8899-aabbccddeeff").unwrap();
    let bytes = encode(&Type::Uuid, &[Value::Uuid(id.as_u128())]).unwrap();
    assert_eq!(
        bytes,
        vec![
            0x77, 0x66, 0x55, 0x44, 0x33, 0x22, 0x11, 0x00, 0xff, 0xee, 0xdd, 0xcc, 0xbb, 0xaa,
            0x99, 0x88
        ]
    );
}

#[test]
fn roundtrip_date() {
    let values = &[Value::Date(Date(0)), Value::Date(Date(3234)), Value::Date(Date(45345))];
    assert_eq!(&values[..], roundtrip_values(&Type::Date, &values[..]).unwrap());
}

#[test]
fn roundtrip_datetime() {
    let values = &[
        Value::DateTime(DateTime(utc(), 0)),
        Value::DateTime(DateTime(utc(), 323463434)),
        Value::DateTime(DateTime(utc(), 45345345)),
    ];
    assert_eq!(&values[..], roundtrip_values(&Type::DateTime(utc()), &values[..]).unwrap());
}

#[test]
fn roundtrip_datetime64() {
    let values = &[
        Value::DateTime64(DynDateTime64(utc(), 0, 3)),
        Value::DateTime64(DynDateTime64(utc(), 32346345634, 3)),
        Value::DateTime64(DynDateTime64(utc(), 4534564345, 3)),
    ];
    assert_eq!(&values[..], roundtrip_values(&Type::DateTime64(3, utc()), &values[..]).unwrap());
}

#[test]
fn roundtrip_enum8() {
    let type_ = Type::Enum8(vec![
        ("hello".to_string(), 1),
        ("world".to_string(), 2),
        ("foo".to_string(), -1),
    ]);
    let values = &[Value::Enum8(1), Value::Enum8(2), Value::Enum8(-1)];
    assert_eq!(&values[..], roundtrip_values(&type_, &values[..]).unwrap());
    assert_eq!(encode(&type_, values).unwrap(), vec![1, 2, 0xff]);
}

#[test]
fn roundtrip_enum16() {
    let type_ = Type::Enum16(vec![
        ("alpha".to_string(), 100),
        ("beta".to_string(), 200),
        ("gamma".to_string(), -300),
    ]);
    let values = &[Value::Enum16(100), Value::Enum16(200), Value::Enum16(-300)];
    assert_eq!(&values[..], roundtrip_values(&type_, &values[..]).unwrap());
}

#[test]
fn enum8_validate_value_valid() {
    let t = Type::Enum8(vec![("a".to_string(), 1), ("b".to_string(), 2)]);
    assert!(t.validate_value(&Value::Enum8(1)).is_ok());
    assert!(t.validate_value(&Value::Enum8(2)).is_ok());
}

#[test]
fn enum8_validate_value_invalid() {
    let t = Type::Enum8(vec![("a".to_string(), 1), ("b".to_string(), 2)]);
    assert!(t.validate_value(&Value::Enum8(3)).is_err());
}

#[test]
fn roundtrip_array() {
    let values = &[
        Value::Array(vec![]),
        Value::Array(vec![Value::UInt32(0)]),
        Value::Array(vec![Value::UInt32(1), Value::UInt32(2), Value::UInt32(3)]),
    ];
    assert_eq!(
        &values[..],
        roundtrip_values(&Type::Array(Box::new(Type::UInt32)), &values[..]).unwrap()
    );
}

#[test]
fn array_offsets_are_cumulative() {
    let values = &[
        Value::Array(vec![]),
        Value::Array(vec![Value::UInt32(0)]),
        Value::Array(vec![Value::UInt32(1), Value::UInt32(2), Value::UInt32(3)]),
    ];
    let bytes = encode(&Type::Array(Box::new(Type::UInt32)), values).unwrap();
    let mut expected = vec![];
    for offset in [0u64, 1, 4] {
        expected.extend_from_slice(&offset.to_le_bytes());
    }
    for item in [0u32, 1, 2, 3] {
        expected.extend_from_slice(&item.to_le_bytes());
    }
    assert_eq!(bytes, expected);
}

#[test]
fn roundtrip_array2() {
    let values = &[
        Value::Array(vec![Value::Array(vec![])]),
        Value::Array(vec![Value::Array(vec![Value::UInt32(1)])]),
        Value::Array(vec![
            Value::Array(vec![Value::UInt32(2)]),
            Value::Array(vec![Value::UInt32(3)]),
        ]),
        Value::Array(vec![
            Value::Array(vec![Value::UInt32(4), Value::UInt32(5)]),
            Value::Array(vec![Value::UInt32(6), Value::UInt32(7)]),
        ]),
        Value::Array(vec![Value::Array(vec![Value::UInt32(8)])]),
    ];
    assert_eq!(
        &values[..],
        roundtrip_values(
            &Type::Array(Box::new(Type::Array(Box::new(Type::UInt32)))),
            &values[..]
        )
        .unwrap()
    );
}

#[test]
fn roundtrip_tuple() {
    let values = &[
        Value::Tuple(vec![Value::UInt32(1), Value::UInt16(2)]),
        Value::Tuple(vec![Value::UInt32(3), Value::UInt16(4)]),
        Value::Tuple(vec![Value::UInt32(4), Value::UInt16(5)]),
    ];
    let type_ = Type::Tuple(vec![Type::UInt32, Type::UInt16]);
    assert_eq!(&values[..], roundtrip_values(&type_, &values[..]).unwrap());
    let mut expected = vec![];
    for x in [1u32, 3, 4] {
        expected.extend_from_slice(&x.to_le_bytes());
    }
    for y in [2u16, 4, 5] {
        expected.extend_from_slice(&y.to_le_bytes());
    }
    assert_eq!(encode(&type_, values).unwrap(), expected);
}

#[test]
fn roundtrip_2tuple() {
    let values = &[
        Value::Tuple(vec![
            Value::UInt32(1),
            Value::Tuple(vec![Value::UInt32(1), Value::UInt16(2)]),
        ]),
        Value::Tuple(vec![
            Value::UInt32(3),
            Value::Tuple(vec![Value::UInt32(3), Value::UInt16(4)]),
        ]),
        Value::Tuple(vec![
            Value::UInt32(4),
            Value::Tuple(vec![Value::UInt32(4), Value::UInt16(5)]),
        ]),
    ];
    assert_eq!(
        &values[..],
        roundtrip_values(
            &Type::Tuple(vec![Type::UInt32, Type::Tuple(vec![Type::UInt32, Type::UInt16])]),
            &values[..]
        )
        .unwrap()
    );
}

#[test]
fn roundtrip_array_tuple() {
    let values = &[
        Value::Array(vec![
            Value::Tuple(vec![Value::UInt32(1), Value::UInt16(2)]),
            Value::Tuple(vec![Value::UInt32(3), Value::UInt16(4)]),
        ]),
        Value::Array(vec![Value::Tuple(vec![Value::UInt32(5), Value::UInt16(6)])]),
        Value::Array(vec![]),
    ];
    assert_eq!(
        &values[..],
        roundtrip_values(
            &Type::Array(Box::new(Type::Tuple(vec![Type::UInt32, Type::UInt16]))),
            &values[..]
        )
        .unwrap()
    );
}

#[test]
fn roundtrip_tuple_array() {
    let values = &[
        Value::Tuple(vec![Value::Array(vec![]), Value::Array(vec![])]),
        Value::Tuple(vec![Value::Array(vec![Value::UInt32(1)]), Value::Array(vec![])]),
        Value::Tuple(vec![Value::Array(vec![]), Value::Array(vec![Value::UInt16(2)])]),
        Value::Tuple(vec![
            Value::Array(vec![Value::UInt32(3)]),
            Value::Array(vec![Value::UInt16(4)]),
        ]),
        Value::Tuple(vec![
            Value::Array(vec![Value::UInt32(5), Value::UInt32(6)]),
            Value::Array(vec![Value::UInt16(7), Value::UInt16(8)]),
        ]),
    ];
    assert_eq!(
        &values[..],
        roundtrip_values(
            &Type::Tuple(vec![
                Type::Array(Box::new(Type::UInt32)),
                Type::Array(Box::new(Type::UInt16))
            ]),
            &values[..]
        )
        .unwrap()
    );
}

#[test]
fn roundtrip_array_nulls() {
    let values = &[
        Value::Array(vec![]),
        Value::Array(vec![Value::Null]),
        Value::Array(vec![Value::UInt32(0), Value::Null]),
        Value::Array(vec![Value::Null, Value::UInt32(0)]),
        Value::Array(vec![
            Value::Null,
            Value::Null,
            Value::UInt32(1),
            Value::UInt32(2),
            Value::Null,
            Value::UInt32(3),
        ]),
    ];
    assert_eq!(
        &values[..],
        roundtrip_values(
            &Type::Array(Box::new(Type::Nullable(Box::new(Type::UInt32)))),
            &values[..]
        )
        .unwrap()
    );
}

#[test]
fn roundtrip_map() {
    let values = &[
        Value::Mapping(vec![], vec![]),
        Value::Mapping(vec![Value::UInt32(1)], vec![Value::UInt16(2)]),
        Value::Mapping(
            vec![Value::UInt32(5), Value::UInt32(3)],
            vec![Value::UInt16(6), Value::UInt16(4)],
        ),
    ];
    let type_ = Type::Mapping(Box::new(Type::UInt32), Box::new(Type::UInt16));
    assert_eq!(&values[..], roundtrip_values(&type_, &values[..]).unwrap());
    let as_array = &[
        Value::Array(vec![]),
        Value::Array(vec![Value::Tuple(vec![Value::UInt32(1), Value::UInt16(2)])]),
        Value::Array(vec![
            Value::Tuple(vec![Value::UInt32(5), Value::UInt16(6)]),
            Value::Tuple(vec![Value::UInt32(3), Value::UInt16(4)]),
        ]),
    ];
    let array_type = Type::Array(Box::new(Type::Tuple(vec![Type::UInt32, Type::UInt16])));
    assert_eq!(encode(&type_, values).unwrap(), encode(&array_type, as_array).unwrap());
}

fn low_cardinality_strings() -> Vec<Value> {
    vec![
        Value::string(""),
        Value::string("abc"),
        Value::string("abc"),
        Value::string("bcd"),
        Value::string("bcd2"),
        Value::string("abc"),
        Value::string("abc"),
        Value::string("abc"),
        Value::string("abc"),
        Value::string("abc"),
        Value::string("abc"),
        Value::string("abc"),
        Value::string("abc"),
        Value::string("abc"),
    ]
}

#[test]
fn roundtrip_low_cardinality_string() {
    let values = low_cardinality_strings();
    assert_eq!(
        &values[..],
        roundtrip_values(&Type::LowCardinality(Box::new(Type::String)), &values[..]).unwrap()
    );
}

#[test]
fn low_cardinality_dictionary_is_first_seen_order() {
    let values = low_cardinality_strings();
    let type_ = Type::LowCardinality(Box::new(Type::String));
    let mut column = vec![];
    type_.serialize_column(&values, &mut column).unwrap();
    let mut expected = vec![];
    expected.extend_from_slice(&0x0002_0202_0100_0000u64.to_le_bytes());
    expected.extend_from_slice(&4u64.to_le_bytes());
    expected.extend_from_slice(&[0]);
    expected.extend_from_slice(&[3, b'a', b'b', b'c']);
    expected.extend_from_slice(&[3, b'b', b'c', b'd']);
    expected.extend_from_slice(&[4, b'b', b'c', b'd', b'2']);
    expected.extend_from_slice(&14u64.to_le_bytes());
    expected.extend_from_slice(&[0, 1, 1, 2, 3, 1, 1, 1, 1, 1, 1, 1, 1, 1]);
    assert_eq!(column, expected);
    let mut prefix = vec![];
    type_.serialize_prefix(&mut prefix);
    assert_eq!(prefix, 1u64.to_le_bytes().to_vec());
}

#[test]
fn low_cardinality_widens_its_indices() {
    let values: Vec<Value> = (0..300u32).map(|i| Value::UInt32(i)).collect();
    let type_ = Type::LowCardinality(Box::new(Type::UInt32));
    let mut column = vec![];
    type_.serialize_column(&values, &mut column).unwrap();
    assert_eq!(&column[..8], &(0x0002_0202_0100_0000u64 | 1).to_le_bytes());
    assert_eq!(column.len(), 8 + 8 + 300 * 4 + 8 + 300 * 2);
    assert_eq!(values, roundtrip_values(&type_, &values).unwrap());
}

#[test]
fn low_cardinality_rejects_what_it_cannot_read() {
    let type_ = Type::LowCardinality(Box::new(Type::UInt8));
    let mut column = vec![];
    type_.serialize_column(&vec![Value::UInt8(7), Value::UInt8(9)], &mut column).unwrap();
    let last = column.len() - 1;
    let mut bad_index = column.clone();
    bad_index[last] = 2;
    let mut reader = ByteReader::new(bad_index);
    assert!(matches!(
        type_.deserialize_column(&mut reader, 2),
        Err(KlickhouseError::DeserializeError(_))
    ));
    let mut reader = ByteReader::new(column.clone());
    assert!(matches!(
        type_.deserialize_column(&mut reader, 3),
        Err(KlickhouseError::DeserializeError(_))
    ));
    let mut bad_width = column.clone();
    bad_width[0] = 4;
    let mut reader = ByteReader::new(bad_width);
    assert!(matches!(
        type_.deserialize_column(&mut reader, 2),
        Err(KlickhouseError::DeserializeError(_))
    ));
    let mut reader = ByteReader::new(column[..last].to_vec());
    assert!(matches!(type_.deserialize_column(&mut reader, 2), Err(KlickhouseError::Io(_))));
    let mut reader = ByteReader::new(vec![2, 0, 0, 0, 0, 0, 0, 0]);
    assert!(matches!(
        type_.deserialize_prefix(&mut reader),
        Err(KlickhouseError::DeserializeError(_))
    ));
    assert!(matches!(
        type_.serialize_column(&vec![Value::Null], &mut vec![]),
        Err(KlickhouseError::SerializeError(_))
    ));
}

#[test]
fn roundtrip_low_cardinality_string_array() {
    let mut values = vec![Value::Array(vec![])];
    values.extend(low_cardinality_strings().into_iter().map(|v| Value::Array(vec![v])));
    assert_eq!(
        &values[..],
        roundtrip_values(
            &Type::Array(Box::new(Type::LowCardinality(Box::new(Type::String)))),
            &values[..]
        )
        .unwrap()
    );
}

#[test]
fn roundtrip_low_cardinality_string_map() {
    let values: Vec<Value> = low_cardinality_strings()
        .into_iter()
        .map(|v| Value::Mapping(vec![v], vec![Value::UInt32(1)]))
        .collect();
    assert_eq!(
        &values[..],
        roundtrip_values(
            &Type::Mapping(
                Box::new(Type::LowCardinality(Box::new(Type::String))),
                Box::new(Type::UInt32)
            ),
            &values[..]
        )
        .unwrap()
    );
}

fn nullable_strings() -> Vec<Value> {
    vec![
        Value::string(""),
        Value::Null,
        Value::string("abc"),
        Value::string("abc"),
        Value::string("bcd"),
        Value::string("bcd2"),
        Value::Null,
        Value::string("abc"),
        Value::string("abc"),
        Value::string("abc"),
        Value::string("abc"),
        Value::Null,
        Value::string("abc"),
        Value::string("abc"),
        Value::string("abc"),
        Value::string("abc"),
        Value::Null,
        Value::string("abc"),
    ]
}

#[test]
fn roundtrip_low_cardinality_string_null() {
    let values = nullable_strings();
    let type_ = Type::LowCardinality(Box::new(Type::Nullable(Box::new(Type::String))));
    assert_eq!(&values[..], roundtrip_values(&type_, &values[..]).unwrap());
    let mut column = vec![];
    type_.serialize_column(&values, &mut column).unwrap();
    assert_eq!(&column[8..16], &5u64.to_le_bytes());
    assert_eq!(&column[16..18], &[0, 0]);
}

#[test]
fn roundtrip_low_cardinality_array_null() {
    let values: Vec<Value> = nullable_strings().into_iter().map(|v| Value::Array(vec![v])).collect();
    assert_eq!(
        &values[..],
        roundtrip_values(
            &Type::Array(Box::new(Type::LowCardinality(Box::new(Type::Nullable(Box::new(
                Type::String
            )))))),
            &values[..]
        )
        .unwrap()
    );
}

#[test]
fn roundtrip_array_null() {
    let values: Vec<Value> = nullable_strings().into_iter().map(|v| Value::Array(vec![v])).collect();
    assert_eq!(
        &values[..],
        roundtrip_values(
            &Type::Array(Box::new(Type::Nullable(Box::new(Type::String)))),
            &values[..]
        )
        .unwrap()
    );
}

#[test]
fn nullable_column_writes_mask_and_placeholder() {
    let type_ = Type::Nullable(Box::new(Type::String));
    let values = vec![Value::string("present"), Value::Null];
    let bytes = encode(&type_, &values).unwrap();
    let mut expected = vec![0u8, 1, 7];
    expected.extend_from_slice(b"present");
    expected.push(0);
    assert_eq!(bytes, expected);
    assert_eq!(values, roundtrip_values(&type_, &values).unwrap());
    let mut tampered = expected.clone();
    tampered[1] = 0;
    let mut reader = ByteReader::new(tampered);
    assert_eq!(
        type_.deserialize_column(&mut reader, 2).unwrap(),
        vec![Value::string("present"), Value::string("")]
    );
}

#[test]
fn roundtrip_geo() {
    let point = |x: f64| Point([x.to_bits(), (x + 2.0).to_bits()]);
    let values = &[Value::Point(point(1.0)), Value::Point(point(3.0))];
    assert_eq!(&values[..], roundtrip_values(&Type::Point, &values[..]).unwrap());
    let ring = |x: f64| Ring(vec![point(x), point(2.0 * x)]);
    let values = &[Value::Ring(ring(1.0)), Value::Ring(ring(3.0))];
    assert_eq!(&values[..], roundtrip_values(&Type::Ring, &values[..]).unwrap());
    let polygon = |x: f64| Polygon(vec![ring(x), ring(2.0 * x)]);
    let values = &[Value::Polygon(polygon(1.0)), Value::Polygon(polygon(3.0))];
    assert_eq!(&values[..], roundtrip_values(&Type::Polygon, &values[..]).unwrap());
    let multipolygon = |x: f64| MultiPolygon(vec![polygon(x), polygon(2.0 * x)]);
    let values =
        &[Value::MultiPolygon(multipolygon(1.0)), Value::MultiPolygon(multipolygon(3.0))];
    assert_eq!(&values[..], roundtrip_values(&Type::MultiPolygon, &values[..]).unwrap());
}

#[test]
fn geo_columns_are_columns_of_their_parts() {
    let a = Point([1.5f64.to_bits(), 2.5f64.to_bits()]);
    let b = Point([3.5f64.to_bits(), 4.5f64.to_bits()]);
    let points = encode(&Type::Point, &[Value::Point(a), Value::Point(b)]).unwrap();
    let tuples = encode(
        &Type::Tuple(vec![Type::Float64, Type::Float64]),
        &[
            Value::Tuple(vec![Value::Float64(a.0[0]), Value::Float64(a.0[1])]),
            Value::Tuple(vec![Value::Float64(b.0[0]), Value::Float64(b.0[1])]),
        ],
    )
    .unwrap();
    assert_eq!(points, tuples);
    let rings = encode(&Type::Ring, &[Value::Ring(Ring(vec![a, b])), Value::Ring(Ring(vec![]))])
        .unwrap();
    let mut expected = vec![];
    expected.extend_from_slice(&2u64.to_le_bytes());
    expected.extend_from_slice(&2u64.to_le_bytes());
    expected.extend_from_slice(&points);
    assert_eq!(rings, expected);
}

#[test]
fn mismatched_values_are_serialize_errors() {
    let cases: Vec<(Type, Value)> = vec![
        (Type::UInt8, Value::UInt16(1)),
        (Type::String, Value::UInt8(1)),
        (Type::UInt8, Value::Null),
        (Type::Array(Box::new(Type::UInt8)), Value::UInt8(1)),
        (Type::Tuple(vec![Type::UInt8]), Value::Tuple(vec![])),
        (
            Type::Mapping(Box::new(Type::UInt8), Box::new(Type::UInt8)),
            Value::Mapping(vec![Value::UInt8(1)], vec![]),
        ),
        (Type::Point, Value::UInt8(1)),
        (Type::LowCardinality(Box::new(Type::Array(Box::new(Type::UInt8)))), Value::UInt8(1)),
    ];
    for (type_, value) in cases {
        match encode(&type_, &[value.clone()]) {
            Err(KlickhouseError::SerializeError(_)) => {}
            other => panic!("{type_:?} {value:?}: {other:?}"),
        }
    }
}

#[test]
fn truncated_columns_are_io_errors() {
    let type_ = Type::Array(Box::new(Type::UInt32));
    let values = [Value::Array(vec![Value::UInt32(1), Value::UInt32(2)])];
    let bytes = encode(&type_, &values).unwrap();
    for cut in 0..bytes.len() {
        let mut reader = ByteReader::new(bytes[..cut].to_vec());
        assert!(
            matches!(type_.deserialize_column(&mut reader, 1), Err(KlickhouseError::Io(_))),
            "{cut}"
        );
    }
    let mut decreasing = vec![];
    decreasing.extend_from_slice(&2u64.to_le_bytes());
    decreasing.extend_from_slice(&1u64.to_le_bytes());
    let mut reader = ByteReader::new(decreasing);
    assert!(matches!(
        type_.deserialize_column(&mut reader, 2),
        Err(KlickhouseError::DeserializeError(_))
    ));
}

#[test]
fn value_validation_follows_the_type() {
    let utc = utc();
    assert!(Type::Nullable(Box::new(Type::UInt8)).validate_value(&Value::Null).is_ok());
    assert!(Type::UInt8.validate_value(&Value::Null).is_err());
    assert!(Type::FixedString(2).validate_value(&Value::string("abc")).is_err());
    assert!(Type::FixedString(3).validate_value(&Value::string("abc")).is_ok());
    assert!(Type::Decimal32(2).validate_value(&Value::Decimal32(3, 1)).is_err());
    assert!(Type::DateTime(utc.clone())
        .validate_value(&Value::DateTime(DateTime("Europe/Paris".to_string(), 1)))
        .is_err());
    let tuple = Type::Tuple(vec![Type::UInt8, Type::String]);
    assert!(tuple
        .validate_value(&Value::Tuple(vec![Value::UInt8(1), Value::string("x")]))
        .is_ok());
    assert!(tuple
        .validate_value(&Value::Tuple(vec![Value::string("x"), Value::UInt8(1)]))
        .is_err());
    assert!(tuple.validate_value(&Value::Tuple(vec![Value::UInt8(1)])).is_err());
    assert!(matches!(
        Type::UInt8.validate_value(&Value::Int8(1)),
        Err(KlickhouseError::SerializeError(_))
    ));
}

#[test]
fn nothing_is_written_for_a_type_that_is_not_nullable() {
    let mut writer: Vec<u8> = vec![9];
    let r = klickhouse::types::serialize::nullable::NullableSerializer::write(
        &Type::String,
        &vec![Value::string("a")],
        &mut writer,
    );
    match r {
        Err(KlickhouseError::ProtocolError(text)) => {
            assert_eq!(text, "unexpected type in nullable serializer")
        }
        other => panic!("{other:?}"),
    }
    assert_eq!(writer, vec![9]);
}

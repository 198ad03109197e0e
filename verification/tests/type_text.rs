use klickhouse::Type;

#[test]
fn parse_enum8_basic() {
    let t: Type = "Enum8('hello' = 1, 'world' = 2)".parse().unwrap();
    match &t {
        Type::Enum8(entries) => {
            assert_eq!(entries.len(), 2);
            assert_eq!(entries[0], ("hello".to_string(), 1));
            assert_eq!(entries[1], ("world".to_string(), 2));
        }
        other => panic!("expected Enum8, got {other:?}"),
    }
}

#[test]
fn parse_enum16_basic() {
    let t: Type = "Enum16('foo' = 100, 'bar' = 200)".parse().unwrap();
    match &t {
        Type::Enum16(entries) => {
            assert_eq!(entries.len(), 2);
            assert_eq!(entries[0], ("foo".to_string(), 100));
            assert_eq!(entries[1], ("bar".to_string(), 200));
        }
        other => panic!("expected Enum16, got {other:?}"),
    }
}

#[test]
fn parse_enum8_negative_values() {
    let t: Type = "Enum8('a' = -128, 'b' = 127)".parse().unwrap();
    match &t {
        Type::Enum8(entries) => {
            assert_eq!(entries[0], ("a".to_string(), -128));
            assert_eq!(entries[1], ("b".to_string(), 127));
        }
        other => panic!("expected Enum8, got {other:?}"),
    }
}

#[test]
fn parse_enum8_escaped_quote() {
    let t: Type = "Enum8('it\\'s' = 1, 'normal' = 2)".parse().unwrap();
    match &t {
        Type::Enum8(entries) => {
            assert_eq!(entries[0].0, "it's");
            assert_eq!(entries[0].1, 1);
            assert_eq!(entries[1].0, "normal");
        }
        other => panic!("expected Enum8, got {other:?}"),
    }
}

#[test]
fn parse_enum8_value_out_of_range() {
    let result: std::result::Result<Type, _> = "Enum8('a' = 200)".parse();
    assert!(result.is_err());
}

#[test]
fn parse_enum16_value_out_of_range() {
    let result: std::result::Result<Type, _> = "Enum16('a' = 100000)".parse();
    assert!(result.is_err());
}

#[test]
fn parse_enum_roundtrip_display() {
    let original = "Enum8('hello' = 1, 'world' = 2)";
    let t: Type = original.parse().unwrap();
    let displayed = t.to_string();
    let reparsed: Type = displayed.parse().unwrap();
    assert_eq!(t, reparsed);
}

#[test]
fn parse_enum16_roundtrip_display() {
    let original = "Enum16('alpha' = 1000, 'beta' = 2000)";
    let t: Type = original.parse().unwrap();
    let displayed = t.to_string();
    let reparsed: Type = displayed.parse().unwrap();
    assert_eq!(t, reparsed);
}

#[test]
fn enum_with_comma_in_name() {
    let t: Type = "Enum8('hello, world' = 1, 'foo' = 2)".parse().unwrap();
    match &t {
        Type::Enum8(entries) => {
            assert_eq!(entries[0].0, "hello, world");
            assert_eq!(entries[1].0, "foo");
        }
        other => panic!("expected Enum8, got {other:?}"),
    }
}

#[test]
fn canonical_text_is_exact() {
    let t: Type = " Map( LowCardinality(String) ,UInt32 ) ".parse().unwrap();
    assert_eq!(t.to_string(), "Map(LowCardinality(String), UInt32)");
    let t: Type = "Decimal(18, 4)".parse().unwrap();
    assert_eq!(t, Type::Decimal64(4));
    assert_eq!(t.to_string(), "Decimal64(4)");
    let t: Type = "DateTime64(3, 'UTC')".parse().unwrap();
    assert_eq!(t, Type::DateTime64(3, "UTC".to_string()));
    assert_eq!(t.to_string(), "DateTime64(3, 'UTC')");
    let t: Type = "DateTime".parse().unwrap();
    assert_eq!(t, Type::DateTime("UTC".to_string()));
    let t: Type = "Enum8('it\\'s' = -1)".parse().unwrap();
    assert_eq!(t.to_string(), "Enum8('it\\'s' = -1)");
}

#[test]
fn type_text_roundtrip_on_named_examples() {
    let texts = [
        "Enum8('hello' = 1, 'world' = 2)",
        "Enum16('alpha' = 1000, 'beta' = 2000)",
        "Array(Nullable(String))",
        "LowCardinality(Nullable(FixedString(8)))",
        "Map(LowCardinality(String), UInt32)",
        "Decimal(18, 4)",
        "DateTime64(3, 'UTC')",
        "Tuple(UInt32, Tuple(UInt32, UInt16))",
    ];
    for text in texts {
        let t: Type = text.parse().unwrap();
        let again: Type = t.to_string().parse().unwrap();
        assert_eq!(t, again, "{text}");
    }
}

#[test]
fn malformed_type_text_is_rejected() {
    let bad = [
        "",
        "Int8 x",
        "Array(",
        "Array()",
        "Nullable(String",
        "FixedString(-1)",
        "Decimal(77, 2)",
        "Decimal(5, 6)",
        "Decimal32(10)",
        "DateTime('Not/AZone')",
        "DateTime64(10)",
        "Enum8('a' = 1, 'a' = 2)",
        "Enum8('a' = 1, 'b' = 1)",
        "Enum8('a' = -129)",
        "Enum8('a = 1)",
        "Map(String)",
        "Tuple()",
        "Unknown",
    ];
    for text in bad {
        let r: Result<Type, _> = text.parse();
        match r {
            Err(klickhouse::KlickhouseError::TypeParseError(_)) => {}
            other => panic!("{text}: {other:?}"),
        }
    }
}

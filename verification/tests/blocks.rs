use klickhouse::block::DBMS_MIN_REVISION_WITH_BLOCK_INFO;
use klickhouse::compression::{compress_block, decompress_block};
use klickhouse::{Block, BlockInfo, ByteReader, Column, KlickhouseError, Type, Value};

fn sample() -> Block {
    Block {
        name: None,
        info: BlockInfo { is_overflows: true, bucket_num: -7 },
        rows: 2,
        columns: vec![
            Column {
                name: "id".to_string(),
                type_: Type::UInt32,
                values: vec![Value::UInt32(1), Value::UInt32(2)],
            },
            Column {
                name: "tag".to_string(),
                type_: Type::LowCardinality(Box::new(Type::Nullable(Box::new(Type::String)))),
                values: vec![Value::string("present"), Value::Null],
            },
        ],
    }
}

#[test]
fn block_frame_is_exact() {
    let block = Block {
        name: None,
        info: BlockInfo { is_overflows: false, bucket_num: -1 },
        rows: 1,
        columns: vec![Column {
            name: "n".to_string(),
            type_: Type::UInt8,
            values: vec![Value::UInt8(9)],
        }],
    };
    let mut old = vec![];
    block.write(&mut old, 0).unwrap();
    let mut expected = vec![1u8, 1, 1, b'n', 5];
    expected.extend_from_slice(b"UInt8");
    expected.push(9);
    assert_eq!(old, expected);
    let mut new = vec![];
    block.write(&mut new, DBMS_MIN_REVISION_WITH_BLOCK_INFO).unwrap();
    let mut with_info = vec![1u8, 1, 0, 0xff, 0xff, 0xff, 0xff, 1];
    with_info.extend_from_slice(&expected);
    assert_eq!(new, with_info);
}

#[test]
fn blocks_roundtrip_at_both_revisions() {
    for revision in [0, DBMS_MIN_REVISION_WITH_BLOCK_INFO - 1, DBMS_MIN_REVISION_WITH_BLOCK_INFO, 54460] {
        let block = sample();
        let mut bytes = vec![];
        block.write(&mut bytes, revision).unwrap();
        bytes.extend_from_slice(b"xyz");
        let mut reader = ByteReader::new(bytes);
        let read = Block::read(&mut reader, revision).unwrap();
        assert_eq!(reader.remaining(), 3);
        assert_eq!(read.rows, 2);
        assert_eq!(read.columns, block.columns);
        if revision >= DBMS_MIN_REVISION_WITH_BLOCK_INFO {
            assert_eq!(read.info, block.info);
        } else {
            assert_eq!(read.info, BlockInfo { is_overflows: false, bucket_num: -1 });
        }
    }
}

#[test]
fn empty_blocks_carry_the_schema_only() {
    let block = Block {
        name: None,
        info: BlockInfo { is_overflows: false, bucket_num: -1 },
        rows: 0,
        columns: vec![Column {
            name: "tag".to_string(),
            type_: Type::LowCardinality(Box::new(Type::String)),
            values: vec![],
        }],
    };
    let mut bytes = vec![];
    block.write(&mut bytes, 0).unwrap();
    let mut expected = vec![1u8, 0, 3];
    expected.extend_from_slice(b"tag");
    expected.push(22);
    expected.extend_from_slice(b"LowCardinality(String)");
    assert_eq!(bytes, expected);
    let mut reader = ByteReader::new(bytes);
    assert_eq!(Block::read(&mut reader, 0).unwrap(), block);
    let end = Block { name: None, info: block.info, rows: 0, columns: vec![] };
    let mut bytes = vec![];
    end.write(&mut bytes, 0).unwrap();
    assert_eq!(bytes, vec![0, 0]);
}

#[test]
fn malformed_blocks_are_rejected() {
    let mut uneven = sample();
    uneven.rows = 3;
    assert!(matches!(uneven.write(&mut vec![], 0), Err(KlickhouseError::SerializeError(_))));
    let mut wrong = sample();
    wrong.columns[0].values[1] = Value::string("x");
    assert!(matches!(wrong.write(&mut vec![], 0), Err(KlickhouseError::SerializeError(_))));

    let mut bytes = vec![];
    sample().write(&mut bytes, DBMS_MIN_REVISION_WITH_BLOCK_INFO).unwrap();
    let mut disagree = bytes.clone();
    disagree[1] = 3;
    let mut reader = ByteReader::new(disagree);
    assert!(matches!(
        Block::read(&mut reader, DBMS_MIN_REVISION_WITH_BLOCK_INFO),
        Err(KlickhouseError::ProtocolError(_))
    ));
    for cut in 0..bytes.len() {
        let mut reader = ByteReader::new(bytes[..cut].to_vec());
        assert!(
            matches!(
                Block::read(&mut reader, DBMS_MIN_REVISION_WITH_BLOCK_INFO),
                Err(KlickhouseError::Io(_))
            ),
            "{cut}"
        );
    }
    let mut bad_type = vec![1u8, 0, 1, b'n', 3];
    bad_type.extend_from_slice(b"Foo");
    let mut reader = ByteReader::new(bad_type);
    assert!(matches!(Block::read(&mut reader, 0), Err(KlickhouseError::TypeParseError(_))));
    let bad_name = vec![1u8, 0, 1, 0xff, 5];
    let mut reader = ByteReader::new(bad_name);
    assert!(matches!(Block::read(&mut reader, 0), Err(KlickhouseError::Utf8(_))));
}

#[test]
fn column_errors_name_their_column() {
    let mut bytes = vec![1u8, 1, 3];
    bytes.extend_from_slice(b"tag");
    bytes.push(22);
    bytes.extend_from_slice(b"LowCardinality(String)");
    bytes.extend_from_slice(&2u64.to_le_bytes());
    let mut reader = ByteReader::new(bytes);
    match Block::read(&mut reader, 0) {
        Err(KlickhouseError::DeserializeErrorWithColumn(column, _)) => assert_eq!(column, "tag"),
        other => panic!("{other:?}"),
    }
    let err = KlickhouseError::DeserializeError("bad".to_string()).with_column_name("c1");
    assert_eq!(err.to_string(), "deserialize error for column c1: bad");
    let err = KlickhouseError::UnexpectedType(Type::Array(Box::new(Type::Date))).with_column_name("c2");
    assert_eq!(err.to_string(), "unexpected type for column c2: Array(Date)");
}

#[test]
fn compressed_blocks_decompress_to_their_frame() {
    let block = sample();
    let mut raw = vec![];
    block.write(&mut raw, 54460).unwrap();
    let (compressed, raw_len) = compress_block(&block, 54460).unwrap();
    assert_eq!(raw_len, raw.len());
    assert_eq!(decompress_block(&compressed, raw_len as u32).unwrap(), raw);
}

#[test]
fn error_texts_are_exact() {
    assert_eq!(
        KlickhouseError::MissingRow.to_string(),
        "no rows received when expecting at least one row"
    );
    assert_eq!(KlickhouseError::MissingField("f").to_string(), "missing field f");
    assert_eq!(KlickhouseError::DuplicateField("f").to_string(), "duplicate field f in struct");
    assert_eq!(
        KlickhouseError::ServerException {
            code: -42,
            name: "N".into(),
            message: "M".into(),
            stack_trace: "S".into()
        }
        .to_string(),
        "server exception: -42 N: M\nS"
    );
    assert_eq!(KlickhouseError::Io("x".into()).to_string(), "io error: x");
    assert_eq!(KlickhouseError::Utf8("x".into()).to_string(), "utf-8 conversion error: x");
    assert_eq!(KlickhouseError::ProtocolError("x".into()).to_string(), "protocol error: x");
    assert_eq!(KlickhouseError::TypeParseError("x".into()).to_string(), "type parse error: x");
    assert_eq!(KlickhouseError::SerializeError("x".into()).to_string(), "serialize error: x");
    assert_eq!(KlickhouseError::DeserializeError("x".into()).to_string(), "deserialize error: x");
    assert_eq!(
        KlickhouseError::UnexpectedType(Type::Nullable(Box::new(Type::Int8))).to_string(),
        "unexpected type: Nullable(Int8)"
    );
}

#[test]
fn rows_are_read_across_the_columns() {
    let block = Block {
        name: None,
        info: BlockInfo { is_overflows: false, bucket_num: -1 },
        rows: 2,
        columns: vec![
            Column {
                name: "id".to_string(),
                type_: Type::UInt32,
                values: vec![Value::UInt32(7), Value::UInt32(8)],
            },
            Column {
                name: "s".to_string(),
                type_: Type::Nullable(Box::new(Type::String)),
                values: vec![Value::string("present"), Value::Null],
            },
        ],
    };
    assert_eq!(
        block.row(1),
        Some(vec![
            ("id".to_string(), Type::UInt32, Value::UInt32(8)),
            ("s".to_string(), Type::Nullable(Box::new(Type::String)), Value::Null),
        ])
    );
    assert_eq!(block.row(0).unwrap()[1].2, Value::string("present"));
    assert_eq!(block.row(2), None);

    let mut short = block;
    short.columns[1].values.truncate(1);
    assert!(short.row(0).is_some());
    assert_eq!(short.row(1), None);
}

#[test]
fn a_failed_column_is_named_in_the_error() {
    let block = Block {
        name: None,
        info: BlockInfo { is_overflows: false, bucket_num: -1 },
        rows: 1,
        columns: vec![
            Column { name: "first".to_string(), type_: Type::UInt8, values: vec![Value::UInt8(1)] },
            Column {
                name: "second".to_string(),
                type_: Type::LowCardinality(Box::new(Type::String)),
                values: vec![Value::string("a")],
            },
        ],
    };
    let mut bytes = vec![];
    block.write(&mut bytes, 54460).unwrap();
    let text = b"LowCardinality(String)";
    let at = bytes.windows(text.len()).position(|w| w == text).unwrap() + text.len();
    assert_eq!(&bytes[at..at + 8], &1u64.to_le_bytes());
    bytes[at] = 2;
    let mut reader = ByteReader::new(bytes.clone());
    match Block::read(&mut reader, 54460) {
        Err(KlickhouseError::DeserializeErrorWithColumn(column, _)) => assert_eq!(column, "second"),
        other => panic!("{other:?}"),
    }
    bytes[at - 1] = b'?';
    let mut reader = ByteReader::new(bytes);
    assert!(matches!(Block::read(&mut reader, 54460), Err(KlickhouseError::TypeParseError(_))));
}

fn pairs(rows: u64, ids: Vec<u32>, texts: Vec<&str>) -> Block {
    Block {
        name: None,
        info: BlockInfo { is_overflows: false, bucket_num: -1 },
        rows,
        columns: vec![
            Column {
                name: "id".to_string(),
                type_: Type::UInt32,
                values: ids.into_iter().map(Value::UInt32).collect(),
            },
            Column {
                name: "data".to_string(),
                type_: Type::String,
                values: texts.into_iter().map(Value::string).collect(),
            },
        ],
    }
}

#[test]
fn the_first_row_of_a_reply_is_that_of_its_first_block_with_rows() {
    let empty = pairs(0, vec![], vec![]);
    let one = pairs(2, vec![1, 2], vec!["a", "b"]);
    let two = pairs(1, vec![3], vec!["c"]);
    assert!(matches!(klickhouse::block::first_row(&vec![]), Err(KlickhouseError::MissingRow)));
    assert!(matches!(
        klickhouse::block::first_row(&vec![pairs(0, vec![], vec![])]),
        Err(KlickhouseError::MissingRow)
    ));
    let row = klickhouse::block::first_row(&vec![empty, one, two]).unwrap();
    assert_eq!(
        row,
        vec![
            ("id".to_string(), Type::UInt32, Value::UInt32(1)),
            ("data".to_string(), Type::String, Value::string("a")),
        ]
    );
    match klickhouse::block::first_row(&vec![pairs(1, vec![1], vec![])]) {
        Err(KlickhouseError::ProtocolError(text)) => {
            assert_eq!(text, "a column is shorter than its block")
        }
        other => panic!("{other:?}"),
    }
}

#[test]
fn all_rows_come_out_in_order() {
    let block = pairs(3, vec![1, 2, 3], vec!["a", "b", "c"]);
    let rows = block.all_rows().unwrap();
    assert_eq!(rows.len(), 3);
    for (i, row) in rows.iter().enumerate() {
        assert_eq!(Some(row.clone()), block.row(i as u64));
        assert_eq!(row[0].2, Value::UInt32(i as u32 + 1));
    }
    assert_eq!(pairs(0, vec![], vec![]).all_rows(), Some(vec![]));
    assert_eq!(pairs(3, vec![1, 2, 3], vec!["a", "b"]).all_rows(), None);
    assert!(pairs(2, vec![1, 2, 3], vec!["a", "b"]).all_rows().is_some());
}

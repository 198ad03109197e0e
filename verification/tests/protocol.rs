use klickhouse::protocol::{
    negotiate_revision, read_exception, read_server_hello, read_server_tag, write_bare,
    write_client_hello, write_data, write_query, ClientHello, ClientInfo, ClientPacketId,
    CompressionMethod, Query, ServerPacketId, DBMS_MIN_REVISION_WITH_SERVER_TIMEZONE,
};
use klickhouse::compression::read_compressed_blob;
use klickhouse::{
    Block, BlockInfo, ByteReader, ClickhouseRead, ClickhouseWrite, Column, KlickhouseError, Type,
    Value,
};

#[test]
fn packet_tags_are_those_of_the_protocol() {
    let client = [
        ClientPacketId::Hello,
        ClientPacketId::Query,
        ClientPacketId::Data,
        ClientPacketId::Cancel,
        ClientPacketId::Ping,
    ];
    for (tag, id) in client.iter().enumerate() {
        assert_eq!(id.tag(), tag as u64);
        assert_eq!(ClientPacketId::from_u64(tag as u64), Some(*id));
    }
    assert_eq!(ClientPacketId::from_u64(5), None);
    let server = [
        ServerPacketId::Hello,
        ServerPacketId::Data,
        ServerPacketId::Exception,
        ServerPacketId::Progress,
        ServerPacketId::Pong,
        ServerPacketId::EndOfStream,
        ServerPacketId::ProfileInfo,
        ServerPacketId::Totals,
        ServerPacketId::Extremes,
        ServerPacketId::TableStatusResponse,
        ServerPacketId::Log,
        ServerPacketId::TableColumns,
        ServerPacketId::PartUUIDs,
        ServerPacketId::ReadTaskRequest,
        ServerPacketId::ProfileEvents,
    ];
    for (tag, id) in server.iter().enumerate() {
        assert_eq!(id.tag(), tag as u64);
        assert_eq!(ServerPacketId::from_u64(tag as u64), Some(*id));
        assert_eq!(
            id.ends_reply(),
            matches!(id, ServerPacketId::EndOfStream | ServerPacketId::Exception)
        );
        let mut reader = ByteReader::new(vec![tag as u8, 9]);
        assert_eq!(read_server_tag(&mut reader).unwrap(), *id);
        assert_eq!(reader.remaining(), 1);
    }
    assert_eq!(ServerPacketId::from_u64(15), None);
    let mut reader = ByteReader::new(vec![15]);
    assert!(matches!(read_server_tag(&mut reader), Err(KlickhouseError::ProtocolError(_))));
    assert_eq!(reader.remaining(), 1);
}

#[test]
fn the_lower_revision_is_kept() {
    assert_eq!(negotiate_revision(54460, 54400), 54400);
    assert_eq!(negotiate_revision(54400, 54460), 54400);
    assert_eq!(negotiate_revision(7, 7), 7);
}

#[test]
fn client_hello_is_exact() {
    let hello = ClientHello {
        client_name: "kh".to_string(),
        version_major: 1,
        version_minor: 2,
        version_patch: 3,
        revision: 300,
    };
    let mut out = vec![0xaa];
    write_client_hello(&mut out, &hello);
    assert_eq!(out, vec![0xaa, 0, 2, b'k', b'h', 1, 2, 3, 0xac, 0x02]);
}

fn server_hello(revision: u64, zone: Option<&str>) -> Vec<u8> {
    let mut out: Vec<u8> = vec![];
    out.write_string(b"ClickHouse").unwrap();
    out.write_var_uint(23).unwrap();
    out.write_var_uint(8).unwrap();
    out.write_var_uint(1).unwrap();
    out.write_var_uint(revision).unwrap();
    if let Some(zone) = zone {
        out.write_string(zone.as_bytes()).unwrap();
    }
    out
}

#[test]
fn server_hello_has_its_time_zone_from_the_gate_on() {
    let gate = DBMS_MIN_REVISION_WITH_SERVER_TIMEZONE;
    let mut reader = ByteReader::new(server_hello(gate, Some("Europe/Paris")));
    let hello = read_server_hello(&mut reader, gate + 5).unwrap();
    assert_eq!(hello.server_name, "ClickHouse");
    assert_eq!((hello.version_major, hello.version_minor, hello.version_patch), (23, 8, 1));
    assert_eq!(hello.revision, gate);
    assert_eq!(hello.timezone.as_deref(), Some("Europe/Paris"));
    assert_eq!(reader.remaining(), 0);

    let mut reader = ByteReader::new(server_hello(gate - 1, None));
    let hello = read_server_hello(&mut reader, gate + 5).unwrap();
    assert_eq!(hello.timezone, None);

    let mut reader = ByteReader::new(server_hello(gate, Some("UTC")));
    let hello = read_server_hello(&mut reader, gate - 1).unwrap();
    assert_eq!(hello.timezone, None);
    assert_eq!(reader.remaining(), 4);

    let mut reader = ByteReader::new(server_hello(gate, None));
    assert!(matches!(read_server_hello(&mut reader, gate), Err(KlickhouseError::Io(_))));
}

#[test]
fn exceptions_are_server_exceptions() {
    let mut bytes: Vec<u8> = vec![];
    bytes.extend_from_slice(&(-60i32).to_le_bytes());
    bytes.write_string(b"DB::Exception").unwrap();
    bytes.write_string(b"Table x does not exist").unwrap();
    bytes.write_string(b"0. main").unwrap();
    bytes.push(0);
    let mut reader = ByteReader::new(bytes.clone());
    let (error, nested) = read_exception(&mut reader).unwrap();
    assert!(!nested);
    match &error {
        KlickhouseError::ServerException { code, name, message, stack_trace } => {
            assert_eq!(*code, -60);
            assert_eq!(name, "DB::Exception");
            assert_eq!(message, "Table x does not exist");
            assert_eq!(stack_trace, "0. main");
        }
        other => panic!("{other:?}"),
    }
    assert_eq!(
        error.to_string(),
        "server exception: -60 DB::Exception: Table x does not exist\n0. main"
    );
    for cut in 0..bytes.len() {
        let mut reader = ByteReader::new(bytes[..cut].to_vec());
        assert!(matches!(read_exception(&mut reader), Err(KlickhouseError::Io(_))), "{cut}");
    }
}

fn query(compression: bool) -> Query {
    Query {
        query_id: "q1".to_string(),
        client_info: ClientInfo {
            initial_user: String::new(),
            initial_query_id: String::new(),
            initial_address: "0.0.0.0:0".to_string(),
            os_user: "me".to_string(),
            client_hostname: "host".to_string(),
            client_name: "kh".to_string(),
            version_major: 1,
            version_minor: 2,
            revision: 300,
        },
        settings: vec![("max_threads".to_string(), "4".to_string())],
        compression,
        query: "SELECT 1".to_string(),
    }
}

#[test]
fn query_packet_is_exact() {
    let mut old = vec![];
    write_query(&mut old, &query(false), 0);
    let mut expected: Vec<u8> = vec![1, 2, b'q', b'1'];
    expected.write_string(b"max_threads").unwrap();
    expected.write_string(b"4").unwrap();
    expected.push(0);
    expected.extend_from_slice(&[2, 0]);
    expected.write_string(b"SELECT 1").unwrap();
    assert_eq!(old, expected);

    let mut new = vec![];
    write_query(&mut new, &query(true), 54441);
    let mut expected: Vec<u8> = vec![1, 2, b'q', b'1', 1, 0, 0];
    expected.write_string(b"0.0.0.0:0").unwrap();
    expected.push(1);
    expected.write_string(b"me").unwrap();
    expected.write_string(b"host").unwrap();
    expected.write_string(b"kh").unwrap();
    expected.extend_from_slice(&[1, 2, 0xac, 0x02]);
    expected.write_string(b"max_threads").unwrap();
    expected.write_string(b"4").unwrap();
    expected.push(0);
    expected.push(0);
    expected.extend_from_slice(&[2, 1]);
    expected.write_string(b"SELECT 1").unwrap();
    assert_eq!(new, expected);

    let mut bare = vec![];
    write_bare(&mut bare, ClientPacketId::Cancel);
    write_bare(&mut bare, ClientPacketId::Ping);
    assert_eq!(bare, vec![3, 4]);
}

fn one() -> Block {
    Block {
        name: None,
        info: BlockInfo { is_overflows: false, bucket_num: -1 },
        rows: 1,
        columns: vec![Column {
            name: "1".to_string(),
            type_: Type::UInt8,
            values: vec![Value::UInt8(1)],
        }],
    }
}

#[test]
fn data_packets_carry_blocks_plain_or_compressed() {
    let block = one();
    let mut frame = vec![];
    block.write(&mut frame, 54460).unwrap();

    let mut plain = vec![];
    write_data(&mut plain, &block, 54460, None).unwrap();
    let mut expected = vec![2u8, 0];
    expected.extend_from_slice(&frame);
    assert_eq!(plain, expected);

    let mut packed = vec![];
    write_data(&mut packed, &block, 54460, Some(CompressionMethod::LZ4)).unwrap();
    assert_eq!(&packed[..2], &[2, 0]);
    let mut reader = ByteReader::new(packed[2..].to_vec());
    assert_eq!(read_compressed_blob(&mut reader, CompressionMethod::LZ4).unwrap(), frame);
    assert_eq!(reader.remaining(), 0);

    let mut named = one();
    named.name = Some("t".to_string());
    let mut out = vec![];
    write_data(&mut out, &named, 0, None).unwrap();
    assert_eq!(&out[..3], &[2, 1, b't']);
}

#[test]
fn select_one_reply_decodes_to_one() {
    let mut reply: Vec<u8> = vec![];
    reply.write_var_uint(ServerPacketId::Data.tag()).unwrap();
    reply.write_string(b"").unwrap();
    one().write(&mut reply, 54460).unwrap();
    reply.write_var_uint(ServerPacketId::EndOfStream.tag()).unwrap();

    let mut reader = ByteReader::new(reply);
    assert_eq!(read_server_tag(&mut reader).unwrap(), ServerPacketId::Data);
    assert_eq!(reader.read_utf8_string().unwrap(), "");
    let block = Block::read(&mut reader, 54460).unwrap();
    assert_eq!(block.rows, 1);
    assert_eq!(block.columns.len(), 1);
    assert_eq!(block.columns[0].values[0], Value::UInt8(1));
    assert_eq!(read_server_tag(&mut reader).unwrap(), ServerPacketId::EndOfStream);
    assert_eq!(reader.remaining(), 0);
}

#[test]
fn a_thousand_rows_roundtrip_in_a_block() {
    let ids: Vec<Value> = (0..1000u32).map(Value::UInt32).collect();
    let data: Vec<Value> = (0..1000u32).map(|i| Value::string(&format!("row_{i}"))).collect();
    let block = Block {
        name: None,
        info: BlockInfo { is_overflows: false, bucket_num: -1 },
        rows: 1000,
        columns: vec![
            Column { name: "id".to_string(), type_: Type::UInt32, values: ids },
            Column { name: "data".to_string(), type_: Type::String, values: data },
        ],
    };
    let mut packet = vec![];
    write_data(&mut packet, &block, 54460, Some(CompressionMethod::LZ4)).unwrap();
    let mut reader = ByteReader::new(packet[2..].to_vec());
    let frame = read_compressed_blob(&mut reader, CompressionMethod::LZ4).unwrap();
    let mut reader = ByteReader::new(frame);
    let read = Block::read(&mut reader, 54460).unwrap();
    assert_eq!(read.rows, 1000);
    assert_eq!(read.columns[0].values.len(), 1000);
    assert_eq!(read.columns[0].values[0], Value::UInt32(0));
    assert_eq!(read.columns[1].values[0], Value::string("row_0"));
    assert_eq!(read.columns[0].values[999], Value::UInt32(999));
    assert_eq!(read.columns[1].values[999], Value::string("row_999"));
    assert_eq!(read.columns, block.columns);
}

#[test]
fn credentials_are_three_texts() {
    let mut out = vec![9u8];
    klickhouse::protocol::write_credentials(
        &mut out,
        &klickhouse::protocol::Credentials {
            database: "default".to_string(),
            user: "u".to_string(),
            password: String::new(),
        },
    );
    assert_eq!(out, b"\x09\x07default\x01u\x00".to_vec());
}

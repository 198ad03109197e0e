use klickhouse::compression::encode_frame;
use klickhouse::packets::{
    read_framed_block, read_packet, read_packet_body, read_profile_info, read_progress,
    read_table_block, read_table_columns, ProfileInfo, Progress, ServerPacket,
};
use klickhouse::protocol::{CompressionMethod, ServerPacketId};
use klickhouse::{
    Block, BlockInfo, ByteReader, ClickhouseWrite, Column, KlickhouseError, Type, Value,
};

const REVISION: u64 = 54460;

fn numbers() -> Block {
    Block {
        name: None,
        info: BlockInfo { is_overflows: false, bucket_num: -1 },
        rows: 3,
        columns: vec![
            Column {
                name: "n".to_string(),
                type_: Type::UInt16,
                values: vec![Value::UInt16(1), Value::UInt16(2), Value::UInt16(300)],
            },
            Column {
                name: "s".to_string(),
                type_: Type::Nullable(Box::new(Type::String)),
                values: vec![Value::string("present"), Value::Null, Value::string("")],
            },
        ],
    }
}

fn named(table: &str) -> Block {
    let mut block = numbers();
    block.name = Some(table.to_string());
    block
}

fn frame_of(block: &Block) -> Vec<u8> {
    let mut raw = vec![];
    block.write(&mut raw, REVISION).unwrap();
    raw
}

#[test]
fn progress_has_the_counts_of_its_revision() {
    let bytes = vec![7u8, 0x80, 0x01, 9, 4, 5, 0xff];
    let mut reader = ByteReader::new(bytes.clone());
    assert_eq!(
        read_progress(&mut reader, 54420).unwrap(),
        Progress { read_rows: 7, read_bytes: 128, total_rows: 9, written_rows: 4, written_bytes: 5 }
    );
    assert_eq!(reader.remaining(), 1);

    let mut reader = ByteReader::new(bytes.clone());
    assert_eq!(
        read_progress(&mut reader, 54419).unwrap(),
        Progress { read_rows: 7, read_bytes: 128, total_rows: 9, written_rows: 0, written_bytes: 0 }
    );
    assert_eq!(reader.remaining(), 3);

    let mut reader = ByteReader::new(bytes.clone());
    assert_eq!(
        read_progress(&mut reader, 51553).unwrap(),
        Progress { read_rows: 7, read_bytes: 128, total_rows: 0, written_rows: 0, written_bytes: 0 }
    );
    assert_eq!(reader.remaining(), 4);

    let mut reader = ByteReader::new(vec![7, 0x80]);
    assert!(matches!(read_progress(&mut reader, 54420), Err(KlickhouseError::Io(_))));
}

#[test]
fn profile_info_is_read_field_by_field() {
    let bytes = vec![10u8, 2, 0xac, 0x02, 1, 25, 0, 0x55];
    let mut reader = ByteReader::new(bytes.clone());
    assert_eq!(
        read_profile_info(&mut reader).unwrap(),
        ProfileInfo {
            rows: 10,
            blocks: 2,
            bytes: 300,
            applied_limit: true,
            rows_before_limit: 25,
            calculated_rows_before_limit: false,
        }
    );
    assert_eq!(reader.remaining(), 1);
    for cut in 0..7 {
        let mut reader = ByteReader::new(bytes[..cut].to_vec());
        assert!(matches!(read_profile_info(&mut reader), Err(KlickhouseError::Io(_))), "{cut}");
    }
}

#[test]
fn table_columns_are_two_texts() {
    let mut bytes: Vec<u8> = vec![];
    bytes.write_string(b"t").unwrap();
    bytes.write_string(b"columns format version: 1\n").unwrap();
    let mut reader = ByteReader::new(bytes);
    assert_eq!(
        read_table_columns(&mut reader).unwrap(),
        ("t".to_string(), "columns format version: 1\n".to_string())
    );
    assert_eq!(reader.remaining(), 0);

    let mut bytes: Vec<u8> = vec![];
    bytes.write_string(b"t").unwrap();
    bytes.write_string(&[0xff, 0xfe]).unwrap();
    let mut reader = ByteReader::new(bytes);
    assert!(matches!(read_table_columns(&mut reader), Err(KlickhouseError::Utf8(_))));
}

#[test]
fn a_bare_block_is_read_behind_its_table() {
    let mut bytes: Vec<u8> = vec![];
    bytes.write_string(b"events").unwrap();
    bytes.extend_from_slice(&frame_of(&numbers()));
    bytes.push(5);
    let mut reader = ByteReader::new(bytes);
    let block = read_table_block(&mut reader, REVISION, None).unwrap();
    assert_eq!(block, named("events"));
    assert_eq!(reader.remaining(), 1);
}

#[test]
fn a_block_in_one_frame_is_read() {
    for mode in [CompressionMethod::LZ4, CompressionMethod::Uncompressed] {
        let mut bytes = encode_frame(&frame_of(&numbers()), mode).unwrap();
        bytes.extend_from_slice(&[5, 6, 7]);
        let mut reader = ByteReader::new(bytes);
        assert_eq!(read_framed_block(&mut reader, mode, REVISION).unwrap(), numbers());
        assert_eq!(reader.remaining(), 3);
    }
}

#[test]
fn a_block_spread_over_frames_is_gathered() {
    let raw = frame_of(&numbers());
    for cut in 1..raw.len() {
        let mut bytes = encode_frame(&raw[..cut], CompressionMethod::LZ4).unwrap();
        let first = bytes.len();
        bytes.extend_from_slice(&encode_frame(&raw[cut..], CompressionMethod::LZ4).unwrap());
        bytes.push(5);
        let mut reader = ByteReader::new(bytes.clone());
        assert_eq!(
            read_framed_block(&mut reader, CompressionMethod::LZ4, REVISION).unwrap(),
            numbers(),
            "{cut}"
        );
        assert_eq!(reader.remaining(), 1, "{cut}");

        let mut reader = ByteReader::new(bytes[..first].to_vec());
        assert!(
            matches!(
                read_framed_block(&mut reader, CompressionMethod::LZ4, REVISION),
                Err(KlickhouseError::Io(_))
            ),
            "{cut}"
        );
    }
}

#[test]
fn a_corrupt_frame_fails_the_packet_with_a_checksum_error() {
    let mut packet: Vec<u8> = vec![1];
    packet.write_string(b"").unwrap();
    let head = packet.len();
    packet.extend_from_slice(&encode_frame(&frame_of(&numbers()), CompressionMethod::LZ4).unwrap());
    for at in [head, head + 16 + 9, packet.len() - 1] {
        let mut corrupt = packet.clone();
        corrupt[at] ^= 0x01;
        let mut reader = ByteReader::new(corrupt);
        match read_packet(&mut reader, REVISION, Some(CompressionMethod::LZ4)) {
            Err(KlickhouseError::ProtocolError(text)) => assert!(text.contains("checksum"), "{at}"),
            other => panic!("{at}: {other:?}"),
        }
    }
    let mut reader = ByteReader::new(packet);
    assert!(read_packet(&mut reader, REVISION, Some(CompressionMethod::LZ4)).is_ok());
}

#[test]
fn a_frame_that_holds_no_block_fails_the_read() {
    let mut raw = frame_of(&numbers());
    let at = raw.windows(6).position(|w| w == b"UInt16").unwrap();
    raw[at + 5] = b'7';
    let bytes = encode_frame(&raw, CompressionMethod::LZ4).unwrap();
    let mut reader = ByteReader::new(bytes);
    assert!(matches!(
        read_framed_block(&mut reader, CompressionMethod::LZ4, REVISION),
        Err(KlickhouseError::TypeParseError(_))
    ));
}

#[test]
fn a_reply_is_read_packet_by_packet() {
    let mut reply: Vec<u8> = vec![];
    reply.push(3);
    reply.extend_from_slice(&[1, 2, 3, 4, 5]);
    reply.push(11);
    reply.write_string(b"t").unwrap();
    reply.write_string(b"n UInt16").unwrap();
    reply.push(1);
    reply.write_string(b"t").unwrap();
    reply.extend_from_slice(&encode_frame(&frame_of(&numbers()), CompressionMethod::LZ4).unwrap());
    reply.push(10);
    reply.write_string(b"log").unwrap();
    reply.extend_from_slice(&frame_of(&numbers()));
    reply.push(6);
    reply.extend_from_slice(&[3, 1, 24, 0, 3, 1]);
    reply.push(4);
    reply.push(5);

    let compression = Some(CompressionMethod::LZ4);
    let mut reader = ByteReader::new(reply);
    let mut kinds = vec![];
    let mut packets = vec![];
    while reader.remaining() > 0 {
        let packet = read_packet(&mut reader, REVISION, compression).unwrap();
        kinds.push(packet.kind());
        packets.push(packet);
    }
    assert_eq!(
        kinds,
        vec![
            ServerPacketId::Progress,
            ServerPacketId::TableColumns,
            ServerPacketId::Data,
            ServerPacketId::Log,
            ServerPacketId::ProfileInfo,
            ServerPacketId::Pong,
            ServerPacketId::EndOfStream,
        ]
    );
    assert_eq!(
        packets[0],
        ServerPacket::Progress(Progress {
            read_rows: 1,
            read_bytes: 2,
            total_rows: 3,
            written_rows: 4,
            written_bytes: 5
        })
    );
    assert_eq!(
        packets[1],
        ServerPacket::TableColumns { name: "t".to_string(), description: "n UInt16".to_string() }
    );
    assert_eq!(packets[2], ServerPacket::Data { kind: ServerPacketId::Data, block: named("t") });
    assert_eq!(packets[3], ServerPacket::Data { kind: ServerPacketId::Log, block: named("log") });
    assert_eq!(packets[6], ServerPacket::EndOfStream);
}

#[test]
fn an_exception_packet_carries_its_fields() {
    let mut bytes: Vec<u8> = vec![2];
    bytes.extend_from_slice(&62i32.to_le_bytes());
    bytes.write_string(b"DB::Exception").unwrap();
    bytes.write_string(b"Syntax error").unwrap();
    bytes.write_string(b"").unwrap();
    bytes.push(1);
    let mut reader = ByteReader::new(bytes);
    assert_eq!(
        read_packet(&mut reader, REVISION, None).unwrap(),
        ServerPacket::Exception {
            code: 62,
            name: "DB::Exception".to_string(),
            message: "Syntax error".to_string(),
            stack_trace: String::new(),
            nested: true,
        }
    );
}

#[test]
fn packets_that_belong_to_no_reply_are_refused() {
    for kind in [
        ServerPacketId::Hello,
        ServerPacketId::TableStatusResponse,
        ServerPacketId::PartUUIDs,
        ServerPacketId::ReadTaskRequest,
    ] {
        let mut reader = ByteReader::new(vec![0, 0, 0, 0]);
        assert!(matches!(
            read_packet_body(kind, &mut reader, REVISION, None),
            Err(KlickhouseError::ProtocolError(_))
        ));
    }
    let mut reader = ByteReader::new(vec![15]);
    assert!(matches!(
        read_packet(&mut reader, REVISION, None),
        Err(KlickhouseError::ProtocolError(_))
    ));
    let mut reader = ByteReader::new(vec![]);
    assert!(matches!(read_packet(&mut reader, REVISION, None), Err(KlickhouseError::Io(_))));
}

#[test]
fn a_packet_cut_short_is_an_io_error_at_every_cut() {
    let mut packet: Vec<u8> = vec![1];
    packet.write_string(b"t").unwrap();
    packet.extend_from_slice(&frame_of(&numbers()));
    for cut in 0..packet.len() {
        let mut reader = ByteReader::new(packet[..cut].to_vec());
        assert!(
            matches!(read_packet(&mut reader, REVISION, None), Err(KlickhouseError::Io(_))),
            "{cut}"
        );
    }
    let mut reader = ByteReader::new(packet);
    assert_eq!(
        read_packet(&mut reader, REVISION, None).unwrap(),
        ServerPacket::Data { kind: ServerPacketId::Data, block: named("t") }
    );
}

use klickhouse::compression::{
    compress_raw, decompress_block, encode_frame, read_compressed_blob, read_frame,
    DecompressionReader, FrameFault,
};
use klickhouse::protocol::CompressionMethod;
use klickhouse::{ByteReader, KlickhouseError};

#[test]
fn test_decompress_invalid_data_returns_error() {
    let garbage = vec![0xDE, 0xAD, 0xBE, 0xEF, 0x01, 0x02, 0x03, 0x04];
    let result = decompress_block(&garbage, 100);
    assert!(result.is_err());
    let err = result.unwrap_err();
    assert!(matches!(err, KlickhouseError::CompressionError(_)), "expected CompressionError, got: {err:?}");
}

#[test]
fn test_decompress_empty_input_returns_error() {
    let result = decompress_block(&[], 100);
    assert!(result.is_err());
    assert!(matches!(result.unwrap_err(), KlickhouseError::CompressionError(_)));
}

#[test]
fn test_decompress_zero_decompressed_size() {
    let result = decompress_block(&[], 0);
    match result {
        Ok(data) => assert!(data.is_empty()),
        Err(e) => assert!(matches!(e, KlickhouseError::CompressionError(_))),
    }
}

#[test]
fn test_lz4_compress_decompress_roundtrip() {
    let original = b"Hello, ClickHouse! This is a test of LZ4 compression roundtrip.";
    let (compressed, raw_len) = compress_raw(original).unwrap();
    assert_eq!(raw_len, original.len());
    assert!(!compressed.is_empty());
    let decompressed = decompress_block(&compressed, original.len() as u32).unwrap();
    assert_eq!(&decompressed[..], &original[..]);
}

fn noise(len: usize) -> Vec<u8> {
    let mut state: u64 = 0x9E37_79B9_7F4A_7C15;
    let mut out = Vec::with_capacity(len);
    for _ in 0..len {
        state ^= state << 13;
        state ^= state >> 7;
        state ^= state << 17;
        out.push((state >> 32) as u8);
    }
    out
}

#[test]
fn lz4_roundtrip_is_identity_up_to_one_mebibyte() {
    for len in [0usize, 1, 2, 15, 16, 17, 255, 256, 4096, 65535, 65536, 1 << 20] {
        let raw = noise(len);
        let (compressed, raw_len) = compress_raw(&raw).unwrap();
        assert_eq!(raw_len, len);
        assert_eq!(decompress_block(&compressed, len as u32).unwrap(), raw, "{len}");
        let repeated = vec![0x61u8; len];
        let (compressed, _) = compress_raw(&repeated).unwrap();
        assert_eq!(decompress_block(&compressed, len as u32).unwrap(), repeated, "{len}");
    }
}

#[test]
fn decompress_rejects_a_wrong_declared_size() {
    let raw = noise(100);
    let (compressed, _) = compress_raw(&raw).unwrap();
    assert!(matches!(decompress_block(&compressed, 99), Err(KlickhouseError::CompressionError(_))));
    assert!(matches!(decompress_block(&compressed, 101), Err(KlickhouseError::CompressionError(_))));
    assert!(matches!(
        decompress_block(&compressed, u32::MAX),
        Err(KlickhouseError::CompressionError(_))
    ));
}

#[test]
fn frame_layout_is_exact() {
    let frame = encode_frame(b"abc", CompressionMethod::Uncompressed).unwrap();
    assert_eq!(frame.len(), 16 + 9 + 3);
    assert_eq!(frame[16], 0x02);
    assert_eq!(&frame[17..21], &12u32.to_le_bytes());
    assert_eq!(&frame[21..25], &3u32.to_le_bytes());
    assert_eq!(&frame[25..], b"abc");
    let hash = cityhash_rs::cityhash_102_128(&frame[16..]);
    assert_eq!(&frame[..8], &((hash >> 64) as u64).to_le_bytes());
    assert_eq!(&frame[8..16], &(hash as u64).to_le_bytes());
    let lz4 = encode_frame(b"abc", CompressionMethod::LZ4).unwrap();
    assert_eq!(lz4[16], 0x82);
    assert_eq!(&lz4[21..25], &3u32.to_le_bytes());
    assert_eq!(u32::from_le_bytes([lz4[17], lz4[18], lz4[19], lz4[20]]) as usize, lz4.len() - 16);
}

#[test]
fn frames_decode_to_what_was_encoded() {
    for mode in [CompressionMethod::LZ4, CompressionMethod::Uncompressed] {
        for len in [0usize, 1, 100, 70000] {
            let raw = noise(len);
            let mut bytes = encode_frame(&raw, mode).unwrap();
            let frame_len = bytes.len();
            bytes.extend_from_slice(b"rest");
            let mut reader = ByteReader::new(bytes);
            assert_eq!(read_compressed_blob(&mut reader, mode).unwrap(), raw);
            assert_eq!(reader.remaining(), 4, "{frame_len}");
        }
    }
}

#[test]
fn every_corrupted_bit_is_rejected() {
    let frame = encode_frame(&noise(40), CompressionMethod::LZ4).unwrap();
    for byte in 0..frame.len() {
        for bit in 0..8 {
            let mut corrupt = frame.clone();
            corrupt[byte] ^= 1 << bit;
            let mut reader = ByteReader::new(corrupt);
            let fault = read_frame(&mut reader, CompressionMethod::LZ4).unwrap_err();
            assert_eq!(reader.remaining(), frame.len());
            if byte < 17 || byte >= 21 {
                assert!(matches!(fault, FrameFault::Checksum { .. }), "{byte}.{bit}: {fault:?}");
            } else {
                assert!(
                    matches!(
                        fault,
                        FrameFault::Checksum { .. }
                            | FrameFault::Truncated
                            | FrameFault::TooLarge { .. }
                            | FrameFault::TooSmall { .. }
                    ),
                    "{byte}.{bit}: {fault:?}"
                );
            }
        }
    }
}

#[test]
fn an_altered_method_byte_is_a_checksum_mismatch() {
    for mode in [CompressionMethod::LZ4, CompressionMethod::Uncompressed] {
        let frame = encode_frame(b"some payload", mode).unwrap();
        for bit in 0..8 {
            let mut corrupt = frame.clone();
            corrupt[16] ^= 1 << bit;
            let mut reader = ByteReader::new(corrupt);
            match read_compressed_blob(&mut reader, mode) {
                Err(KlickhouseError::ProtocolError(text)) => {
                    assert_eq!(text, "corrupt checksum from clickhouse")
                }
                other => panic!("{bit}: {other:?}"),
            }
        }
    }
}

#[test]
fn a_sound_frame_of_another_method_is_refused_for_its_method() {
    let frame = encode_frame(b"some payload", CompressionMethod::Uncompressed).unwrap();
    let mut reader = ByteReader::new(frame.clone());
    let fault = read_frame(&mut reader, CompressionMethod::LZ4).unwrap_err();
    assert_eq!(fault, FrameFault::Algorithm { found: 0x02 });
    assert_eq!(reader.remaining(), frame.len());
    match fault.to_error() {
        KlickhouseError::ProtocolError(text) => {
            assert_eq!(text, "unexpected compression algorithm identifier")
        }
        other => panic!("{other:?}"),
    }
}

#[test]
fn flipped_body_byte_is_a_protocol_error_about_the_checksum() {
    let mut frame = encode_frame(&noise(64), CompressionMethod::LZ4).unwrap();
    let last = frame.len() - 1;
    frame[last] ^= 0xff;
    let mut reader = ByteReader::new(frame);
    match read_compressed_blob(&mut reader, CompressionMethod::LZ4) {
        Err(KlickhouseError::ProtocolError(text)) => assert!(text.contains("checksum"), "{text}"),
        other => panic!("{other:?}"),
    }
}

#[test]
fn sizes_out_of_range_are_rejected_on_the_header_alone() {
    for csize in [0u32, 8, (1 << 30) + 1, u32::MAX] {
        let mut header = vec![0u8; 16];
        header.push(0x82);
        header.extend_from_slice(&csize.to_le_bytes());
        header.extend_from_slice(&0u32.to_le_bytes());
        let mut reader = ByteReader::new(header);
        let fault = read_frame(&mut reader, CompressionMethod::LZ4).unwrap_err();
        if csize < 9 {
            assert_eq!(fault, FrameFault::TooSmall { csize });
        } else {
            assert_eq!(fault, FrameFault::TooLarge { csize });
        }
        assert!(matches!(fault.to_error(), KlickhouseError::ProtocolError(_)));
        assert_eq!(reader.remaining(), 25);
    }
    let mut header = vec![0u8; 16];
    header.push(0x82);
    header.extend_from_slice(&10u32.to_le_bytes());
    header.extend_from_slice(&0u32.to_le_bytes());
    let mut reader = ByteReader::new(header.clone());
    assert_eq!(read_frame(&mut reader, CompressionMethod::LZ4).unwrap_err(), FrameFault::Truncated);
    for cut in 0..25 {
        let mut reader = ByteReader::new(header[..cut].to_vec());
        assert_eq!(
            read_frame(&mut reader, CompressionMethod::LZ4).unwrap_err(),
            FrameFault::Truncated,
            "{cut}"
        );
    }
    match FrameFault::Truncated.to_error() {
        KlickhouseError::Io(text) => assert_eq!(text, "failed to fill whole buffer"),
        other => panic!("{other:?}"),
    }
}

#[test]
fn compressed_blocks_decompress_to_the_frame() {
    let block = klickhouse::Block {
        name: None,
        info: klickhouse::BlockInfo { is_overflows: false, bucket_num: -1 },
        rows: 2,
        columns: vec![klickhouse::Column {
            name: "n".to_string(),
            type_: klickhouse::Type::UInt32,
            values: vec![klickhouse::Value::UInt32(7), klickhouse::Value::UInt32(8)],
        }],
    };
    let mut raw = vec![];
    block.write(&mut raw, 54460).unwrap();
    let (bytes, len) = klickhouse::compression::compress_block(&block, 54460).unwrap();
    assert_eq!(len, raw.len());
    assert!(!bytes.is_empty());
    assert!(bytes.len() <= len + len / 255 + 16);
    assert_eq!(decompress_block(&bytes, len as u32).unwrap(), raw);
}

#[test]
fn decompression_reader_hands_out_payloads_in_order() {
    let mut bytes = encode_frame(b"hello ", CompressionMethod::LZ4).unwrap();
    bytes.extend(encode_frame(b"", CompressionMethod::LZ4).unwrap());
    bytes.extend(encode_frame(b"world", CompressionMethod::LZ4).unwrap());
    let mut reader = DecompressionReader::new(CompressionMethod::LZ4, ByteReader::new(bytes));
    assert_eq!(reader.read(0).unwrap(), Vec::<u8>::new());
    assert_eq!(reader.read(4).unwrap(), b"hell".to_vec());
    assert_eq!(reader.read(100).unwrap(), b"o ".to_vec());
    assert_eq!(reader.read(100).unwrap(), b"world".to_vec());
    assert!(matches!(reader.read(1), Err(KlickhouseError::Io(_))));
    assert_eq!(reader.into_inner().remaining(), 0);
}

#[test]
fn decompression_reader_stops_at_a_corrupt_frame() {
    let mut bytes = encode_frame(b"ok", CompressionMethod::LZ4).unwrap();
    let mut bad = encode_frame(b"broken", CompressionMethod::LZ4).unwrap();
    bad[0] ^= 1;
    let bad_len = bad.len();
    bytes.extend(bad);
    let mut reader = DecompressionReader::new(CompressionMethod::LZ4, ByteReader::new(bytes));
    reader.run_decompression().unwrap();
    assert_eq!(reader.read(10).unwrap(), b"ok".to_vec());
    assert!(matches!(reader.run_decompression(), Err(KlickhouseError::ProtocolError(_))));
    assert!(matches!(reader.read(10), Err(KlickhouseError::ProtocolError(_))));
    assert_eq!(reader.into_inner().remaining(), bad_len);
}

#[test]
fn lz4_blocks_are_those_of_the_format() {
    let (block, raw_len) = compress_raw(b"abc").unwrap();
    assert_eq!(raw_len, 3);
    assert_eq!(block, vec![0x30, b'a', b'b', b'c']);
    assert_eq!(decompress_block(&[0x30, b'a', b'b', b'c'], 3).unwrap(), b"abc".to_vec());

    let run = [0x1A, b'a', 0x01, 0x00, 0x50, b'a', b'a', b'a', b'a', b'a'];
    assert_eq!(decompress_block(&run, 20).unwrap(), vec![b'a'; 20]);
    assert!(decompress_block(&run, 19).is_err());
    assert!(decompress_block(&run, 21).is_err());

    let long = vec![b'a'; 4096];
    let (block, _) = compress_raw(&long).unwrap();
    assert!(block.len() < 64);
    assert_eq!(decompress_block(&block, 4096).unwrap(), long);
}

//! The compression envelope: a checksummed frame around one block of
//! payload bytes.
//!
//! ```text
//! checksum  : 16 bytes   CityHash128 (v1.0.2) of everything that follows
//! method    : 1 byte
//! csize     : 4 bytes LE size of header (9 bytes) and body
//! usize     : 4 bytes LE size of the payload once decompressed
//! body      : csize - 9 bytes
//! ```

use crate::block::{block_bytes, Block};
use crate::errors::{ErrorKind, KlickhouseError};
use crate::io::{append_bytes, copy_range, ByteReader};
use crate::protocol::{CompressionMethod, MAX_COMPRESSION_SIZE};
use vstd::bytes::{
    lemma_auto_spec_u32_to_from_le_bytes, lemma_auto_spec_u64_to_from_le_bytes,
    spec_u32_from_le_bytes, spec_u32_to_le_bytes, spec_u64_from_le_bytes, spec_u64_to_le_bytes,
    u32_from_le_bytes, u32_to_le_bytes, u64_from_le_bytes, u64_to_le_bytes,
};
use vstd::prelude::*;

verus! {

/// Bytes of checksum in front of a frame.
pub const CHECKSUM_SIZE: usize = 16;

/// Bytes of header that the checksum covers: method, `csize`, `usize`.
pub const HEADER_SIZE: usize = 9;

/// Largest input that LZ4 compresses.
pub const LZ4_MAX_INPUT_SIZE: usize = 0x7E00_0000;

/// The CityHash128 (v1.0.2) of `data`, as `cityhash_rs::cityhash_102_128`
/// computes it.
pub uninterp spec fn cityhash128(data: Seq<u8>) -> u128;

/// What `lz4::block::decompress` makes of the block `data` when told that the
/// result has at most `capacity` bytes; `None` where it reports an error.
pub uninterp spec fn lz4_decompressed(data: Seq<u8>, capacity: int) -> Option<Seq<u8>>;

/// `cityhash_rs::cityhash_102_128`: the hash is a function of the bytes.
#[verifier::external_body]
fn cityhash_102_128(data: &[u8]) -> (hash: u128)
    ensures
        hash == cityhash128(data@),
{
    cityhash_rs::cityhash_102_128(data)
}

/// Whether `block` is an LZ4 block for `raw` as `lz4::block::compress`
/// makes them: not empty, no longer than the worst case `n + n / 255 + 16`,
/// and, where the decoder takes a capacity of one byte more than `raw` has,
/// decompressing to `raw`. Which of the blocks for `raw` the compressor
/// makes is left open: it depends on the machine.
pub open spec fn lz4_block_of(block: Seq<u8>, raw: Seq<u8>) -> bool {
    &&& 1 <= block.len() <= raw.len() + raw.len() / 255 + 16
    &&& raw.len() < LZ4_MAX_INPUT_SIZE ==> lz4_decompressed(block, (raw.len() + 1) as int) == Some(
        raw,
    )
}

/// `lz4::block::compress` in default mode, without a size prefix. It
/// succeeds exactly on inputs of at most `LZ4_MAX_INPUT_SIZE` bytes, for
/// which it allocates the worst-case bound. What it returns is an LZ4 block
/// for the input: LZ4 is lossless.
#[verifier::external_body]
fn lz4_block_compress(src: &[u8]) -> (r: Option<Vec<u8>>)
    requires
        src@.len() <= i32::MAX,
    ensures
        r is Some <==> src@.len() <= LZ4_MAX_INPUT_SIZE,
        r matches Some(v) ==> lz4_block_of(v@, src@),
{
    match lz4::block::compress(src, None, false) {
        Ok(v) => Some(v),
        Err(_) => None,
    }
}

/// `lz4::block::decompress` with the size given: the result is a function of
/// the block and the capacity, and never longer than the capacity.
#[verifier::external_body]
fn lz4_block_decompress(data: &[u8], capacity: i32) -> (r: Option<Vec<u8>>)
    requires
        data@.len() <= i32::MAX,
    ensures
        match r {
            Some(v) => lz4_decompressed(data@, capacity as int) == Some(v@) && v@.len()
                <= capacity,
            None => lz4_decompressed(data@, capacity as int) is None,
        },
{
    match lz4::block::decompress(data, Some(capacity)) {
        Ok(v) => Some(v),
        Err(_) => None,
    }
}

/// Compresses `raw` as one LZ4 block and returns it with the length of
/// `raw`. It succeeds exactly on inputs of at most `LZ4_MAX_INPUT_SIZE`
/// bytes, the largest that LZ4 takes; a longer one is a compression error.
/// The block is not empty, stays within the worst case `n + n / 255 + 16`,
/// and decompresses to `raw`.
pub fn compress_raw(raw: &[u8]) -> (r: Result<(Vec<u8>, usize), KlickhouseError>)
    ensures
        match r {
            Ok(p) => raw@.len() <= LZ4_MAX_INPUT_SIZE && p.1 == raw@.len() && lz4_block_of(
                p.0@,
                raw@,
            ),
            Err(e) => raw@.len() > LZ4_MAX_INPUT_SIZE && e.kind() == ErrorKind::CompressionError,
        },
        r matches Ok(p) ==> (raw@.len() < LZ4_MAX_INPUT_SIZE ==> spec_decompress(
            p.0@,
            raw@.len() as u32,
        ) == Some(raw@)),
{
    let raw_len = raw.len();
    if raw_len > i32::MAX as usize {
        return Err(KlickhouseError::CompressionError("input too large for LZ4".to_owned()));
    }
    let capacity = raw_len + raw_len / 255 + 16 + 1;
    if capacity > i32::MAX as usize {
        return Err(
            KlickhouseError::CompressionError("output buffer too large for LZ4".to_owned()),
        );
    }
    match lz4_block_compress(raw) {
        Some(compressed) => Ok((compressed, raw_len)),
        None => Err(KlickhouseError::CompressionError("LZ4 compression failed".to_owned())),
    }
}

/// Writes the frame of `block` at protocol revision `revision` and
/// compresses it as one LZ4 block; returns the compressed bytes and the
/// length of the frame. A block that cannot be written is a serialize
/// error; a frame longer than `LZ4_MAX_INPUT_SIZE` is a compression error.
/// The bytes are an LZ4 block for the frame: not empty, within the worst
/// case, and decompressing to the frame.
pub fn compress_block(block: &Block, revision: u64) -> (r: Result<(Vec<u8>, usize), KlickhouseError>)
    ensures
        match block_bytes(block@, revision) {
            Some(raw) => match r {
                Ok(p) => raw.len() <= LZ4_MAX_INPUT_SIZE && p.1 == raw.len() && lz4_block_of(
                    p.0@,
                    raw,
                ) && (raw.len() < LZ4_MAX_INPUT_SIZE ==> spec_decompress(p.0@, raw.len() as u32)
                    == Some(raw)),
                Err(e) => raw.len() > LZ4_MAX_INPUT_SIZE && e.kind()
                    == ErrorKind::CompressionError,
            },
            None => r matches Err(e) && e.kind() == ErrorKind::SerializeError,
        },
{
    let mut raw: Vec<u8> = Vec::new();
    block.write(&mut raw, revision)?;
    assert(raw@ =~= block_bytes(block@, revision)->0);
    compress_raw(raw.as_slice())
}

/// What [`decompress_block`] returns: the payload of the LZ4 block `data`,
/// which must have exactly `decompressed_size` bytes.
pub open spec fn spec_decompress(data: Seq<u8>, decompressed_size: u32) -> Option<Seq<u8>> {
    if data.len() > i32::MAX || decompressed_size >= i32::MAX {
        None
    } else {
        match lz4_decompressed(data, (decompressed_size + 1) as int) {
            Some(v) => if v.len() == decompressed_size {
                Some(v)
            } else {
                None
            },
            None => None,
        }
    }
}

/// Decompresses one LZ4 block into a buffer of `decompressed_size + 1` bytes.
/// Fails with a compression error where the block is malformed, where the
/// sizes do not fit LZ4's 32-bit interface, or where the payload does not
/// have exactly `decompressed_size` bytes.
pub fn decompress_block(data: &[u8], decompressed_size: u32) -> (r: Result<
    Vec<u8>,
    KlickhouseError,
>)
    ensures
        match spec_decompress(data@, decompressed_size) {
            Some(v) => r matches Ok(out) && out@ == v,
            None => r matches Err(e) && e.kind() == ErrorKind::CompressionError,
        },
{
    if data.len() > i32::MAX as usize {
        return Err(
            KlickhouseError::CompressionError("compressed input too large for LZ4".to_owned()),
        );
    }
    if decompressed_size >= i32::MAX as u32 {
        return Err(
            KlickhouseError::CompressionError("decompressed size too large for LZ4".to_owned()),
        );
    }
    let capacity: i32 = (decompressed_size + 1) as i32;
    match lz4_block_decompress(data, capacity) {
        Some(out) => {
            if out.len() != decompressed_size as usize {
                return Err(
                    KlickhouseError::CompressionError(
                        "LZ4 decompressed output does not have the declared size".to_owned(),
                    ),
                );
            }
            Ok(out)
        },
        None => Err(
            KlickhouseError::CompressionError(
                "LZ4 decompression failed: malformed compressed block".to_owned(),
            ),
        ),
    }
}

/// Why a frame was not accepted.
#[derive(Debug, Clone, Copy, PartialEq, Eq, Structural)]
pub enum FrameFault {
    /// The bytes end before the frame does.
    Truncated,
    /// The method byte is not the one that was negotiated.
    Algorithm { found: u8 },
    /// `csize` is above `MAX_COMPRESSION_SIZE`.
    TooLarge { csize: u32 },
    /// `csize` is below the size of the header.
    TooSmall { csize: u32 },
    /// The checksum in front of the frame is not the hash of the frame.
    Checksum { found: u128, computed: u128 },
    /// The body does not decompress to `usize` bytes.
    Payload,
}

impl FrameFault {
    /// The kind of error that this fault is reported as.
    pub open spec fn kind(self) -> ErrorKind {
        match self {
            FrameFault::Truncated => ErrorKind::Io,
            FrameFault::Payload => ErrorKind::CompressionError,
            _ => ErrorKind::ProtocolError,
        }
    }

    /// The text of the error that reports this fault.
    pub open spec fn text(self) -> Seq<char> {
        match self {
            FrameFault::Truncated => "failed to fill whole buffer"@,
            FrameFault::Algorithm { .. } => "unexpected compression algorithm identifier"@,
            FrameFault::TooLarge { .. } => "compressed payload too large!"@,
            FrameFault::TooSmall { .. } => "compressed payload too small!"@,
            FrameFault::Checksum { .. } => "corrupt checksum from clickhouse"@,
            FrameFault::Payload => "frame body does not decompress to the declared size"@,
        }
    }

    /// The error that reports this fault: a protocol error that names the
    /// checksum where the checksum does not match.
    pub fn to_error(&self) -> (e: KlickhouseError)
        ensures
            e.says(self.kind(), self.text()),
    {
        match self {
            FrameFault::Truncated => crate::io::end_of_input(),
            FrameFault::Algorithm { .. } => KlickhouseError::ProtocolError(
                "unexpected compression algorithm identifier".to_owned(),
            ),
            FrameFault::TooLarge { .. } => KlickhouseError::ProtocolError(
                "compressed payload too large!".to_owned(),
            ),
            FrameFault::TooSmall { .. } => KlickhouseError::ProtocolError(
                "compressed payload too small!".to_owned(),
            ),
            FrameFault::Checksum { .. } => KlickhouseError::ProtocolError(
                "corrupt checksum from clickhouse".to_owned(),
            ),
            FrameFault::Payload => KlickhouseError::CompressionError(
                "frame body does not decompress to the declared size".to_owned(),
            ),
        }
    }
}

/// The checksum that sixteen bytes spell: the high half first, each half
/// little-endian.
pub open spec fn checksum_value(bytes: Seq<u8>) -> u128 {
    (spec_u64_from_le_bytes(bytes.subrange(0, 8)) as u128 * 0x1_0000_0000_0000_0000
        + spec_u64_from_le_bytes(bytes.subrange(8, 16)) as u128) as u128
}

/// The sixteen bytes that spell the checksum `hash`.
pub open spec fn checksum_bytes(hash: u128) -> Seq<u8> {
    spec_u64_to_le_bytes((hash / 0x1_0000_0000_0000_0000) as u64) + spec_u64_to_le_bytes(
        (hash % 0x1_0000_0000_0000_0000) as u64,
    )
}

/// The payload that a frame body stands for.
pub open spec fn payload_decode(mode: CompressionMethod, body: Seq<u8>, size: u32) -> Option<
    Seq<u8>,
> {
    match mode {
        CompressionMethod::Uncompressed => if body.len() == size {
            Some(body)
        } else {
            None
        },
        CompressionMethod::LZ4 => spec_decompress(body, size),
    }
}

/// The frame at the head of `bytes`: its payload and its length on the wire,
/// or the first reason to reject it. The header is read first and the size
/// is checked before anything is read or allocated for the body; then the
/// checksum is held against the hash of header and body, so that any change
/// behind the checksum, the method byte included, is a checksum mismatch;
/// only then is the method byte looked at and the body decoded.
pub open spec fn frame_decode(bytes: Seq<u8>, mode: CompressionMethod) -> Result<
    (Seq<u8>, nat),
    FrameFault,
> {
    if bytes.len() < 25 {
        Err(FrameFault::Truncated)
    } else {
        let csize = spec_u32_from_le_bytes(bytes.subrange(17, 21));
        if csize > MAX_COMPRESSION_SIZE {
            Err(FrameFault::TooLarge { csize })
        } else if csize < 9 {
            Err(FrameFault::TooSmall { csize })
        } else if bytes.len() < 16 + csize {
            Err(FrameFault::Truncated)
        } else {
            let size = spec_u32_from_le_bytes(bytes.subrange(21, 25));
            let found = checksum_value(bytes.subrange(0, 16));
            let computed = cityhash128(bytes.subrange(16, 16 + csize));
            if found != computed {
                Err(FrameFault::Checksum { found, computed })
            } else if bytes[16] != mode.spec_byte() {
                Err(FrameFault::Algorithm { found: bytes[16] })
            } else {
                match payload_decode(mode, bytes.subrange(25, 16 + csize), size) {
                    Some(payload) => Ok((payload, (16 + csize) as nat)),
                    None => Err(FrameFault::Payload),
                }
            }
        }
    }
}

/// The frame around `body`, which stands for `size` bytes of payload.
pub open spec fn frame_bytes(mode: CompressionMethod, body: Seq<u8>, size: u32) -> Seq<u8> {
    let framed = seq![mode.spec_byte()] + spec_u32_to_le_bytes((body.len() + 9) as u32)
        + spec_u32_to_le_bytes(size) + body;
    checksum_bytes(cityhash128(framed)) + framed
}

/// Sixteen bytes spell one checksum only.
pub proof fn lemma_checksum_value_injective(a: Seq<u8>, b: Seq<u8>)
    requires
        a.len() == 16,
        b.len() == 16,
        checksum_value(a) == checksum_value(b),
    ensures
        a == b,
{
    lemma_auto_spec_u64_to_from_le_bytes();
    let ah = spec_u64_from_le_bytes(a.subrange(0, 8));
    let al = spec_u64_from_le_bytes(a.subrange(8, 16));
    let bh = spec_u64_from_le_bytes(b.subrange(0, 8));
    let bl = spec_u64_from_le_bytes(b.subrange(8, 16));
    assert(ah == bh && al == bl) by (nonlinear_arith)
        requires
            ah * 0x1_0000_0000_0000_0000 + al == bh * 0x1_0000_0000_0000_0000 + bl,
            0 <= ah < 0x1_0000_0000_0000_0000,
            0 <= al < 0x1_0000_0000_0000_0000,
            0 <= bh < 0x1_0000_0000_0000_0000,
            0 <= bl < 0x1_0000_0000_0000_0000,
    ;
    assert(spec_u64_to_le_bytes(spec_u64_from_le_bytes(a.subrange(0, 8))) == a.subrange(0, 8));
    assert(spec_u64_to_le_bytes(spec_u64_from_le_bytes(b.subrange(0, 8))) == b.subrange(0, 8));
    assert(spec_u64_to_le_bytes(spec_u64_from_le_bytes(a.subrange(8, 16))) == a.subrange(8, 16));
    assert(spec_u64_to_le_bytes(spec_u64_from_le_bytes(b.subrange(8, 16))) == b.subrange(8, 16));
    assert(a =~= a.subrange(0, 8) + a.subrange(8, 16));
    assert(b =~= b.subrange(0, 8) + b.subrange(8, 16));
}

/// The bytes of a checksum spell that checksum.
pub proof fn lemma_checksum_bytes_value(hash: u128)
    ensures
        checksum_bytes(hash).len() == 16,
        checksum_value(checksum_bytes(hash)) == hash,
{
    lemma_auto_spec_u64_to_from_le_bytes();
    let high = (hash / 0x1_0000_0000_0000_0000) as u64;
    let low = (hash % 0x1_0000_0000_0000_0000) as u64;
    let bytes = checksum_bytes(hash);
    assert(bytes.subrange(0, 8) =~= spec_u64_to_le_bytes(high));
    assert(bytes.subrange(8, 16) =~= spec_u64_to_le_bytes(low));
    assert(hash == (hash / 0x1_0000_0000_0000_0000) * 0x1_0000_0000_0000_0000 + hash
        % 0x1_0000_0000_0000_0000) by (nonlinear_arith);
}

/// A frame is 25 bytes longer than its body.
pub proof fn lemma_frame_bytes_len(mode: CompressionMethod, body: Seq<u8>, size: u32)
    ensures
        frame_bytes(mode, body, size).len() == 25 + body.len(),
{
    lemma_auto_spec_u32_to_from_le_bytes();
    lemma_auto_spec_u64_to_from_le_bytes();
}

/// The frame law: the frame around a body of at most `MAX_COMPRESSION_SIZE -
/// 9` bytes, whatever follows it, is accepted, yields the payload that the
/// body stands for, and takes exactly the frame's bytes.
pub proof fn lemma_frame_roundtrip(
    mode: CompressionMethod,
    body: Seq<u8>,
    size: u32,
    payload: Seq<u8>,
    rest: Seq<u8>,
)
    requires
        body.len() + 9 <= MAX_COMPRESSION_SIZE,
        payload_decode(mode, body, size) == Some(payload),
    ensures
        frame_bytes(mode, body, size).len() == 25 + body.len(),
        frame_decode(frame_bytes(mode, body, size) + rest, mode) == Ok::<
            (Seq<u8>, nat),
            FrameFault,
        >((payload, (25 + body.len()) as nat)),
{
    lemma_auto_spec_u32_to_from_le_bytes();
    let csize = (body.len() + 9) as u32;
    let framed = seq![mode.spec_byte()] + spec_u32_to_le_bytes(csize) + spec_u32_to_le_bytes(size)
        + body;
    let hash = cityhash128(framed);
    lemma_checksum_bytes_value(hash);
    let bytes = frame_bytes(mode, body, size) + rest;
    assert(bytes.subrange(0, 16) =~= checksum_bytes(hash));
    assert(bytes[16] == mode.spec_byte());
    assert(bytes.subrange(17, 21) =~= spec_u32_to_le_bytes(csize));
    assert(bytes.subrange(21, 25) =~= spec_u32_to_le_bytes(size));
    assert(bytes.subrange(16, 16 + csize) =~= framed);
    assert(bytes.subrange(25, 16 + csize) =~= body);
}

/// A frame that was accepted and then had only its sixteen checksum bytes
/// altered is rejected as a checksum mismatch.
pub proof fn lemma_corrupt_checksum_rejected(
    frame: Seq<u8>,
    corrupt: Seq<u8>,
    mode: CompressionMethod,
)
    requires
        frame_decode(frame, mode) is Ok,
        corrupt.len() == frame.len(),
        corrupt.skip(16) == frame.skip(16),
        corrupt != frame,
    ensures
        frame_decode(corrupt, mode) matches Err(FrameFault::Checksum { found, computed })
            && found == checksum_value(corrupt.subrange(0, 16)) && computed == checksum_value(
            frame.subrange(0, 16),
        ),
{
    let csize = spec_u32_from_le_bytes(frame.subrange(17, 21));
    assert forall|i: int, j: int| 16 <= i <= j <= frame.len() implies #[trigger] corrupt.subrange(
        i,
        j,
    ) == frame.subrange(i, j) by {
        assert(corrupt.subrange(i, j) =~= corrupt.skip(16).subrange(i - 16, j - 16));
        assert(frame.subrange(i, j) =~= frame.skip(16).subrange(i - 16, j - 16));
    }
    assert(corrupt[16] == corrupt.skip(16)[0]);
    assert(frame[16] == frame.skip(16)[0]);
    assert(corrupt.subrange(17, 21) == frame.subrange(17, 21));
    assert(corrupt.subrange(21, 25) == frame.subrange(21, 25));
    assert(corrupt.subrange(16, 16 + csize) == frame.subrange(16, 16 + csize));
    if checksum_value(corrupt.subrange(0, 16)) == checksum_value(frame.subrange(0, 16)) {
        lemma_checksum_value_injective(corrupt.subrange(0, 16), frame.subrange(0, 16));
        assert(corrupt =~= corrupt.subrange(0, 16) + corrupt.skip(16));
        assert(frame =~= frame.subrange(0, 16) + frame.skip(16));
    }
}

/// A frame that was accepted and then altered behind its checksum (in its
/// method byte, in the size of its payload or in its body), with `csize`
/// left as it was, is accepted again only if the altered bytes have the
/// CityHash128 of the unaltered ones; otherwise it is rejected as a
/// checksum mismatch.
pub proof fn lemma_corrupt_body_rejected(frame: Seq<u8>, corrupt: Seq<u8>, mode: CompressionMethod)
    requires
        frame_decode(frame, mode) is Ok,
        corrupt.len() == frame.len(),
        corrupt.subrange(0, 16) == frame.subrange(0, 16),
        corrupt.subrange(17, 21) == frame.subrange(17, 21),
    ensures
        ({
            let end = 16 + spec_u32_from_le_bytes(frame.subrange(17, 21));
            cityhash128(corrupt.subrange(16, end)) != cityhash128(frame.subrange(16, end))
                ==> frame_decode(corrupt, mode) matches Err(FrameFault::Checksum { .. })
        }),
{
}

/// A frame whose checksum matches and whose method byte is not the
/// negotiated one is rejected for its method.
pub proof fn lemma_corrupt_method_rejected(bytes: Seq<u8>, mode: CompressionMethod)
    requires
        bytes.len() >= 25,
        9 <= spec_u32_from_le_bytes(bytes.subrange(17, 21)) <= MAX_COMPRESSION_SIZE,
        bytes.len() >= 16 + spec_u32_from_le_bytes(bytes.subrange(17, 21)),
        checksum_value(bytes.subrange(0, 16)) == cityhash128(
            bytes.subrange(16, 16 + spec_u32_from_le_bytes(bytes.subrange(17, 21))),
        ),
        bytes[16] != mode.spec_byte(),
    ensures
        frame_decode(bytes, mode) == Err::<(Seq<u8>, nat), FrameFault>(
            FrameFault::Algorithm { found: bytes[16] },
        ),
{
}

/// A frame whose `csize` lies outside `9 ..= MAX_COMPRESSION_SIZE` is
/// rejected on its header, the first 25 bytes, whatever follows them.
pub proof fn lemma_csize_out_of_range_rejected(bytes: Seq<u8>, mode: CompressionMethod)
    requires
        bytes.len() >= 25,
        spec_u32_from_le_bytes(bytes.subrange(17, 21)) < 9 || spec_u32_from_le_bytes(
            bytes.subrange(17, 21),
        ) > MAX_COMPRESSION_SIZE,
    ensures
        frame_decode(bytes, mode) matches Err(fault) && (fault is TooSmall || fault is TooLarge),
{
}

/// Appends the frame around `body`, which stands for `size` bytes of
/// payload, with a freshly computed checksum.
pub fn write_frame(out: &mut Vec<u8>, mode: CompressionMethod, body: &[u8], size: u32)
    requires
        body@.len() + 9 <= u32::MAX,
    ensures
        final(out)@ == old(out)@ + frame_bytes(mode, body@, size),
{
    let mut framed: Vec<u8> = Vec::new();
    framed.push(mode.byte());
    let csize_bytes = u32_to_le_bytes((body.len() + 9) as u32);
    append_bytes(&mut framed, csize_bytes.as_slice());
    let size_bytes = u32_to_le_bytes(size);
    append_bytes(&mut framed, size_bytes.as_slice());
    append_bytes(&mut framed, body);
    let hash = cityhash_102_128(framed.as_slice());
    let high = u64_to_le_bytes((hash / 0x1_0000_0000_0000_0000) as u64);
    let low = u64_to_le_bytes((hash % 0x1_0000_0000_0000_0000) as u64);
    append_bytes(out, high.as_slice());
    append_bytes(out, low.as_slice());
    append_bytes(out, framed.as_slice());
    assert(out@ =~= old(out)@ + frame_bytes(mode, body@, size));
}

/// Whether `raw` can be framed by the method `mode`: a frame holds at most
/// `i32::MAX` bytes as they are, and what LZ4 takes compressed.
pub open spec fn framable(mode: CompressionMethod, raw: Seq<u8>) -> bool {
    match mode {
        CompressionMethod::Uncompressed => raw.len() <= i32::MAX,
        CompressionMethod::LZ4 => raw.len() <= LZ4_MAX_INPUT_SIZE,
    }
}

/// Whether `body` is what a frame of the method `mode` holds for `raw`:
/// `raw` itself, or an LZ4 block for it.
pub open spec fn frame_body_of(mode: CompressionMethod, body: Seq<u8>, raw: Seq<u8>) -> bool {
    match mode {
        CompressionMethod::Uncompressed => body == raw,
        CompressionMethod::LZ4 => lz4_block_of(body, raw),
    }
}

/// Whether `frame` is a frame of the method `mode` for `raw`: header and
/// checksum around a body that stands for `raw`.
pub open spec fn is_frame_of(frame: Seq<u8>, mode: CompressionMethod, raw: Seq<u8>) -> bool {
    &&& frame.len() >= 25
    &&& frame_body_of(mode, frame.skip(25), raw)
    &&& frame == frame_bytes(mode, frame.skip(25), raw.len() as u32)
}

/// The frame around a body ends with the body.
pub proof fn lemma_frame_bytes_body(mode: CompressionMethod, body: Seq<u8>, size: u32)
    ensures
        frame_bytes(mode, body, size).len() == 25 + body.len(),
        frame_bytes(mode, body, size).skip(25) == body,
{
    lemma_frame_bytes_len(mode, body, size);
    lemma_auto_spec_u32_to_from_le_bytes();
    lemma_auto_spec_u64_to_from_le_bytes();
    assert(frame_bytes(mode, body, size).skip(25) =~= body);
}

/// Frames `raw`: compresses it as the method asks, and puts header and
/// checksum in front. It succeeds exactly where `raw` can be framed, and
/// fails with a compression error where it cannot.
///
/// Encoding then decoding is the identity: a frame that this function made
/// of at most `LZ4_MAX_INPUT_SIZE - 1` bytes, and that stays within
/// `MAX_COMPRESSION_SIZE`, is accepted by the decoder, whatever follows it,
/// and yields `raw`.
pub fn encode_frame(raw: &[u8], mode: CompressionMethod) -> (r: Result<Vec<u8>, KlickhouseError>)
    ensures
        match r {
            Ok(frame) => framable(mode, raw@) && is_frame_of(frame@, mode, raw@),
            Err(e) => !framable(mode, raw@) && e.kind() == ErrorKind::CompressionError,
        },
        r matches Ok(frame) ==> (raw@.len() < LZ4_MAX_INPUT_SIZE && frame@.len() <= 16
            + MAX_COMPRESSION_SIZE ==> forall|rest: Seq<u8>|
            #[trigger] frame_decode(frame@ + rest, mode) == Ok::<(Seq<u8>, nat), FrameFault>(
                (raw@, frame@.len() as nat),
            )),
{
    let mut out: Vec<u8> = Vec::new();
    match mode {
        CompressionMethod::Uncompressed => {
            if raw.len() > i32::MAX as usize {
                return Err(
                    KlickhouseError::CompressionError("input too large for a frame".to_owned()),
                );
            }
            write_frame(&mut out, mode, raw, raw.len() as u32);
            proof {
                assert(out@ =~= frame_bytes(mode, raw@, raw@.len() as u32));
                lemma_frame_bytes_body(mode, raw@, raw@.len() as u32);
                if out@.len() <= 16 + MAX_COMPRESSION_SIZE {
                    assert forall|rest: Seq<u8>| #[trigger]
                        frame_decode(out@ + rest, mode) == Ok::<(Seq<u8>, nat), FrameFault>(
                            (raw@, out@.len() as nat),
                        ) by {
                        lemma_frame_roundtrip(mode, raw@, raw@.len() as u32, raw@, rest);
                    }
                }
            }
        },
        CompressionMethod::LZ4 => {
            let (body, raw_len) = compress_raw(raw)?;
            write_frame(&mut out, mode, body.as_slice(), raw_len as u32);
            proof {
                assert(out@ =~= frame_bytes(mode, body@, raw@.len() as u32));
                lemma_frame_bytes_body(mode, body@, raw@.len() as u32);
                if raw@.len() < LZ4_MAX_INPUT_SIZE && out@.len() <= 16 + MAX_COMPRESSION_SIZE {
                    assert forall|rest: Seq<u8>| #[trigger]
                        frame_decode(out@ + rest, mode) == Ok::<(Seq<u8>, nat), FrameFault>(
                            (raw@, out@.len() as nat),
                        ) by {
                        lemma_frame_roundtrip(mode, body@, raw@.len() as u32, raw@, rest);
                    }
                }
            }
        },
    }
    Ok(out)
}

/// Reads one frame and returns its payload. A frame that is not accepted
/// consumes nothing.
pub fn read_frame(reader: &mut ByteReader, mode: CompressionMethod) -> (r: Result<
    Vec<u8>,
    FrameFault,
>)
    ensures
        match frame_decode(old(reader).unread(), mode) {
            Ok((payload, consumed)) => (r matches Ok(v) && v@ == payload)
                && final(reader).unread() == old(reader).unread().skip(consumed as int),
            Err(fault) => r == Err::<Vec<u8>, FrameFault>(fault)
                && final(reader).unread() == old(reader).unread(),
        },
{
    let ghost bytes = reader.unread();
    let avail = reader.remaining();
    if avail < 25 {
        return Err(FrameFault::Truncated);
    }
    let csize_bytes = reader.peek_bytes(17, 4);
    let csize = u32_from_le_bytes(csize_bytes.as_slice());
    if csize > MAX_COMPRESSION_SIZE {
        return Err(FrameFault::TooLarge { csize });
    }
    if csize < 9 {
        return Err(FrameFault::TooSmall { csize });
    }
    if avail - 16 < csize as usize {
        return Err(FrameFault::Truncated);
    }
    let size_bytes = reader.peek_bytes(21, 4);
    let size = u32_from_le_bytes(size_bytes.as_slice());
    let high_bytes = reader.peek_bytes(0, 8);
    let low_bytes = reader.peek_bytes(8, 8);
    let high = u64_from_le_bytes(high_bytes.as_slice());
    let low = u64_from_le_bytes(low_bytes.as_slice());
    let found: u128 = high as u128 * 0x1_0000_0000_0000_0000 + low as u128;
    let framed = reader.peek_bytes(16, csize as usize);
    let computed = cityhash_102_128(framed.as_slice());
    proof {
        assert(bytes.subrange(0, 16).subrange(0, 8) =~= bytes.subrange(0, 8));
        assert(bytes.subrange(0, 16).subrange(8, 16) =~= bytes.subrange(8, 16));
    }
    if found != computed {
        return Err(FrameFault::Checksum { found, computed });
    }
    let method = match reader.peek(16) {
        Some(b) => b,
        None => {
            return Err(FrameFault::Truncated);
        },
    };
    if method != mode.byte() {
        return Err(FrameFault::Algorithm { found: method });
    }
    let body = reader.peek_bytes(25, csize as usize - 9);
    let payload = match mode {
        CompressionMethod::Uncompressed => {
            if body.len() != size as usize {
                return Err(FrameFault::Payload);
            }
            body
        },
        CompressionMethod::LZ4 => match decompress_block(body.as_slice(), size) {
            Ok(v) => v,
            Err(_) => {
                return Err(FrameFault::Payload);
            },
        },
    };
    reader.advance(16 + csize as usize);
    Ok(payload)
}

/// Reads one frame and returns its payload; a frame that is not accepted is
/// reported as the error of its fault and consumes nothing. A method byte or
/// a size out of range, and a checksum that does not match, are protocol
/// errors.
pub fn read_compressed_blob(reader: &mut ByteReader, compression: CompressionMethod) -> (r: Result<
    Vec<u8>,
    KlickhouseError,
>)
    ensures
        match frame_decode(old(reader).unread(), compression) {
            Ok((payload, consumed)) => (r matches Ok(v) && v@ == payload)
                && final(reader).unread() == old(reader).unread().skip(consumed as int),
            Err(fault) => (r matches Err(e) && e.says(fault.kind(), fault.text()))
                && final(reader).unread() == old(reader).unread(),
        },
{
    match read_frame(reader, compression) {
        Ok(v) => Ok(v),
        Err(fault) => Err(fault.to_error()),
    }
}

/// The bytes taken by the frames at the head of `bytes` that are accepted
/// and carry no payload.
pub open spec fn empty_frames_len(bytes: Seq<u8>, mode: CompressionMethod) -> nat
    decreases bytes.len(),
{
    match frame_decode(bytes, mode) {
        Ok((payload, consumed)) => if payload.len() == 0 && 0 < consumed <= bytes.len() {
            consumed + empty_frames_len(bytes.skip(consumed as int), mode)
        } else {
            0
        },
        Err(_) => 0,
    }
}

/// A reader of payload bytes over a source of compressed frames.
pub struct DecompressionReader {
    mode: CompressionMethod,
    inner: ByteReader,
    decompressed: Vec<u8>,
    position: usize,
}

impl DecompressionReader {
    /// The method that every frame must name.
    pub closed spec fn mode(&self) -> CompressionMethod {
        self.mode
    }

    /// The frame bytes that have not been decoded yet.
    pub closed spec fn source(&self) -> Seq<u8> {
        self.inner.unread()
    }

    /// The payload bytes that were decoded and not handed out yet.
    pub closed spec fn buffered(&self) -> Seq<u8> {
        if self.position <= self.decompressed@.len() {
            self.decompressed@.skip(self.position as int)
        } else {
            Seq::empty()
        }
    }

    /// A reader over the frames in `inner`, with nothing decoded yet.
    pub fn new(mode: CompressionMethod, inner: ByteReader) -> (r: Self)
        ensures
            r.mode() == mode,
            r.source() == inner.unread(),
            r.buffered() == Seq::<u8>::empty(),
    {
        DecompressionReader { mode, inner, decompressed: Vec::new(), position: 0 }
    }

    /// Gives the source back, positioned behind the last decoded frame.
    pub fn into_inner(self) -> (inner: ByteReader)
        ensures
            inner.unread() == self.source(),
    {
        self.inner
    }

    /// Decodes the next frame and makes its payload the buffered bytes,
    /// dropping what was buffered before. A frame that is not accepted
    /// leaves the reader as it was.
    pub fn run_decompression(&mut self) -> (r: Result<(), KlickhouseError>)
        ensures
            final(self).mode() == old(self).mode(),
            match frame_decode(old(self).source(), old(self).mode()) {
                Ok((payload, consumed)) => r is Ok && final(self).buffered() == payload
                    && final(self).source() == old(self).source().skip(consumed as int),
                Err(fault) => (r matches Err(e) && e.says(fault.kind(), fault.text()))
                    && final(self).buffered() == old(self).buffered()
                        && final(self).source() == old(self).source(),
            },
    {
        match read_frame(&mut self.inner, self.mode) {
            Ok(value) => {
                self.decompressed = value;
                self.position = 0;
                assert(self.buffered() =~= value@);
                Ok(())
            },
            Err(fault) => Err(fault.to_error()),
        }
    }

    /// Hands out up to `max` payload bytes: buffered ones if there are any,
    /// else those of the next frame that carries a payload. Frames without
    /// payload are passed over. The first frame that is not accepted ends the
    /// read with the error of its fault and stays in the source.
    pub fn read(&mut self, max: usize) -> (r: Result<Vec<u8>, KlickhouseError>)
        ensures
            final(self).mode() == old(self).mode(),
            max == 0 ==> (r matches Ok(v) && v@.len() == 0)
                && final(self).buffered() == old(self).buffered()
                    && final(self).source() == old(self).source(),
            max > 0 && old(self).buffered().len() > 0 ==> ({
                let n = if max <= old(self).buffered().len() {
                    max as int
                } else {
                    old(self).buffered().len() as int
                };
                (r matches Ok(v) && v@ == old(self).buffered().take(n)) && final(self).buffered()
                    == old(self).buffered().skip(n) && final(self).source() == old(self).source()
            }),
            max > 0 && old(self).buffered().len() == 0 ==> ({
                let skipped = empty_frames_len(old(self).source(), old(self).mode());
                let rest = old(self).source().skip(skipped as int);
                match frame_decode(rest, old(self).mode()) {
                    Ok((payload, consumed)) => {
                        let n = if max <= payload.len() {
                            max as int
                        } else {
                            payload.len() as int
                        };
                        (r matches Ok(v) && v@ == payload.take(n)) && final(self).buffered()
                            == payload.skip(n) && final(self).source() == rest.skip(
                            consumed as int,
                        )
                    },
                    Err(fault) => (r matches Err(e) && e.says(fault.kind(), fault.text()))
                        && final(self).buffered().len() == 0 && final(self).source() == rest,
                }
            }),
    {
        if max == 0 {
            return Ok(Vec::new());
        }
        if self.position >= self.decompressed.len() {
            let ghost start = self.source();
            let ghost mut skipped: nat = 0;
            let mut found = false;
            proof {
                assert(start.skip(0) =~= start);
            }
            while !found
                invariant
                    max > 0,
                    old(self).buffered().len() == 0,
                    !found ==> self.buffered().len() == 0,
                    self.mode() == old(self).mode(),
                    start == old(self).source(),
                    skipped <= start.len(),
                    skipped <= empty_frames_len(start, self.mode()),
                    !found ==> self.source() == start.skip(skipped as int) && empty_frames_len(
                        start,
                        self.mode(),
                    ) == skipped + empty_frames_len(self.source(), self.mode()),
                    found ==> skipped == empty_frames_len(start, self.mode()) && (frame_decode(
                        start.skip(skipped as int),
                        self.mode(),
                    ) matches Ok((payload, consumed)) && self.buffered() == payload
                        && payload.len() > 0 && self.position == 0 && self.source() == start.skip(
                        skipped as int,
                    ).skip(consumed as int)),
                decreases self.source().len() + (if found { 0int } else { 1int }),
            {
                let ghost before = self.source();
                match read_frame(&mut self.inner, self.mode) {
                    Ok(value) => {
                        let ghost consumed = frame_decode(before, self.mode())->Ok_0.1;
                        if value.len() > 0 {
                            self.decompressed = value;
                            self.position = 0;
                            found = true;
                            assert(self.buffered() =~= value@);
                        } else {
                            proof {
                                assert(start.skip(skipped as int).skip(consumed as int)
                                    =~= start.skip((skipped + consumed) as int));
                                skipped = skipped + consumed;
                            }
                        }
                    },
                    Err(fault) => {
                        assert(self.buffered().len() == 0);
                        return Err(fault.to_error());
                    },
                }
            }
        }
        let available = self.decompressed.len() - self.position;
        let length = if max <= available {
            max
        } else {
            available
        };
        let out = copy_range(self.decompressed.as_slice(), self.position, self.position + length);
        let ghost before = self.buffered();
        self.position = self.position + length;
        assert(out@ =~= before.take(length as int));
        assert(self.buffered() =~= before.skip(length as int));
        Ok(out)
    }
}

} // verus!

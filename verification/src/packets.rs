//! The packets that a server sends in reply to a query.

use crate::block::{block_decode, text_decode, Block, BlockModel};
use crate::compression::{frame_decode, read_frame};
use crate::errors::{ErrorKind, KlickhouseError};
use crate::io::{append_bytes, copy_range, var_uint_decode, ByteReader, ClickhouseRead, Decoded};
use crate::protocol::{
    exception_decode, read_exception, read_server_tag, server_tag_decode, CompressionMethod,
    ServerPacketId,
};
use vstd::prelude::*;

verus! {

/// First revision whose progress packets say how many rows are to be read
/// in all.
pub const DBMS_MIN_REVISION_WITH_TOTAL_ROWS_IN_PROGRESS: u64 = 51554;

/// First revision whose progress packets say what was written.
pub const DBMS_MIN_REVISION_WITH_CLIENT_WRITE_INFO: u64 = 54420;

/// How far a query has come. A count that the revision does not carry is
/// zero.
#[derive(Debug, Clone, Copy, PartialEq, Eq, Structural)]
pub struct Progress {
    pub read_rows: u64,
    pub read_bytes: u64,
    pub total_rows: u64,
    pub written_rows: u64,
    pub written_bytes: u64,
}

/// What a query has taken, as the server sums it up.
#[derive(Debug, Clone, Copy, PartialEq, Eq, Structural)]
pub struct ProfileInfo {
    pub rows: u64,
    pub blocks: u64,
    pub bytes: u64,
    pub applied_limit: bool,
    pub rows_before_limit: u64,
    pub calculated_rows_before_limit: bool,
}

/// A packet of a reply.
#[derive(Debug, PartialEq, Eq)]
pub enum ServerPacket {
    /// A packet that carries a block: data, totals, extremes, log lines or
    /// profile events. The block names the table that the packet named.
    Data { kind: ServerPacketId, block: Block },
    /// An exception that the server reports; `nested` says that another
    /// one follows.
    Exception { code: i32, name: String, message: String, stack_trace: String, nested: bool },
    Progress(Progress),
    ProfileInfo(ProfileInfo),
    /// The columns of a table, as the server describes them.
    TableColumns { name: String, description: String },
    Pong,
    EndOfStream,
}

/// Mathematical model of a [`ServerPacket`].
pub enum PacketModel {
    Data { kind: ServerPacketId, table: Seq<char>, block: BlockModel },
    Exception {
        code: i32,
        name: Seq<char>,
        message: Seq<char>,
        stack_trace: Seq<char>,
        nested: bool,
    },
    Progress(Progress),
    ProfileInfo(ProfileInfo),
    TableColumns { name: Seq<char>, description: Seq<char> },
    Pong,
    EndOfStream,
}

impl View for ServerPacket {
    type V = PacketModel;

    open spec fn view(&self) -> PacketModel {
        match self {
            ServerPacket::Data { kind, block } => PacketModel::Data {
                kind: *kind,
                table: match block.name {
                    Some(name) => name@,
                    None => Seq::empty(),
                },
                block: block@,
            },
            ServerPacket::Exception { code, name, message, stack_trace, nested } => {
                PacketModel::Exception {
                    code: *code,
                    name: name@,
                    message: message@,
                    stack_trace: stack_trace@,
                    nested: *nested,
                }
            },
            ServerPacket::Progress(progress) => PacketModel::Progress(*progress),
            ServerPacket::ProfileInfo(info) => PacketModel::ProfileInfo(*info),
            ServerPacket::TableColumns { name, description } => PacketModel::TableColumns {
                name: name@,
                description: description@,
            },
            ServerPacket::Pong => PacketModel::Pong,
            ServerPacket::EndOfStream => PacketModel::EndOfStream,
        }
    }
}

impl PacketModel {
    /// The kind of packet that this is.
    pub open spec fn kind(self) -> ServerPacketId {
        match self {
            PacketModel::Data { kind, .. } => kind,
            PacketModel::Exception { .. } => ServerPacketId::Exception,
            PacketModel::Progress(_) => ServerPacketId::Progress,
            PacketModel::ProfileInfo(_) => ServerPacketId::ProfileInfo,
            PacketModel::TableColumns { .. } => ServerPacketId::TableColumns,
            PacketModel::Pong => ServerPacketId::Pong,
            PacketModel::EndOfStream => ServerPacketId::EndOfStream,
        }
    }
}

impl ServerPacket {
    /// The kind of packet that this is.
    pub fn kind(&self) -> (r: ServerPacketId)
        ensures
            r == self@.kind(),
    {
        match self {
            ServerPacket::Data { kind, .. } => *kind,
            ServerPacket::Exception { .. } => ServerPacketId::Exception,
            ServerPacket::Progress(_) => ServerPacketId::Progress,
            ServerPacket::ProfileInfo(_) => ServerPacketId::ProfileInfo,
            ServerPacket::TableColumns { .. } => ServerPacketId::TableColumns,
            ServerPacket::Pong => ServerPacketId::Pong,
            ServerPacket::EndOfStream => ServerPacketId::EndOfStream,
        }
    }
}

/// A result that was read behind `by` bytes, counted from their start.
pub open spec fn shifted<T>(d: Decoded<T>, by: nat) -> Decoded<T> {
    match d {
        Decoded::Value { value, consumed } => Decoded::Value { value, consumed: consumed + by },
        Decoded::Failed(kind) => Decoded::Failed(kind),
    }
}

/// The first `count` varints at the head of `bytes`.
pub open spec fn numbers_decode(bytes: Seq<u8>, count: nat) -> Decoded<Seq<u64>>
    decreases count,
{
    if count == 0 {
        Decoded::Value { value: Seq::empty(), consumed: 0 }
    } else {
        match numbers_decode(bytes, (count - 1) as nat) {
            Decoded::Value { value, consumed } => match var_uint_decode(
                bytes.skip(consumed as int),
            ) {
                Decoded::Value { value: last, consumed: more } => Decoded::Value {
                    value: value.push(last as u64),
                    consumed: consumed + more,
                },
                Decoded::Failed(kind) => Decoded::Failed(kind),
            },
            Decoded::Failed(kind) => Decoded::Failed(kind),
        }
    }
}

/// Where the first varints cannot be read, more of them cannot.
proof fn lemma_numbers_decode_failed(bytes: Seq<u8>, m: nat, count: nat)
    requires
        m <= count,
    ensures
        numbers_decode(bytes, m) is Failed ==> numbers_decode(bytes, count) == numbers_decode(
            bytes,
            m,
        ),
    decreases count - m,
{
    if m < count && numbers_decode(bytes, m) is Failed {
        lemma_numbers_decode_failed(bytes, m, (count - 1) as nat);
    }
}

/// Reads `count` varints.
fn read_numbers(reader: &mut ByteReader, count: usize) -> (r: Result<Vec<u64>, KlickhouseError>)
    ensures
        match numbers_decode(old(reader).unread(), count as nat) {
            Decoded::Value { value, consumed } => (r matches Ok(v) && v@ == value && v@.len()
                == count) && consumed <= old(reader).unread().len() && final(reader).unread()
                == old(reader).unread().skip(consumed as int),
            Decoded::Failed(kind) => r matches Err(e) && e.kind() == kind,
        },
{
    let ghost bytes = reader.unread();
    let ghost mut used: nat = 0;
    let mut out: Vec<u64> = Vec::new();
    let mut i: usize = 0;
    proof {
        assert(bytes.skip(0) =~= bytes);
    }
    while i < count
        invariant
            bytes == old(reader).unread(),
            i <= count,
            out@.len() == i,
            numbers_decode(bytes, i as nat) == (Decoded::Value { value: out@, consumed: used }),
            used <= bytes.len(),
            reader.unread() == bytes.skip(used as int),
        decreases count - i,
    {
        let value = match reader.read_var_uint() {
            Ok(value) => value,
            Err(e) => {
                proof {
                    lemma_numbers_decode_failed(bytes, (i + 1) as nat, count as nat);
                }
                return Err(e);
            },
        };
        proof {
            let more = var_uint_decode(bytes.skip(used as int))->consumed;
            assert(bytes.skip(used as int).skip(more as int) =~= bytes.skip((used + more) as int));
            used = used + more;
        }
        out.push(value);
        i += 1;
    }
    Ok(out)
}

/// The number of counts in a progress packet at protocol revision
/// `revision`.
pub open spec fn spec_progress_fields(revision: u64) -> nat {
    if revision >= DBMS_MIN_REVISION_WITH_CLIENT_WRITE_INFO {
        5
    } else if revision >= DBMS_MIN_REVISION_WITH_TOTAL_ROWS_IN_PROGRESS {
        3
    } else {
        2
    }
}

/// The body of a progress packet, behind its tag: rows and bytes read, then
/// from `DBMS_MIN_REVISION_WITH_TOTAL_ROWS_IN_PROGRESS` on the rows to read
/// in all, then from `DBMS_MIN_REVISION_WITH_CLIENT_WRITE_INFO` on rows and
/// bytes written.
pub open spec fn progress_decode(bytes: Seq<u8>, revision: u64) -> Decoded<Progress> {
    match numbers_decode(bytes, spec_progress_fields(revision)) {
        Decoded::Value { value, consumed } => Decoded::Value {
            value: Progress {
                read_rows: value[0],
                read_bytes: value[1],
                total_rows: if value.len() > 2 {
                    value[2]
                } else {
                    0
                },
                written_rows: if value.len() > 4 {
                    value[3]
                } else {
                    0
                },
                written_bytes: if value.len() > 4 {
                    value[4]
                } else {
                    0
                },
            },
            consumed,
        },
        Decoded::Failed(kind) => Decoded::Failed(kind),
    }
}

/// Reads the body of a progress packet, behind its tag.
pub fn read_progress(reader: &mut ByteReader, revision: u64) -> (r: Result<
    Progress,
    KlickhouseError,
>)
    ensures
        match progress_decode(old(reader).unread(), revision) {
            Decoded::Value { value, consumed } => r == Ok::<Progress, KlickhouseError>(value)
                && consumed <= old(reader).unread().len()
                    && final(reader).unread() == old(reader).unread().skip(consumed as int),
            Decoded::Failed(kind) => r matches Err(e) && e.kind() == kind,
        },
{
    let fields: usize = if revision >= DBMS_MIN_REVISION_WITH_CLIENT_WRITE_INFO {
        5
    } else if revision >= DBMS_MIN_REVISION_WITH_TOTAL_ROWS_IN_PROGRESS {
        3
    } else {
        2
    };
    let counts = read_numbers(reader, fields)?;
    Ok(
        Progress {
            read_rows: counts[0],
            read_bytes: counts[1],
            total_rows: if fields > 2 {
                counts[2]
            } else {
                0
            },
            written_rows: if fields > 4 {
                counts[3]
            } else {
                0
            },
            written_bytes: if fields > 4 {
                counts[4]
            } else {
                0
            },
        },
    )
}

/// The flag at the head of `bytes`: one byte, set unless it is zero.
pub open spec fn flag_decode(bytes: Seq<u8>) -> Decoded<bool> {
    if bytes.len() < 1 {
        Decoded::Failed(ErrorKind::Io)
    } else {
        Decoded::Value { value: bytes[0] != 0, consumed: 1 }
    }
}

/// The body of a profile packet, behind its tag: rows, blocks and bytes,
/// whether a limit was applied, the rows before the limit, and whether
/// those were counted.
pub open spec fn profile_info_decode(bytes: Seq<u8>) -> Decoded<ProfileInfo> {
    match numbers_decode(bytes, 3) {
        Decoded::Value { value: counts, consumed: a } => match flag_decode(bytes.skip(a as int)) {
            Decoded::Value { value: applied_limit, consumed: b } => match var_uint_decode(
                bytes.skip((a + b) as int),
            ) {
                Decoded::Value { value: before, consumed: c } => match flag_decode(
                    bytes.skip((a + b + c) as int),
                ) {
                    Decoded::Value { value: calculated, consumed: d } => Decoded::Value {
                        value: ProfileInfo {
                            rows: counts[0],
                            blocks: counts[1],
                            bytes: counts[2],
                            applied_limit,
                            rows_before_limit: before as u64,
                            calculated_rows_before_limit: calculated,
                        },
                        consumed: a + b + c + d,
                    },
                    Decoded::Failed(kind) => Decoded::Failed(kind),
                },
                Decoded::Failed(kind) => Decoded::Failed(kind),
            },
            Decoded::Failed(kind) => Decoded::Failed(kind),
        },
        Decoded::Failed(kind) => Decoded::Failed(kind),
    }
}

/// Reads the body of a profile packet, behind its tag.
pub fn read_profile_info(reader: &mut ByteReader) -> (r: Result<ProfileInfo, KlickhouseError>)
    ensures
        match profile_info_decode(old(reader).unread()) {
            Decoded::Value { value, consumed } => r == Ok::<ProfileInfo, KlickhouseError>(value)
                && consumed <= old(reader).unread().len()
                    && final(reader).unread() == old(reader).unread().skip(consumed as int),
            Decoded::Failed(kind) => r matches Err(e) && e.kind() == kind,
        },
{
    let ghost bytes = reader.unread();
    let counts = read_numbers(reader, 3)?;
    let ghost a = numbers_decode(bytes, 3)->consumed;
    let applied_limit = reader.read_u8()?;
    assert(bytes.skip(a as int).skip(1) =~= bytes.skip((a + 1) as int));
    let rows_before_limit = reader.read_var_uint()?;
    let ghost c = var_uint_decode(bytes.skip((a + 1) as int))->consumed;
    assert(bytes.skip((a + 1) as int).skip(c as int) =~= bytes.skip((a + 1 + c) as int));
    let calculated = reader.read_u8()?;
    assert(bytes.skip((a + 1 + c) as int).skip(1) =~= bytes.skip((a + 1 + c + 1) as int));
    Ok(
        ProfileInfo {
            rows: counts[0],
            blocks: counts[1],
            bytes: counts[2],
            applied_limit: applied_limit != 0,
            rows_before_limit,
            calculated_rows_before_limit: calculated != 0,
        },
    )
}

/// The body of a packet that describes the columns of a table, behind its
/// tag: the name of the table and the description, two texts.
pub open spec fn table_columns_decode(bytes: Seq<u8>) -> Decoded<(Seq<char>, Seq<char>)> {
    match text_decode(bytes) {
        Decoded::Value { value: name, consumed: a } => match text_decode(bytes.skip(a as int)) {
            Decoded::Value { value: description, consumed: b } => Decoded::Value {
                value: (name, description),
                consumed: a + b,
            },
            Decoded::Failed(kind) => Decoded::Failed(kind),
        },
        Decoded::Failed(kind) => Decoded::Failed(kind),
    }
}

/// Reads the body of a packet that describes the columns of a table,
/// behind its tag.
pub fn read_table_columns(reader: &mut ByteReader) -> (r: Result<
    (String, String),
    KlickhouseError,
>)
    ensures
        match table_columns_decode(old(reader).unread()) {
            Decoded::Value { value, consumed } => (r matches Ok(p) && p.0@ == value.0 && p.1@
                == value.1) && consumed <= old(reader).unread().len() && final(reader).unread()
                == old(reader).unread().skip(consumed as int),
            Decoded::Failed(kind) => r matches Err(e) && e.kind() == kind,
        },
{
    let ghost bytes = reader.unread();
    let name = reader.read_utf8_string()?;
    let ghost a = text_decode(bytes)->consumed;
    let description = reader.read_utf8_string()?;
    let ghost b = text_decode(bytes.skip(a as int))->consumed;
    assert(bytes.skip(a as int).skip(b as int) =~= bytes.skip((a + b) as int));
    Ok((name, description))
}

/// The block that is spread over the frames at the head of `bytes`, where
/// `gathered` is the payload of the frames in front of them: frames are
/// taken for as long as the payload gathered so far ends before the block
/// does. A frame that is not accepted, and a payload that holds no block,
/// fail the read. `consumed` counts the bytes of the frames taken.
pub open spec fn framed_block_decode(
    bytes: Seq<u8>,
    gathered: Seq<u8>,
    mode: CompressionMethod,
    revision: u64,
) -> Decoded<BlockModel>
    decreases bytes.len(),
{
    match block_decode(gathered, revision) {
        Decoded::Value { value, consumed } => Decoded::Value { value, consumed: 0 },
        Decoded::Failed(ErrorKind::Io) => match frame_decode(bytes, mode) {
            Ok((payload, used)) => if 0 < used <= bytes.len() {
                shifted(
                    framed_block_decode(bytes.skip(used as int), gathered + payload, mode, revision),
                    used,
                )
            } else {
                Decoded::Failed(ErrorKind::Io)
            },
            Err(fault) => Decoded::Failed(fault.kind()),
        },
        Decoded::Failed(kind) => Decoded::Failed(kind),
    }
}

/// Reads a block that is spread over compressed frames.
pub fn read_framed_block(reader: &mut ByteReader, mode: CompressionMethod, revision: u64) -> (r:
    Result<Block, KlickhouseError>)
    ensures
        match framed_block_decode(old(reader).unread(), Seq::empty(), mode, revision) {
            Decoded::Value { value, consumed } => (r matches Ok(block) && block@ == value
                && block.name is None) && consumed <= old(reader).unread().len()
                && final(reader).unread() == old(reader).unread().skip(consumed as int),
            Decoded::Failed(kind) => r matches Err(e) && e.kind() == kind,
        },
{
    let ghost bytes = reader.unread();
    let ghost mut used: nat = 0;
    let mut gathered: Vec<u8> = Vec::new();
    proof {
        assert(bytes.skip(0) =~= bytes);
    }
    loop
        invariant
            bytes == old(reader).unread(),
            used <= bytes.len(),
            reader.unread() == bytes.skip(used as int),
            framed_block_decode(bytes, Seq::empty(), mode, revision) == shifted(
                framed_block_decode(bytes.skip(used as int), gathered@, mode, revision),
                used,
            ),
        decreases bytes.len() - used,
    {
        let mut attempt = ByteReader::new(copy_range(gathered.as_slice(), 0, gathered.len()));
        assert(attempt.unread() =~= gathered@);
        match Block::read(&mut attempt, revision) {
            Ok(block) => {
                assert(bytes.skip(used as int).skip(0) =~= bytes.skip(used as int));
                return Ok(block);
            },
            Err(KlickhouseError::Io(_)) => {},
            Err(e) => {
                return Err(e);
            },
        }
        let ghost before = bytes.skip(used as int);
        match read_frame(reader, mode) {
            Ok(payload) => {
                let ghost taken = frame_decode(before, mode)->Ok_0.1;
                let ghost earlier = gathered@;
                append_bytes(&mut gathered, payload.as_slice());
                proof {
                    assert(0 < taken <= before.len());
                    assert(before.skip(taken as int) =~= bytes.skip((used + taken) as int));
                    assert(gathered@ == earlier + payload@);
                    used = used + taken;
                }
            },
            Err(fault) => {
                return Err(fault.to_error());
            },
        }
    }
}

/// A block behind the name of its table, as packets carry it: inside the
/// compression envelope where `compression` names a method, bare where it
/// names none.
pub open spec fn table_block_decode(
    bytes: Seq<u8>,
    revision: u64,
    compression: Option<CompressionMethod>,
) -> Decoded<(Seq<char>, BlockModel)> {
    match text_decode(bytes) {
        Decoded::Value { value: table, consumed: a } => match (match compression {
            Some(mode) => framed_block_decode(bytes.skip(a as int), Seq::empty(), mode, revision),
            None => block_decode(bytes.skip(a as int), revision),
        }) {
            Decoded::Value { value: block, consumed: b } => Decoded::Value {
                value: (table, block),
                consumed: a + b,
            },
            Decoded::Failed(kind) => Decoded::Failed(kind),
        },
        Decoded::Failed(kind) => Decoded::Failed(kind),
    }
}

/// Reads a block behind the name of its table; the block that comes back
/// names that table.
pub fn read_table_block(
    reader: &mut ByteReader,
    revision: u64,
    compression: Option<CompressionMethod>,
) -> (r: Result<Block, KlickhouseError>)
    ensures
        match table_block_decode(old(reader).unread(), revision, compression) {
            Decoded::Value { value, consumed } => (r matches Ok(block) && block@ == value.1
                && (block.name matches Some(name) && name@ == value.0))
                    && consumed <= old(reader).unread().len()
                        && final(reader).unread() == old(reader).unread().skip(
                consumed as int,
            ),
            Decoded::Failed(kind) => r matches Err(e) && e.kind() == kind,
        },
{
    let ghost bytes = reader.unread();
    let table = reader.read_utf8_string()?;
    let ghost a = text_decode(bytes)->consumed;
    let block = match compression {
        Some(mode) => read_framed_block(reader, mode, revision)?,
        None => Block::read(reader, revision)?,
    };
    proof {
        let b = table_block_decode(bytes, revision, compression)->consumed - a;
        assert(bytes.skip(a as int).skip(b as int) =~= bytes.skip((a + b) as int));
    }
    Ok(Block { name: Some(table), info: block.info, rows: block.rows, columns: block.columns })
}

/// The body of a packet of kind `kind`, behind its tag. Data, totals and
/// extremes are inside the compression envelope where one was agreed on;
/// log lines and profile events never are. Kinds that belong to no reply
/// are a protocol error.
pub open spec fn packet_body_decode(
    kind: ServerPacketId,
    bytes: Seq<u8>,
    revision: u64,
    compression: Option<CompressionMethod>,
) -> Decoded<PacketModel> {
    match kind {
        ServerPacketId::Data | ServerPacketId::Totals | ServerPacketId::Extremes => {
            match table_block_decode(bytes, revision, compression) {
                Decoded::Value { value, consumed } => Decoded::Value {
                    value: PacketModel::Data { kind, table: value.0, block: value.1 },
                    consumed,
                },
                Decoded::Failed(kind) => Decoded::Failed(kind),
            }
        },
        ServerPacketId::Log | ServerPacketId::ProfileEvents => {
            match table_block_decode(bytes, revision, None) {
                Decoded::Value { value, consumed } => Decoded::Value {
                    value: PacketModel::Data { kind, table: value.0, block: value.1 },
                    consumed,
                },
                Decoded::Failed(kind) => Decoded::Failed(kind),
            }
        },
        ServerPacketId::Exception => match exception_decode(bytes) {
            Decoded::Value { value, consumed } => Decoded::Value {
                value: PacketModel::Exception {
                    code: value.0,
                    name: value.1,
                    message: value.2,
                    stack_trace: value.3,
                    nested: value.4,
                },
                consumed,
            },
            Decoded::Failed(kind) => Decoded::Failed(kind),
        },
        ServerPacketId::Progress => match progress_decode(bytes, revision) {
            Decoded::Value { value, consumed } => Decoded::Value {
                value: PacketModel::Progress(value),
                consumed,
            },
            Decoded::Failed(kind) => Decoded::Failed(kind),
        },
        ServerPacketId::ProfileInfo => match profile_info_decode(bytes) {
            Decoded::Value { value, consumed } => Decoded::Value {
                value: PacketModel::ProfileInfo(value),
                consumed,
            },
            Decoded::Failed(kind) => Decoded::Failed(kind),
        },
        ServerPacketId::TableColumns => match table_columns_decode(bytes) {
            Decoded::Value { value, consumed } => Decoded::Value {
                value: PacketModel::TableColumns { name: value.0, description: value.1 },
                consumed,
            },
            Decoded::Failed(kind) => Decoded::Failed(kind),
        },
        ServerPacketId::Pong => Decoded::Value { value: PacketModel::Pong, consumed: 0 },
        ServerPacketId::EndOfStream => Decoded::Value {
            value: PacketModel::EndOfStream,
            consumed: 0,
        },
        _ => Decoded::Failed(ErrorKind::ProtocolError),
    }
}

/// The packet of a reply at the head of `bytes`: its tag, then its body.
pub open spec fn packet_decode(
    bytes: Seq<u8>,
    revision: u64,
    compression: Option<CompressionMethod>,
) -> Decoded<PacketModel> {
    match server_tag_decode(bytes) {
        Decoded::Value { value: kind, consumed } => shifted(
            packet_body_decode(kind, bytes.skip(consumed as int), revision, compression),
            consumed,
        ),
        Decoded::Failed(kind) => Decoded::Failed(kind),
    }
}

/// Reads the body of a packet of kind `kind`, behind its tag.
pub fn read_packet_body(
    kind: ServerPacketId,
    reader: &mut ByteReader,
    revision: u64,
    compression: Option<CompressionMethod>,
) -> (r: Result<ServerPacket, KlickhouseError>)
    ensures
        match packet_body_decode(kind, old(reader).unread(), revision, compression) {
            Decoded::Value { value, consumed } => (r matches Ok(packet) && packet@ == value)
                && consumed <= old(reader).unread().len()
                    && final(reader).unread() == old(reader).unread().skip(consumed as int),
            Decoded::Failed(kind) => r matches Err(e) && e.kind() == kind,
        },
{
    proof {
        assert(reader.unread().skip(0) =~= reader.unread());
    }
    match kind {
        ServerPacketId::Data | ServerPacketId::Totals | ServerPacketId::Extremes => {
            let block = read_table_block(reader, revision, compression)?;
            Ok(ServerPacket::Data { kind, block })
        },
        ServerPacketId::Log | ServerPacketId::ProfileEvents => {
            let block = read_table_block(reader, revision, None)?;
            Ok(ServerPacket::Data { kind, block })
        },
        ServerPacketId::Exception => {
            let (error, nested) = read_exception(reader)?;
            match error {
                KlickhouseError::ServerException { code, name, message, stack_trace } => Ok(
                    ServerPacket::Exception { code, name, message, stack_trace, nested },
                ),
                other => Err(other),
            }
        },
        ServerPacketId::Progress => Ok(ServerPacket::Progress(read_progress(reader, revision)?)),
        ServerPacketId::ProfileInfo => Ok(ServerPacket::ProfileInfo(read_profile_info(reader)?)),
        ServerPacketId::TableColumns => {
            let (name, description) = read_table_columns(reader)?;
            Ok(ServerPacket::TableColumns { name, description })
        },
        ServerPacketId::Pong => Ok(ServerPacket::Pong),
        ServerPacketId::EndOfStream => Ok(ServerPacket::EndOfStream),
        _ => Err(KlickhouseError::ProtocolError("unexpected packet in a reply".to_owned())),
    }
}

/// Reads one packet of a reply. Too few bytes are an I/O error: the same
/// bytes, with more behind them, can be read again from their start.
pub fn read_packet(
    reader: &mut ByteReader,
    revision: u64,
    compression: Option<CompressionMethod>,
) -> (r: Result<ServerPacket, KlickhouseError>)
    ensures
        match packet_decode(old(reader).unread(), revision, compression) {
            Decoded::Value { value, consumed } => (r matches Ok(packet) && packet@ == value)
                && consumed <= old(reader).unread().len()
                    && final(reader).unread() == old(reader).unread().skip(consumed as int),
            Decoded::Failed(kind) => r matches Err(e) && e.kind() == kind,
        },
{
    let ghost bytes = reader.unread();
    let kind = read_server_tag(reader)?;
    let packet = read_packet_body(kind, reader, revision, compression)?;
    proof {
        let a = server_tag_decode(bytes)->consumed;
        let b = packet_body_decode(kind, bytes.skip(a as int), revision, compression)->consumed;
        assert(bytes.skip(a as int).skip(b as int) =~= bytes.skip((b + a) as int));
    }
    Ok(packet)
}

} // verus!

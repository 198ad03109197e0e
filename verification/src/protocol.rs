//! The packets of the wire protocol and the handshake.

use crate::block::{block_bytes, text_decode, Block};
use crate::compression::{encode_frame, framable, is_frame_of};
use crate::errors::{ErrorKind, KlickhouseError};
use crate::text::optional_text;
use crate::io::{append_bytes,
    string_bytes, string_decode, var_uint_bytes, var_uint_decode, ByteReader, ClickhouseRead,
    ClickhouseWrite, Decoded,
};
use vstd::bytes::{spec_u32_from_le_bytes, u32_from_le_bytes};
use vstd::prelude::*;
use vstd::string::StringSliceAdditionalSpecFns;
use vstd::utf8::encode_utf8;

verus! {

/// Largest length a length-prefixed string may declare: 1 GiB.
pub const MAX_STRING_SIZE: usize = 1073741824;

/// Largest compressed frame (header and body) that a reader accepts: 1 GiB.
pub const MAX_COMPRESSION_SIZE: u32 = 1073741824;

/// How the payload of a compressed frame is stored.
#[derive(Debug, Clone, Copy, PartialEq, Eq, Structural)]
pub enum CompressionMethod {
    /// The payload is stored as it is.
    Uncompressed,
    /// The payload is one LZ4 block.
    LZ4,
}

impl CompressionMethod {
    /// The byte that names this method in a frame header.
    pub open spec fn spec_byte(self) -> u8 {
        match self {
            CompressionMethod::Uncompressed => 0x02,
            CompressionMethod::LZ4 => 0x82,
        }
    }

    /// The byte that names this method in a frame header.
    pub fn byte(&self) -> (b: u8)
        ensures
            b == self.spec_byte(),
    {
        match self {
            CompressionMethod::Uncompressed => 0x02,
            CompressionMethod::LZ4 => 0x82,
        }
    }
}

/// The first revision at which the server names its time zone in its
/// hello.
pub const DBMS_MIN_REVISION_WITH_SERVER_TIMEZONE: u64 = 54058;

/// The stage up to which the server runs a query: to completion.
pub const QUERY_STAGE_COMPLETE: u64 = 2;

/// The kinds of packets that a client sends.
#[derive(Debug, Clone, Copy, PartialEq, Eq, Structural)]
pub enum ClientPacketId {
    Hello,
    Query,
    Data,
    Cancel,
    Ping,
}

/// The kinds of packets that a server sends.
#[derive(Debug, Clone, Copy, PartialEq, Eq, Structural)]
pub enum ServerPacketId {
    Hello,
    Data,
    Exception,
    Progress,
    Pong,
    EndOfStream,
    ProfileInfo,
    Totals,
    Extremes,
    TableStatusResponse,
    Log,
    TableColumns,
    PartUUIDs,
    ReadTaskRequest,
    ProfileEvents,
}

impl ClientPacketId {
    /// The tag of this kind of packet.
    pub open spec fn spec_tag(self) -> u64 {
        match self {
            ClientPacketId::Hello => 0,
            ClientPacketId::Query => 1,
            ClientPacketId::Data => 2,
            ClientPacketId::Cancel => 3,
            ClientPacketId::Ping => 4,
        }
    }

    /// The tag of this kind of packet.
    pub fn tag(&self) -> (r: u64)
        ensures
            r == self.spec_tag(),
    {
        match self {
            ClientPacketId::Hello => 0,
            ClientPacketId::Query => 1,
            ClientPacketId::Data => 2,
            ClientPacketId::Cancel => 3,
            ClientPacketId::Ping => 4,
        }
    }

    /// The kind of packet that a tag names.
    pub fn from_u64(tag: u64) -> (r: Option<ClientPacketId>)
        ensures
            match r {
                Some(id) => id.spec_tag() == tag,
                None => tag > 4,
            },
    {
        match tag {
            0 => Some(ClientPacketId::Hello),
            1 => Some(ClientPacketId::Query),
            2 => Some(ClientPacketId::Data),
            3 => Some(ClientPacketId::Cancel),
            4 => Some(ClientPacketId::Ping),
            _ => None,
        }
    }
}

impl ServerPacketId {
    /// The tag of this kind of packet.
    pub open spec fn spec_tag(self) -> u64 {
        match self {
            ServerPacketId::Hello => 0,
            ServerPacketId::Data => 1,
            ServerPacketId::Exception => 2,
            ServerPacketId::Progress => 3,
            ServerPacketId::Pong => 4,
            ServerPacketId::EndOfStream => 5,
            ServerPacketId::ProfileInfo => 6,
            ServerPacketId::Totals => 7,
            ServerPacketId::Extremes => 8,
            ServerPacketId::TableStatusResponse => 9,
            ServerPacketId::Log => 10,
            ServerPacketId::TableColumns => 11,
            ServerPacketId::PartUUIDs => 12,
            ServerPacketId::ReadTaskRequest => 13,
            ServerPacketId::ProfileEvents => 14,
        }
    }

    /// The tag of this kind of packet.
    pub fn tag(&self) -> (r: u64)
        ensures
            r == self.spec_tag(),
    {
        match self {
            ServerPacketId::Hello => 0,
            ServerPacketId::Data => 1,
            ServerPacketId::Exception => 2,
            ServerPacketId::Progress => 3,
            ServerPacketId::Pong => 4,
            ServerPacketId::EndOfStream => 5,
            ServerPacketId::ProfileInfo => 6,
            ServerPacketId::Totals => 7,
            ServerPacketId::Extremes => 8,
            ServerPacketId::TableStatusResponse => 9,
            ServerPacketId::Log => 10,
            ServerPacketId::TableColumns => 11,
            ServerPacketId::PartUUIDs => 12,
            ServerPacketId::ReadTaskRequest => 13,
            ServerPacketId::ProfileEvents => 14,
        }
    }

    /// The kind of packet that a tag names.
    pub fn from_u64(tag: u64) -> (r: Option<ServerPacketId>)
        ensures
            match r {
                Some(id) => id.spec_tag() == tag,
                None => tag > 14,
            },
    {
        match tag {
            0 => Some(ServerPacketId::Hello),
            1 => Some(ServerPacketId::Data),
            2 => Some(ServerPacketId::Exception),
            3 => Some(ServerPacketId::Progress),
            4 => Some(ServerPacketId::Pong),
            5 => Some(ServerPacketId::EndOfStream),
            6 => Some(ServerPacketId::ProfileInfo),
            7 => Some(ServerPacketId::Totals),
            8 => Some(ServerPacketId::Extremes),
            9 => Some(ServerPacketId::TableStatusResponse),
            10 => Some(ServerPacketId::Log),
            11 => Some(ServerPacketId::TableColumns),
            12 => Some(ServerPacketId::PartUUIDs),
            13 => Some(ServerPacketId::ReadTaskRequest),
            14 => Some(ServerPacketId::ProfileEvents),
            _ => None,
        }
    }

    /// Whether a packet of this kind ends the reply to a query.
    pub open spec fn spec_ends_reply(self) -> bool {
        self == ServerPacketId::EndOfStream || self == ServerPacketId::Exception
    }

    /// Whether a packet of this kind ends the reply to a query.
    pub fn ends_reply(&self) -> (r: bool)
        ensures
            r == self.spec_ends_reply(),
    {
        match self {
            ServerPacketId::EndOfStream | ServerPacketId::Exception => true,
            _ => false,
        }
    }
}

/// A tag names the kind of packet that has that tag.
pub proof fn lemma_packet_tags_roundtrip(client: ClientPacketId, server: ServerPacketId)
    ensures
        client.spec_tag() <= 4,
        server.spec_tag() <= 14,
        forall|other: ClientPacketId| other.spec_tag() == client.spec_tag() ==> other == client,
        forall|other: ServerPacketId| other.spec_tag() == server.spec_tag() ==> other == server,
{
}

/// The revision of a session: the lower of the two that were offered.
pub fn negotiate_revision(client: u64, server: u64) -> (r: u64)
    ensures
        r <= client,
        r <= server,
        r == client || r == server,
{
    if client <= server {
        client
    } else {
        server
    }
}

/// What the client says of itself when it opens a session.
#[derive(Debug, Clone, PartialEq, Eq)]
pub struct ClientHello {
    pub client_name: String,
    pub version_major: u64,
    pub version_minor: u64,
    pub version_patch: u64,
    pub revision: u64,
}

/// What the server says of itself in reply.
#[derive(Debug, Clone, PartialEq, Eq)]
pub struct ServerHello {
    pub server_name: String,
    pub version_major: u64,
    pub version_minor: u64,
    pub version_patch: u64,
    pub revision: u64,
    /// The time zone of the server, where the revision has it.
    pub timezone: Option<String>,
}

/// The hello packet of a client.
pub open spec fn client_hello_bytes(hello: ClientHello) -> Seq<u8> {
    var_uint_bytes(ClientPacketId::Hello.spec_tag()) + string_bytes(
        encode_utf8(hello.client_name@),
    ) + var_uint_bytes(hello.version_major) + var_uint_bytes(hello.version_minor) + var_uint_bytes(
        hello.version_patch,
    ) + var_uint_bytes(hello.revision)
}

/// Appends the hello packet of a client.
pub fn write_client_hello(out: &mut Vec<u8>, hello: &ClientHello)
    ensures
        final(out)@ == old(out)@ + client_hello_bytes(*hello),
{
    let _ = out.write_var_uint(ClientPacketId::Hello.tag());
    let _ = out.write_string(hello.client_name.as_str().as_bytes());
    let _ = out.write_var_uint(hello.version_major);
    let _ = out.write_var_uint(hello.version_minor);
    let _ = out.write_var_uint(hello.version_patch);
    let _ = out.write_var_uint(hello.revision);
    assert(out@ =~= old(out)@ + client_hello_bytes(*hello));
}

/// Who opens a session, and on which database.
#[derive(Debug, Clone, PartialEq, Eq)]
pub struct Credentials {
    pub database: String,
    pub user: String,
    pub password: String,
}

/// What follows the hello of a client: default database, user and
/// password, each a length-prefixed text.
pub open spec fn credentials_bytes(credentials: Credentials) -> Seq<u8> {
    text_bytes(credentials.database@) + text_bytes(credentials.user@) + text_bytes(
        credentials.password@,
    )
}

/// Appends what follows the hello of a client.
pub fn write_credentials(out: &mut Vec<u8>, credentials: &Credentials)
    ensures
        final(out)@ == old(out)@ + credentials_bytes(*credentials),
{
    write_text(out, credentials.database.as_str());
    write_text(out, credentials.user.as_str());
    write_text(out, credentials.password.as_str());
    assert(out@ =~= old(out)@ + credentials_bytes(*credentials));
}

/// The packet tag at the head of `bytes`: a tag that names no kind of
/// server packet is a protocol error.
pub open spec fn server_tag_decode(bytes: Seq<u8>) -> Decoded<ServerPacketId> {
    match var_uint_decode(bytes) {
        Decoded::Value { value, consumed } => if value > 14 {
            Decoded::Failed(ErrorKind::ProtocolError)
        } else {
            Decoded::Value {
                value: choose|id: ServerPacketId| id.spec_tag() == value,
                consumed,
            }
        },
        Decoded::Failed(kind) => Decoded::Failed(kind),
    }
}

/// Reads the tag of a server packet. A failed read consumes nothing.
pub fn read_server_tag(reader: &mut ByteReader) -> (r: Result<ServerPacketId, KlickhouseError>)
    ensures
        match server_tag_decode(old(reader).unread()) {
            Decoded::Value { value, consumed } => r == Ok::<ServerPacketId, KlickhouseError>(value)
                && consumed <= old(reader).unread().len()
                    && final(reader).unread() == old(reader).unread().skip(consumed as int),
            Decoded::Failed(kind) => (r matches Err(e) && e.kind() == kind)
                && final(reader).unread() == old(reader).unread(),
        },
{
    let (tag, consumed) = reader.peek_var_uint()?;
    match ServerPacketId::from_u64(tag) {
        Some(id) => {
            proof {
                lemma_packet_tags_roundtrip(ClientPacketId::Hello, id);
            }
            reader.advance(consumed);
            Ok(id)
        },
        None => Err(KlickhouseError::ProtocolError("unknown packet tag".to_owned())),
    }
}

/// The numbers of a server hello behind the name: version triple and
/// revision.
pub open spec fn hello_numbers_decode(bytes: Seq<u8>) -> Decoded<(nat, nat, nat, nat)> {
    match var_uint_decode(bytes) {
        Decoded::Value { value: major, consumed: a } => match var_uint_decode(
            bytes.skip(a as int),
        ) {
            Decoded::Value { value: minor, consumed: b } => match var_uint_decode(
                bytes.skip((a + b) as int),
            ) {
                Decoded::Value { value: patch, consumed: c } => match var_uint_decode(
                    bytes.skip((a + b + c) as int),
                ) {
                    Decoded::Value { value: revision, consumed: d } => Decoded::Value {
                        value: (major, minor, patch, revision),
                        consumed: a + b + c + d,
                    },
                    Decoded::Failed(kind) => Decoded::Failed(kind),
                },
                Decoded::Failed(kind) => Decoded::Failed(kind),
            },
            Decoded::Failed(kind) => Decoded::Failed(kind),
        },
        Decoded::Failed(kind) => Decoded::Failed(kind),
    }
}

/// Reads the version triple and the revision of a server hello.
fn read_hello_numbers(reader: &mut ByteReader) -> (r: Result<(u64, u64, u64, u64), KlickhouseError>)
    ensures
        match hello_numbers_decode(old(reader).unread()) {
            Decoded::Value { value, consumed } => r == Ok::<(u64, u64, u64, u64), KlickhouseError>(
                (value.0 as u64, value.1 as u64, value.2 as u64, value.3 as u64),
            ) && value.0 <= u64::MAX && value.1 <= u64::MAX && value.2 <= u64::MAX && value.3
                <= u64::MAX && consumed <= old(reader).unread().len()
                    && final(reader).unread() == old(reader).unread().skip(consumed as int),
            Decoded::Failed(kind) => r matches Err(e) && e.kind() == kind,
        },
{
    let ghost bytes = reader.unread();
    let major = reader.read_var_uint()?;
    let ghost a = var_uint_decode(bytes)->consumed;
    let minor = reader.read_var_uint()?;
    let ghost b = var_uint_decode(bytes.skip(a as int))->consumed;
    assert(bytes.skip(a as int).skip(b as int) =~= bytes.skip((a + b) as int));
    let patch = reader.read_var_uint()?;
    let ghost c = var_uint_decode(bytes.skip((a + b) as int))->consumed;
    assert(bytes.skip((a + b) as int).skip(c as int) =~= bytes.skip((a + b + c) as int));
    let revision = reader.read_var_uint()?;
    let ghost d = var_uint_decode(bytes.skip((a + b + c) as int))->consumed;
    assert(bytes.skip((a + b + c) as int).skip(d as int) =~= bytes.skip((a + b + c + d) as int));
    Ok((major, minor, patch, revision))
}

/// The body of the hello packet of a server, behind its tag, as a client of
/// revision `client_revision` reads it: the time zone is there from
/// `DBMS_MIN_REVISION_WITH_SERVER_TIMEZONE` on, by the lower of the two
/// revisions.
pub open spec fn server_hello_decode(bytes: Seq<u8>, client_revision: u64) -> Decoded<
    (Seq<char>, nat, nat, nat, nat, Option<Seq<char>>),
> {
    match text_decode(bytes) {
        Decoded::Value { value: name, consumed: a } => match hello_numbers_decode(
            bytes.skip(a as int),
        ) {
            Decoded::Value { value: (major, minor, patch, revision), consumed: b } => if revision
                >= DBMS_MIN_REVISION_WITH_SERVER_TIMEZONE && client_revision
                >= DBMS_MIN_REVISION_WITH_SERVER_TIMEZONE {
                match text_decode(bytes.skip((a + b) as int)) {
                    Decoded::Value { value: zone, consumed: c } => Decoded::Value {
                        value: (name, major, minor, patch, revision, Some(zone)),
                        consumed: a + b + c,
                    },
                    Decoded::Failed(kind) => Decoded::Failed(kind),
                }
            } else {
                Decoded::Value {
                    value: (name, major, minor, patch, revision, None),
                    consumed: a + b,
                }
            },
            Decoded::Failed(kind) => Decoded::Failed(kind),
        },
        Decoded::Failed(kind) => Decoded::Failed(kind),
    }
}

/// Reads the body of the hello packet of a server, behind its tag.
pub fn read_server_hello(reader: &mut ByteReader, client_revision: u64) -> (r: Result<
    ServerHello,
    KlickhouseError,
>)
    ensures
        match server_hello_decode(old(reader).unread(), client_revision) {
            Decoded::Value { value, consumed } => (r matches Ok(h) && h.server_name@ == value.0
                && h.version_major == value.1 && h.version_minor == value.2 && h.version_patch
                == value.3 && h.revision == value.4 && optional_text(h.timezone) == value.5)
                && final(reader).unread() == old(reader).unread().skip(consumed as int),
            Decoded::Failed(kind) => r matches Err(e) && e.kind() == kind,
        },
{
    let ghost bytes = reader.unread();
    let server_name = reader.read_utf8_string()?;
    let ghost a = text_decode(bytes)->consumed;
    let (version_major, version_minor, version_patch, revision) = read_hello_numbers(reader)?;
    let ghost b = hello_numbers_decode(bytes.skip(a as int))->consumed;
    assert(bytes.skip(a as int).skip(b as int) =~= bytes.skip((a + b) as int));
    let timezone = if negotiate_revision(client_revision, revision)
        >= DBMS_MIN_REVISION_WITH_SERVER_TIMEZONE {
        let zone = reader.read_utf8_string()?;
        let ghost c = text_decode(bytes.skip((a + b) as int))->consumed;
        assert(bytes.skip((a + b) as int).skip(c as int) =~= bytes.skip((a + b + c) as int));
        Some(zone)
    } else {
        None
    };
    Ok(ServerHello { server_name, version_major, version_minor, version_patch, revision, timezone })
}

/// The body of an exception packet, behind its tag: code, name, message,
/// stack trace, and whether another exception is nested in it.
pub open spec fn exception_decode(bytes: Seq<u8>) -> Decoded<
    (i32, Seq<char>, Seq<char>, Seq<char>, bool),
> {
    if bytes.len() < 4 {
        Decoded::Failed(ErrorKind::Io)
    } else {
        match text_decode(bytes.skip(4)) {
            Decoded::Value { value: name, consumed: a } => match text_decode(
                bytes.skip((4 + a) as int),
            ) {
                Decoded::Value { value: message, consumed: b } => match text_decode(
                    bytes.skip((4 + a + b) as int),
                ) {
                    Decoded::Value { value: stack_trace, consumed: c } => if bytes.len() < 4 + a
                        + b + c + 1 {
                        Decoded::Failed(ErrorKind::Io)
                    } else {
                        Decoded::Value {
                            value: (
                                spec_u32_from_le_bytes(bytes.subrange(0, 4)) as i32,
                                name,
                                message,
                                stack_trace,
                                bytes[(4 + a + b + c) as int] != 0,
                            ),
                            consumed: 4 + a + b + c + 1,
                        }
                    },
                    Decoded::Failed(kind) => Decoded::Failed(kind),
                },
                Decoded::Failed(kind) => Decoded::Failed(kind),
            },
            Decoded::Failed(kind) => Decoded::Failed(kind),
        }
    }
}

/// Reads the body of an exception packet, behind its tag: the server
/// exception that it reports, and whether another one is nested in it.
pub fn read_exception(reader: &mut ByteReader) -> (r: Result<(KlickhouseError, bool), KlickhouseError>)
    ensures
        match exception_decode(old(reader).unread()) {
            Decoded::Value { value, consumed } => (r matches Ok(p)
                && (p.0 matches KlickhouseError::ServerException {
                code,
                name,
                message,
                stack_trace,
            } && code == value.0 && name@ == value.1 && message@ == value.2 && stack_trace@
                == value.3) && p.1 == value.4) && consumed <= old(reader).unread().len()
                && final(reader).unread() == old(reader).unread().skip(consumed as int),
            Decoded::Failed(kind) => r matches Err(e) && e.kind() == kind,
        },
{
    let ghost bytes = reader.unread();
    let code_bytes = reader.read_exact(4)?;
    assert(code_bytes@ =~= bytes.subrange(0, 4));
    let code = #[verifier::truncate]
    (u32_from_le_bytes(code_bytes.as_slice()) as i32);
    let name = reader.read_utf8_string()?;
    let ghost a = text_decode(bytes.skip(4))->consumed;
    assert(bytes.skip(4).skip(a as int) =~= bytes.skip((4 + a) as int));
    let message = reader.read_utf8_string()?;
    let ghost b = text_decode(bytes.skip((4 + a) as int))->consumed;
    assert(bytes.skip((4 + a) as int).skip(b as int) =~= bytes.skip((4 + a + b) as int));
    let stack_trace = reader.read_utf8_string()?;
    let ghost c = text_decode(bytes.skip((4 + a + b) as int))->consumed;
    assert(bytes.skip((4 + a + b) as int).skip(c as int) =~= bytes.skip((4 + a + b + c) as int));
    let nested = reader.read_u8()?;
    assert(bytes.skip((4 + a + b + c) as int)[0] == bytes[(4 + a + b + c) as int]);
    assert(bytes.skip((4 + a + b + c) as int).skip(1) =~= bytes.skip((4 + a + b + c + 1) as int));
    Ok((KlickhouseError::ServerException { code, name, message, stack_trace }, nested != 0))
}

/// The first revision at which a query says who sends it.
pub const DBMS_MIN_REVISION_WITH_CLIENT_INFO: u64 = 54032;

/// The first revision at which a query carries the secret that servers of
/// one cluster share.
pub const DBMS_MIN_REVISION_WITH_INTERSERVER_SECRET: u64 = 54441;

/// Who sends a query.
#[derive(Debug, Clone, PartialEq, Eq)]
pub struct ClientInfo {
    pub initial_user: String,
    pub initial_query_id: String,
    pub initial_address: String,
    pub os_user: String,
    pub client_hostname: String,
    pub client_name: String,
    pub version_major: u64,
    pub version_minor: u64,
    pub revision: u64,
}

/// A query as it is sent.
#[derive(Debug, Clone, PartialEq, Eq)]
pub struct Query {
    pub query_id: String,
    pub client_info: ClientInfo,
    /// Settings by name, in the order in which they are sent.
    pub settings: Vec<(String, String)>,
    /// Whether data packets are wrapped in the compression envelope.
    pub compression: bool,
    pub query: String,
}

/// The length-prefixed bytes of a text.
pub open spec fn text_bytes(text: Seq<char>) -> Seq<u8> {
    string_bytes(encode_utf8(text))
}

/// Who sends a query, on the wire: an initial query over TCP.
pub open spec fn client_info_bytes(info: ClientInfo) -> Seq<u8> {
    seq![1u8] + text_bytes(info.initial_user@) + text_bytes(info.initial_query_id@) + text_bytes(
        info.initial_address@,
    ) + seq![1u8] + text_bytes(info.os_user@) + text_bytes(info.client_hostname@) + text_bytes(
        info.client_name@,
    ) + var_uint_bytes(info.version_major) + var_uint_bytes(info.version_minor) + var_uint_bytes(
        info.revision,
    )
}

/// The first `upto` settings, each as name and value.
pub open spec fn settings_bytes(settings: Seq<(String, String)>, upto: nat) -> Seq<u8>
    decreases upto,
{
    if upto == 0 {
        Seq::empty()
    } else {
        settings_bytes(settings, (upto - 1) as nat) + text_bytes(settings[upto - 1].0@)
            + text_bytes(settings[upto - 1].1@)
    }
}

/// What a query packet holds in front of its settings: tag, query id, and
/// the sender from `DBMS_MIN_REVISION_WITH_CLIENT_INFO` on.
pub open spec fn query_head_bytes(query: Query, revision: u64) -> Seq<u8> {
    var_uint_bytes(ClientPacketId::Query.spec_tag()) + text_bytes(query.query_id@) + (if revision
        >= DBMS_MIN_REVISION_WITH_CLIENT_INFO {
        client_info_bytes(query.client_info)
    } else {
        Seq::empty()
    })
}

/// What a query packet holds behind its settings: the empty name that ends
/// them, the empty secret from `DBMS_MIN_REVISION_WITH_INTERSERVER_SECRET`
/// on, the stage, the compression flag and the text of the query.
pub open spec fn query_tail_bytes(query: Query, revision: u64) -> Seq<u8> {
    text_bytes(Seq::empty()) + (if revision >= DBMS_MIN_REVISION_WITH_INTERSERVER_SECRET {
        text_bytes(Seq::empty())
    } else {
        Seq::empty()
    }) + var_uint_bytes(QUERY_STAGE_COMPLETE) + var_uint_bytes(
        if query.compression {
            1u64
        } else {
            0u64
        },
    ) + text_bytes(query.query@)
}

/// The query packet at protocol revision `revision`: what stands in front
/// of the settings, the settings, and what stands behind them.
pub open spec fn query_bytes(query: Query, revision: u64) -> Seq<u8> {
    query_head_bytes(query, revision) + settings_bytes(query.settings@, query.settings@.len())
        + query_tail_bytes(query, revision)
}

/// Appends a length-prefixed text.
pub fn write_text(out: &mut Vec<u8>, text: &str)
    ensures
        final(out)@ == old(out)@ + text_bytes(text@),
{
    let _ = out.write_string(text.as_bytes());
}

/// Appends who sends a query.
fn write_client_info(out: &mut Vec<u8>, info: &ClientInfo)
    ensures
        final(out)@ == old(out)@ + client_info_bytes(*info),
{
    out.push(1);
    write_text(out, info.initial_user.as_str());
    write_text(out, info.initial_query_id.as_str());
    write_text(out, info.initial_address.as_str());
    out.push(1);
    write_text(out, info.os_user.as_str());
    write_text(out, info.client_hostname.as_str());
    write_text(out, info.client_name.as_str());
    let _ = out.write_var_uint(info.version_major);
    let _ = out.write_var_uint(info.version_minor);
    let _ = out.write_var_uint(info.revision);
    assert(out@ =~= old(out)@ + client_info_bytes(*info));
}

/// Appends what a query packet holds in front of its settings.
fn write_query_head(out: &mut Vec<u8>, query: &Query, revision: u64)
    ensures
        final(out)@ == old(out)@ + query_head_bytes(*query, revision),
{
    let _ = out.write_var_uint(ClientPacketId::Query.tag());
    write_text(out, query.query_id.as_str());
    if revision >= DBMS_MIN_REVISION_WITH_CLIENT_INFO {
        write_client_info(out, &query.client_info);
    }
    assert(out@ =~= old(out)@ + query_head_bytes(*query, revision));
}

/// Appends what a query packet holds behind its settings.
fn write_query_tail(out: &mut Vec<u8>, query: &Query, revision: u64)
    ensures
        final(out)@ == old(out)@ + query_tail_bytes(*query, revision),
{
    proof {
        reveal_strlit("");
        assert(""@ =~= Seq::<char>::empty());
    }
    write_text(out, "");
    if revision >= DBMS_MIN_REVISION_WITH_INTERSERVER_SECRET {
        write_text(out, "");
    }
    let _ = out.write_var_uint(QUERY_STAGE_COMPLETE);
    let _ = out.write_var_uint(
        if query.compression {
            1
        } else {
            0
        },
    );
    write_text(out, query.query.as_str());
    assert(out@ =~= old(out)@ + query_tail_bytes(*query, revision));
}

/// Appends the query packet at protocol revision `revision`.
pub fn write_query(out: &mut Vec<u8>, query: &Query, revision: u64)
    ensures
        final(out)@ == old(out)@ + query_bytes(*query, revision),
{
    write_query_head(out, query, revision);
    let ghost head = out@;
    let mut i: usize = 0;
    assert(out@ =~= head + settings_bytes(query.settings@, 0));
    while i < query.settings.len()
        invariant
            i <= query.settings@.len(),
            out@ == head + settings_bytes(query.settings@, i as nat),
        decreases query.settings@.len() - i,
    {
        write_text(out, query.settings[i].0.as_str());
        write_text(out, query.settings[i].1.as_str());
        i += 1;
        assert(out@ =~= head + settings_bytes(query.settings@, i as nat));
    }
    write_query_tail(out, query, revision);
    assert(out@ =~= old(out)@ + query_bytes(*query, revision));
}

/// What a data packet for `block` starts with: tag and the name of the
/// table (empty where the block names none).
pub open spec fn data_head(block: Block) -> Seq<u8> {
    var_uint_bytes(ClientPacketId::Data.spec_tag()) + text_bytes(
        match block.name {
            Some(name) => name@,
            None => Seq::empty(),
        },
    )
}

/// Whether a data packet can be made of `block`: the block can be written,
/// and what was written can be framed where a compression method was
/// agreed on.
pub open spec fn data_writable(block: Block, revision: u64, compression: Option<CompressionMethod>)
    -> bool {
    match (block_bytes(block@, revision), compression) {
        (Some(raw), Some(mode)) => framable(mode, raw),
        (Some(_), None) => true,
        (None, _) => false,
    }
}

/// Whether `packet` is a data packet that carries `block`: its head, then
/// the frame of the block, inside the compression envelope where a method
/// was agreed on.
pub open spec fn is_data_packet(
    packet: Seq<u8>,
    block: Block,
    revision: u64,
    compression: Option<CompressionMethod>,
) -> bool {
    let head = data_head(block);
    match (block_bytes(block@, revision), compression) {
        (Some(raw), Some(mode)) => packet.len() >= head.len() && packet.take(head.len() as int)
            == head && is_frame_of(packet.skip(head.len() as int), mode, raw),
        (Some(raw), None) => packet == head + raw,
        (None, _) => false,
    }
}

/// Appends the data packet that carries `block`. It succeeds exactly where
/// the packet can be made: a block that cannot be written is a serialize
/// error, one that cannot be framed a compression error, and either leaves
/// `out` as it was.
pub fn write_data(
    out: &mut Vec<u8>,
    block: &Block,
    revision: u64,
    compression: Option<CompressionMethod>,
) -> (r: Result<(), KlickhouseError>)
    ensures
        match r {
            Ok(()) => data_writable(*block, revision, compression) && final(out)@.len() >= old(
                out,
            )@.len() && final(out)@.take(old(out)@.len() as int) == old(out)@ && is_data_packet(
                final(out)@.skip(old(out)@.len() as int),
                *block,
                revision,
                compression,
            ),
            Err(e) => !data_writable(*block, revision, compression) && final(out)@ == old(out)@
                && e.kind() == (if block_bytes(block@, revision) is None {
                ErrorKind::SerializeError
            } else {
                ErrorKind::CompressionError
            }),
        },
{
    let mut raw: Vec<u8> = Vec::new();
    block.write(&mut raw, revision)?;
    assert(raw@ =~= block_bytes(block@, revision)->0);
    let payload = match compression {
        Some(mode) => encode_frame(raw.as_slice(), mode)?,
        None => raw,
    };
    let ghost before = out@;
    let _ = out.write_var_uint(ClientPacketId::Data.tag());
    match &block.name {
        Some(name) => write_text(out, name.as_str()),
        None => {
            write_text(out, "");
            proof {
                reveal_strlit("");
                assert(""@ =~= Seq::<char>::empty());
            }
        },
    }
    assert(out@ =~= before + data_head(*block));
    append_bytes(out, payload.as_slice());
    proof {
        let head = data_head(*block);
        let packet = out@.skip(before.len() as int);
        assert(out@.take(before.len() as int) =~= before);
        assert(packet =~= head + payload@);
        assert(packet.take(head.len() as int) =~= head);
        assert(packet.skip(head.len() as int) =~= payload@);
    }
    Ok(())
}

/// Appends a packet that is its tag alone: a cancel or a ping.
pub fn write_bare(out: &mut Vec<u8>, id: ClientPacketId)
    ensures
        final(out)@ == old(out)@ + var_uint_bytes(id.spec_tag()),
{
    let _ = out.write_var_uint(id.tag());
}

} // verus!

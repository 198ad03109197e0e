//! Support for schema migrations: the rows of the migrations table, the
//! queries that create it, and the policy of waiting for the migration
//! lock. The caller runs the queries.

use crate::errors::{ErrorKind, KlickhouseError};
use crate::io::string_from_utf8;
use crate::lock::ClickhouseLock;
use crate::text::{
    chars_of, digit_value, optional_text, push_str, string_of, texts_model, CharClass,
};
use crate::types::{Type, TypeModel};
use crate::values::{Value, ValueModel};
use std::marker::PhantomData;
use vstd::prelude::*;
use vstd::utf8::{decode_utf8, valid_utf8};

verus! {

/// Milliseconds between two attempts to take the migration lock.
pub const MIGRATION_LOCK_RETRY_MILLIS: u64 = 250;

/// Milliseconds after which waiting for the migration lock is worth a
/// warning.
pub const MIGRATION_LOCK_WARN_MILLIS: u64 = 60_000;

/// Milliseconds after which waiting for the migration lock is given up.
pub const MIGRATION_LOCK_TIMEOUT_MILLIS: u64 = 300_000;

/// The name of the migration lock.
pub open spec fn migration_lock_name() -> Seq<char> {
    "refinery_exec"@
}

/// A point in time, with the offset from UTC that it was written with.
#[derive(Debug, Clone, Copy, PartialEq, Eq, Structural)]
pub struct Timestamp {
    /// Nanoseconds since the Unix epoch.
    pub unix_nanos: i128,
    /// Seconds east of UTC.
    pub offset_seconds: i32,
}

/// What `time::OffsetDateTime::parse` makes of `text` in the RFC 3339
/// format: the point in time, as nanoseconds since the Unix epoch and the
/// offset in seconds, or for a text that is not accepted the error, as its
/// `Debug` form.
pub uninterp spec fn rfc3339_parsed(text: Seq<char>) -> Result<(i128, i32), Seq<char>>;

/// `time::OffsetDateTime::parse` with the RFC 3339 format: whether the text
/// is accepted, the point in time that it spells and the error that it is
/// refused with are functions of the text. The point in time is handed on
/// as `unix_timestamp_nanos` and the `whole_seconds` of `offset` give it,
/// the error as its `Debug` form.
#[verifier::external_body]
fn parse_rfc3339(text: &str) -> (r: Result<Timestamp, String>)
    ensures
        match rfc3339_parsed(text@) {
            Ok((unix_nanos, offset_seconds)) => r == Ok::<Timestamp, String>(
                Timestamp { unix_nanos, offset_seconds },
            ),
            Err(why) => r matches Err(text) && text@ == why,
        },
{
    match time::OffsetDateTime::parse(text, &time::format_description::well_known::Rfc3339) {
        Ok(t) => Ok(
            Timestamp {
                unix_nanos: t.unix_timestamp_nanos(),
                offset_seconds: t.offset().whole_seconds(),
            },
        ),
        Err(e) => Err(format!("{:?}", e)),
    }
}

/// What to do while someone else holds the migration lock.
#[derive(Debug, Clone, Copy, PartialEq, Eq, Structural)]
pub enum LockWait {
    /// Sleep `millis` milliseconds and try again; `warn` says that the wait
    /// has become long enough to be reported.
    Retry { millis: u64, warn: bool },
    /// Give up with a timeout error.
    TimedOut,
}

/// What to do after `elapsed_millis` milliseconds of waiting for the
/// migration lock: give up after `MIGRATION_LOCK_TIMEOUT_MILLIS`, else
/// sleep `MIGRATION_LOCK_RETRY_MILLIS`, with a warning once
/// `MIGRATION_LOCK_WARN_MILLIS` have passed.
pub fn lock_wait(elapsed_millis: u64) -> (r: LockWait)
    ensures
        r == (if elapsed_millis > MIGRATION_LOCK_TIMEOUT_MILLIS {
            LockWait::TimedOut
        } else {
            LockWait::Retry {
                millis: MIGRATION_LOCK_RETRY_MILLIS,
                warn: elapsed_millis > MIGRATION_LOCK_WARN_MILLIS,
            }
        }),
{
    if elapsed_millis > MIGRATION_LOCK_TIMEOUT_MILLIS {
        LockWait::TimedOut
    } else {
        LockWait::Retry {
            millis: MIGRATION_LOCK_RETRY_MILLIS,
            warn: elapsed_millis > MIGRATION_LOCK_WARN_MILLIS,
        }
    }
}

/// The lock that serialises migrations on a single server.
pub fn migration_lock() -> (r: ClickhouseLock)
    ensures
        r.name() == migration_lock_name(),
        r.cluster_clause() == Seq::<char>::empty(),
{
    ClickhouseLock::new("refinery_exec")
}

/// The text of the query that creates the migrations table on a single
/// server.
pub open spec fn spec_migrations_table_query(table: Seq<char>) -> Seq<char> {
    "CREATE TABLE IF NOT EXISTS "@ + table
        + "(\n            version INT,\n            name VARCHAR(255),\n            applied_on VARCHAR(255),\n            checksum VARCHAR(255)) Engine=MergeTree() ORDER BY version;"@
}

/// The query that creates the migrations table on a single server.
pub fn assert_migrations_table_query(migration_table_name: &str) -> (r: String)
    ensures
        r@ == spec_migrations_table_query(migration_table_name@),
{
    let mut out: Vec<char> = Vec::new();
    push_str(&mut out, "CREATE TABLE IF NOT EXISTS ");
    push_str(&mut out, migration_table_name);
    push_str(
        &mut out,
        "(\n            version INT,\n            name VARCHAR(255),\n            applied_on VARCHAR(255),\n            checksum VARCHAR(255)) Engine=MergeTree() ORDER BY version;",
    );
    assert(out@ =~= spec_migrations_table_query(migration_table_name@));
    string_of(&out)
}

/// Names the cluster and the database that migrations run on.
pub trait ClusterName: Send + Sync {
    /// The name of the cluster.
    fn cluster_name() -> String;

    /// The name of the database.
    fn database() -> String;
}

/// Migrations on the cluster that `T` names.
pub struct ClusterMigration<T: ClusterName> {
    _t: PhantomData<T>,
}

/// The text of the queries that create the migrations table on a cluster:
/// a local table on every node, and a distributed table over them.
pub open spec fn spec_cluster_migrations_table_query(
    table: Seq<char>,
    cluster: Seq<char>,
    database: Seq<char>,
) -> Seq<char> {
    "CREATE TABLE IF NOT EXISTS "@ + table + "_local ON CLUSTER "@ + cluster
        + "(\n                version INT,\n                name VARCHAR(255),\n                applied_on VARCHAR(255),\n                checksum VARCHAR(255)\n            ) Engine=MergeTree() ORDER BY version;\n            CREATE TABLE IF NOT EXISTS\n                "@
        + table + "\n            ON CLUSTER "@ + cluster + "\n            AS "@ + table
        + "_local ENGINE = Distributed("@ + cluster + ", "@ + database + ", "@ + table
        + "_local, rand());\n            "@
}

/// The queries that create the migrations table `table` on `cluster`, in
/// `database`.
pub fn cluster_migrations_table_query(table: &str, cluster: &str, database: &str) -> (r: String)
    ensures
        r@ == spec_cluster_migrations_table_query(table@, cluster@, database@),
{
    let mut out: Vec<char> = Vec::new();
    push_str(&mut out, "CREATE TABLE IF NOT EXISTS ");
    push_str(&mut out, table);
    push_str(&mut out, "_local ON CLUSTER ");
    push_str(&mut out, cluster);
    push_str(
        &mut out,
        "(\n                version INT,\n                name VARCHAR(255),\n                applied_on VARCHAR(255),\n                checksum VARCHAR(255)\n            ) Engine=MergeTree() ORDER BY version;\n            CREATE TABLE IF NOT EXISTS\n                ",
    );
    push_str(&mut out, table);
    push_str(&mut out, "\n            ON CLUSTER ");
    push_str(&mut out, cluster);
    push_str(&mut out, "\n            AS ");
    push_str(&mut out, table);
    push_str(&mut out, "_local ENGINE = Distributed(");
    push_str(&mut out, cluster);
    push_str(&mut out, ", ");
    push_str(&mut out, database);
    push_str(&mut out, ", ");
    push_str(&mut out, table);
    push_str(&mut out, "_local, rand());\n            ");
    assert(out@ =~= spec_cluster_migrations_table_query(table@, cluster@, database@));
    string_of(&out)
}

/// The clause of a query that names the cluster it runs on.
pub open spec fn on_cluster(cluster: Seq<char>) -> Seq<char> {
    " ON CLUSTER "@ + cluster
}

impl<T: ClusterName> ClusterMigration<T> {
    /// Migrations on the cluster that `T` names.
    pub fn new() -> (r: Self) {
        ClusterMigration { _t: PhantomData }
    }

    /// The lock that serialises migrations on the cluster: the migration
    /// lock, taken on the cluster that was named.
    pub fn lock_on(cluster: &str) -> (r: ClickhouseLock)
        ensures
            r.name() == migration_lock_name(),
            r.cluster_clause() == " ON CLUSTER "@ + cluster@,
    {
        ClickhouseLock::new("refinery_exec").with_cluster(cluster)
    }

    /// The lock that serialises migrations on the cluster that `T` names:
    /// the migration lock, taken on the cluster of the name that `T` gives
    /// when it is asked, whatever it is.
    pub fn lock(&self) -> (r: ClickhouseLock)
        ensures
            r.name() == migration_lock_name(),
            exists|cluster: Seq<char>| r.cluster_clause() == #[trigger] on_cluster(cluster),
    {
        let cluster = T::cluster_name();
        let lock = Self::lock_on(cluster.as_str());
        assert(lock.cluster_clause() == on_cluster(cluster@));
        lock
    }

    /// The queries that create the migrations table on the cluster and in
    /// the database that `T` names: the text of
    /// [`cluster_migrations_table_query`] for the table and for the two
    /// names that `T` gives when it is asked, whatever they are.
    pub fn assert_migrations_table_query(migration_table_name: &str) -> (r: String)
        ensures
            exists|cluster: Seq<char>, database: Seq<char>|
                r@ == #[trigger] spec_cluster_migrations_table_query(
                    migration_table_name@,
                    cluster,
                    database,
                ),
    {
        let cluster = T::cluster_name();
        let database = T::database();
        let query = cluster_migrations_table_query(
            migration_table_name,
            cluster.as_str(),
            database.as_str(),
        );
        assert(query@ == spec_cluster_migrations_table_query(
            migration_table_name@,
            cluster@,
            database@,
        ));
        query
    }
}

/// The names of the columns of the migrations table, in order.
pub fn column_names() -> (r: Vec<String>)
    ensures
        r@.len() == 4,
        r@[0]@ == "version"@,
        r@[1]@ == "name"@,
        r@[2]@ == "applied_on"@,
        r@[3]@ == "checksum"@,
{
    let mut out: Vec<String> = Vec::new();
    out.push("version".to_owned());
    out.push("name".to_owned());
    out.push("applied_on".to_owned());
    out.push("checksum".to_owned());
    out
}

/// Rows of the migrations table are read-only: writing one is not
/// implemented.
pub fn serialize_row() -> (e: KlickhouseError)
    ensures
        e.says(
            ErrorKind::NotImplemented,
            "Migration rows are read-only and cannot be serialized"@,
        ),
{
    KlickhouseError::NotImplemented(
        "Migration rows are read-only and cannot be serialized".to_owned(),
    )
}

/// A migration that was applied, as the migrations table records it.
#[derive(Debug)]
pub struct AppliedMigration {
    pub version: i32,
    pub name: String,
    pub applied_on: Timestamp,
    pub checksum: u64,
}

/// Why a row of the migrations table is refused.
pub enum RowFault {
    /// The row is not one of the table: a deserialize error with this
    /// text.
    Refused(Seq<char>),
    /// A value is of another type than its column asks for: an
    /// unexpected-type error that names the type of the column.
    UnexpectedType(TypeModel),
    /// The bytes of a text are not UTF-8: a UTF-8 error.
    Utf8,
}

impl RowFault {
    /// Whether `e` is the error that reports this fault.
    pub open spec fn reported_by(self, e: KlickhouseError) -> bool {
        match self {
            RowFault::Refused(text) => e.says(ErrorKind::DeserializeError, text),
            RowFault::UnexpectedType(t) => e matches KlickhouseError::UnexpectedType(u) && u@ == t,
            RowFault::Utf8 => e is Utf8,
        }
    }
}

/// The 32-bit integer that a column value of type `t` holds.
pub open spec fn spec_i32_from_sql(t: TypeModel, v: ValueModel) -> Result<i32, RowFault> {
    match (t, v) {
        (TypeModel::Int32, ValueModel::Int32(x)) => Ok(x),
        _ => Err(RowFault::UnexpectedType(t)),
    }
}

/// The 32-bit integer that a column value of type `t` holds; a value of
/// another type is an unexpected-type error that names `t`.
pub fn i32_from_sql(t: &Type, v: &Value) -> (r: Result<i32, KlickhouseError>)
    ensures
        match spec_i32_from_sql(t@, v@) {
            Ok(x) => r == Ok::<i32, KlickhouseError>(x),
            Err(fault) => r matches Err(e) && fault.reported_by(e),
        },
{
    match (t, v) {
        (Type::Int32, Value::Int32(x)) => Ok(*x),
        _ => Err(KlickhouseError::UnexpectedType(t.clone())),
    }
}

/// The text that a column value of a string type holds.
pub open spec fn spec_string_from_sql(t: TypeModel, v: ValueModel) -> Result<Seq<char>, RowFault> {
    match (t, v) {
        (TypeModel::String, ValueModel::String(bytes)) | (
            TypeModel::FixedString(_),
            ValueModel::String(bytes),
        ) => if valid_utf8(bytes) {
            Ok(decode_utf8(bytes))
        } else {
            Err(RowFault::Utf8)
        },
        _ => Err(RowFault::UnexpectedType(t)),
    }
}

/// The text that a column value of a string type holds; bytes that are not
/// UTF-8 are a UTF-8 error, a value of another type is an unexpected-type
/// error that names `t`.
pub fn string_from_sql(t: &Type, v: &Value) -> (r: Result<String, KlickhouseError>)
    ensures
        match spec_string_from_sql(t@, v@) {
            Ok(text) => r matches Ok(s) && s@ == text,
            Err(fault) => r matches Err(e) && fault.reported_by(e),
        },
{
    match (t, v) {
        (Type::String, Value::String(bytes)) | (Type::FixedString(_), Value::String(bytes)) => {
            match string_from_utf8(crate::values::clone_bytes(bytes)) {
                Ok(s) => Ok(s),
                Err(text) => Err(KlickhouseError::Utf8(text)),
            }
        },
        _ => Err(KlickhouseError::UnexpectedType(t.clone())),
    }
}

/// Why a text spells no number.
#[derive(Debug, Clone, Copy, PartialEq, Eq, Structural)]
pub enum ParseFault {
    /// The text is empty.
    Empty,
    /// The text holds something that is no digit, or a sign alone.
    InvalidDigit,
    /// The number is above `u64::MAX`.
    PosOverflow,
}

impl ParseFault {
    /// The fault as `std` prints the error of parsing an integer with
    /// `{:?}`.
    pub open spec fn text(self) -> Seq<char> {
        match self {
            ParseFault::Empty => "ParseIntError { kind: Empty }"@,
            ParseFault::InvalidDigit => "ParseIntError { kind: InvalidDigit }"@,
            ParseFault::PosOverflow => "ParseIntError { kind: PosOverflow }"@,
        }
    }

    /// The fault as `std` prints the error of parsing an integer with
    /// `{:?}`.
    pub fn describe(&self) -> (r: &'static str)
        ensures
            r@ == self.text(),
    {
        match self {
            ParseFault::Empty => "ParseIntError { kind: Empty }",
            ParseFault::InvalidDigit => "ParseIntError { kind: InvalidDigit }",
            ParseFault::PosOverflow => "ParseIntError { kind: PosOverflow }",
        }
    }
}

/// The number that the digits `text` spell behind the number `acc` that
/// the digits in front of them spell, read from the left: the first
/// character that is no digit, or the first digit that takes the number
/// above `u64::MAX`, ends the reading with its fault.
pub open spec fn digits_u64(text: Seq<char>, acc: nat) -> Result<u64, ParseFault>
    decreases text.len(),
{
    if text.len() == 0 {
        Ok(acc as u64)
    } else if !CharClass::Digit.spec_contains(text[0]) {
        Err(ParseFault::InvalidDigit)
    } else if acc * 10 + digit_value(text[0]) > u64::MAX {
        Err(ParseFault::PosOverflow)
    } else {
        digits_u64(text.skip(1), acc * 10 + digit_value(text[0]))
    }
}

/// The number that `text` spells, as `str::parse::<u64>` reads it: decimal
/// digits, with one plus sign in front of them at most, up to `u64::MAX`.
pub open spec fn spec_parse_u64(text: Seq<char>) -> Result<u64, ParseFault> {
    if text.len() == 0 {
        Err(ParseFault::Empty)
    } else {
        let digits = if text[0] == '+' {
            text.skip(1)
        } else {
            text
        };
        if digits.len() == 0 {
            Err(ParseFault::InvalidDigit)
        } else {
            digits_u64(digits, 0)
        }
    }
}

/// The number that `text` spells.
pub fn parse_u64(text: &str) -> (r: Result<u64, ParseFault>)
    ensures
        r == spec_parse_u64(text@),
{
    let chars = chars_of(text);
    if chars.len() == 0 {
        return Err(ParseFault::Empty);
    }
    let start: usize = if chars[0] == '+' {
        1
    } else {
        0
    };
    if start == chars.len() {
        return Err(ParseFault::InvalidDigit);
    }
    assert(chars@.skip(0) =~= chars@);
    let mut acc: u64 = 0;
    let mut i: usize = start;
    while i < chars.len()
        invariant
            chars@ == text@,
            start <= i <= chars@.len(),
            spec_parse_u64(text@) == digits_u64(chars@.skip(i as int), acc as nat),
        decreases chars@.len() - i,
    {
        let c = chars[i];
        assert(chars@.skip(i as int)[0] == c);
        assert(chars@.skip(i as int).skip(1) =~= chars@.skip(i + 1));
        if !CharClass::Digit.contains(c) {
            return Err(ParseFault::InvalidDigit);
        }
        let d: u64 = (c as u32 - 48) as u64;
        assert(d == digit_value(c));
        if acc > (u64::MAX - d) / 10 {
            return Err(ParseFault::PosOverflow);
        }
        acc = acc * 10 + d;
        i += 1;
    }
    Ok(acc)
}

/// What was read of a row so far.
pub struct RowFields {
    pub version: Option<i32>,
    pub name: Option<Seq<char>>,
    pub applied_on: Option<Seq<char>>,
    pub checksum: Option<Seq<char>>,
}

/// One column of a row: its name, its type and its value.
pub type ColumnModel = (Seq<char>, TypeModel, ValueModel);

/// Reading one more column: a column that was read before, one of a name
/// that the migrations table does not have, or one whose value does not
/// convert, is refused.
pub open spec fn read_column(fields: RowFields, column: ColumnModel) -> Result<
    RowFields,
    RowFault,
> {
    let (name, t, v) = column;
    if name == "version"@ {
        if fields.version is Some {
            Err(RowFault::Refused("duplicate version column"@))
        } else {
            match spec_i32_from_sql(t, v) {
                Ok(x) => Ok(RowFields { version: Some(x), ..fields }),
                Err(fault) => Err(fault),
            }
        }
    } else if name == "name"@ {
        if fields.name is Some {
            Err(RowFault::Refused("duplicate name column"@))
        } else {
            match spec_string_from_sql(t, v) {
                Ok(x) => Ok(RowFields { name: Some(x), ..fields }),
                Err(fault) => Err(fault),
            }
        }
    } else if name == "applied_on"@ {
        if fields.applied_on is Some {
            Err(RowFault::Refused("duplicate applied_on column"@))
        } else {
            match spec_string_from_sql(t, v) {
                Ok(x) => Ok(RowFields { applied_on: Some(x), ..fields }),
                Err(fault) => Err(fault),
            }
        }
    } else if name == "checksum"@ {
        if fields.checksum is Some {
            Err(RowFault::Refused("duplicate checksum column"@))
        } else {
            match spec_string_from_sql(t, v) {
                Ok(x) => Ok(RowFields { checksum: Some(x), ..fields }),
                Err(fault) => Err(fault),
            }
        }
    } else {
        Err(RowFault::Refused("unexpected column "@ + name))
    }
}

/// Reading the first `upto` columns, in order; the first fault ends it.
pub open spec fn read_columns(columns: Seq<ColumnModel>, upto: nat) -> Result<RowFields, RowFault>
    decreases upto,
{
    if upto == 0 {
        Ok(RowFields { version: None, name: None, applied_on: None, checksum: None })
    } else {
        match read_columns(columns, (upto - 1) as nat) {
            Ok(fields) => read_column(fields, columns[upto - 1]),
            Err(fault) => Err(fault),
        }
    }
}

/// What the columns that were read make: the first column that is
/// missing, a time that is not RFC 3339 and a checksum that is no number
/// are refused, in this order.
pub open spec fn row_of(fields: RowFields) -> Result<(i32, Seq<char>, Timestamp, u64), RowFault> {
    if fields.version is None {
        Err(RowFault::Refused("missing version"@))
    } else if fields.name is None {
        Err(RowFault::Refused("missing name"@))
    } else if fields.applied_on is None {
        Err(RowFault::Refused("missing applied_on"@))
    } else if fields.checksum is None {
        Err(RowFault::Refused("missing checksum"@))
    } else {
        match rfc3339_parsed(fields.applied_on->0) {
            Err(why) => Err(RowFault::Refused("failed to parse time: "@ + why)),
            Ok((unix_nanos, offset_seconds)) => match spec_parse_u64(fields.checksum->0) {
                Err(fault) => Err(RowFault::Refused("failed to parse checksum: "@ + fault.text())),
                Ok(checksum) => Ok(
                    (
                        fields.version->0,
                        fields.name->0,
                        Timestamp { unix_nanos, offset_seconds },
                        checksum,
                    ),
                ),
            },
        }
    }
}

/// The migration that a row records: its version, its name, the time it
/// was applied on and its checksum. A row of another number of columns
/// than four is refused, then the first column that cannot be read, then
/// what the columns that were read lack.
pub open spec fn spec_deserialize_row(columns: Seq<ColumnModel>) -> Result<
    (i32, Seq<char>, Timestamp, u64),
    RowFault,
> {
    if columns.len() != 4 {
        Err(RowFault::Refused("bad column count for migration"@))
    } else {
        match read_columns(columns, 4) {
            Ok(fields) => row_of(fields),
            Err(fault) => Err(fault),
        }
    }
}

/// Model of the columns of a row.
pub open spec fn columns_of(map: Seq<(String, Type, Value)>) -> Seq<ColumnModel> {
    Seq::new(map.len(), |i: int| (map[i].0@, map[i].1@, map[i].2@))
}

/// Where a beginning of a row cannot be read, the row cannot.
proof fn lemma_read_columns_failed(columns: Seq<ColumnModel>, m: nat, upto: nat)
    requires
        m <= upto,
    ensures
        read_columns(columns, m) is Err ==> read_columns(columns, upto) == read_columns(
            columns,
            m,
        ),
    decreases upto - m,
{
    if m < upto && read_columns(columns, m) is Err {
        lemma_read_columns_failed(columns, m, (upto - 1) as nat);
    }
}

/// A problem with a row of the migrations table.
fn bad_row(text: &str) -> (e: KlickhouseError)
    ensures
        e.says(ErrorKind::DeserializeError, text@),
{
    KlickhouseError::DeserializeError(text.to_owned())
}

/// A problem with a row of the migrations table, and what it is about.
fn bad_row_about(text: &str, what: &str) -> (e: KlickhouseError)
    ensures
        e.says(ErrorKind::DeserializeError, text@ + what@),
{
    let mut out: Vec<char> = Vec::new();
    push_str(&mut out, text);
    push_str(&mut out, what);
    KlickhouseError::DeserializeError(string_of(&out))
}

/// Whether `name` spells `word`.
fn named(name: &String, word: &str) -> (r: bool)
    ensures
        r == (name@ == word@),
{
    let a = chars_of(name.as_str());
    let b = chars_of(word);
    crate::text::chars_eq(a.as_slice(), b.as_slice())
}

/// Reads a row of the migrations table: the columns `version`, `name`,
/// `applied_on` and `checksum`, each exactly once, in any order. A row
/// that is refused is reported by the error of its fault, whose text says
/// what is wrong.
pub fn deserialize_row(map: &Vec<(String, Type, Value)>) -> (r: Result<
    AppliedMigration,
    KlickhouseError,
>)
    ensures
        match spec_deserialize_row(columns_of(map@)) {
            Ok((version, name, applied_on, checksum)) => r matches Ok(m) && m.version == version
                && m.name@ == name && m.applied_on == applied_on && m.checksum == checksum,
            Err(fault) => r matches Err(e) && fault.reported_by(e),
        },
{
    if map.len() != 4 {
        return Err(bad_row("bad column count for migration"));
    }
    let ghost columns = columns_of(map@);
    let mut version: Option<i32> = None;
    let mut name_out: Option<String> = None;
    let mut applied_on: Option<String> = None;
    let mut checksum: Option<String> = None;
    let mut i: usize = 0;
    while i < 4
        invariant
            i <= 4,
            map@.len() == 4,
            columns == columns_of(map@),
            read_columns(columns, i as nat) == Ok::<RowFields, RowFault>(
                RowFields {
                    version,
                    name: optional_text(name_out),
                    applied_on: optional_text(applied_on),
                    checksum: optional_text(checksum),
                },
            ),
        decreases 4 - i,
    {
        let column = &map[i];
        assert(columns[i as int] == (column.0@, column.1@, column.2@));
        proof {
            lemma_read_columns_failed(columns, (i + 1) as nat, 4);
        }
        if named(&column.0, "version") {
            if version.is_some() {
                return Err(bad_row("duplicate version column"));
            }
            version = Some(i32_from_sql(&column.1, &column.2)?);
        } else if named(&column.0, "name") {
            if name_out.is_some() {
                return Err(bad_row("duplicate name column"));
            }
            name_out = Some(string_from_sql(&column.1, &column.2)?);
        } else if named(&column.0, "applied_on") {
            if applied_on.is_some() {
                return Err(bad_row("duplicate applied_on column"));
            }
            applied_on = Some(string_from_sql(&column.1, &column.2)?);
        } else if named(&column.0, "checksum") {
            if checksum.is_some() {
                return Err(bad_row("duplicate checksum column"));
            }
            checksum = Some(string_from_sql(&column.1, &column.2)?);
        } else {
            return Err(bad_row_about("unexpected column ", column.0.as_str()));
        }
        i += 1;
    }
    let version = match version {
        Some(x) => x,
        None => {
            return Err(bad_row("missing version"));
        },
    };
    let name = match name_out {
        Some(x) => x,
        None => {
            return Err(bad_row("missing name"));
        },
    };
    let applied_on = match applied_on {
        Some(x) => x,
        None => {
            return Err(bad_row("missing applied_on"));
        },
    };
    let checksum = match checksum {
        Some(x) => x,
        None => {
            return Err(bad_row("missing checksum"));
        },
    };
    let applied_on = match parse_rfc3339(applied_on.as_str()) {
        Ok(t) => t,
        Err(why) => {
            return Err(bad_row_about("failed to parse time: ", why.as_str()));
        },
    };
    let checksum = match parse_u64(checksum.as_str()) {
        Ok(x) => x,
        Err(fault) => {
            return Err(bad_row_about("failed to parse checksum: ", fault.describe()));
        },
    };
    Ok(AppliedMigration { version, name, applied_on, checksum })
}

/// The first `upto` of the statements of one query that are run: all of
/// them, or where `skip_empty` those that are not empty.
pub open spec fn kept_statements(statements: Seq<String>, skip_empty: bool, upto: nat) -> Seq<
    Seq<char>,
>
    decreases upto,
{
    if upto == 0 {
        Seq::empty()
    } else {
        let head = kept_statements(statements, skip_empty, (upto - 1) as nat);
        let last = statements[upto - 1]@;
        if skip_empty && last.len() == 0 {
            head
        } else {
            head.push(last)
        }
    }
}

/// The statements that the first `upto` queries of a migration run.
pub open spec fn spec_statements_to_run(split: Seq<Vec<String>>, skip_empty: bool, upto: nat)
    -> Seq<Seq<char>>
    decreases upto,
{
    if upto == 0 {
        Seq::empty()
    } else {
        spec_statements_to_run(split, skip_empty, (upto - 1) as nat) + kept_statements(
            split[upto - 1]@,
            skip_empty,
            split[upto - 1]@.len(),
        )
    }
}

/// Appends the statements of one query that are run.
fn push_kept(out: &mut Vec<String>, statements: &Vec<String>, skip_empty: bool)
    ensures
        texts_model(final(out)@) == texts_model(old(out)@) + kept_statements(
            statements@,
            skip_empty,
            statements@.len(),
        ),
{
    let ghost head = texts_model(out@);
    let mut j: usize = 0;
    assert(texts_model(out@) =~= head + kept_statements(statements@, skip_empty, 0));
    while j < statements.len()
        invariant
            j <= statements@.len(),
            head == texts_model(old(out)@),
            texts_model(out@) == head + kept_statements(statements@, skip_empty, j as nat),
        decreases statements@.len() - j,
    {
        let ghost before = texts_model(out@);
        let statement = &statements[j];
        if !(skip_empty && statement.as_str().unicode_len() == 0) {
            out.push(statement.clone());
            assert(texts_model(out@) =~= before.push(statement@));
        }
        j += 1;
        assert(texts_model(out@) =~= head + kept_statements(statements@, skip_empty, j as nat));
    }
}

/// The queries of a migration that are split into statements, in their
/// order: a migration on a single server passes over empty queries
/// (`skip_empty`); one on a cluster splits what it is given.
pub fn queries_to_split(queries: &Vec<String>, skip_empty: bool) -> (r: Vec<String>)
    ensures
        texts_model(r@) == kept_statements(queries@, skip_empty, queries@.len()),
{
    let mut out: Vec<String> = Vec::new();
    assert(texts_model(out@) =~= Seq::<Seq<char>>::empty());
    push_kept(&mut out, queries, skip_empty);
    assert(texts_model(out@) =~= kept_statements(queries@, skip_empty, queries@.len()));
    out
}

/// The statements that a migration runs, in the order in which it runs
/// them, where `split` holds for each of the queries that it splits the
/// statements that the query was split into: the statements of the first
/// query, then those of the second, and so on. A migration on a single
/// server passes over empty statements (`skip_empty`); one on a cluster
/// runs what it is given.
pub fn statements_to_run(split: &Vec<Vec<String>>, skip_empty: bool) -> (r: Vec<String>)
    ensures
        texts_model(r@) == spec_statements_to_run(split@, skip_empty, split@.len()),
{
    let mut out: Vec<String> = Vec::new();
    let mut i: usize = 0;
    assert(texts_model(out@) =~= spec_statements_to_run(split@, skip_empty, 0));
    while i < split.len()
        invariant
            i <= split@.len(),
            texts_model(out@) == spec_statements_to_run(split@, skip_empty, i as nat),
        decreases split@.len() - i,
    {
        push_kept(&mut out, &split[i], skip_empty);
        i += 1;
    }
    out
}

} // verus!

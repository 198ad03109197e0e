//! Blocks: columnar batches, and their frame on the wire.
//!
//! ```text
//! info      : varint columns, varint rows, u8 is_overflows, i32 bucket_num,
//!             varint rows          (from DBMS_MIN_REVISION_WITH_BLOCK_INFO on)
//! columns   : varint
//! rows      : varint
//! per column: name, type text (both length-prefixed), prefix, data
//! ```
//!
//! A block of no rows carries the names and types of its columns and
//! nothing else: neither prefix nor data is written for it.

use crate::errors::{ErrorKind, KlickhouseError};
use crate::io::{
    string_bytes, string_decode, var_uint_bytes, var_uint_decode, ByteReader, ClickhouseRead,
    ClickhouseWrite, Decoded,
};
use crate::types::parse::parse_type_text;
use crate::types::print::type_text;
use crate::types::serialize::push_u32;
use crate::types::unwire::{column_decode, prefix_decode};
use crate::types::wire::{column_bytes, prefix_bytes};
use crate::types::{Type, TypeModel};
use crate::values::{values_model, Value, ValueModel};
use vstd::bytes::{spec_u32_from_le_bytes, spec_u32_to_le_bytes, u32_from_le_bytes};
use vstd::prelude::*;
use vstd::string::StringSliceAdditionalSpecFns;
use vstd::utf8::{decode_utf8, encode_utf8, valid_utf8};

verus! {

/// The first revision whose blocks start with their info.
pub const DBMS_MIN_REVISION_WITH_BLOCK_INFO: u64 = 51903;

/// What a block says of itself besides its data.
#[derive(Debug, Clone, Copy, PartialEq, Eq, Structural)]
pub struct BlockInfo {
    pub is_overflows: bool,
    pub bucket_num: i32,
}

/// One column of a block.
#[derive(Debug, PartialEq, Eq)]
pub struct Column {
    pub name: String,
    pub type_: Type,
    pub values: Vec<Value>,
}

/// A columnar batch. Every column holds `rows` values. Blocks of no rows
/// are legal: they describe a schema or end a stream.
#[derive(Debug, PartialEq, Eq)]
pub struct Block {
    /// The table that the block belongs to, where one was named.
    pub name: Option<String>,
    pub info: BlockInfo,
    pub rows: u64,
    pub columns: Vec<Column>,
}

/// Mathematical model of a [`Column`].
pub struct ColumnModel {
    pub name: Seq<char>,
    pub type_: TypeModel,
    pub values: Seq<ValueModel>,
}

/// Mathematical model of what a [`Block`] puts on the wire.
pub struct BlockModel {
    pub info: BlockInfo,
    pub rows: nat,
    pub columns: Seq<ColumnModel>,
}

impl View for Column {
    type V = ColumnModel;

    open spec fn view(&self) -> ColumnModel {
        ColumnModel { name: self.name@, type_: self.type_@, values: values_model(self.values@) }
    }
}

/// Model of a list of columns.
pub open spec fn columns_model(columns: Seq<Column>) -> Seq<ColumnModel> {
    Seq::new(columns.len(), |i: int| columns[i]@)
}

impl View for Block {
    type V = BlockModel;

    open spec fn view(&self) -> BlockModel {
        BlockModel {
            info: self.info,
            rows: self.rows as nat,
            columns: columns_model(self.columns@),
        }
    }
}

/// Whether blocks of protocol revision `revision` start with their info.
pub open spec fn has_info(revision: u64) -> bool {
    revision >= DBMS_MIN_REVISION_WITH_BLOCK_INFO
}

/// The info in front of a block.
pub open spec fn info_bytes(info: BlockInfo, columns: nat, rows: nat) -> Seq<u8> {
    var_uint_bytes(columns as u64) + var_uint_bytes(rows as u64) + seq![
        if info.is_overflows {
            1u8
        } else {
            0u8
        },
    ] + spec_u32_to_le_bytes(info.bucket_num as u32) + var_uint_bytes(rows as u64)
}

/// One column of a block of `rows` rows: name, type text, and for a block
/// that has rows the prefix and the data. Nothing where the column does not
/// hold `rows` values or they cannot be written as its type.
pub open spec fn column_frame(column: ColumnModel, rows: nat) -> Option<Seq<u8>> {
    let head = string_bytes(encode_utf8(column.name)) + string_bytes(
        encode_utf8(type_text(column.type_)),
    );
    if column.values.len() != rows {
        None
    } else if rows == 0 {
        Some(head)
    } else {
        match column_bytes(column.type_, column.values) {
            Some(data) => Some(head + prefix_bytes(column.type_) + data),
            None => None,
        }
    }
}

/// The first `upto` columns of a block, one after the other.
pub open spec fn columns_frame(columns: Seq<ColumnModel>, rows: nat, upto: nat) -> Option<Seq<u8>>
    decreases upto,
{
    if upto == 0 {
        Some(Seq::empty())
    } else {
        match (
            columns_frame(columns, rows, (upto - 1) as nat),
            column_frame(columns[upto - 1], rows),
        ) {
            (Some(head), Some(last)) => Some(head + last),
            _ => None,
        }
    }
}

/// The frame of a block at protocol revision `revision`.
pub open spec fn block_bytes(block: BlockModel, revision: u64) -> Option<Seq<u8>> {
    match columns_frame(block.columns, block.rows, block.columns.len()) {
        Some(columns) => Some(
            (if has_info(revision) {
                info_bytes(block.info, block.columns.len(), block.rows)
            } else {
                Seq::empty()
            }) + var_uint_bytes(block.columns.len() as u64) + var_uint_bytes(block.rows as u64)
                + columns,
        ),
        None => None,
    }
}

/// Where a beginning of the columns cannot be written, the columns cannot.
proof fn lemma_columns_frame_prefix(columns: Seq<ColumnModel>, rows: nat, m: nat, upto: nat)
    requires
        m <= upto,
    ensures
        columns_frame(columns, rows, m) is None ==> columns_frame(columns, rows, upto) is None,
    decreases upto - m,
{
    if m < upto {
        lemma_columns_frame_prefix(columns, rows, m, (upto - 1) as nat);
    }
}

/// The error of a block that cannot be written.
fn unwritable(text: &str) -> (e: KlickhouseError)
    ensures
        e.says(ErrorKind::SerializeError, text@),
{
    KlickhouseError::SerializeError(text.to_owned())
}

/// The error of a frame that is no block.
fn bad_frame(text: &str) -> (e: KlickhouseError)
    ensures
        e.says(ErrorKind::ProtocolError, text@),
{
    KlickhouseError::ProtocolError(text.to_owned())
}

impl Block {
    /// Whether every column holds `rows` values.
    pub open spec fn well_formed(&self) -> bool {
        forall|i: int|
            0 <= i < self.columns@.len() ==> (#[trigger] self.columns@[i]).values@.len()
                == self.rows
    }

    /// Row `index` of this block: for each column, in the order of the
    /// columns, its name, its type and its value in that row. Nothing
    /// where the block has no such row or a column has no value for it.
    pub fn row(&self, index: u64) -> (r: Option<Vec<(String, Type, Value)>>)
        ensures
            r is Some <==> index < self.rows && forall|i: int|
                0 <= i < self.columns@.len()
                    ==> index < (#[trigger] self.columns@[i]).values@.len(),
            r matches Some(row) ==> row@.len() == self.columns@.len() && forall|i: int|
                0 <= i < row@.len() ==> (#[trigger] row@[i]).0@ == self.columns@[i].name@
                    && row@[i].1@ == self.columns@[i].type_@ && row@[i].2@
                    == self.columns@[i].values@[index as int]@,
    {
        if index >= self.rows {
            return None;
        }
        let mut row: Vec<(String, Type, Value)> = Vec::new();
        let mut i: usize = 0;
        while i < self.columns.len()
            invariant
                i <= self.columns@.len(),
                row@.len() == i,
                forall|k: int| 0 <= k < i ==> index < (#[trigger] self.columns@[k]).values@.len(),
                forall|k: int|
                    0 <= k < i ==> (#[trigger] row@[k]).0@ == self.columns@[k].name@ && row@[k].1@
                        == self.columns@[k].type_@ && row@[k].2@
                        == self.columns@[k].values@[index as int]@,
            decreases self.columns@.len() - i,
        {
            let column = &self.columns[i];
            if index >= column.values.len() as u64 {
                return None;
            }
            row.push((column.name.clone(), column.type_.clone(), column.values[index as usize].clone()));
            i += 1;
        }
        Some(row)
    }

    /// Whether `row` is row `index` of this block: for each column, in the
    /// order of the columns, its name, its type and its value in that row.
    pub open spec fn is_row(&self, index: int, row: Seq<(String, Type, Value)>) -> bool {
        row.len() == self.columns@.len() && forall|i: int|
            0 <= i < row.len() ==> (#[trigger] row[i]).0@ == self.columns@[i].name@ && row[i].1@
                == self.columns@[i].type_@ && row[i].2@ == self.columns@[i].values@[index]@
    }

    /// Whether every column holds a value for each of the `rows` rows.
    pub open spec fn has_rows(&self) -> bool {
        forall|i: int|
            0 <= i < self.columns@.len() ==> (#[trigger] self.columns@[i]).values@.len()
                >= self.rows
    }

    /// The rows of this block, in order; nothing where a column has no
    /// value for one of them.
    pub fn all_rows(&self) -> (r: Option<Vec<Vec<(String, Type, Value)>>>)
        ensures
            r is Some <==> self.has_rows(),
            r matches Some(rows) ==> rows@.len() == self.rows && forall|k: int|
                0 <= k < rows@.len() ==> self.is_row(k, (#[trigger] rows@[k])@),
    {
        let mut rows: Vec<Vec<(String, Type, Value)>> = Vec::new();
        let mut index: u64 = 0;
        while index < self.rows
            invariant
                index <= self.rows,
                rows@.len() == index,
                forall|k: int| 0 <= k < rows@.len() ==> self.is_row(k, (#[trigger] rows@[k])@),
                forall|i: int|
                    0 <= i < self.columns@.len() ==> index <= (
                    #[trigger] self.columns@[i]).values@.len(),
            decreases self.rows - index,
        {
            match self.row(index) {
                Some(row) => {
                    rows.push(row);
                },
                None => {
                    proof {
                        let j = choose|j: int|
                            0 <= j < self.columns@.len() && !(index < (
                            #[trigger] self.columns@[j]).values@.len());
                        assert(self.columns@[j].values@.len() < self.rows);
                    }
                    return None;
                },
            }
            index += 1;
        }
        Some(rows)
    }

    /// Writes the frame of this block at protocol revision `revision`. A
    /// column that does not hold `rows` values, or whose values cannot be
    /// written as its type, is a serialize error.
    pub fn write(&self, out: &mut Vec<u8>, revision: u64) -> (r: Result<(), KlickhouseError>)
        ensures
            match block_bytes(self@, revision) {
                Some(bytes) => r is Ok && final(out)@ == old(out)@ + bytes,
                None => r matches Err(e) && e.kind() == ErrorKind::SerializeError,
            },
    {
        let ghost model = self@;
        let count = self.columns.len();
        assert(model.columns.len() == count);
        if revision >= DBMS_MIN_REVISION_WITH_BLOCK_INFO {
            let _ = out.write_var_uint(count as u64);
            let _ = out.write_var_uint(self.rows);
            out.push(
                if self.info.is_overflows {
                    1
                } else {
                    0
                },
            );
            push_u32(out, #[verifier::truncate] (self.info.bucket_num as u32));
            let _ = out.write_var_uint(self.rows);
            assert(out@ =~= old(out)@ + info_bytes(model.info, model.columns.len(), model.rows));
        } else {
            assert(out@ =~= old(out)@ + Seq::<u8>::empty());
        }
        let _ = out.write_var_uint(count as u64);
        let _ = out.write_var_uint(self.rows);
        let ghost head = out@;
        let mut i: usize = 0;
        assert(out@ =~= head + Seq::<u8>::empty());
        while i < count
            invariant
                i <= count,
                count == self.columns@.len(),
                model == self@,
                columns_frame(model.columns, model.rows, i as nat) matches Some(bytes) && out@
                    == head + bytes,
            decreases count - i,
        {
            let ghost before = columns_frame(model.columns, model.rows, i as nat)->0;
            let column = &self.columns[i];
            assert(model.columns[i as int] == column@);
            proof {
                lemma_columns_frame_prefix(model.columns, model.rows, (i + 1) as nat, count as nat);
            }
            if column.values.len() as u64 != self.rows {
                return Err(unwritable("column does not hold as many values as the block has rows"));
            }
            let _ = out.write_string(column.name.as_str().as_bytes());
            let text = column.type_.to_string();
            let _ = out.write_string(text.as_str().as_bytes());
            if self.rows > 0 {
                column.type_.serialize_prefix(out);
                let written = column.type_.serialize_column(&column.values, out);
                if written.is_err() {
                    return written;
                }
            }
            assert(out@ =~= head + (before + column_frame(column@, model.rows)->0));
            i += 1;
        }
        proof {
            let columns = columns_frame(model.columns, model.rows, model.columns.len())->0;
            assert(out@ =~= old(out)@ + block_bytes(model, revision)->0);
        }
        Ok(())
    }
}

/// The info in front of a block: the counts it states and what it says of
/// the block. Counts that disagree with each other are a protocol error.
#[verifier::opaque]
pub open spec fn info_decode(bytes: Seq<u8>) -> Decoded<(nat, nat, BlockInfo)> {
    match var_uint_decode(bytes) {
        Decoded::Value { value: columns, consumed: a } => match var_uint_decode(
            bytes.skip(a as int),
        ) {
            Decoded::Value { value: rows, consumed: b } => if bytes.len() < a + b + 5 {
                Decoded::Failed(ErrorKind::Io)
            } else {
                match var_uint_decode(bytes.skip((a + b + 5) as int)) {
                    Decoded::Value { value: again, consumed: c } => if again != rows {
                        Decoded::Failed(ErrorKind::ProtocolError)
                    } else {
                        Decoded::Value {
                            value: (
                                columns,
                                rows,
                                BlockInfo {
                                    is_overflows: bytes[(a + b) as int] != 0,
                                    bucket_num: spec_u32_from_le_bytes(
                                        bytes.subrange((a + b + 1) as int, (a + b + 5) as int),
                                    ) as i32,
                                },
                            ),
                            consumed: a + b + 5 + c,
                        }
                    },
                    Decoded::Failed(kind) => Decoded::Failed(kind),
                }
            },
            Decoded::Failed(kind) => Decoded::Failed(kind),
        },
        Decoded::Failed(kind) => Decoded::Failed(kind),
    }
}

/// The text at the head of `bytes`: a length-prefixed string that must be
/// UTF-8.
pub open spec fn text_decode(bytes: Seq<u8>) -> Decoded<Seq<char>> {
    match string_decode(bytes) {
        Decoded::Value { value, consumed } => if valid_utf8(value) {
            Decoded::Value { value: decode_utf8(value), consumed }
        } else {
            Decoded::Failed(ErrorKind::Utf8)
        },
        Decoded::Failed(kind) => Decoded::Failed(kind),
    }
}

/// One column of a block of `rows` rows. The type is read from its text: a
/// text that spells no type is a type parse error.
#[verifier::opaque]
pub open spec fn column_frame_decode(bytes: Seq<u8>, rows: nat) -> Decoded<ColumnModel> {
    match text_decode(bytes) {
        Decoded::Value { value: name, consumed: a } => match text_decode(bytes.skip(a as int)) {
            Decoded::Value { value: text, consumed: b } => match parse_type_text(text) {
                Some(t) => if rows == 0 {
                    Decoded::Value {
                        value: ColumnModel { name, type_: t, values: Seq::empty() },
                        consumed: a + b,
                    }
                } else {
                    match prefix_decode(t, bytes.skip((a + b) as int)) {
                        Decoded::Value { value: _, consumed: c } => match column_decode(
                            t,
                            bytes.skip((a + b + c) as int),
                            rows,
                        ) {
                            Decoded::Value { value: values, consumed: d } => Decoded::Value {
                                value: ColumnModel { name, type_: t, values },
                                consumed: a + b + c + d,
                            },
                            Decoded::Failed(kind) => Decoded::Failed(kind),
                        },
                        Decoded::Failed(kind) => Decoded::Failed(kind),
                    }
                },
                None => Decoded::Failed(ErrorKind::TypeParseError),
            },
            Decoded::Failed(kind) => Decoded::Failed(kind),
        },
        Decoded::Failed(kind) => Decoded::Failed(kind),
    }
}

/// The first `upto` columns of a block of `rows` rows.
pub open spec fn columns_frame_decode(bytes: Seq<u8>, rows: nat, upto: nat) -> Decoded<
    Seq<ColumnModel>,
>
    decreases upto,
{
    if upto == 0 {
        Decoded::Value { value: Seq::empty(), consumed: 0 }
    } else {
        match columns_frame_decode(bytes, rows, (upto - 1) as nat) {
            Decoded::Value { value: head, consumed } => match column_frame_decode(
                bytes.skip(consumed as int),
                rows,
            ) {
                Decoded::Value { value: last, consumed: more } => Decoded::Value {
                    value: head.push(last),
                    consumed: consumed + more,
                },
                Decoded::Failed(kind) => Decoded::Failed(kind),
            },
            Decoded::Failed(kind) => Decoded::Failed(kind),
        }
    }
}

/// The counts and the columns of a block, behind its info.
#[verifier::opaque]
pub open spec fn body_decode(bytes: Seq<u8>) -> Decoded<(nat, Seq<ColumnModel>)> {
    match var_uint_decode(bytes) {
        Decoded::Value { value: columns, consumed: a } => match var_uint_decode(
            bytes.skip(a as int),
        ) {
            Decoded::Value { value: rows, consumed: b } => if columns > usize::MAX || rows
                > usize::MAX {
                Decoded::Failed(ErrorKind::ProtocolError)
            } else {
                match columns_frame_decode(bytes.skip((a + b) as int), rows, columns) {
                    Decoded::Value { value, consumed: c } => Decoded::Value {
                        value: (rows, value),
                        consumed: a + b + c,
                    },
                    Decoded::Failed(kind) => Decoded::Failed(kind),
                }
            },
            Decoded::Failed(kind) => Decoded::Failed(kind),
        },
        Decoded::Failed(kind) => Decoded::Failed(kind),
    }
}

/// The block at the head of `bytes`, at protocol revision `revision`. An
/// info whose counts are not those of the block is a protocol error.
pub open spec fn block_decode(bytes: Seq<u8>, revision: u64) -> Decoded<BlockModel> {
    if has_info(revision) {
        match info_decode(bytes) {
            Decoded::Value { value: (columns, rows, info), consumed } => match body_decode(
                bytes.skip(consumed as int),
            ) {
                Decoded::Value { value: (body_rows, body), consumed: more } => if body.len()
                    != columns || body_rows != rows {
                    Decoded::Failed(ErrorKind::ProtocolError)
                } else {
                    Decoded::Value {
                        value: BlockModel { info, rows, columns: body },
                        consumed: consumed + more,
                    }
                },
                Decoded::Failed(kind) => Decoded::Failed(kind),
            },
            Decoded::Failed(kind) => Decoded::Failed(kind),
        }
    } else {
        match body_decode(bytes) {
            Decoded::Value { value: (rows, body), consumed } => Decoded::Value {
                value: BlockModel {
                    info: BlockInfo { is_overflows: false, bucket_num: -1i32 },
                    rows,
                    columns: body,
                },
                consumed,
            },
            Decoded::Failed(kind) => Decoded::Failed(kind),
        }
    }
}

/// The column to which a failure to read the column at the head of `bytes`
/// belongs: the column's name where its prefix or its data cannot be read;
/// nothing where the column is read, or where its name or its type
/// cannot.
pub open spec fn column_fault_name(bytes: Seq<u8>, rows: nat) -> Option<Seq<char>> {
    match text_decode(bytes) {
        Decoded::Value { value: name, consumed: a } => match text_decode(bytes.skip(a as int)) {
            Decoded::Value { value: text, consumed: b } => match parse_type_text(text) {
                Some(t) => if rows == 0 {
                    None
                } else {
                    match prefix_decode(t, bytes.skip((a + b) as int)) {
                        Decoded::Value { value: _, consumed: c } => if column_decode(
                            t,
                            bytes.skip((a + b + c) as int),
                            rows,
                        ) is Failed {
                            Some(name)
                        } else {
                            None
                        },
                        Decoded::Failed(_) => Some(name),
                    }
                },
                None => None,
            },
            Decoded::Failed(_) => None,
        },
        Decoded::Failed(_) => None,
    }
}

/// The column to which a failure to read the first `upto` columns belongs:
/// that of the first column that cannot be read.
pub open spec fn columns_fault_name(bytes: Seq<u8>, rows: nat, upto: nat) -> Option<Seq<char>>
    decreases upto,
{
    if upto == 0 {
        None
    } else {
        match columns_frame_decode(bytes, rows, (upto - 1) as nat) {
            Decoded::Value { value: _, consumed } => column_fault_name(
                bytes.skip(consumed as int),
                rows,
            ),
            Decoded::Failed(_) => columns_fault_name(bytes, rows, (upto - 1) as nat),
        }
    }
}

/// The column to which a failure to read counts and columns belongs.
pub open spec fn body_fault_name(bytes: Seq<u8>) -> Option<Seq<char>> {
    match var_uint_decode(bytes) {
        Decoded::Value { value: columns, consumed: a } => match var_uint_decode(
            bytes.skip(a as int),
        ) {
            Decoded::Value { value: rows, consumed: b } => if columns > usize::MAX || rows
                > usize::MAX {
                None
            } else {
                columns_fault_name(bytes.skip((a + b) as int), rows, columns)
            },
            Decoded::Failed(_) => None,
        },
        Decoded::Failed(_) => None,
    }
}

/// The column to which a failure to read a block belongs: the column whose
/// prefix or data cannot be read, where that is why the block cannot.
pub open spec fn block_fault_name(bytes: Seq<u8>, revision: u64) -> Option<Seq<char>> {
    if has_info(revision) {
        match info_decode(bytes) {
            Decoded::Value { value: _, consumed } => body_fault_name(bytes.skip(consumed as int)),
            Decoded::Failed(_) => None,
        }
    } else {
        body_fault_name(bytes)
    }
}

/// A failure to read the columns belongs to the first column that cannot
/// be read.
proof fn lemma_columns_fault_name(bytes: Seq<u8>, rows: nat, m: nat, upto: nat)
    requires
        m < upto,
        columns_frame_decode(bytes, rows, m) is Value,
        columns_frame_decode(bytes, rows, m + 1) is Failed,
    ensures
        columns_fault_name(bytes, rows, upto) == column_fault_name(
            bytes.skip(columns_frame_decode(bytes, rows, m)->consumed as int),
            rows,
        ),
    decreases upto - m,
{
    if m + 1 < upto {
        lemma_columns_fault_name(bytes, rows, m, (upto - 1) as nat);
        lemma_columns_frame_decode_failed(bytes, rows, m + 1, (upto - 1) as nat);
    }
}

/// Where the columns are read, no failure belongs to any of them.
proof fn lemma_columns_no_fault(bytes: Seq<u8>, rows: nat, upto: nat)
    requires
        columns_frame_decode(bytes, rows, upto) is Value,
    ensures
        columns_fault_name(bytes, rows, upto) is None,
    decreases upto,
{
    reveal(column_frame_decode);
    if upto > 0 {
        lemma_columns_no_fault(bytes, rows, (upto - 1) as nat);
    }
}

/// Where a beginning of the columns cannot be read, the columns cannot.
proof fn lemma_columns_frame_decode_failed(bytes: Seq<u8>, rows: nat, m: nat, upto: nat)
    requires
        m <= upto,
    ensures
        columns_frame_decode(bytes, rows, m) is Failed ==> columns_frame_decode(bytes, rows, upto)
            == columns_frame_decode(bytes, rows, m),
    decreases upto - m,
{
    if m < upto && columns_frame_decode(bytes, rows, m) is Failed {
        lemma_columns_frame_decode_failed(bytes, rows, m, (upto - 1) as nat);
    }
}

/// As many columns were read as were asked for.
proof fn lemma_columns_frame_decode_len(bytes: Seq<u8>, rows: nat, upto: nat)
    ensures
        columns_frame_decode(bytes, rows, upto) matches Decoded::Value { value, consumed }
            ==> value.len() == upto,
    decreases upto,
{
    if upto > 0 {
        lemma_columns_frame_decode_len(bytes, rows, (upto - 1) as nat);
    }
}

/// Reads the info in front of a block.
fn read_info(reader: &mut ByteReader) -> (r: Result<(u64, u64, BlockInfo), KlickhouseError>)
    ensures
        match info_decode(old(reader).unread()) {
            Decoded::Value { value, consumed } => r == Ok::<
                (u64, u64, BlockInfo),
                KlickhouseError,
            >((value.0 as u64, value.1 as u64, value.2)) && value.0 <= u64::MAX && value.1
                <= u64::MAX && consumed <= old(reader).unread().len() && final(reader).unread()
                == old(reader).unread().skip(consumed as int),
            Decoded::Failed(kind) => r matches Err(e) && e.is_plain(kind),
        },
{
    proof {
        reveal(info_decode);
    }
    let ghost bytes = reader.unread();
    let columns = reader.read_var_uint()?;
    let ghost a = var_uint_decode(bytes)->consumed;
    let rows = reader.read_var_uint()?;
    let ghost b = var_uint_decode(bytes.skip(a as int))->consumed;
    assert(bytes.skip(a as int).skip(b as int) =~= bytes.skip((a + b) as int));
    let fixed = reader.read_exact(5)?;
    assert(bytes.skip((a + b) as int).skip(5) =~= bytes.skip((a + b + 5) as int));
    assert(fixed@[0] == bytes[(a + b) as int]);
    let bucket_bytes = vstd::slice::slice_subrange(fixed.as_slice(), 1, 5);
    assert(bucket_bytes@ =~= bytes.subrange((a + b + 1) as int, (a + b + 5) as int));
    let bucket = u32_from_le_bytes(bucket_bytes);
    let again = reader.read_var_uint()?;
    let ghost c = var_uint_decode(bytes.skip((a + b + 5) as int))->consumed;
    assert(bytes.skip((a + b + 5) as int).skip(c as int) =~= bytes.skip((a + b + 5 + c) as int));
    if again != rows {
        return Err(bad_frame("block info does not agree with itself"));
    }
    let info = BlockInfo {
        is_overflows: fixed[0] != 0,
        bucket_num: #[verifier::truncate]
        (bucket as i32),
    };
    Ok((columns, rows, info))
}

/// Reads a length-prefixed text.
fn read_text(reader: &mut ByteReader) -> (r: Result<String, KlickhouseError>)
    ensures
        match text_decode(old(reader).unread()) {
            Decoded::Value { value, consumed } => (r matches Ok(s) && s@ == value) && consumed
                <= old(reader).unread().len()
                    && final(reader).unread() == old(reader).unread().skip(consumed as int),
            Decoded::Failed(kind) => r matches Err(e) && e.is_plain(kind),
        },
{
    reader.read_utf8_string()
}

/// Reads one column of a block of `rows` rows. An error of its prefix or of
/// its data is handed on with the name of the column.
fn read_column(reader: &mut ByteReader, rows: usize) -> (r: Result<Column, KlickhouseError>)
    ensures
        match column_frame_decode(old(reader).unread(), rows as nat) {
            Decoded::Value { value, consumed } => (r matches Ok(c) && c@ == value) && consumed
                <= old(reader).unread().len()
                    && final(reader).unread() == old(reader).unread().skip(consumed as int),
            Decoded::Failed(kind) => r matches Err(e) && e.reports(
                kind,
                column_fault_name(old(reader).unread(), rows as nat),
            ),
        },
{
    proof {
        reveal(column_frame_decode);
    }
    let ghost bytes = reader.unread();
    let name = read_text(reader)?;
    let ghost a = text_decode(bytes)->consumed;
    let text = read_text(reader)?;
    let ghost b = text_decode(bytes.skip(a as int))->consumed;
    assert(bytes.skip(a as int).skip(b as int) =~= bytes.skip((a + b) as int));
    let type_ = Type::parse(text.as_str())?;
    if rows == 0 {
        let values: Vec<Value> = Vec::new();
        assert(values_model(values@) =~= Seq::<ValueModel>::empty());
        return Ok(Column { name, type_, values });
    }
    match type_.deserialize_prefix(reader) {
        Ok(()) => {},
        Err(e) => {
            return Err(e.with_column_name(name.as_str()));
        },
    }
    let ghost c = prefix_decode(type_@, bytes.skip((a + b) as int))->consumed;
    assert(bytes.skip((a + b) as int).skip(c as int) =~= bytes.skip((a + b + c) as int));
    let values = match type_.deserialize_column(reader, rows) {
        Ok(values) => values,
        Err(e) => {
            return Err(e.with_column_name(name.as_str()));
        },
    };
    let ghost d = column_decode(type_@, bytes.skip((a + b + c) as int), rows as nat)->consumed;
    assert(bytes.skip((a + b + c) as int).skip(d as int) =~= bytes.skip((a + b + c + d) as int));
    Ok(Column { name, type_, values })
}

/// Reads the counts and the columns of a block.
fn read_body(reader: &mut ByteReader) -> (r: Result<(u64, Vec<Column>), KlickhouseError>)
    ensures
        match body_decode(old(reader).unread()) {
            Decoded::Value { value, consumed } => (r matches Ok(p) && p.0 == value.0
                && columns_model(p.1@) == value.1) && consumed <= old(reader).unread().len()
                && final(reader).unread() == old(reader).unread().skip(consumed as int)
                && body_fault_name(old(reader).unread()) is None,
            Decoded::Failed(kind) => r matches Err(e) && e.reports(
                kind,
                body_fault_name(old(reader).unread()),
            ),
        },
{
    proof {
        reveal(body_decode);
    }
    let ghost bytes = reader.unread();
    let count = reader.read_var_uint()?;
    let ghost a = var_uint_decode(bytes)->consumed;
    let rows = reader.read_var_uint()?;
    let ghost b = var_uint_decode(bytes.skip(a as int))->consumed;
    assert(bytes.skip(a as int).skip(b as int) =~= bytes.skip((a + b) as int));
    if count > usize::MAX as u64 || rows > usize::MAX as u64 {
        return Err(bad_frame("block is larger than this machine can address"));
    }
    let ghost rest = bytes.skip((a + b) as int);
    let mut columns: Vec<Column> = Vec::new();
    let mut i: usize = 0;
    proof {
        assert(rest.skip(0) =~= rest);
        assert(columns_model(columns@) =~= Seq::<ColumnModel>::empty());
    }
    while i < count as usize
        invariant
            i <= count,
            count <= usize::MAX,
            rows <= usize::MAX,
            bytes == old(reader).unread(),
            rest == bytes.skip((a + b) as int),
            a + b <= bytes.len(),
            var_uint_decode(bytes) == (Decoded::Value { value: count as nat, consumed: a }),
            var_uint_decode(bytes.skip(a as int)) == (Decoded::Value {
                value: rows as nat,
                consumed: b,
            }),
            columns_frame_decode(rest, rows as nat, i as nat) matches Decoded::Value {
                value,
                consumed,
            } && columns_model(columns@) == value && consumed <= rest.len() && reader.unread()
                == rest.skip(consumed as int),
        decreases count - i,
    {
        proof {
            reveal(body_decode);
        }
        let ghost before = columns_model(columns@);
        let ghost consumed = columns_frame_decode(rest, rows as nat, i as nat)->consumed;
        proof {
            lemma_columns_frame_decode_failed(rest, rows as nat, (i + 1) as nat, count as nat);
            if columns_frame_decode(rest, rows as nat, (i + 1) as nat) is Failed {
                lemma_columns_fault_name(rest, rows as nat, i as nat, count as nat);
            }
        }
        let column = read_column(reader, rows as usize)?;
        let ghost more = column_frame_decode(rest.skip(consumed as int), rows as nat)->consumed;
        assert(rest.skip(consumed as int).skip(more as int) =~= rest.skip(
            (consumed + more) as int,
        ));
        let ghost model = column@;
        columns.push(column);
        assert(columns_model(columns@) =~= before.push(model));
        i += 1;
    }
    let ghost c = columns_frame_decode(rest, rows as nat, count as nat)->consumed;
    assert(rest.skip(c as int) =~= bytes.skip((a + b + c) as int));
    proof {
        lemma_columns_no_fault(rest, rows as nat, count as nat);
    }
    Ok((rows, columns))
}

impl Block {
    /// Reads the frame of a block at protocol revision `revision`. The
    /// types are read from their text; the block that comes back names no
    /// table. Where the prefix or the data of a column cannot be read, the
    /// error holds the name of that column.
    pub fn read(reader: &mut ByteReader, revision: u64) -> (r: Result<Block, KlickhouseError>)
        ensures
            match block_decode(old(reader).unread(), revision) {
                Decoded::Value { value, consumed } => (r matches Ok(block) && block@ == value
                    && block.name is None) && consumed <= old(reader).unread().len()
                    && final(reader).unread() == old(reader).unread().skip(consumed as int),
                Decoded::Failed(kind) => r matches Err(e) && e.reports(
                    kind,
                    block_fault_name(old(reader).unread(), revision),
                ),
            },
    {
        let ghost bytes = reader.unread();
        if revision >= DBMS_MIN_REVISION_WITH_BLOCK_INFO {
            let (count, rows, info) = read_info(reader)?;
            let ghost consumed = info_decode(bytes)->consumed;
            let (body_rows, columns) = read_body(reader)?;
            let ghost more = body_decode(bytes.skip(consumed as int))->consumed;
            assert(bytes.skip(consumed as int).skip(more as int) =~= bytes.skip(
                (consumed + more) as int,
            ));
            assert(columns_model(columns@).len() == columns@.len());
            if columns.len() as u64 != count || body_rows != rows {
                return Err(bad_frame("block info does not agree with the block"));
            }
            Ok(Block { name: None, info, rows, columns })
        } else {
            let (rows, columns) = read_body(reader)?;
            Ok(
                Block {
                    name: None,
                    info: BlockInfo { is_overflows: false, bucket_num: -1 },
                    rows,
                    columns,
                },
            )
        }
    }
}

/// The index of the first block from `from` on that has rows.
pub open spec fn first_with_rows(blocks: Seq<Block>, from: nat) -> Option<nat>
    decreases blocks.len() - from,
{
    if from >= blocks.len() {
        None
    } else if blocks[from as int].rows > 0 {
        Some(from)
    } else {
        first_with_rows(blocks, from + 1)
    }
}

/// The first row of a reply, which is made of `blocks` in this order: the
/// first row of the first block that has rows. A reply without rows is the
/// error of a missing row; a block whose columns do not all hold a first
/// value is a protocol error.
pub fn first_row(blocks: &Vec<Block>) -> (r: Result<Vec<(String, Type, Value)>, KlickhouseError>)
    ensures
        match first_with_rows(blocks@, 0) {
            None => r matches Err(e) && e is MissingRow,
            Some(k) => if forall|i: int|
                0 <= i < blocks@[k as int].columns@.len() ==> 0 < (
                #[trigger] blocks@[k as int].columns@[i]).values@.len() {
                r matches Ok(row) && blocks@[k as int].is_row(0, row@)
            } else {
                r matches Err(e) && e.says(
                    ErrorKind::ProtocolError,
                    "a column is shorter than its block"@,
                )
            },
        },
{
    let mut k: usize = 0;
    while k < blocks.len()
        invariant
            k <= blocks@.len(),
            first_with_rows(blocks@, 0) == first_with_rows(blocks@, k as nat),
        decreases blocks@.len() - k,
    {
        if blocks[k].rows > 0 {
            return match blocks[k].row(0) {
                Some(row) => Ok(row),
                None => Err(bad_frame("a column is shorter than its block")),
            };
        }
        k += 1;
    }
    Err(KlickhouseError::MissingRow)
}

} // verus!

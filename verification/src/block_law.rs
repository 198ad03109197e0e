//! The round-trip law of blocks: a block that was written is read back as
//! it was, whatever follows it on the wire.

use crate::block::{
    block_bytes, block_decode, body_decode, column_frame, column_frame_decode, columns_frame,
    columns_frame_decode, has_info, info_bytes, info_decode, text_decode, BlockInfo, BlockModel,
    ColumnModel,
};
use crate::io::{
    lemma_string_roundtrip, lemma_var_uint_roundtrip, string_bytes, var_uint_bytes, Decoded,
};
use crate::protocol::MAX_STRING_SIZE;
use crate::types::grammar_law::{lemma_type_text_roundtrip, type_valid};
use crate::types::print::type_text;
use crate::types::roundtrip::{column_canonical, lemma_column_roundtrip};
use crate::types::parse::parse_type_text;
use crate::types::unwire::{column_decode, prefix_decode, prefixes_decode};
use crate::values::ValueModel;
use crate::types::wire::{column_bytes, prefix_bytes, prefixes_bytes, LOW_CARDINALITY_VERSION};
use crate::types::TypeModel;
use vstd::bytes::{
    lemma_auto_spec_u32_to_from_le_bytes, lemma_auto_spec_u64_to_from_le_bytes,
    spec_u32_to_le_bytes, spec_u64_to_le_bytes,
};
use vstd::prelude::*;
use vstd::utf8::{encode_utf8, encode_utf8_decode_utf8, encode_utf8_valid_utf8};

verus! {

/// A text of at most `MAX_STRING_SIZE` bytes, written and read back,
/// whatever follows it, is the same text.
pub proof fn lemma_text_roundtrip(text: Seq<char>, rest: Seq<u8>)
    requires
        encode_utf8(text).len() <= MAX_STRING_SIZE,
    ensures
        text_decode(string_bytes(encode_utf8(text)) + rest) == (Decoded::Value {
            value: text,
            consumed: string_bytes(encode_utf8(text)).len(),
        }),
{
    lemma_string_roundtrip(encode_utf8(text), rest);
    encode_utf8_valid_utf8(text);
    encode_utf8_decode_utf8(text);
}

/// The prefixes of the first `upto` components of a tuple.
pub open spec fn prefixes_upto(items: Seq<TypeModel>, upto: nat) -> Seq<u8>
    decreases upto,
{
    if upto == 0 || upto > items.len() {
        Seq::empty()
    } else {
        prefixes_upto(items, (upto - 1) as nat) + prefix_bytes(items[upto - 1])
    }
}

/// The prefixes of a tuple are those of its first components and those of
/// the others.
pub proof fn lemma_prefixes_split(items: Seq<TypeModel>, k: nat)
    requires
        k <= items.len(),
    ensures
        prefixes_upto(items, k) + prefixes_bytes(items, k) == prefixes_bytes(items, 0),
    decreases k,
{
    if k > 0 {
        lemma_prefixes_split(items, (k - 1) as nat);
        assert(prefixes_upto(items, k) + prefixes_bytes(items, k) =~= prefixes_upto(
            items,
            (k - 1) as nat,
        ) + prefixes_bytes(items, (k - 1) as nat));
    } else {
        assert(prefixes_upto(items, 0) + prefixes_bytes(items, 0) =~= prefixes_bytes(items, 0));
    }
}

/// What is written in front of a column is accepted in front of a column,
/// whatever follows it, and taken exactly.
pub proof fn lemma_prefix_roundtrip(t: TypeModel, rest: Seq<u8>)
    ensures
        prefix_decode(t, prefix_bytes(t) + rest) == (Decoded::Value {
            value: (),
            consumed: prefix_bytes(t).len(),
        }),
    decreases t, 0nat,
{
    match t {
        TypeModel::LowCardinality(_) => {
            let version = spec_u64_to_le_bytes(LOW_CARDINALITY_VERSION);
            lemma_auto_spec_u64_to_from_le_bytes();
            assert((version + rest).subrange(0, 8) =~= version);
        },
        TypeModel::Nullable(inner) => lemma_prefix_roundtrip(*inner, rest),
        TypeModel::Array(inner) => lemma_prefix_roundtrip(*inner, rest),
        TypeModel::Mapping(key, value) => {
            let first = prefix_bytes(*key);
            let second = prefix_bytes(*value);
            lemma_prefix_roundtrip(*key, second + rest);
            lemma_prefix_roundtrip(*value, rest);
            assert(first + second + rest =~= first + (second + rest));
            assert((first + second + rest).skip(first.len() as int) =~= second + rest);
        },
        TypeModel::Tuple(items) => {
            lemma_prefixes_roundtrip(items, items.len(), rest);
            lemma_prefixes_split(items, items.len());
            assert(prefixes_upto(items, items.len()) + prefixes_bytes(items, items.len())
                =~= prefixes_upto(items, items.len()));
        },
        _ => {},
    }
}

/// What is written in front of a column of tuples is accepted component
/// by component.
pub proof fn lemma_prefixes_roundtrip(items: Seq<TypeModel>, upto: nat, rest: Seq<u8>)
    requires
        upto <= items.len(),
    ensures
        prefixes_decode(items, prefixes_bytes(items, 0) + rest, upto) == (Decoded::Value {
            value: (),
            consumed: prefixes_upto(items, upto).len(),
        }),
    decreases items, upto,
{
    if upto > 0 {
        let all = prefixes_bytes(items, 0) + rest;
        let done = prefixes_upto(items, (upto - 1) as nat);
        let tail = prefixes_bytes(items, upto) + rest;
        lemma_prefixes_roundtrip(items, (upto - 1) as nat, rest);
        lemma_prefixes_split(items, (upto - 1) as nat);
        assert(all =~= done + (prefix_bytes(items[upto - 1]) + tail));
        assert(all.skip(done.len() as int) =~= prefix_bytes(items[upto - 1]) + tail);
        lemma_prefix_roundtrip(items[upto - 1], tail);
    }
}

/// Whether a column of a block of `rows` rows is one that the wire holds
/// exactly: name and type text fit, the type can be spelled, and the
/// column holds `rows` values that the wire holds exactly.
pub open spec fn column_valid(column: ColumnModel, rows: nat) -> bool {
    &&& encode_utf8(column.name).len() <= MAX_STRING_SIZE
    &&& encode_utf8(type_text(column.type_)).len() <= MAX_STRING_SIZE
    &&& type_valid(column.type_)
    &&& column.values.len() == rows
    &&& rows > 0 ==> column_canonical(column.type_, column.values)
}

/// What reading a column of a block comes to, where each of its parts is
/// read.
proof fn lemma_column_frame_decoded(
    bytes: Seq<u8>,
    rows: nat,
    column: ColumnModel,
    a: nat,
    b: nat,
    c: nat,
    d: nat,
)
    requires
        text_decode(bytes) == (Decoded::Value { value: column.name, consumed: a }),
        text_decode(bytes.skip(a as int)) == (Decoded::Value {
            value: type_text(column.type_),
            consumed: b,
        }),
        parse_type_text(type_text(column.type_)) == Some(column.type_),
        rows == 0 ==> c == 0 && d == 0 && column.values == Seq::<ValueModel>::empty(),
        rows > 0 ==> prefix_decode(column.type_, bytes.skip((a + b) as int)) == (Decoded::Value {
            value: (),
            consumed: c,
        }),
        rows > 0 ==> column_decode(column.type_, bytes.skip((a + b + c) as int), rows) == (
        Decoded::Value { value: column.values, consumed: d }),
    ensures
        column_frame_decode(bytes, rows) == (Decoded::Value {
            value: column,
            consumed: a + b + c + d,
        }),
{
    reveal(column_frame_decode);
}

/// A column of a block, written and read back, whatever follows it, is the
/// same column.
pub proof fn lemma_column_frame_roundtrip(column: ColumnModel, rows: nat, rest: Seq<u8>)
    requires
        column_valid(column, rows),
    ensures
        column_frame(column, rows) matches Some(bytes) && column_frame_decode(bytes + rest, rows)
            == (Decoded::Value { value: column, consumed: bytes.len() }),
{
    let name = string_bytes(encode_utf8(column.name));
    let text = string_bytes(encode_utf8(type_text(column.type_)));
    lemma_type_text_roundtrip(column.type_);
    if rows == 0 {
        let bytes = name + text;
        lemma_text_roundtrip(column.name, text + rest);
        lemma_text_roundtrip(type_text(column.type_), rest);
        assert(bytes + rest =~= name + (text + rest));
        assert((bytes + rest).skip(name.len() as int) =~= text + rest);
        assert(column.values =~= Seq::empty());
        lemma_column_frame_decoded(bytes + rest, rows, column, name.len(), text.len(), 0, 0);
    } else {
        let prefix = prefix_bytes(column.type_);
        lemma_column_roundtrip(column.type_, column.values, rest);
        let data = column_bytes(column.type_, column.values)->0;
        let bytes = name + text + prefix + data;
        lemma_text_roundtrip(column.name, text + prefix + data + rest);
        lemma_text_roundtrip(type_text(column.type_), prefix + data + rest);
        lemma_prefix_roundtrip(column.type_, data + rest);
        assert(bytes + rest =~= name + (text + prefix + data + rest));
        assert((bytes + rest).skip(name.len() as int) =~= text + (prefix + data + rest));
        assert(text + prefix + data + rest =~= text + (prefix + data + rest));
        assert((bytes + rest).skip((name.len() + text.len()) as int) =~= prefix + (data + rest));
        assert(prefix + data + rest =~= prefix + (data + rest));
        assert((bytes + rest).skip((name.len() + text.len() + prefix.len()) as int) =~= data
            + rest);
        lemma_column_frame_decoded(
            bytes + rest,
            rows,
            column,
            name.len(),
            text.len(),
            prefix.len(),
            data.len(),
        );
    }
}

/// Whether the first `upto` columns are columns of a block of `rows` rows
/// that the wire holds exactly.
pub open spec fn columns_valid(columns: Seq<ColumnModel>, rows: nat, upto: nat) -> bool {
    forall|i: int| 0 <= i < upto ==> column_valid(#[trigger] columns[i], rows)
}

/// The first columns of a block, written and read back, whatever follows
/// them, are the same columns.
pub proof fn lemma_columns_frame_roundtrip(
    columns: Seq<ColumnModel>,
    rows: nat,
    upto: nat,
    rest: Seq<u8>,
)
    requires
        upto <= columns.len(),
        columns_valid(columns, rows, upto),
    ensures
        columns_frame(columns, rows, upto) matches Some(bytes) && columns_frame_decode(
            bytes + rest,
            rows,
            upto,
        ) == (Decoded::Value { value: columns.take(upto as int), consumed: bytes.len() }),
    decreases upto,
{
    if upto == 0 {
        assert(columns.take(0) =~= Seq::empty());
    } else {
        let last_column = columns[upto - 1];
        assert(column_valid(last_column, rows));
        lemma_column_frame_roundtrip(last_column, rows, rest);
        let last = column_frame(last_column, rows)->0;
        lemma_columns_frame_roundtrip(columns, rows, (upto - 1) as nat, last + rest);
        let head = columns_frame(columns, rows, (upto - 1) as nat)->0;
        assert(head + last + rest =~= head + (last + rest));
        assert((head + last + rest).skip(head.len() as int) =~= last + rest);
        assert(columns.take(upto - 1).push(last_column) =~= columns.take(upto as int));
    }
}

/// Whether a block is one that the wire holds exactly: its counts fit in a
/// varint and on this machine, and each of its columns is one that the
/// wire holds exactly.
pub open spec fn block_valid(block: BlockModel) -> bool {
    &&& block.columns.len() <= 0x7fff_ffff_ffff_ffff
    &&& block.rows <= 0x7fff_ffff_ffff_ffff
    &&& block.columns.len() <= usize::MAX
    &&& block.rows <= usize::MAX
    &&& columns_valid(block.columns, block.rows, block.columns.len())
}

/// The info in front of a block, written and read back, whatever follows
/// it, is the same info.
pub proof fn lemma_info_roundtrip(info: BlockInfo, columns: nat, rows: nat, rest: Seq<u8>)
    requires
        columns <= 0x7fff_ffff_ffff_ffff,
        rows <= 0x7fff_ffff_ffff_ffff,
    ensures
        info_decode(info_bytes(info, columns, rows) + rest) == (Decoded::Value {
            value: (columns, rows, info),
            consumed: info_bytes(info, columns, rows).len(),
        }),
{
    reveal(info_decode);
    let a = var_uint_bytes(columns as u64);
    let b = var_uint_bytes(rows as u64);
    let flag = seq![
        if info.is_overflows {
            1u8
        } else {
            0u8
        },
    ];
    let bucket = spec_u32_to_le_bytes(info.bucket_num as u32);
    let all = info_bytes(info, columns, rows) + rest;
    lemma_auto_spec_u32_to_from_le_bytes();
    lemma_var_uint_roundtrip(columns as u64, b + flag + bucket + b + rest);
    lemma_var_uint_roundtrip(rows as u64, flag + bucket + b + rest);
    lemma_var_uint_roundtrip(rows as u64, rest);
    assert(all =~= a + (b + flag + bucket + b + rest));
    assert(all.skip(a.len() as int) =~= b + (flag + bucket + b + rest));
    assert(b + flag + bucket + b + rest =~= b + (flag + bucket + b + rest));
    assert(all.skip((a.len() + b.len() + 5) as int) =~= b + rest);
    assert(all[(a.len() + b.len()) as int] == flag[0]);
    assert(all.subrange((a.len() + b.len() + 1) as int, (a.len() + b.len() + 5) as int)
        =~= bucket);
    let x = info.bucket_num;
    assert((x as u32) as i32 == x) by (bit_vector);
}

/// The counts and the columns of a block, written and read back, whatever
/// follows them, are the same.
pub proof fn lemma_body_roundtrip(block: BlockModel, rest: Seq<u8>)
    requires
        block_valid(block),
    ensures
        columns_frame(block.columns, block.rows, block.columns.len()) matches Some(columns)
            && body_decode(
            var_uint_bytes(block.columns.len() as u64) + var_uint_bytes(block.rows as u64)
                + columns + rest,
        ) == (Decoded::Value {
            value: (block.rows, block.columns),
            consumed: var_uint_bytes(block.columns.len() as u64).len() + var_uint_bytes(
                block.rows as u64,
            ).len() + columns.len(),
        }),
{
    reveal(body_decode);
    lemma_columns_frame_roundtrip(block.columns, block.rows, block.columns.len(), rest);
    let columns = columns_frame(block.columns, block.rows, block.columns.len())->0;
    let a = var_uint_bytes(block.columns.len() as u64);
    let b = var_uint_bytes(block.rows as u64);
    let all = a + b + columns + rest;
    lemma_var_uint_roundtrip(block.columns.len() as u64, b + columns + rest);
    lemma_var_uint_roundtrip(block.rows as u64, columns + rest);
    assert(all =~= a + (b + columns + rest));
    assert(all.skip(a.len() as int) =~= b + (columns + rest));
    assert(b + columns + rest =~= b + (columns + rest));
    assert(all.skip((a.len() + b.len()) as int) =~= columns + rest);
    assert(block.columns.take(block.columns.len() as int) =~= block.columns);
}

/// The round-trip law of blocks: a block that the wire holds exactly,
/// written at a revision and read back at the same revision, whatever
/// follows it, is the same block, and reading it takes exactly what was
/// written. At a revision that carries no info, this is so of a block
/// whose info is the one that a reader assumes.
pub proof fn lemma_block_roundtrip(block: BlockModel, revision: u64, rest: Seq<u8>)
    requires
        block_valid(block),
        has_info(revision) || block.info == (BlockInfo { is_overflows: false, bucket_num: -1i32 }),
    ensures
        block_bytes(block, revision) matches Some(bytes) && block_decode(bytes + rest, revision)
            == (Decoded::Value { value: block, consumed: bytes.len() }),
{
    lemma_body_roundtrip(block, rest);
    let columns = columns_frame(block.columns, block.rows, block.columns.len())->0;
    let body = var_uint_bytes(block.columns.len() as u64) + var_uint_bytes(block.rows as u64)
        + columns;
    if has_info(revision) {
        let info = info_bytes(block.info, block.columns.len(), block.rows);
        lemma_info_roundtrip(block.info, block.columns.len(), block.rows, body + rest);
        let bytes = block_bytes(block, revision)->0;
        assert(bytes =~= info + body);
        assert(bytes + rest =~= info + (body + rest));
        assert((bytes + rest).skip(info.len() as int) =~= body + rest);
    } else {
        let bytes = block_bytes(block, revision)->0;
        assert(bytes =~= body);
    }
}

} // verus!

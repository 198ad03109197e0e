//! Reading columns.

use crate::errors::{ErrorKind, KlickhouseError};
use crate::io::{end_of_input, string_decode, ByteReader, ClickhouseRead, Decoded};
use crate::types::serialize::is_key_type;
use crate::types::unwire::{
    chunk, column_decode, fixed_strings_decode, index_at, index_width, multi_polygons_decode,
    offset_at, offsets_decode, offsets_ordered, part_start, points_decode, polygons_decode,
    array_decode, lemma_column_decode_kinds, low_cardinality_decode, low_cardinality_inner_decode, map_decode,
    multi_polygon_values_decode, nullable_decode, point_values_decode, polygon_values_decode,
    ring_values_decode, tuple_rows_decode, prefix_decode, prefixes_decode, rings_decode, rows_decode, scalar_value, scalars_decode,
    split_parts, strings_decode, text_len, tuple_decode, uuid_value,
};
use crate::types::wire::{dictionary_type, key_type, scalar_width, LOW_CARDINALITY_VERSION};
use crate::types::{types_model, Type, TypeModel};
use crate::values::{
    i256, multi_polygons_model, points_model, polygons_model, rings_model, u256, values_model,
    Date, DateTime, DynDateTime64, MultiPolygon, Point, Polygon, Ring, Value, ValueModel,
};
use vstd::bytes::{
    spec_u64_from_le_bytes, u128_from_le_bytes, u16_from_le_bytes, u32_from_le_bytes,
    u64_from_le_bytes,
};
use vstd::prelude::*;
use vstd::slice::slice_subrange;

verus! {

/// The error of bytes that are not the encoding of a column.
pub fn malformed(text: &str) -> (e: KlickhouseError)
    ensures
        e.says(ErrorKind::DeserializeError, text@),
{
    KlickhouseError::DeserializeError(text.to_owned())
}

/// Reads a 64-bit number, little-endian. A failed read consumes nothing.
pub fn read_u64(reader: &mut ByteReader) -> (r: Result<u64, KlickhouseError>)
    ensures
        old(reader).unread().len() >= 8 ==> r == Ok::<u64, KlickhouseError>(
            spec_u64_from_le_bytes(old(reader).unread().subrange(0, 8)),
        ) && final(reader).unread() == old(reader).unread().skip(8),
        old(reader).unread().len() < 8 ==> (r matches Err(e) && e.is_plain(ErrorKind::Io))
            && final(reader).unread() == old(reader).unread(),
{
    let bytes = reader.read_exact(8)?;
    assert(old(reader).unread().take(8) =~= old(reader).unread().subrange(0, 8));
    Ok(u64_from_le_bytes(bytes.as_slice()))
}

/// `rows * width` bytes, or an I/O error where there are not as many.
fn read_packed(reader: &mut ByteReader, rows: usize, width: usize) -> (r: Result<
    Vec<u8>,
    KlickhouseError,
>)
    ensures
        old(reader).unread().len() >= rows * width ==> (r matches Ok(v)
            && v@ == old(reader).unread().take(rows * width))
                && final(reader).unread() == old(reader).unread().skip(
            rows * width,
        ),
        old(reader).unread().len() < rows * width ==> (r matches Err(e) && e.is_plain(ErrorKind::Io)),
{
    let available = reader.remaining();
    match rows.checked_mul(width) {
        Some(total) => reader.read_exact(total),
        None => Err(end_of_input()),
    }
}

/// Element `i` of a packed column lies within the column.
pub proof fn lemma_chunk_bounds(rows: int, width: int, i: int)
    requires
        0 <= i < rows,
        0 <= width,
    ensures
        0 <= i * width,
        i * width + width <= rows * width,
{
    assert(0 <= i * width && i * width + width <= rows * width) by (nonlinear_arith)
        requires
            0 <= i < rows,
            0 <= width,
    ;
}

/// A 256-bit number, most significant byte first, from its little-endian
/// bytes.
fn wide_from(bytes: &[u8]) -> (r: [u8; 32])
    requires
        bytes@.len() == 32,
    ensures
        r@ == bytes@.reverse(),
{
    let mut out = [0u8; 32];
    let mut i: usize = 0;
    while i < 32
        invariant
            i <= 32,
            bytes@.len() == 32,
            out@.len() == 32,
            forall|k: int| 0 <= k < i ==> out@[k] == bytes@[31 - k],
        decreases 32 - i,
    {
        out[i] = bytes[31 - i];
        i += 1;
    }
    assert(out@ =~= bytes@.reverse());
    out
}

/// The element of the scalar type `t` that `bytes` spell.
fn scalar_from(t: &Type, bytes: &[u8]) -> (r: Value)
    requires
        scalar_width(t@) == Some(bytes@.len()),
    ensures
        r@ == scalar_value(t@, bytes@),
{
    match t {
        Type::Int8 => Value::Int8(#[verifier::truncate] (bytes[0] as i8)),
        Type::Int16 => Value::Int16(#[verifier::truncate] (u16_from_le_bytes(bytes) as i16)),
        Type::Int32 => Value::Int32(#[verifier::truncate] (u32_from_le_bytes(bytes) as i32)),
        Type::Int64 => Value::Int64(#[verifier::truncate] (u64_from_le_bytes(bytes) as i64)),
        Type::Int128 => Value::Int128(#[verifier::truncate] (u128_from_le_bytes(bytes) as i128)),
        Type::Int256 => Value::Int256(i256(wide_from(bytes))),
        Type::UInt8 => Value::UInt8(bytes[0]),
        Type::UInt16 => Value::UInt16(u16_from_le_bytes(bytes)),
        Type::UInt32 => Value::UInt32(u32_from_le_bytes(bytes)),
        Type::UInt64 => Value::UInt64(u64_from_le_bytes(bytes)),
        Type::UInt128 => Value::UInt128(u128_from_le_bytes(bytes)),
        Type::UInt256 => Value::UInt256(u256(wide_from(bytes))),
        Type::Float32 => Value::Float32(u32_from_le_bytes(bytes)),
        Type::Float64 => Value::Float64(u64_from_le_bytes(bytes)),
        Type::Decimal32(scale) => Value::Decimal32(
            *scale,
            #[verifier::truncate] (u32_from_le_bytes(bytes) as i32),
        ),
        Type::Decimal64(scale) => Value::Decimal64(
            *scale,
            #[verifier::truncate] (u64_from_le_bytes(bytes) as i64),
        ),
        Type::Decimal128(scale) => Value::Decimal128(
            *scale,
            #[verifier::truncate] (u128_from_le_bytes(bytes) as i128),
        ),
        Type::Decimal256(scale) => Value::Decimal256(*scale, i256(wide_from(bytes))),
        Type::Uuid => {
            let high = u64_from_le_bytes(slice_subrange(bytes, 0, 8));
            let low = u64_from_le_bytes(slice_subrange(bytes, 8, 16));
            Value::Uuid(high as u128 * 0x1_0000_0000_0000_0000 + low as u128)
        },
        Type::Date => Value::Date(Date(u16_from_le_bytes(bytes))),
        Type::DateTime(zone) => Value::DateTime(DateTime(zone.clone(), u32_from_le_bytes(bytes))),
        Type::DateTime64(precision, zone) => Value::DateTime64(
            DynDateTime64(
                zone.clone(),
                #[verifier::truncate] (u64_from_le_bytes(bytes) as i64),
                *precision,
            ),
        ),
        Type::Enum8(_) => Value::Enum8(#[verifier::truncate] (bytes[0] as i8)),
        Type::Enum16(_) => Value::Enum16(#[verifier::truncate] (u16_from_le_bytes(bytes) as i16)),
        _ => Value::Null,
    }
}

/// The number of bytes of one element of a scalar type.
pub fn scalar_width_of(t: &Type) -> (r: Option<usize>)
    ensures
        match scalar_width(t@) {
            Some(width) => r == Some(width as usize) && width <= 32,
            None => r is None,
        },
{
    match t {
        Type::Int8 | Type::UInt8 | Type::Enum8(_) => Some(1),
        Type::Int16 | Type::UInt16 | Type::Date | Type::Enum16(_) => Some(2),
        Type::Int32 | Type::UInt32 | Type::Float32 | Type::Decimal32(_) | Type::DateTime(_) =>
            Some(4),
        Type::Int64
        | Type::UInt64
        | Type::Float64
        | Type::Decimal64(_)
        | Type::DateTime64(_, _) => Some(8),
        Type::Int128 | Type::UInt128 | Type::Decimal128(_) | Type::Uuid => Some(16),
        Type::Int256 | Type::UInt256 | Type::Decimal256(_) => Some(32),
        _ => None,
    }
}

/// Reads a column of `rows` elements of a scalar type.
pub fn deserialize_scalars(t: &Type, width: usize, reader: &mut ByteReader, rows: usize) -> (r:
    Result<Vec<Value>, KlickhouseError>)
    requires
        scalar_width(t@) == Some(width as nat),
    ensures
        match scalars_decode(t@, width as nat, old(reader).unread(), rows as nat) {
            Decoded::Value { value, consumed } => (r matches Ok(v) && values_model(v@) == value
                && v@.len() == value.len()) && consumed <= old(reader).unread().len()
                    && final(reader).unread() == old(reader).unread().skip(consumed as int),
            Decoded::Failed(kind) => r matches Err(e) && e.is_plain(kind),
        },
{
    let ghost bytes = reader.unread();
    let data = read_packed(reader, rows, width)?;
    let total = data.len();
    let mut out: Vec<Value> = Vec::new();
    let mut i: usize = 0;
    while i < rows
        invariant
            i <= rows,
            total == rows * width,
            scalar_width(t@) == Some(width as nat),
            bytes.len() >= rows * width,
            data@ == bytes.take(rows * width),
            out@.len() == i,
            forall|k: int|
                0 <= k < i ==> (#[trigger] out@[k])@ == scalar_value(
                    t@,
                    chunk(bytes, width as nat, k),
                ),
        decreases rows - i,
    {
        proof {
            lemma_chunk_bounds(rows as int, width as int, i as int);
        }
        let piece = slice_subrange(data.as_slice(), i * width, i * width + width);
        assert(piece@ =~= chunk(bytes, width as nat, i as int));
        out.push(scalar_from(t, piece));
        i += 1;
    }
    assert(values_model(out@) =~= Seq::new(
        rows as nat,
        |i: int| scalar_value(t@, chunk(bytes, width as nat, i)),
    ));
    Ok(out)
}

/// Where a beginning of a string column cannot be read, the column cannot.
pub proof fn lemma_strings_decode_failed(bytes: Seq<u8>, m: nat, n: nat)
    requires
        m <= n,
        strings_decode(bytes, m) is Failed,
    ensures
        strings_decode(bytes, n) == strings_decode(bytes, m),
    decreases n - m,
{
    if m < n {
        lemma_strings_decode_failed(bytes, m, (n - 1) as nat);
    }
}

/// Reads a column of `rows` strings.
pub fn deserialize_strings(reader: &mut ByteReader, rows: usize) -> (r: Result<
    Vec<Value>,
    KlickhouseError,
>)
    ensures
        match strings_decode(old(reader).unread(), rows as nat) {
            Decoded::Value { value, consumed } => (r matches Ok(v) && values_model(v@) == value
                && v@.len() == value.len()) && consumed <= old(reader).unread().len()
                    && final(reader).unread() == old(reader).unread().skip(consumed as int),
            Decoded::Failed(kind) => r matches Err(e) && e.is_plain(kind),
        },
{
    let ghost bytes = reader.unread();
    let mut out: Vec<Value> = Vec::new();
    let mut i: usize = 0;
    proof {
        assert(bytes.skip(0) =~= bytes);
        assert(values_model(out@) =~= Seq::<ValueModel>::empty());
    }
    while i < rows
        invariant
            i <= rows,
            bytes == old(reader).unread(),
            strings_decode(bytes, i as nat) matches Decoded::Value { value, consumed }
                && values_model(out@) == value && consumed <= bytes.len() && reader.unread()
                == bytes.skip(consumed as int),
        decreases rows - i,
    {
        let ghost before = values_model(out@);
        let ghost consumed = strings_decode(bytes, i as nat)->consumed;
        match reader.read_string() {
            Ok(text) => {
                let ghost more = string_decode(bytes.skip(consumed as int))->consumed;
                assert(bytes.skip(consumed as int).skip(more as int) =~= bytes.skip(
                    (consumed + more) as int,
                ));
                out.push(Value::String(text));
                assert(values_model(out@) =~= before.push(ValueModel::String(text@)));
            },
            Err(e) => {
                proof {
                    lemma_strings_decode_failed(bytes, (i + 1) as nat, rows as nat);
                }
                return Err(e);
            },
        }
        i += 1;
    }
    Ok(out)
}

/// The position of the first zero byte of `bytes`, or its length.
fn text_end(bytes: &[u8]) -> (r: usize)
    ensures
        r == text_len(bytes@),
        r <= bytes@.len(),
{
    let mut i: usize = 0;
    proof {
        assert(bytes@.skip(0) =~= bytes@);
    }
    while i < bytes.len() && bytes[i] != 0
        invariant
            i <= bytes@.len(),
            text_len(bytes@) == i + text_len(bytes@.skip(i as int)),
        decreases bytes@.len() - i,
    {
        assert(bytes@.skip(i as int)[0] == bytes@[i as int]);
        assert(bytes@.skip(i as int).skip(1) =~= bytes@.skip(i + 1));
        i += 1;
    }
    proof {
        if i < bytes@.len() {
            assert(bytes@.skip(i as int)[0] == bytes@[i as int]);
        }
    }
    i
}

/// Reads a column of `rows` strings of a fixed width.
pub fn deserialize_fixed_strings(width: usize, reader: &mut ByteReader, rows: usize) -> (r: Result<
    Vec<Value>,
    KlickhouseError,
>)
    ensures
        match fixed_strings_decode(width as nat, old(reader).unread(), rows as nat) {
            Decoded::Value { value, consumed } => (r matches Ok(v) && values_model(v@) == value
                && v@.len() == value.len()) && consumed <= old(reader).unread().len()
                    && final(reader).unread() == old(reader).unread().skip(consumed as int),
            Decoded::Failed(kind) => r matches Err(e) && e.is_plain(kind),
        },
{
    let ghost bytes = reader.unread();
    let data = read_packed(reader, rows, width)?;
    let total = data.len();
    let mut out: Vec<Value> = Vec::new();
    let mut i: usize = 0;
    while i < rows
        invariant
            i <= rows,
            total == rows * width,
            bytes.len() >= rows * width,
            data@ == bytes.take(rows * width),
            out@.len() == i,
            forall|k: int|
                0 <= k < i ==> (#[trigger] out@[k])@ == ValueModel::String(
                    chunk(bytes, width as nat, k).take(
                        text_len(chunk(bytes, width as nat, k)) as int,
                    ),
                ),
        decreases rows - i,
    {
        proof {
            lemma_chunk_bounds(rows as int, width as int, i as int);
        }
        let piece = slice_subrange(data.as_slice(), i * width, i * width + width);
        assert(piece@ =~= chunk(bytes, width as nat, i as int));
        let end = text_end(piece);
        let text = crate::io::copy_range(piece, 0, end);
        assert(text@ =~= piece@.take(end as int));
        out.push(Value::String(text));
        i += 1;
    }
    assert(values_model(out@) =~= Seq::new(
        rows as nat,
        |i: int|
            ValueModel::String(
                chunk(bytes, width as nat, i).take(text_len(chunk(bytes, width as nat, i)) as int),
            ),
    ));
    Ok(out)
}

/// Offsets that never decrease are ordered over any distance.
pub proof fn lemma_offsets_monotone(bytes: Seq<u8>, n: nat, i: int, j: int)
    requires
        offsets_ordered(bytes, n),
        0 <= i <= j < n,
    ensures
        offset_at(bytes, i) <= offset_at(bytes, j),
        part_start(bytes, i) <= offset_at(bytes, j),
{
    if i > 0 {
        assert(offset_at(bytes, i - 1) <= offset_at(bytes, j));
    }
}

/// Reads `rows` cumulative offsets, which must never decrease.
pub fn read_offsets(reader: &mut ByteReader, rows: usize) -> (r: Result<
    Vec<usize>,
    KlickhouseError,
>)
    ensures
        match offsets_decode(old(reader).unread(), rows as nat) {
            Decoded::Value { value, consumed } => (r matches Ok(v) && v@.len() == rows && (forall|
                i: int,
            |
                0 <= i < rows ==> (#[trigger] v@[i]) == offset_at(old(reader).unread(), i)))
                && consumed <= old(reader).unread().len()
                    && final(reader).unread() == old(reader).unread().skip(consumed as int),
            Decoded::Failed(kind) => r matches Err(e) && e.is_plain(kind),
        },
{
    let ghost bytes = reader.unread();
    let data = read_packed(reader, rows, 8)?;
    let total = data.len();
    let mut out: Vec<usize> = Vec::new();
    let mut previous: u64 = 0;
    let mut i: usize = 0;
    while i < rows
        invariant
            i <= rows,
            total == rows * 8,
            bytes == old(reader).unread(),
            bytes.len() >= rows * 8,
            data@ == bytes.take(rows * 8),
            out@.len() == i,
            previous == part_start(bytes, i as int),
            offsets_ordered(bytes, i as nat),
            forall|k: int| 0 <= k < i ==> (#[trigger] out@[k]) == offset_at(bytes, k),
        decreases rows - i,
    {
        let piece = slice_subrange(data.as_slice(), i * 8, i * 8 + 8);
        assert(piece@ =~= chunk(bytes, 8, i as int));
        let offset = u64_from_le_bytes(piece);
        assert(offset == offset_at(bytes, i as int));
        if offset < previous || offset > usize::MAX as u64 {
            proof {
                if offset < previous {
                    assert(offset_at(bytes, i - 1) > offset_at(bytes, i as int));
                }
            }
            return Err(malformed("offsets of a column decrease"));
        }
        proof {
            assert forall|a: int, b: int| 0 <= a <= b < i + 1 implies #[trigger] offset_at(
                bytes,
                a,
            ) <= #[trigger] offset_at(bytes, b) by {
                if b == i && a < i {
                    assert(offset_at(bytes, a) <= offset_at(bytes, i - 1));
                }
            }
        }
        out.push(offset as usize);
        previous = offset;
        i += 1;
    }
    Ok(out)
}

/// The offset that ends the last of `rows` parts.
fn total_of(offsets: &Vec<usize>) -> (r: usize)
    ensures
        r == (if offsets@.len() == 0 {
            0
        } else {
            offsets@[offsets@.len() - 1]
        }),
{
    if offsets.len() == 0 {
        0
    } else {
        offsets[offsets.len() - 1]
    }
}

/// A copy of `flat[start..end]`.
fn slice_values(flat: &Vec<Value>, start: usize, end: usize) -> (r: Vec<Value>)
    requires
        start <= end <= flat@.len(),
    ensures
        values_model(r@) == values_model(flat@).subrange(start as int, end as int),
{
    let mut out: Vec<Value> = Vec::new();
    let mut i: usize = start;
    while i < end
        invariant
            start <= i <= end <= flat@.len(),
            out@.len() == i - start,
            forall|k: int| 0 <= k < i - start ==> (#[trigger] out@[k])@ == flat@[start + k]@,
        decreases end - i,
    {
        out.push(flat[i].clone());
        i += 1;
    }
    assert(values_model(out@) =~= values_model(flat@).subrange(start as int, end as int));
    out
}

/// Reads a column of `rows` nullable elements: the mask, then the column
/// of the inner type; what the inner column holds at an absent element is
/// dropped.
fn deserialize_nullable(t: &Type, reader: &mut ByteReader, rows: usize) -> (r: Result<
    Vec<Value>,
    KlickhouseError,
>)
    requires
        (t is Nullable),
    ensures
        match column_decode(t@, old(reader).unread(), rows as nat) {
            Decoded::Value { value, consumed } => (r matches Ok(v) && values_model(v@) == value
                && v@.len() == rows) && consumed <= old(reader).unread().len()
                    && final(reader).unread() == old(reader).unread().skip(consumed as int),
            Decoded::Failed(kind) => r matches Err(e) && e.is_plain(kind),
        },
    decreases t, 0nat,
{
    proof {
        lemma_column_decode_kinds(t@, reader.unread(), rows as nat);
    }
    let inner: &Type = match t {
        Type::Nullable(inner) => inner,
        _ => {
            return Err(malformed("type is not nullable"));
        },
    };
    let ghost bytes = reader.unread();
    let mask = reader.read_exact(rows)?;
    let present = inner.deserialize_column(reader, rows)?;
    let ghost decoded = column_decode(inner@, bytes.skip(rows as int), rows as nat)->value;
    let ghost consumed = column_decode(inner@, bytes.skip(rows as int), rows as nat)->consumed;
    assert(rows <= bytes.len());
    assert(column_decode(inner@, bytes.skip(rows as int), rows as nat) is Value);
    assert(consumed <= bytes.skip(rows as int).len());
    assert(bytes.skip(rows as int).skip(consumed as int) =~= bytes.skip((rows + consumed) as int));
    let mut out: Vec<Value> = Vec::new();
    let mut i: usize = 0;
    while i < rows
        invariant
            i <= rows,
            mask@ == bytes.take(rows as int),
            bytes.len() >= rows,
            present@.len() == rows,
            values_model(present@) == decoded,
            out@.len() == i,
            forall|k: int|
                0 <= k < i ==> (#[trigger] out@[k])@ == (if bytes[k] != 0 {
                    ValueModel::Null
                } else {
                    decoded[k]
                }),
        decreases rows - i,
    {
        assert(mask@[i as int] == bytes[i as int]);
        assert(values_model(present@)[i as int] == present@[i as int]@);
        if mask[i] != 0 {
            out.push(Value::Null);
        } else {
            out.push(present[i].clone());
        }
        i += 1;
    }
    assert(values_model(out@) =~= Seq::new(
        rows as nat,
        |i: int|
            if bytes[i] != 0 {
                ValueModel::Null
            } else {
                decoded[i]
            },
    ));
    Ok(out)
}

/// Reads a column of `rows` arrays: the cumulative offsets, then the
/// column of all elements.
fn deserialize_array(t: &Type, reader: &mut ByteReader, rows: usize) -> (r: Result<
    Vec<Value>,
    KlickhouseError,
>)
    requires
        (t is Array),
    ensures
        match column_decode(t@, old(reader).unread(), rows as nat) {
            Decoded::Value { value, consumed } => (r matches Ok(v) && values_model(v@) == value
                && v@.len() == rows) && consumed <= old(reader).unread().len()
                    && final(reader).unread() == old(reader).unread().skip(consumed as int),
            Decoded::Failed(kind) => r matches Err(e) && e.is_plain(kind),
        },
    decreases t, 0nat,
{
    proof {
        lemma_column_decode_kinds(t@, reader.unread(), rows as nat);
    }
    let inner: &Type = match t {
        Type::Array(inner) => inner,
        _ => {
            return Err(malformed("type is no array"));
        },
    };
    let ghost bytes = reader.unread();
    let offsets = read_offsets(reader, rows)?;
    let total = total_of(&offsets);
    let ghost first = offsets_decode(bytes, rows as nat)->consumed;
    let flat = inner.deserialize_column(reader, total)?;
    let ghost decoded = column_decode(inner@, bytes.skip(first as int), total as nat)->value;
    let ghost more = column_decode(inner@, bytes.skip(first as int), total as nat)->consumed;
    assert(bytes.skip(first as int).skip(more as int) =~= bytes.skip((first + more) as int));
    let mut out: Vec<Value> = Vec::new();
    let mut i: usize = 0;
    while i < rows
        invariant
            i <= rows,
            offsets_ordered(bytes, rows as nat),
            offsets@.len() == rows,
            forall|k: int| 0 <= k < rows ==> (#[trigger] offsets@[k]) == offset_at(bytes, k),
            total == part_start(bytes, rows as int),
            flat@.len() == total,
            values_model(flat@) == decoded,
            out@.len() == i,
            forall|k: int|
                0 <= k < i ==> (#[trigger] out@[k])@ == ValueModel::Array(
                    split_parts(decoded, bytes, rows as nat)[k],
                ),
        decreases rows - i,
    {
        let start = if i == 0 {
            0
        } else {
            offsets[i - 1]
        };
        proof {
            lemma_offsets_monotone(bytes, rows as nat, i as int, rows - 1);
        }
        let items = slice_values(&flat, start, offsets[i]);
        out.push(Value::Array(items));
        i += 1;
    }
    assert(values_model(out@) =~= Seq::new(
        rows as nat,
        |i: int| ValueModel::Array(split_parts(decoded, bytes, rows as nat)[i]),
    ));
    Ok(out)
}

/// Reads a column of `rows` maps: the cumulative offsets, then the column
/// of all keys, then the column of all values.
fn deserialize_map(t: &Type, reader: &mut ByteReader, rows: usize) -> (r: Result<
    Vec<Value>,
    KlickhouseError,
>)
    requires
        (t is Mapping),
    ensures
        match column_decode(t@, old(reader).unread(), rows as nat) {
            Decoded::Value { value, consumed } => (r matches Ok(v) && values_model(v@) == value
                && v@.len() == rows) && consumed <= old(reader).unread().len()
                    && final(reader).unread() == old(reader).unread().skip(consumed as int),
            Decoded::Failed(kind) => r matches Err(e) && e.is_plain(kind),
        },
    decreases t, 0nat,
{
    proof {
        lemma_column_decode_kinds(t@, reader.unread(), rows as nat);
    }
    let (key, value) = match t {
        Type::Mapping(key, value) => (key, value),
        _ => {
            return Err(malformed("type is no map"));
        },
    };
    let ghost bytes = reader.unread();
    let offsets = read_offsets(reader, rows)?;
    let total = total_of(&offsets);
    let ghost first = offsets_decode(bytes, rows as nat)->consumed;
    let flat_keys = key.deserialize_column(reader, total)?;
    let ghost keys = column_decode(key@, bytes.skip(first as int), total as nat)->value;
    let ghost more = column_decode(key@, bytes.skip(first as int), total as nat)->consumed;
    assert(bytes.skip(first as int).skip(more as int) =~= bytes.skip((first + more) as int));
    let flat_items = value.deserialize_column(reader, total)?;
    let ghost items = column_decode(value@, bytes.skip((first + more) as int), total as nat)->value;
    let ghost rest = column_decode(
        value@,
        bytes.skip((first + more) as int),
        total as nat,
    )->consumed;
    assert(bytes.skip((first + more) as int).skip(rest as int) =~= bytes.skip(
        (first + more + rest) as int,
    ));
    let mut out: Vec<Value> = Vec::new();
    let mut i: usize = 0;
    while i < rows
        invariant
            i <= rows,
            offsets_ordered(bytes, rows as nat),
            offsets@.len() == rows,
            forall|k: int| 0 <= k < rows ==> (#[trigger] offsets@[k]) == offset_at(bytes, k),
            total == part_start(bytes, rows as int),
            flat_keys@.len() == total,
            flat_items@.len() == total,
            values_model(flat_keys@) == keys,
            values_model(flat_items@) == items,
            out@.len() == i,
            forall|k: int|
                0 <= k < i ==> (#[trigger] out@[k])@ == ValueModel::Mapping(
                    split_parts(keys, bytes, rows as nat)[k],
                    split_parts(items, bytes, rows as nat)[k],
                ),
        decreases rows - i,
    {
        let start = if i == 0 {
            0
        } else {
            offsets[i - 1]
        };
        proof {
            lemma_offsets_monotone(bytes, rows as nat, i as int, rows - 1);
        }
        let part_keys = slice_values(&flat_keys, start, offsets[i]);
        let part_items = slice_values(&flat_items, start, offsets[i]);
        out.push(Value::Mapping(part_keys, part_items));
        i += 1;
    }
    assert(values_model(out@) =~= Seq::new(
        rows as nat,
        |i: int|
            ValueModel::Mapping(
                split_parts(keys, bytes, rows as nat)[i],
                split_parts(items, bytes, rows as nat)[i],
            ),
    ));
    Ok(out)
}

/// Model of a list of columns.
pub open spec fn columns_model(columns: Seq<Vec<Value>>) -> Seq<Seq<ValueModel>> {
    Seq::new(columns.len(), |k: int| values_model(columns[k]@))
}

/// Where a beginning of a tuple column cannot be read, the column cannot.
pub proof fn lemma_tuple_decode_failed(
    items: Seq<TypeModel>,
    bytes: Seq<u8>,
    n: nat,
    m: nat,
    upto: nat,
)
    requires
        1 <= m <= upto <= items.len(),
        tuple_decode(items, bytes, n, m) is Failed,
    ensures
        tuple_decode(items, bytes, n, upto) == tuple_decode(items, bytes, n, m),
    decreases upto - m,
{
    if m < upto {
        lemma_tuple_decode_failed(items, bytes, n, m, (upto - 1) as nat);
    }
}

/// Reads a column of `rows` tuples: for each component its column, in
/// field order.
fn deserialize_tuple(t: &Type, reader: &mut ByteReader, rows: usize) -> (r: Result<
    Vec<Value>,
    KlickhouseError,
>)
    requires
        (t is Tuple),
    ensures
        match column_decode(t@, old(reader).unread(), rows as nat) {
            Decoded::Value { value, consumed } => (r matches Ok(v) && values_model(v@) == value
                && v@.len() == rows) && consumed <= old(reader).unread().len()
                    && final(reader).unread() == old(reader).unread().skip(consumed as int),
            Decoded::Failed(kind) => r matches Err(e) && e.is_plain(kind),
        },
    decreases t, 0nat,
{
    proof {
        lemma_column_decode_kinds(t@, reader.unread(), rows as nat);
    }
    let items: &Vec<Type> = match t {
        Type::Tuple(items) => items,
        _ => {
            return Err(malformed("type is no tuple"));
        },
    };
    let ghost bytes = reader.unread();
    let ghost types = types_model(items@);
    let mut columns: Vec<Vec<Value>> = Vec::new();
    let mut k: usize = 0;
    proof {
        assert(bytes.skip(0) =~= bytes);
        assert(columns_model(columns@) =~= Seq::<Seq<ValueModel>>::empty());
    }
    while k < items.len()
        invariant
            *t matches Type::Tuple(v) && v == *items,
            k <= items@.len(),
            types == types_model(items@),
            bytes == old(reader).unread(),
            columns@.len() == k,
            forall|j: int| 0 <= j < k ==> (#[trigger] columns@[j])@.len() == rows,
            tuple_decode(types, bytes, rows as nat, k as nat) matches Decoded::Value {
                value,
                consumed,
            } && columns_model(columns@) == value && consumed <= bytes.len() && reader.unread()
                == bytes.skip(consumed as int),
        decreases items@.len() - k,
    {
        let ghost before = columns_model(columns@);
        let ghost consumed = tuple_decode(types, bytes, rows as nat, k as nat)->consumed;
        assert(types[k as int] == items@[k as int]@);
        assert(types.len() == items@.len());
        match items[k].deserialize_column(reader, rows) {
            Ok(column) => {
                let ghost more = column_decode(
                    types[k as int],
                    bytes.skip(consumed as int),
                    rows as nat,
                )->consumed;
                assert(bytes.skip(consumed as int).skip(more as int) =~= bytes.skip(
                    (consumed + more) as int,
                ));
                let ghost model = values_model(column@);
                columns.push(column);
                assert(columns_model(columns@) =~= before.push(model));
            },
            Err(e) => {
                proof {
                    lemma_tuple_decode_failed(
                        types,
                        bytes,
                        rows as nat,
                        (k + 1) as nat,
                        items@.len() as nat,
                    );
                }
                return Err(e);
            },
        }
        k += 1;
    }
    let ghost decoded = columns_model(columns@);
    let mut out: Vec<Value> = Vec::new();
    let mut i: usize = 0;
    while i < rows
        invariant
            i <= rows,
            columns@.len() == items@.len(),
            decoded == columns_model(columns@),
            forall|j: int| 0 <= j < columns@.len() ==> (#[trigger] columns@[j])@.len() == rows,
            out@.len() == i,
            forall|j: int|
                0 <= j < i ==> (#[trigger] out@[j])@ == ValueModel::Tuple(
                    Seq::new(items@.len() as nat, |k: int| decoded[k][j]),
                ),
        decreases rows - i,
    {
        let mut fields: Vec<Value> = Vec::new();
        let mut c: usize = 0;
        while c < columns.len()
            invariant
                i < rows,
                c <= columns@.len(),
                decoded == columns_model(columns@),
                forall|j: int| 0 <= j < columns@.len() ==> (#[trigger] columns@[j])@.len() == rows,
                fields@.len() == c,
                forall|j: int| 0 <= j < c ==> (#[trigger] fields@[j])@ == decoded[j][i as int],
            decreases columns@.len() - c,
        {
            assert(decoded[c as int] == values_model(columns@[c as int]@));
            assert(values_model(columns@[c as int]@)[i as int] == columns@[c as int]@[i as int]@);
            fields.push(columns[c][i].clone());
            c += 1;
        }
        assert(values_model(fields@) =~= Seq::new(
            items@.len() as nat,
            |k: int| decoded[k][i as int],
        ));
        out.push(Value::Tuple(fields));
        i += 1;
    }
    assert(values_model(out@) =~= Seq::new(
        rows as nat,
        |i: int| ValueModel::Tuple(Seq::new(types.len(), |k: int| decoded[k][i])),
    ));
    Ok(out)
}

impl Type {
    /// Reads what stands in front of a column of this type. A dictionary
    /// encoding of an unknown version is a deserialize error.
    pub fn deserialize_prefix(&self, reader: &mut ByteReader) -> (r: Result<(), KlickhouseError>)
        ensures
            match prefix_decode(self@, old(reader).unread()) {
                Decoded::Value { value: _, consumed } => r is Ok
                    && consumed <= old(reader).unread().len()
                        && final(reader).unread() == old(reader).unread().skip(
                    consumed as int,
                ),
                Decoded::Failed(kind) => r matches Err(e) && e.is_plain(kind),
            },
        decreases self,
    {
        let ghost bytes = reader.unread();
        match self {
            Type::LowCardinality(_) => {
                let version = read_u64(reader)?;
                if version != LOW_CARDINALITY_VERSION {
                    return Err(malformed("unknown version of a dictionary encoding"));
                }
                Ok(())
            },
            Type::Nullable(inner) => inner.deserialize_prefix(reader),
            Type::Array(inner) => inner.deserialize_prefix(reader),
            Type::Mapping(key, value) => {
                key.deserialize_prefix(reader)?;
                let ghost consumed = prefix_decode(key@, bytes)->consumed;
                value.deserialize_prefix(reader)?;
                let ghost more = prefix_decode(value@, bytes.skip(consumed as int))->consumed;
                assert(bytes.skip(consumed as int).skip(more as int) =~= bytes.skip(
                    (consumed + more) as int,
                ));
                Ok(())
            },
            Type::Tuple(items) => {
                let ghost types = types_model(items@);
                let mut k: usize = 0;
                assert(bytes.skip(0) =~= bytes);
                while k < items.len()
                    invariant
                        *self matches Type::Tuple(v) && v == *items,
                        k <= items@.len(),
                        types == types_model(items@),
                        bytes == old(reader).unread(),
                        prefixes_decode(types, bytes, k as nat) matches Decoded::Value {
                            value: _,
                            consumed,
                        } && consumed <= bytes.len() && reader.unread() == bytes.skip(
                            consumed as int,
                        ),
                    decreases items@.len() - k,
                {
                    let ghost consumed = prefixes_decode(types, bytes, k as nat)->consumed;
                    assert(types[k as int] == items@[k as int]@);
                    match items[k].deserialize_prefix(reader) {
                        Ok(()) => {
                            let ghost more = prefix_decode(
                                types[k as int],
                                bytes.skip(consumed as int),
                            )->consumed;
                            assert(bytes.skip(consumed as int).skip(more as int) =~= bytes.skip(
                                (consumed + more) as int,
                            ));
                        },
                        Err(e) => {
                            proof {
                                lemma_prefixes_decode_failed(
                                    types,
                                    bytes,
                                    (k + 1) as nat,
                                    items@.len() as nat,
                                );
                            }
                            return Err(e);
                        },
                    }
                    k += 1;
                }
                Ok(())
            },
            _ => {
                assert(bytes.skip(0) =~= bytes);
                Ok(())
            },
        }
    }

    /// Reads a column of `rows` elements of this type.
        pub fn deserialize_column(&self, reader: &mut ByteReader, rows: usize) -> (r: Result<
        Vec<Value>,
        KlickhouseError,
    >)
        ensures
            match column_decode(self@, old(reader).unread(), rows as nat) {
                Decoded::Value { value, consumed } => (r matches Ok(v) && values_model(v@)
                    == value && v@.len() == rows) && consumed <= old(reader).unread().len()
                    && final(reader).unread() == old(reader).unread().skip(consumed as int),
                Decoded::Failed(kind) => r matches Err(e) && e.is_plain(kind),
            },
        decreases self, 1nat,
    {
        proof {
            lemma_column_decode_kinds(self@, reader.unread(), rows as nat);
            lemma_strings_decode_len(reader.unread(), rows as nat);
        }
        match self {
            Type::String => deserialize_strings(reader, rows),
            Type::FixedString(width) => deserialize_fixed_strings(*width, reader, rows),
            Type::Nullable(_) => deserialize_nullable(self, reader, rows),
            Type::Array(_) => deserialize_array(self, reader, rows),
            Type::Mapping(_, _) => deserialize_map(self, reader, rows),
            Type::Tuple(_) => deserialize_tuple(self, reader, rows),
            Type::LowCardinality(_) => deserialize_low_cardinality(self, reader, rows),
            _ => deserialize_plain(self, reader, rows),
        }
    }
}

/// Reads a column of `rows` elements of a shape or of a scalar type.
fn deserialize_plain(t: &Type, reader: &mut ByteReader, rows: usize) -> (r: Result<
    Vec<Value>,
    KlickhouseError,
>)
    requires
        !(t is String),
        !(t is FixedString),
        !(t is Nullable),
        !(t is Array),
        !(t is Mapping),
        !(t is Tuple),
        !(t is LowCardinality),
    ensures
        match column_decode(t@, old(reader).unread(), rows as nat) {
            Decoded::Value { value, consumed } => (r matches Ok(v) && values_model(v@) == value
                && v@.len() == rows) && consumed <= old(reader).unread().len()
                    && final(reader).unread() == old(reader).unread().skip(consumed as int),
            Decoded::Failed(kind) => r matches Err(e) && e.is_plain(kind),
        },
{
    proof {
        lemma_column_decode_kinds(t@, reader.unread(), rows as nat);
    }
    match t {
        Type::Point => deserialize_points(reader, rows),
        Type::Ring => deserialize_rings(reader, rows),
        Type::Polygon => deserialize_polygons(reader, rows),
        Type::MultiPolygon => deserialize_multi_polygons(reader, rows),
        _ => match scalar_width_of(t) {
            Some(width) => deserialize_scalars(t, width, reader, rows),
            None => Err(malformed("type has no column encoding")),
        },
    }
}

/// A string column that was read has as many elements as were asked for.
pub proof fn lemma_strings_decode_len(bytes: Seq<u8>, n: nat)
    ensures
        strings_decode(bytes, n) matches Decoded::Value { value, consumed } ==> value.len() == n,
    decreases n,
{
    if n > 0 {
        lemma_strings_decode_len(bytes, (n - 1) as nat);
    }
}

/// Where the prefixes of a beginning of a tuple cannot be read, those of
/// the tuple cannot.
pub proof fn lemma_prefixes_decode_failed(items: Seq<TypeModel>, bytes: Seq<u8>, m: nat, upto: nat)
    requires
        1 <= m <= upto <= items.len(),
        prefixes_decode(items, bytes, m) is Failed,
    ensures
        prefixes_decode(items, bytes, upto) == prefixes_decode(items, bytes, m),
    decreases upto - m,
{
    if m < upto {
        lemma_prefixes_decode_failed(items, bytes, m, (upto - 1) as nat);
    }
}

/// Reads `rows` dictionary indices of width code `code` and returns the
/// rows that they stand for.
fn read_rows(
    entries: &Vec<Value>,
    nullable: bool,
    code: u64,
    reader: &mut ByteReader,
    rows: usize,
) -> (r: Result<Vec<Value>, KlickhouseError>)
    requires
        code <= 3,
    ensures
        match rows_decode(
            values_model(entries@),
            nullable,
            code as nat,
            old(reader).unread(),
            rows as nat,
        ) {
            Decoded::Value { value, consumed } => (r matches Ok(v) && values_model(v@) == value
                && v@.len() == rows) && consumed <= old(reader).unread().len()
                    && final(reader).unread() == old(reader).unread().skip(consumed as int),
            Decoded::Failed(kind) => r matches Err(e) && e.is_plain(kind),
        },
{
    let ghost tail = reader.unread();
    let ghost decoded = values_model(entries@);
    let width: usize = if code == 0 {
        1
    } else if code == 1 {
        2
    } else if code == 2 {
        4
    } else {
        8
    };
    let data = read_packed(reader, rows, width)?;
    let total = data.len();
    let mut out: Vec<Value> = Vec::new();
    let mut i: usize = 0;
    while i < rows
        invariant
            i <= rows,
            code <= 3,
            width == index_width(code as nat),
            total == rows * width,
            tail == old(reader).unread(),
            tail.len() >= rows * width,
            data@ == tail.take(rows * width),
            decoded == values_model(entries@),
            out@.len() == i,
            forall|k: int|
                0 <= k < i ==> #[trigger] index_at(tail, code as nat, k) < entries@.len(),
            forall|k: int|
                0 <= k < i ==> (#[trigger] out@[k])@ == (if nullable && index_at(
                    tail,
                    code as nat,
                    k,
                ) == 0 {
                    ValueModel::Null
                } else {
                    decoded[index_at(tail, code as nat, k) as int]
                }),
        decreases rows - i,
    {
        proof {
            lemma_chunk_bounds(rows as int, width as int, i as int);
        }
        let piece = slice_subrange(data.as_slice(), i * width, i * width + width);
        assert(piece@ =~= chunk(tail, width as nat, i as int));
        let index: u64 = if code == 0 {
            piece[0] as u64
        } else if code == 1 {
            u16_from_le_bytes(piece) as u64
        } else if code == 2 {
            u32_from_le_bytes(piece) as u64
        } else {
            u64_from_le_bytes(piece)
        };
        assert(index == index_at(tail, code as nat, i as int));
        if index >= entries.len() as u64 {
            return Err(malformed("index outside the dictionary"));
        }
        if nullable && index == 0 {
            out.push(Value::Null);
        } else {
            assert(values_model(entries@)[index as int] == entries@[index as int]@);
            out.push(entries[index as usize].clone());
        }
        i += 1;
    }
    assert(values_model(out@) =~= rows_decode(
        decoded,
        nullable,
        code as nat,
        tail,
        rows as nat,
    )->value);
    Ok(out)
}

/// Reads a dictionary-encoded column of `rows` elements: flags with the
/// width of the indices, the size of the dictionary, the dictionary, the
/// number of rows, and one index per row. A column of no rows takes no
/// bytes.
fn deserialize_low_cardinality(t: &Type, reader: &mut ByteReader, rows: usize) -> (r: Result<
    Vec<Value>,
    KlickhouseError,
>)
    requires
        (t is LowCardinality),
    ensures
        match low_cardinality_decode(t@, old(reader).unread(), rows as nat) {
            Decoded::Value { value, consumed } => (r matches Ok(v) && values_model(v@) == value
                && v@.len() == rows) && consumed <= old(reader).unread().len()
                    && final(reader).unread() == old(reader).unread().skip(consumed as int),
            Decoded::Failed(kind) => r matches Err(e) && e.is_plain(kind),
        },
    decreases t, 0nat,
{
    let inner: &Type = match t {
        Type::LowCardinality(inner) => inner,
        _ => {
            return Err(malformed("type is not dictionary-encoded"));
        },
    };
    let ghost bytes = reader.unread();
    assert(t@ == TypeModel::LowCardinality(Box::new(inner@)));
    if rows == 0 {
        let out: Vec<Value> = Vec::new();
        assert(bytes.skip(0) =~= bytes);
        assert(values_model(out@) =~= Seq::<ValueModel>::empty());
        return Ok(out);
    }
    let nullable = match inner {
        Type::Nullable(_) => true,
        _ => false,
    };
    let base: &Type = match inner {
        Type::Nullable(b) => b,
        other => other,
    };
    assert(base@ == dictionary_type(inner@));
    if !is_key_type(base) {
        return Err(malformed("type cannot be dictionary-encoded"));
    }
    if reader.remaining() < 16 {
        return Err(end_of_input());
    }
    let flags = read_u64(reader)?;
    let size = read_u64(reader)?;
    assert(bytes.skip(8).subrange(0, 8) =~= bytes.subrange(8, 16));
    assert(bytes.skip(8).skip(8) =~= bytes.skip(16));
    let code = flags % 256;
    if code > 3 || size > usize::MAX as u64 {
        return Err(malformed("unknown index width or dictionary size"));
    }
    let entries = base.deserialize_column(reader, size as usize)?;
    let ghost consumed: int = column_decode(base@, bytes.skip(16), size as nat)->consumed as int;
    assert(bytes.skip(16).skip(consumed) =~= bytes.skip(16 + consumed));
    let count = read_u64(reader)?;
    assert(bytes.skip(16 + consumed).subrange(0, 8) =~= bytes.subrange(
        16 + consumed,
        16 + consumed + 8,
    ));
    assert(bytes.skip(16 + consumed).skip(8) =~= bytes.skip(16 + consumed + 8));
    if count != rows as u64 {
        return Err(malformed("row count of a dictionary-encoded column does not match"));
    }
    let ghost tail = bytes.skip(16 + consumed + 8);
    let out = read_rows(&entries, nullable, code, reader, rows)?;
    let ghost more = rows_decode(
        values_model(entries@),
        nullable,
        code as nat,
        tail,
        rows as nat,
    )->consumed;
    assert(tail.skip(more as int) =~= bytes.skip(16 + consumed + 8 + more));
    Ok(out)
}

/// A copy of `flat[start..end]` as a ring.
fn slice_points(flat: &Vec<Point>, start: usize, end: usize) -> (r: Ring)
    requires
        start <= end <= flat@.len(),
    ensures
        r.model() == points_model(flat@).subrange(start as int, end as int),
{
    let mut out: Vec<Point> = Vec::new();
    let mut i: usize = start;
    while i < end
        invariant
            start <= i <= end <= flat@.len(),
            out@ == flat@.subrange(start as int, i as int),
        decreases end - i,
    {
        out.push(flat[i]);
        i += 1;
        assert(out@ =~= flat@.subrange(start as int, i as int));
    }
    let ring = Ring(out);
    assert(ring.model() =~= points_model(flat@).subrange(start as int, end as int));
    ring
}

/// A copy of `flat[start..end]` as a polygon.
fn slice_rings(flat: &Vec<Ring>, start: usize, end: usize) -> (r: Polygon)
    requires
        start <= end <= flat@.len(),
    ensures
        r.model() == rings_model(flat@).subrange(start as int, end as int),
{
    let mut out: Vec<Ring> = Vec::new();
    let mut i: usize = start;
    while i < end
        invariant
            start <= i <= end <= flat@.len(),
            out@.len() == i - start,
            forall|k: int|
                0 <= k < i - start ==> (#[trigger] out@[k]).model() == flat@[start + k].model(),
        decreases end - i,
    {
        out.push(crate::values::clone_ring(&flat[i]));
        i += 1;
    }
    let polygon = Polygon(out);
    assert(polygon.model() =~= rings_model(flat@).subrange(start as int, end as int));
    polygon
}

/// A copy of `flat[start..end]` as a multi-polygon.
fn slice_polygons(flat: &Vec<Polygon>, start: usize, end: usize) -> (r: MultiPolygon)
    requires
        start <= end <= flat@.len(),
    ensures
        r.model() == polygons_model(flat@).subrange(start as int, end as int),
{
    let mut out: Vec<Polygon> = Vec::new();
    let mut i: usize = start;
    while i < end
        invariant
            start <= i <= end <= flat@.len(),
            out@.len() == i - start,
            forall|k: int|
                0 <= k < i - start ==> (#[trigger] out@[k]).model() == flat@[start + k].model(),
        decreases end - i,
    {
        out.push(crate::values::clone_polygon(&flat[i]));
        i += 1;
    }
    let shape = MultiPolygon(out);
    assert(shape.model() =~= polygons_model(flat@).subrange(start as int, end as int));
    shape
}

/// Reads `rows` points: all first coordinates, then all second ones.
fn read_points(reader: &mut ByteReader, rows: usize) -> (r: Result<Vec<Point>, KlickhouseError>)
    ensures
        match points_decode(old(reader).unread(), rows as nat) {
            Decoded::Value { value, consumed } => (r matches Ok(v) && points_model(v@) == value
                && v@.len() == rows) && consumed <= old(reader).unread().len()
                    && final(reader).unread() == old(reader).unread().skip(consumed as int),
            Decoded::Failed(kind) => r matches Err(e) && e.is_plain(kind),
        },
{
    proof {
        reveal(points_decode);
    }
    let ghost bytes = reader.unread();
    let data = read_packed(reader, rows, 16)?;
    let total = data.len();
    let mut out: Vec<Point> = Vec::new();
    let mut i: usize = 0;
    while i < rows
        invariant
            i <= rows,
            total == rows * 16,
            bytes.len() >= rows * 16,
            data@ == bytes.take(rows * 16),
            out@.len() == i,
            forall|k: int|
                0 <= k < i ==> (#[trigger] out@[k]).model() == (
                    spec_u64_from_le_bytes(chunk(bytes, 8, k)),
                    spec_u64_from_le_bytes(chunk(bytes, 8, rows + k)),
                ),
        decreases rows - i,
    {
        proof {
            reveal(points_decode);
        }
        let first = slice_subrange(data.as_slice(), i * 8, i * 8 + 8);
        let second = slice_subrange(data.as_slice(), (rows + i) * 8, (rows + i) * 8 + 8);
        assert(first@ =~= chunk(bytes, 8, i as int));
        assert(second@ =~= chunk(bytes, 8, rows + i));
        let point = Point([u64_from_le_bytes(first), u64_from_le_bytes(second)]);
        out.push(point);
        i += 1;
    }
    assert(points_model(out@) =~= points_decode(bytes, rows as nat)->value);
    Ok(out)
}

/// Reads `rows` rings: the cumulative offsets, then the points of all.
fn read_rings(reader: &mut ByteReader, rows: usize) -> (r: Result<Vec<Ring>, KlickhouseError>)
    ensures
        match rings_decode(old(reader).unread(), rows as nat) {
            Decoded::Value { value, consumed } => (r matches Ok(v) && rings_model(v@) == value
                && v@.len() == rows) && consumed <= old(reader).unread().len()
                    && final(reader).unread() == old(reader).unread().skip(consumed as int),
            Decoded::Failed(kind) => r matches Err(e) && e.is_plain(kind),
        },
{
    proof {
        reveal(rings_decode);
    }
    let ghost bytes = reader.unread();
    let offsets = read_offsets(reader, rows)?;
    let total = total_of(&offsets);
    let ghost first = offsets_decode(bytes, rows as nat)->consumed;
    let flat = read_points(reader, total)?;
    let ghost decoded = points_decode(bytes.skip(first as int), total as nat)->value;
    let ghost more = points_decode(bytes.skip(first as int), total as nat)->consumed;
    assert(bytes.skip(first as int).skip(more as int) =~= bytes.skip((first + more) as int));
    let mut out: Vec<Ring> = Vec::new();
    let mut i: usize = 0;
    while i < rows
        invariant
            i <= rows,
            offsets_ordered(bytes, rows as nat),
            offsets@.len() == rows,
            forall|k: int| 0 <= k < rows ==> (#[trigger] offsets@[k]) == offset_at(bytes, k),
            total == part_start(bytes, rows as int),
            flat@.len() == total,
            points_model(flat@) == decoded,
            out@.len() == i,
            forall|k: int|
                0 <= k < i ==> (#[trigger] out@[k]).model() == split_parts(
                    decoded,
                    bytes,
                    rows as nat,
                )[k],
        decreases rows - i,
    {
        proof {
            reveal(rings_decode);
        }
        let start = if i == 0 {
            0
        } else {
            offsets[i - 1]
        };
        proof {
            lemma_offsets_monotone(bytes, rows as nat, i as int, rows - 1);
        }
        out.push(slice_points(&flat, start, offsets[i]));
        i += 1;
    }
    assert(rings_model(out@) =~= split_parts(decoded, bytes, rows as nat));
    Ok(out)
}

/// Reads `rows` polygons: the cumulative offsets, then the rings of all.
fn read_polygons(reader: &mut ByteReader, rows: usize) -> (r: Result<Vec<Polygon>, KlickhouseError>)
    ensures
        match polygons_decode(old(reader).unread(), rows as nat) {
            Decoded::Value { value, consumed } => (r matches Ok(v) && polygons_model(v@) == value
                && v@.len() == rows) && consumed <= old(reader).unread().len()
                    && final(reader).unread() == old(reader).unread().skip(consumed as int),
            Decoded::Failed(kind) => r matches Err(e) && e.is_plain(kind),
        },
{
    proof {
        reveal(polygons_decode);
    }
    let ghost bytes = reader.unread();
    let offsets = read_offsets(reader, rows)?;
    let total = total_of(&offsets);
    let ghost first = offsets_decode(bytes, rows as nat)->consumed;
    let flat = read_rings(reader, total)?;
    let ghost decoded = rings_decode(bytes.skip(first as int), total as nat)->value;
    let ghost more = rings_decode(bytes.skip(first as int), total as nat)->consumed;
    assert(bytes.skip(first as int).skip(more as int) =~= bytes.skip((first + more) as int));
    let mut out: Vec<Polygon> = Vec::new();
    let mut i: usize = 0;
    while i < rows
        invariant
            i <= rows,
            offsets_ordered(bytes, rows as nat),
            offsets@.len() == rows,
            forall|k: int| 0 <= k < rows ==> (#[trigger] offsets@[k]) == offset_at(bytes, k),
            total == part_start(bytes, rows as int),
            flat@.len() == total,
            rings_model(flat@) == decoded,
            out@.len() == i,
            forall|k: int|
                0 <= k < i ==> (#[trigger] out@[k]).model() == split_parts(
                    decoded,
                    bytes,
                    rows as nat,
                )[k],
        decreases rows - i,
    {
        proof {
            reveal(polygons_decode);
        }
        let start = if i == 0 {
            0
        } else {
            offsets[i - 1]
        };
        proof {
            lemma_offsets_monotone(bytes, rows as nat, i as int, rows - 1);
        }
        out.push(slice_rings(&flat, start, offsets[i]));
        i += 1;
    }
    assert(polygons_model(out@) =~= split_parts(decoded, bytes, rows as nat));
    Ok(out)
}

/// Reads `rows` multi-polygons: the cumulative offsets, then the polygons
/// of all.
fn read_multi_polygons(reader: &mut ByteReader, rows: usize) -> (r: Result<
    Vec<MultiPolygon>,
    KlickhouseError,
>)
    ensures
        match multi_polygons_decode(old(reader).unread(), rows as nat) {
            Decoded::Value { value, consumed } => (r matches Ok(v) && multi_polygons_model(v@)
                == value && v@.len() == rows) && consumed <= old(reader).unread().len()
                    && final(reader).unread() == old(reader).unread().skip(consumed as int),
            Decoded::Failed(kind) => r matches Err(e) && e.is_plain(kind),
        },
{
    proof {
        reveal(multi_polygons_decode);
    }
    let ghost bytes = reader.unread();
    let offsets = read_offsets(reader, rows)?;
    let total = total_of(&offsets);
    let ghost first = offsets_decode(bytes, rows as nat)->consumed;
    let flat = read_polygons(reader, total)?;
    let ghost decoded = polygons_decode(bytes.skip(first as int), total as nat)->value;
    let ghost more = polygons_decode(bytes.skip(first as int), total as nat)->consumed;
    assert(bytes.skip(first as int).skip(more as int) =~= bytes.skip((first + more) as int));
    let mut out: Vec<MultiPolygon> = Vec::new();
    let mut i: usize = 0;
    while i < rows
        invariant
            i <= rows,
            offsets_ordered(bytes, rows as nat),
            offsets@.len() == rows,
            forall|k: int| 0 <= k < rows ==> (#[trigger] offsets@[k]) == offset_at(bytes, k),
            total == part_start(bytes, rows as int),
            flat@.len() == total,
            polygons_model(flat@) == decoded,
            out@.len() == i,
            forall|k: int|
                0 <= k < i ==> (#[trigger] out@[k]).model() == split_parts(
                    decoded,
                    bytes,
                    rows as nat,
                )[k],
        decreases rows - i,
    {
        proof {
            reveal(multi_polygons_decode);
        }
        let start = if i == 0 {
            0
        } else {
            offsets[i - 1]
        };
        proof {
            lemma_offsets_monotone(bytes, rows as nat, i as int, rows - 1);
        }
        out.push(slice_polygons(&flat, start, offsets[i]));
        i += 1;
    }
    assert(multi_polygons_model(out@) =~= split_parts(decoded, bytes, rows as nat));
    Ok(out)
}

/// Reads a column of `rows` points.
fn deserialize_points(reader: &mut ByteReader, rows: usize) -> (r: Result<
    Vec<Value>,
    KlickhouseError,
>)
    ensures
        match point_values_decode(old(reader).unread(), rows as nat) {
            Decoded::Value { value, consumed } => (r matches Ok(v) && values_model(v@) == value
                && v@.len() == rows) && consumed <= old(reader).unread().len()
                    && final(reader).unread() == old(reader).unread().skip(consumed as int),
            Decoded::Failed(kind) => r matches Err(e) && e.is_plain(kind),
        },
{
    proof {
        reveal(point_values_decode);
    }
    let points = read_points(reader, rows)?;
    let mut out: Vec<Value> = Vec::new();
    let mut i: usize = 0;
    while i < rows
        invariant
            i <= rows,
            points@.len() == rows,
            out@.len() == i,
            forall|k: int|
                0 <= k < i ==> (#[trigger] out@[k])@ == ValueModel::Point(
                    points_model(points@)[k].0,
                    points_model(points@)[k].1,
                ),
        decreases rows - i,
    {
        proof {
            reveal(point_values_decode);
        }
        out.push(Value::Point(points[i]));
        i += 1;
    }
    assert(values_model(out@) =~= Seq::new(
        rows as nat,
        |i: int| ValueModel::Point(points_model(points@)[i].0, points_model(points@)[i].1),
    ));
    Ok(out)
}

/// Reads a column of `rows` rings.
fn deserialize_rings(reader: &mut ByteReader, rows: usize) -> (r: Result<
    Vec<Value>,
    KlickhouseError,
>)
    ensures
        match ring_values_decode(old(reader).unread(), rows as nat) {
            Decoded::Value { value, consumed } => (r matches Ok(v) && values_model(v@) == value
                && v@.len() == rows) && consumed <= old(reader).unread().len()
                    && final(reader).unread() == old(reader).unread().skip(consumed as int),
            Decoded::Failed(kind) => r matches Err(e) && e.is_plain(kind),
        },
{
    proof {
        reveal(ring_values_decode);
    }
    let rings = read_rings(reader, rows)?;
    let ghost decoded = rings_model(rings@);
    let mut out: Vec<Value> = Vec::new();
    let mut i: usize = 0;
    while i < rows
        invariant
            i <= rows,
            rings@.len() == rows,
            decoded == rings_model(rings@),
            out@.len() == i,
            forall|k: int| 0 <= k < i ==> (#[trigger] out@[k])@ == ValueModel::Ring(decoded[k]),
        decreases rows - i,
    {
        proof {
            reveal(ring_values_decode);
        }
        out.push(Value::Ring(crate::values::clone_ring(&rings[i])));
        i += 1;
    }
    assert(values_model(out@) =~= Seq::new(rows as nat, |i: int| ValueModel::Ring(decoded[i])));
    Ok(out)
}

/// Reads a column of `rows` polygons.
fn deserialize_polygons(reader: &mut ByteReader, rows: usize) -> (r: Result<
    Vec<Value>,
    KlickhouseError,
>)
    ensures
        match polygon_values_decode(old(reader).unread(), rows as nat) {
            Decoded::Value { value, consumed } => (r matches Ok(v) && values_model(v@) == value
                && v@.len() == rows) && consumed <= old(reader).unread().len()
                    && final(reader).unread() == old(reader).unread().skip(consumed as int),
            Decoded::Failed(kind) => r matches Err(e) && e.is_plain(kind),
        },
{
    proof {
        reveal(polygon_values_decode);
    }
    let polygons = read_polygons(reader, rows)?;
    let ghost decoded = polygons_model(polygons@);
    let mut out: Vec<Value> = Vec::new();
    let mut i: usize = 0;
    while i < rows
        invariant
            i <= rows,
            polygons@.len() == rows,
            decoded == polygons_model(polygons@),
            out@.len() == i,
            forall|k: int| 0 <= k < i ==> (#[trigger] out@[k])@ == ValueModel::Polygon(decoded[k]),
        decreases rows - i,
    {
        proof {
            reveal(polygon_values_decode);
        }
        out.push(Value::Polygon(crate::values::clone_polygon(&polygons[i])));
        i += 1;
    }
    assert(values_model(out@) =~= Seq::new(rows as nat, |i: int| ValueModel::Polygon(decoded[i])));
    Ok(out)
}

/// Reads a column of `rows` multi-polygons.
fn deserialize_multi_polygons(reader: &mut ByteReader, rows: usize) -> (r: Result<
    Vec<Value>,
    KlickhouseError,
>)
    ensures
        match multi_polygon_values_decode(old(reader).unread(), rows as nat) {
            Decoded::Value { value, consumed } => (r matches Ok(v) && values_model(v@) == value
                && v@.len() == rows) && consumed <= old(reader).unread().len()
                    && final(reader).unread() == old(reader).unread().skip(consumed as int),
            Decoded::Failed(kind) => r matches Err(e) && e.is_plain(kind),
        },
{
    proof {
        reveal(multi_polygon_values_decode);
    }
    let shapes = read_multi_polygons(reader, rows)?;
    let ghost decoded = multi_polygons_model(shapes@);
    let mut out: Vec<Value> = Vec::new();
    let mut i: usize = 0;
    while i < rows
        invariant
            i <= rows,
            shapes@.len() == rows,
            decoded == multi_polygons_model(shapes@),
            out@.len() == i,
            forall|k: int|
                0 <= k < i ==> (#[trigger] out@[k])@ == ValueModel::MultiPolygon(decoded[k]),
        decreases rows - i,
    {
        proof {
            reveal(multi_polygon_values_decode);
        }
        out.push(Value::MultiPolygon(crate::values::clone_multi_polygon(&shapes[i])));
        i += 1;
    }
    assert(values_model(out@) =~= Seq::new(
        rows as nat,
        |i: int| ValueModel::MultiPolygon(decoded[i]),
    ));
    Ok(out)
}

} // verus!

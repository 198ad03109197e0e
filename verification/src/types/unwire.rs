//! The wire format of a column, stated as functions from bytes to values.

use crate::errors::ErrorKind;
use crate::io::{string_decode, Decoded};
use crate::types::wire::{
    default_model, dictionary_type, key_type, scalar_width, LOW_CARDINALITY_VERSION,
};
use crate::types::TypeModel;
use crate::values::ValueModel;
use vstd::bytes::{
    spec_u128_from_le_bytes, spec_u16_from_le_bytes, spec_u32_from_le_bytes,
    spec_u64_from_le_bytes,
};
use vstd::prelude::*;

verus! {

/// The UUID that sixteen bytes spell: the high half first, each half
/// little-endian.
pub open spec fn uuid_value(bytes: Seq<u8>) -> u128 {
    (spec_u64_from_le_bytes(bytes.subrange(0, 8)) as u128 * 0x1_0000_0000_0000_0000
        + spec_u64_from_le_bytes(bytes.subrange(8, 16)) as u128) as u128
}

/// The element of the scalar type `t` that `bytes` spell; `bytes` has the
/// width of the type.
pub open spec fn scalar_value(t: TypeModel, bytes: Seq<u8>) -> ValueModel {
    match t {
        TypeModel::Int8 => ValueModel::Int8(bytes[0] as i8),
        TypeModel::Int16 => ValueModel::Int16(spec_u16_from_le_bytes(bytes) as i16),
        TypeModel::Int32 => ValueModel::Int32(spec_u32_from_le_bytes(bytes) as i32),
        TypeModel::Int64 => ValueModel::Int64(spec_u64_from_le_bytes(bytes) as i64),
        TypeModel::Int128 => ValueModel::Int128(spec_u128_from_le_bytes(bytes) as i128),
        TypeModel::Int256 => ValueModel::Int256(bytes.reverse()),
        TypeModel::UInt8 => ValueModel::UInt8(bytes[0]),
        TypeModel::UInt16 => ValueModel::UInt16(spec_u16_from_le_bytes(bytes)),
        TypeModel::UInt32 => ValueModel::UInt32(spec_u32_from_le_bytes(bytes)),
        TypeModel::UInt64 => ValueModel::UInt64(spec_u64_from_le_bytes(bytes)),
        TypeModel::UInt128 => ValueModel::UInt128(spec_u128_from_le_bytes(bytes)),
        TypeModel::UInt256 => ValueModel::UInt256(bytes.reverse()),
        TypeModel::Float32 => ValueModel::Float32(spec_u32_from_le_bytes(bytes)),
        TypeModel::Float64 => ValueModel::Float64(spec_u64_from_le_bytes(bytes)),
        TypeModel::Decimal32(scale) => ValueModel::Decimal32(
            scale,
            spec_u32_from_le_bytes(bytes) as i32,
        ),
        TypeModel::Decimal64(scale) => ValueModel::Decimal64(
            scale,
            spec_u64_from_le_bytes(bytes) as i64,
        ),
        TypeModel::Decimal128(scale) => ValueModel::Decimal128(
            scale,
            spec_u128_from_le_bytes(bytes) as i128,
        ),
        TypeModel::Decimal256(scale) => ValueModel::Decimal256(scale, bytes.reverse()),
        TypeModel::Uuid => ValueModel::Uuid(uuid_value(bytes)),
        TypeModel::Date => ValueModel::Date(spec_u16_from_le_bytes(bytes)),
        TypeModel::DateTime(zone) => ValueModel::DateTime(zone, spec_u32_from_le_bytes(bytes)),
        TypeModel::DateTime64(precision, zone) => ValueModel::DateTime64(
            zone,
            spec_u64_from_le_bytes(bytes) as i64,
            precision,
        ),
        TypeModel::Enum8(_) => ValueModel::Enum8(bytes[0] as i8),
        TypeModel::Enum16(_) => ValueModel::Enum16(spec_u16_from_le_bytes(bytes) as i16),
        _ => ValueModel::Null,
    }
}

/// Element `i` of a packed column of elements of `width` bytes.
pub open spec fn chunk(bytes: Seq<u8>, width: nat, i: int) -> Seq<u8> {
    bytes.subrange(i * width, i * width + width)
}

/// A column of `n` elements of the scalar type `t`.
pub open spec fn scalars_decode(t: TypeModel, width: nat, bytes: Seq<u8>, n: nat) -> Decoded<
    Seq<ValueModel>,
> {
    if bytes.len() < n * width {
        Decoded::Failed(ErrorKind::Io)
    } else {
        Decoded::Value {
            value: Seq::new(n, |i: int| scalar_value(t, chunk(bytes, width, i))),
            consumed: n * width,
        }
    }
}

/// A column of `n` strings.
pub open spec fn strings_decode(bytes: Seq<u8>, n: nat) -> Decoded<Seq<ValueModel>>
    decreases n,
{
    if n == 0 {
        Decoded::Value { value: Seq::empty(), consumed: 0 }
    } else {
        match strings_decode(bytes, (n - 1) as nat) {
            Decoded::Value { value: head, consumed } => match string_decode(
                bytes.skip(consumed as int),
            ) {
                Decoded::Value { value: last, consumed: more } => Decoded::Value {
                    value: head.push(ValueModel::String(last)),
                    consumed: consumed + more,
                },
                Decoded::Failed(kind) => Decoded::Failed(kind),
            },
            Decoded::Failed(kind) => Decoded::Failed(kind),
        }
    }
}

/// The number of bytes in front of the first zero byte.
pub open spec fn text_len(bytes: Seq<u8>) -> nat
    decreases bytes.len(),
{
    if bytes.len() == 0 || bytes[0] == 0 {
        0
    } else {
        1 + text_len(bytes.skip(1))
    }
}

/// A column of `n` strings of a fixed width: each element ends in front
/// of its first zero byte.
pub open spec fn fixed_strings_decode(width: nat, bytes: Seq<u8>, n: nat) -> Decoded<
    Seq<ValueModel>,
> {
    if bytes.len() < n * width {
        Decoded::Failed(ErrorKind::Io)
    } else {
        Decoded::Value {
            value: Seq::new(
                n,
                |i: int|
                    ValueModel::String(
                        chunk(bytes, width, i).take(text_len(chunk(bytes, width, i)) as int),
                    ),
            ),
            consumed: n * width,
        }
    }
}

/// Offset `i` of `n` cumulative offsets.
pub open spec fn offset_at(bytes: Seq<u8>, i: int) -> nat {
    spec_u64_from_le_bytes(chunk(bytes, 8, i)) as nat
}

/// Where part `i` starts among all elements.
pub open spec fn part_start(bytes: Seq<u8>, i: int) -> nat {
    if i <= 0 {
        0
    } else {
        offset_at(bytes, i - 1)
    }
}

/// Whether the first `n` offsets never decrease and stay within what this
/// machine can address.
pub open spec fn offsets_ordered(bytes: Seq<u8>, n: nat) -> bool {
    &&& forall|i: int, j: int|
        0 <= i <= j < n ==> #[trigger] offset_at(bytes, i) <= #[trigger] offset_at(bytes, j)
    &&& forall|i: int| 0 <= i < n ==> #[trigger] offset_at(bytes, i) <= usize::MAX
}

/// The parts that `n` offsets cut `flat` into.
pub open spec fn split_parts<T>(flat: Seq<T>, bytes: Seq<u8>, n: nat) -> Seq<Seq<T>> {
    Seq::new(n, |i: int| flat.subrange(part_start(bytes, i) as int, offset_at(bytes, i) as int))
}

/// What `n` cumulative offsets at the head of `bytes` say: the number of
/// all elements. Offsets that decrease are a deserialize error.
pub open spec fn offsets_decode(bytes: Seq<u8>, n: nat) -> Decoded<nat> {
    if bytes.len() < n * 8 {
        Decoded::Failed(ErrorKind::Io)
    } else if !offsets_ordered(bytes, n) {
        Decoded::Failed(ErrorKind::DeserializeError)
    } else {
        Decoded::Value { value: part_start(bytes, n as int), consumed: n * 8 }
    }
}

/// A column of `n` points: all first coordinates, then all second ones.
#[verifier::opaque]
pub open spec fn points_decode(bytes: Seq<u8>, n: nat) -> Decoded<Seq<(u64, u64)>> {
    if bytes.len() < n * 16 {
        Decoded::Failed(ErrorKind::Io)
    } else {
        Decoded::Value {
            value: Seq::new(
                n,
                |i: int|
                    (
                        spec_u64_from_le_bytes(chunk(bytes, 8, i)),
                        spec_u64_from_le_bytes(chunk(bytes, 8, n + i)),
                    ),
            ),
            consumed: n * 16,
        }
    }
}

/// A column of `n` rings.
#[verifier::opaque]
pub open spec fn rings_decode(bytes: Seq<u8>, n: nat) -> Decoded<Seq<Seq<(u64, u64)>>> {
    match offsets_decode(bytes, n) {
        Decoded::Value { value: total, consumed } => match points_decode(
            bytes.skip(consumed as int),
            total,
        ) {
            Decoded::Value { value: flat, consumed: more } => Decoded::Value {
                value: split_parts(flat, bytes, n),
                consumed: consumed + more,
            },
            Decoded::Failed(kind) => Decoded::Failed(kind),
        },
        Decoded::Failed(kind) => Decoded::Failed(kind),
    }
}

/// A column of `n` polygons.
#[verifier::opaque]
pub open spec fn polygons_decode(bytes: Seq<u8>, n: nat) -> Decoded<Seq<Seq<Seq<(u64, u64)>>>> {
    match offsets_decode(bytes, n) {
        Decoded::Value { value: total, consumed } => match rings_decode(
            bytes.skip(consumed as int),
            total,
        ) {
            Decoded::Value { value: flat, consumed: more } => Decoded::Value {
                value: split_parts(flat, bytes, n),
                consumed: consumed + more,
            },
            Decoded::Failed(kind) => Decoded::Failed(kind),
        },
        Decoded::Failed(kind) => Decoded::Failed(kind),
    }
}

/// A column of `n` multi-polygons.
#[verifier::opaque]
pub open spec fn multi_polygons_decode(bytes: Seq<u8>, n: nat) -> Decoded<
    Seq<Seq<Seq<Seq<(u64, u64)>>>>,
> {
    match offsets_decode(bytes, n) {
        Decoded::Value { value: total, consumed } => match polygons_decode(
            bytes.skip(consumed as int),
            total,
        ) {
            Decoded::Value { value: flat, consumed: more } => Decoded::Value {
                value: split_parts(flat, bytes, n),
                consumed: consumed + more,
            },
            Decoded::Failed(kind) => Decoded::Failed(kind),
        },
        Decoded::Failed(kind) => Decoded::Failed(kind),
    }
}

/// The number of bytes of an index of width code `code`.
pub open spec fn index_width(code: nat) -> nat {
    if code == 0 {
        1
    } else if code == 1 {
        2
    } else if code == 2 {
        4
    } else {
        8
    }
}

/// Index `i` of a packed column of indices of width code `code`.
pub open spec fn index_at(bytes: Seq<u8>, code: nat, i: int) -> nat {
    let bytes = chunk(bytes, index_width(code), i);
    if code == 0 {
        bytes[0] as nat
    } else if code == 1 {
        spec_u16_from_le_bytes(bytes) as nat
    } else if code == 2 {
        spec_u32_from_le_bytes(bytes) as nat
    } else {
        spec_u64_from_le_bytes(bytes) as nat
    }
}

/// The rows that `n` indices into `entries` stand for: for a nullable
/// column index 0 is the absent element. An index outside the dictionary
/// is a deserialize error.
pub open spec fn rows_decode(
    entries: Seq<ValueModel>,
    nullable: bool,
    code: nat,
    bytes: Seq<u8>,
    n: nat,
) -> Decoded<Seq<ValueModel>> {
    if bytes.len() < n * index_width(code) {
        Decoded::Failed(ErrorKind::Io)
    } else if !(forall|i: int| 0 <= i < n ==> #[trigger] index_at(bytes, code, i) < entries.len()) {
        Decoded::Failed(ErrorKind::DeserializeError)
    } else {
        Decoded::Value {
            value: Seq::new(
                n,
                |i: int|
                    if nullable && index_at(bytes, code, i) == 0 {
                        ValueModel::Null
                    } else {
                        entries[index_at(bytes, code, i) as int]
                    },
            ),
            consumed: n * index_width(code),
        }
    }
}

/// The column of `n` elements of type `t` at the head of `bytes`.
pub open spec fn column_decode(t: TypeModel, bytes: Seq<u8>, n: nat) -> Decoded<Seq<ValueModel>>
    decreases t, 1nat,
{
    match t {
        TypeModel::String => strings_decode(bytes, n),
        TypeModel::FixedString(width) => fixed_strings_decode(width, bytes, n),
        TypeModel::Nullable(_) => nullable_decode(t, bytes, n),
        TypeModel::Array(_) => array_decode(t, bytes, n),
        TypeModel::Mapping(_, _) => map_decode(t, bytes, n),
        TypeModel::Tuple(_) => tuple_rows_decode(t, bytes, n),
        TypeModel::LowCardinality(_) => low_cardinality_decode(t, bytes, n),
        TypeModel::Point => point_values_decode(bytes, n),
        TypeModel::Ring => ring_values_decode(bytes, n),
        TypeModel::Polygon => polygon_values_decode(bytes, n),
        TypeModel::MultiPolygon => multi_polygon_values_decode(bytes, n),
        _ => match scalar_width(t) {
            Some(width) => scalars_decode(t, width, bytes, n),
            None => Decoded::Failed(ErrorKind::DeserializeError),
        },
    }
}

/// How the reading of a column goes by the kind of its type.
pub proof fn lemma_column_decode_kinds(t: TypeModel, bytes: Seq<u8>, n: nat)
    ensures
        t is String ==> column_decode(t, bytes, n) == strings_decode(bytes, n),
        t is FixedString ==> column_decode(t, bytes, n) == fixed_strings_decode(
            t->FixedString_0,
            bytes,
            n,
        ),
        t is Nullable ==> column_decode(t, bytes, n) == nullable_decode(t, bytes, n),
        t is Array ==> column_decode(t, bytes, n) == array_decode(t, bytes, n),
        t is Mapping ==> column_decode(t, bytes, n) == map_decode(t, bytes, n),
        t is Tuple ==> column_decode(t, bytes, n) == tuple_rows_decode(t, bytes, n),
        t is LowCardinality ==> column_decode(t, bytes, n) == low_cardinality_decode(t, bytes, n),
        t is Point ==> column_decode(t, bytes, n) == point_values_decode(bytes, n),
        t is Ring ==> column_decode(t, bytes, n) == ring_values_decode(bytes, n),
        t is Polygon ==> column_decode(t, bytes, n) == polygon_values_decode(bytes, n),
        t is MultiPolygon ==> column_decode(t, bytes, n) == multi_polygon_values_decode(bytes, n),
        scalar_width(t) matches Some(width) ==> column_decode(t, bytes, n) == scalars_decode(
            t,
            width,
            bytes,
            n,
        ),
{
}

/// A column of `n` points, as values.
#[verifier::opaque]
pub open spec fn point_values_decode(bytes: Seq<u8>, n: nat) -> Decoded<Seq<ValueModel>> {
    match points_decode(bytes, n) {
        Decoded::Value { value, consumed } => Decoded::Value {
            value: Seq::new(n, |i: int| ValueModel::Point(value[i].0, value[i].1)),
            consumed,
        },
        Decoded::Failed(kind) => Decoded::Failed(kind),
    }
}

/// A column of `n` rings, as values.
#[verifier::opaque]
pub open spec fn ring_values_decode(bytes: Seq<u8>, n: nat) -> Decoded<Seq<ValueModel>> {
    match rings_decode(bytes, n) {
        Decoded::Value { value, consumed } => Decoded::Value {
            value: Seq::new(n, |i: int| ValueModel::Ring(value[i])),
            consumed,
        },
        Decoded::Failed(kind) => Decoded::Failed(kind),
    }
}

/// A column of `n` polygons, as values.
#[verifier::opaque]
pub open spec fn polygon_values_decode(bytes: Seq<u8>, n: nat) -> Decoded<Seq<ValueModel>> {
    match polygons_decode(bytes, n) {
        Decoded::Value { value, consumed } => Decoded::Value {
            value: Seq::new(n, |i: int| ValueModel::Polygon(value[i])),
            consumed,
        },
        Decoded::Failed(kind) => Decoded::Failed(kind),
    }
}

/// A column of `n` multi-polygons, as values.
#[verifier::opaque]
pub open spec fn multi_polygon_values_decode(bytes: Seq<u8>, n: nat) -> Decoded<Seq<ValueModel>> {
    match multi_polygons_decode(bytes, n) {
        Decoded::Value { value, consumed } => Decoded::Value {
            value: Seq::new(n, |i: int| ValueModel::MultiPolygon(value[i])),
            consumed,
        },
        Decoded::Failed(kind) => Decoded::Failed(kind),
    }
}

/// A column of `n` elements of the nullable type `t`: a mask of one byte
/// per element, then the column of the inner type; what the inner column
/// holds at an absent element is dropped.
pub open spec fn nullable_decode(t: TypeModel, bytes: Seq<u8>, n: nat) -> Decoded<Seq<ValueModel>>
    decreases t, 0nat,
{
    match t {
        TypeModel::Nullable(inner) => if bytes.len() < n {
            Decoded::Failed(ErrorKind::Io)
        } else {
            match column_decode(*inner, bytes.skip(n as int), n) {
                Decoded::Value { value, consumed } => Decoded::Value {
                    value: Seq::new(
                        n,
                        |i: int|
                            if bytes[i] != 0 {
                                ValueModel::Null
                            } else {
                                value[i]
                            },
                    ),
                    consumed: n + consumed,
                },
                Decoded::Failed(kind) => Decoded::Failed(kind),
            }
        },
        _ => Decoded::Failed(ErrorKind::DeserializeError),
    }
}

/// A column of `n` elements of the array type `t`: the cumulative offsets,
/// then the column of all elements.
pub open spec fn array_decode(t: TypeModel, bytes: Seq<u8>, n: nat) -> Decoded<Seq<ValueModel>>
    decreases t, 0nat,
{
    match t {
        TypeModel::Array(inner) => match offsets_decode(bytes, n) {
            Decoded::Value { value: total, consumed } => match column_decode(
                *inner,
                bytes.skip(consumed as int),
                total,
            ) {
                Decoded::Value { value: flat, consumed: more } => Decoded::Value {
                    value: Seq::new(n, |i: int| ValueModel::Array(split_parts(flat, bytes, n)[i])),
                    consumed: consumed + more,
                },
                Decoded::Failed(kind) => Decoded::Failed(kind),
            },
            Decoded::Failed(kind) => Decoded::Failed(kind),
        },
        _ => Decoded::Failed(ErrorKind::DeserializeError),
    }
}

/// A column of `n` elements of the map type `t`: the cumulative offsets,
/// then the column of all keys, then the column of all values.
pub open spec fn map_decode(t: TypeModel, bytes: Seq<u8>, n: nat) -> Decoded<Seq<ValueModel>>
    decreases t, 0nat,
{
    match t {
        TypeModel::Mapping(key, value) => match offsets_decode(bytes, n) {
            Decoded::Value { value: total, consumed } => match column_decode(
                *key,
                bytes.skip(consumed as int),
                total,
            ) {
                Decoded::Value { value: keys, consumed: more } => match column_decode(
                    *value,
                    bytes.skip((consumed + more) as int),
                    total,
                ) {
                    Decoded::Value { value: items, consumed: rest } => Decoded::Value {
                        value: Seq::new(
                            n,
                            |i: int|
                                ValueModel::Mapping(
                                    split_parts(keys, bytes, n)[i],
                                    split_parts(items, bytes, n)[i],
                                ),
                        ),
                        consumed: consumed + more + rest,
                    },
                    Decoded::Failed(kind) => Decoded::Failed(kind),
                },
                Decoded::Failed(kind) => Decoded::Failed(kind),
            },
            Decoded::Failed(kind) => Decoded::Failed(kind),
        },
        _ => Decoded::Failed(ErrorKind::DeserializeError),
    }
}

/// A column of `n` elements of the tuple type `t`: for each component its
/// column, in field order.
pub open spec fn tuple_rows_decode(t: TypeModel, bytes: Seq<u8>, n: nat) -> Decoded<
    Seq<ValueModel>,
>
    decreases t, 0nat,
{
    match t {
        TypeModel::Tuple(items) => match tuple_decode(items, bytes, n, items.len()) {
            Decoded::Value { value: columns, consumed } => Decoded::Value {
                value: Seq::new(
                    n,
                    |i: int| ValueModel::Tuple(Seq::new(items.len(), |k: int| columns[k][i])),
                ),
                consumed,
            },
            Decoded::Failed(kind) => Decoded::Failed(kind),
        },
        _ => Decoded::Failed(ErrorKind::DeserializeError),
    }
}

/// A column of `n` elements of the dictionary-encoded type `t`: flags with the width of the indices, the size of the
/// dictionary, the dictionary, the number of rows, and one index per row. A
/// column of no rows takes no bytes.
pub open spec fn low_cardinality_decode(t: TypeModel, bytes: Seq<u8>, n: nat) -> Decoded<
    Seq<ValueModel>,
>
    decreases t, 0nat,
{
    match t {
        TypeModel::LowCardinality(inner) => low_cardinality_inner_decode(*inner, bytes, n),
        _ => Decoded::Failed(ErrorKind::DeserializeError),
    }
}

/// A dictionary-encoded column of `n` elements whose inner type is
/// `inner`.
pub open spec fn low_cardinality_inner_decode(inner: TypeModel, bytes: Seq<u8>, n: nat) -> Decoded<
    Seq<ValueModel>,
>
    decreases inner, 2nat,
{
    if n == 0 {
        Decoded::Value { value: Seq::empty(), consumed: 0 }
    } else if !key_type(dictionary_type(inner)) {
        Decoded::Failed(ErrorKind::DeserializeError)
    } else if bytes.len() < 16 {
        Decoded::Failed(ErrorKind::Io)
    } else {
        let code = (spec_u64_from_le_bytes(bytes.subrange(0, 8)) % 256) as nat;
        let size = spec_u64_from_le_bytes(bytes.subrange(8, 16)) as nat;
        if code > 3 || size > usize::MAX {
            Decoded::Failed(ErrorKind::DeserializeError)
        } else {
            match column_decode(dictionary_type(inner), bytes.skip(16), size) {
                Decoded::Value { value: entries, consumed } => if bytes.len() < 16 + consumed
                    + 8 {
                    Decoded::Failed(ErrorKind::Io)
                } else if spec_u64_from_le_bytes(
                    bytes.subrange((16 + consumed) as int, (16 + consumed + 8) as int),
                ) != n {
                    Decoded::Failed(ErrorKind::DeserializeError)
                } else {
                    match rows_decode(
                        entries,
                        inner is Nullable,
                        code,
                        bytes.skip((16 + consumed + 8) as int),
                        n,
                    ) {
                        Decoded::Value { value, consumed: more } => Decoded::Value {
                            value,
                            consumed: 16 + consumed + 8 + more,
                        },
                        Decoded::Failed(kind) => Decoded::Failed(kind),
                    }
                },
                Decoded::Failed(kind) => Decoded::Failed(kind),
            }
        }
    }
}

/// The columns of the first `upto` components of a tuple column of `n`
/// rows, one after the other.
pub open spec fn tuple_decode(items: Seq<TypeModel>, bytes: Seq<u8>, n: nat, upto: nat) -> Decoded<
    Seq<Seq<ValueModel>>,
>
    decreases items, upto,
{
    if upto == 0 || upto > items.len() {
        Decoded::Value { value: Seq::empty(), consumed: 0 }
    } else {
        match tuple_decode(items, bytes, n, (upto - 1) as nat) {
            Decoded::Value { value: head, consumed } => match column_decode(
                items[upto - 1],
                bytes.skip(consumed as int),
                n,
            ) {
                Decoded::Value { value: column, consumed: more } => Decoded::Value {
                    value: head.push(column),
                    consumed: consumed + more,
                },
                Decoded::Failed(kind) => Decoded::Failed(kind),
            },
            Decoded::Failed(kind) => Decoded::Failed(kind),
        }
    }
}

/// What stands in front of a column of type `t`: the number of bytes it
/// takes. A dictionary encoding of another version than
/// `LOW_CARDINALITY_VERSION` is a deserialize error.
pub open spec fn prefix_decode(t: TypeModel, bytes: Seq<u8>) -> Decoded<()>
    decreases t, 0nat,
{
    match t {
        TypeModel::LowCardinality(_) => if bytes.len() < 8 {
            Decoded::Failed(ErrorKind::Io)
        } else if spec_u64_from_le_bytes(bytes.subrange(0, 8)) != LOW_CARDINALITY_VERSION {
            Decoded::Failed(ErrorKind::DeserializeError)
        } else {
            Decoded::Value { value: (), consumed: 8 }
        },
        TypeModel::Nullable(inner) => prefix_decode(*inner, bytes),
        TypeModel::Array(inner) => prefix_decode(*inner, bytes),
        TypeModel::Mapping(key, value) => match prefix_decode(*key, bytes) {
            Decoded::Value { value: _, consumed } => match prefix_decode(
                *value,
                bytes.skip(consumed as int),
            ) {
                Decoded::Value { value: _, consumed: more } => Decoded::Value {
                    value: (),
                    consumed: consumed + more,
                },
                Decoded::Failed(kind) => Decoded::Failed(kind),
            },
            Decoded::Failed(kind) => Decoded::Failed(kind),
        },
        TypeModel::Tuple(items) => prefixes_decode(items, bytes, items.len()),
        _ => Decoded::Value { value: (), consumed: 0 },
    }
}

/// What stands in front of the first `upto` components of a tuple.
pub open spec fn prefixes_decode(items: Seq<TypeModel>, bytes: Seq<u8>, upto: nat) -> Decoded<()>
    decreases items, upto,
{
    if upto == 0 || upto > items.len() {
        Decoded::Value { value: (), consumed: 0 }
    } else {
        match prefixes_decode(items, bytes, (upto - 1) as nat) {
            Decoded::Value { value: _, consumed } => match prefix_decode(
                items[upto - 1],
                bytes.skip(consumed as int),
            ) {
                Decoded::Value { value: _, consumed: more } => Decoded::Value {
                    value: (),
                    consumed: consumed + more,
                },
                Decoded::Failed(kind) => Decoded::Failed(kind),
            },
            Decoded::Failed(kind) => Decoded::Failed(kind),
        }
    }
}

} // verus!



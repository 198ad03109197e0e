//! The round-trip law of the column codec: what was written is read back.

use crate::errors::ErrorKind;
use crate::io::{lemma_string_roundtrip, string_bytes, string_decode, Decoded};
use crate::protocol::MAX_STRING_SIZE;
use crate::types::unwire::{
    multi_polygon_values_decode, multi_polygons_decode, point_values_decode, points_decode,
    polygon_values_decode, polygons_decode, ring_values_decode, rings_decode,
};
use crate::types::unwire::{
    array_decode, chunk, column_decode, fixed_strings_decode, map_decode, nullable_decode,
    offset_at, offsets_decode, offsets_ordered, part_start, scalar_value, scalars_decode,
    split_parts, strings_decode, text_len, tuple_decode, tuple_rows_decode, uuid_value,
};
use crate::types::unwire::{
    index_at, index_width, low_cardinality_decode, low_cardinality_inner_decode, rows_decode,
};
use crate::types::wire::{
    dictionary, dictionary_index, dictionary_type, distinct_present, index_bytes,
    index_width_code, indices_bytes, key_type, keys_or_absent, lemma_distinct_present_distinct,
    LOW_CARDINALITY_FLAGS,
};
use crate::types::wire::{
    halves_bytes, multi_polygon_parts, multi_polygons_bytes, point_parts, points_bytes,
    polygon_parts, polygons_bytes, ring_parts, rings_bytes,
};
use crate::types::wire::{
    array_parts, column_bytes, concat_all, default_model, fixed_string_element_bytes,
    fixed_strings_bytes, lemma_concat_all_take, map_parts, null_mask, nulls_replaced,
    offsets_bytes, scalar_bytes, scalar_width, scalars_bytes, string_element_bytes,
    strings_bytes, tuple_bytes, tuple_component, uuid_bytes, wide_bytes, zeros,
};
use crate::types::TypeModel;
use crate::values::ValueModel;
use vstd::bytes::{
    lemma_auto_spec_u128_to_from_le_bytes, lemma_auto_spec_u16_to_from_le_bytes,
    lemma_auto_spec_u32_to_from_le_bytes, lemma_auto_spec_u64_to_from_le_bytes,
    spec_u64_from_le_bytes, spec_u64_to_le_bytes,
};
use vstd::prelude::*;

verus! {

/// Whether `v` is an element of the scalar type `t` that the wire holds
/// exactly: a value of the type, with the scale, the time zone and the
/// precision of the type where it has them.
pub open spec fn scalar_canonical(t: TypeModel, v: ValueModel) -> bool {
    match (t, v) {
        (TypeModel::Int8, ValueModel::Int8(_)) => true,
        (TypeModel::Int16, ValueModel::Int16(_)) => true,
        (TypeModel::Int32, ValueModel::Int32(_)) => true,
        (TypeModel::Int64, ValueModel::Int64(_)) => true,
        (TypeModel::Int128, ValueModel::Int128(_)) => true,
        (TypeModel::Int256, ValueModel::Int256(x)) => x.len() == 32,
        (TypeModel::UInt8, ValueModel::UInt8(_)) => true,
        (TypeModel::UInt16, ValueModel::UInt16(_)) => true,
        (TypeModel::UInt32, ValueModel::UInt32(_)) => true,
        (TypeModel::UInt64, ValueModel::UInt64(_)) => true,
        (TypeModel::UInt128, ValueModel::UInt128(_)) => true,
        (TypeModel::UInt256, ValueModel::UInt256(x)) => x.len() == 32,
        (TypeModel::Float32, ValueModel::Float32(_)) => true,
        (TypeModel::Float64, ValueModel::Float64(_)) => true,
        (TypeModel::Decimal32(scale), ValueModel::Decimal32(s, _)) => s == scale,
        (TypeModel::Decimal64(scale), ValueModel::Decimal64(s, _)) => s == scale,
        (TypeModel::Decimal128(scale), ValueModel::Decimal128(s, _)) => s == scale,
        (TypeModel::Decimal256(scale), ValueModel::Decimal256(s, x)) => s == scale && x.len()
            == 32,
        (TypeModel::Uuid, ValueModel::Uuid(_)) => true,
        (TypeModel::Date, ValueModel::Date(_)) => true,
        (TypeModel::DateTime(zone), ValueModel::DateTime(z, _)) => z == zone,
        (TypeModel::DateTime64(precision, zone), ValueModel::DateTime64(z, _, p)) => z == zone
            && p == precision,
        (TypeModel::Enum8(_), ValueModel::Enum8(_)) => true,
        (TypeModel::Enum16(_), ValueModel::Enum16(_)) => true,
        _ => false,
    }
}

/// Signed integers survive the way through the unsigned ones of their
/// width.
pub proof fn lemma_signed_casts()
    ensures
        forall|x: i8| #![trigger (x as u8)] ((x as u8) as i8) == x,
        forall|x: i16| #![trigger (x as u16)] ((x as u16) as i16) == x,
        forall|x: i32| #![trigger (x as u32)] ((x as u32) as i32) == x,
        forall|x: i64| #![trigger (x as u64)] ((x as u64) as i64) == x,
        forall|x: i128| #![trigger (x as u128)] ((x as u128) as i128) == x,
{
    assert(forall|x: i8| #![trigger (x as u8)] ((x as u8) as i8) == x) by (bit_vector);
    assert(forall|x: i16| #![trigger (x as u16)] ((x as u16) as i16) == x) by (bit_vector);
    assert(forall|x: i32| #![trigger (x as u32)] ((x as u32) as i32) == x) by (bit_vector);
    assert(forall|x: i64| #![trigger (x as u64)] ((x as u64) as i64) == x) by (bit_vector);
    assert(forall|x: i128| #![trigger (x as u128)] ((x as u128) as i128) == x) by (bit_vector);
}

/// The two halves of a UUID spell it.
pub proof fn lemma_uuid_roundtrip(x: u128)
    ensures
        uuid_bytes(x).len() == 16,
        uuid_value(uuid_bytes(x)) == x,
{
    lemma_auto_spec_u64_to_from_le_bytes();
    let high = (x / 0x1_0000_0000_0000_0000) as u64;
    let low = (x % 0x1_0000_0000_0000_0000) as u64;
    let bytes = uuid_bytes(x);
    assert(bytes.subrange(0, 8) =~= spec_u64_to_le_bytes(high));
    assert(bytes.subrange(8, 16) =~= spec_u64_to_le_bytes(low));
    assert(x == (x / 0x1_0000_0000_0000_0000) * 0x1_0000_0000_0000_0000 + x
        % 0x1_0000_0000_0000_0000) by (nonlinear_arith);
}

/// One element of a scalar type, written and read back, is itself, and it
/// takes the width of the type.
pub proof fn lemma_scalar_roundtrip(t: TypeModel, v: ValueModel)
    requires
        scalar_canonical(t, v),
    ensures
        scalar_width(t) is Some,
        scalar_bytes(t, v) matches Some(bytes) && bytes.len() == scalar_width(t)->0
            && scalar_value(t, bytes) == v,
{
    lemma_signed_casts();
    lemma_auto_spec_u16_to_from_le_bytes();
    lemma_auto_spec_u32_to_from_le_bytes();
    lemma_auto_spec_u64_to_from_le_bytes();
    lemma_auto_spec_u128_to_from_le_bytes();
    let bytes = scalar_bytes(t, v)->0;
    match v {
        ValueModel::Int8(x) => {
            assert(bytes.len() == 1);
        },
        ValueModel::Enum8(x) => {
            assert(bytes.len() == 1);
        },
        ValueModel::UInt8(x) => {
            assert(bytes[0] == x);
        },
        ValueModel::Int256(x) => {
            assert(x.reverse().len() == 32);
            assert(x.reverse().reverse() =~= x);
        },
        ValueModel::UInt256(x) => {
            assert(x.reverse().len() == 32);
            assert(x.reverse().reverse() =~= x);
        },
        ValueModel::Decimal256(_, x) => {
            assert(x.reverse().len() == 32);
            assert(x.reverse().reverse() =~= x);
        },
        ValueModel::Uuid(x) => {
            lemma_uuid_roundtrip(x);
        },
        _ => {},
    }
    assert(scalar_bytes(t, v) is Some);
    assert(bytes.len() == scalar_width(t)->0);
    assert(scalar_value(t, bytes) == v);
}

/// Whether every element of a column of a scalar type is held exactly.
pub open spec fn scalars_canonical(t: TypeModel, values: Seq<ValueModel>) -> bool {
    forall|i: int| 0 <= i < values.len() ==> scalar_canonical(t, #[trigger] values[i])
}

/// A column of a scalar type is written as its elements, each at its
/// place.
pub proof fn lemma_scalars_bytes(t: TypeModel, values: Seq<ValueModel>)
    requires
        scalar_width(t) is Some,
        scalars_canonical(t, values),
    ensures
        scalars_bytes(t, values) matches Some(bytes) && bytes.len() == values.len()
            * scalar_width(t)->0 && (forall|i: int|
            0 <= i < values.len() ==> #[trigger] chunk(bytes, scalar_width(t)->0, i)
                == scalar_bytes(t, values[i])->0),
    decreases values.len(),
{
    if values.len() > 0 {
        let head = values.drop_last();
        let last = values.last();
        lemma_scalars_bytes(t, head);
        lemma_scalar_roundtrip(t, last);
        let width = scalar_width(t)->0;
        let before = scalars_bytes(t, head)->0;
        let piece = scalar_bytes(t, last)->0;
        let bytes = before + piece;
        let n = values.len() as int;
        assert((n - 1) * width + width == n * width) by (nonlinear_arith);
        assert forall|i: int| 0 <= i < n implies #[trigger] chunk(bytes, width, i) == scalar_bytes(
            t,
            values[i],
        )->0 by {
            assert(0 <= i * width && i * width + width <= n * width) by (nonlinear_arith)
                requires
                    0 <= i < n,
                    0 <= width,
            ;
            if i < n - 1 {
                assert(i * width + width <= (n - 1) * width) by (nonlinear_arith)
                    requires
                        0 <= i < n - 1,
                        0 <= width,
                ;
                assert(chunk(bytes, width, i) =~= chunk(before, width, i));
                assert(head[i] == values[i]);
            } else {
                assert(chunk(bytes, width, i) =~= piece);
            }
        }
    }
}

/// The law for scalar types: a column whose elements are held exactly,
/// written and read back, whatever follows it, is the same column, and
/// reading takes exactly what was written.
pub proof fn lemma_scalars_roundtrip(t: TypeModel, values: Seq<ValueModel>, rest: Seq<u8>)
    requires
        scalar_width(t) is Some,
        scalars_canonical(t, values),
    ensures
        scalars_bytes(t, values) matches Some(bytes) && scalars_decode(
            t,
            scalar_width(t)->0,
            bytes + rest,
            values.len(),
        ) == (Decoded::Value { value: values, consumed: bytes.len() }),
{
    lemma_scalars_bytes(t, values);
    let width = scalar_width(t)->0;
    let bytes = scalars_bytes(t, values)->0;
    let n = values.len() as int;
    let decoded = Seq::new(values.len(), |i: int| scalar_value(t, chunk(bytes + rest, width, i)));
    assert forall|i: int| 0 <= i < n implies decoded[i] == values[i] by {
        assert(0 <= i * width && i * width + width <= n * width) by (nonlinear_arith)
            requires
                0 <= i < n,
                0 <= width,
        ;
        assert(chunk(bytes + rest, width, i) =~= chunk(bytes, width, i));
        lemma_scalar_roundtrip(t, values[i]);
    }
    assert(decoded =~= values);
}

/// Whether every element of a column of strings is a string that the wire
/// can hold.
pub open spec fn strings_canonical(values: Seq<ValueModel>) -> bool {
    forall|i: int|
        0 <= i < values.len() ==> ((#[trigger] values[i]) matches ValueModel::String(bytes)
            && bytes.len() <= MAX_STRING_SIZE)
}

/// The law for strings.
pub proof fn lemma_strings_roundtrip(values: Seq<ValueModel>, rest: Seq<u8>)
    requires
        strings_canonical(values),
    ensures
        strings_bytes(values) matches Some(bytes) && strings_decode(bytes + rest, values.len())
            == (Decoded::Value { value: values, consumed: bytes.len() }),
    decreases values.len(),
{
    if values.len() > 0 {
        let head = values.drop_last();
        let last = values.last();
        let text = last->String_0;
        let piece = string_bytes(text);
        assert(forall|i: int| 0 <= i < head.len() ==> head[i] == values[i]);
        lemma_strings_roundtrip(head, piece + rest);
        let before = strings_bytes(head)->0;
        assert(before + (piece + rest) =~= (before + piece) + rest);
        assert(((before + piece) + rest).skip(before.len() as int) =~= piece + rest);
        lemma_string_roundtrip(text, rest);
        assert(head.push(ValueModel::String(text)) =~= values);
        assert(values[values.len() - 1] == ValueModel::String(text));
        assert(strings_bytes(values) == Some(before + piece));
        assert(strings_decode((before + piece) + rest, head.len()) == (Decoded::Value {
            value: head,
            consumed: before.len(),
        }));
        assert(string_decode(piece + rest) == (Decoded::Value {
            value: text,
            consumed: piece.len(),
        }));
    } else {
        assert(values =~= Seq::<ValueModel>::empty());
        assert(Seq::<u8>::empty() + rest =~= rest);
    }
}

/// Whether every element of a column of strings of a fixed width is a
/// string of at most that width without zero bytes.
pub open spec fn fixed_strings_canonical(width: nat, values: Seq<ValueModel>) -> bool {
    forall|i: int|
        0 <= i < values.len() ==> ((#[trigger] values[i]) matches ValueModel::String(bytes)
            && bytes.len() <= width && (forall|k: int| 0 <= k < bytes.len() ==> bytes[k] != 0))
}

/// A text without zero bytes, padded with zeros, ends where the padding
/// starts.
pub proof fn lemma_text_len_padded(text: Seq<u8>, padding: nat)
    requires
        forall|k: int| 0 <= k < text.len() ==> text[k] != 0,
    ensures
        text_len(text + zeros(padding)) == text.len(),
    decreases text.len(),
{
    let padded = text + zeros(padding);
    if text.len() > 0 {
        assert(padded[0] == text[0]);
        assert(padded.skip(1) =~= text.skip(1) + zeros(padding));
        assert forall|k: int| 0 <= k < text.skip(1).len() implies text.skip(1)[k] != 0 by {
            assert(text.skip(1)[k] == text[k + 1]);
        }
        lemma_text_len_padded(text.skip(1), padding);
    } else if padding > 0 {
        assert(padded[0] == 0);
    }
}

/// A column of strings of a fixed width is written as its elements, each
/// at its place.
pub proof fn lemma_fixed_strings_bytes(width: nat, values: Seq<ValueModel>)
    requires
        fixed_strings_canonical(width, values),
    ensures
        fixed_strings_bytes(width, values) matches Some(bytes) && bytes.len() == values.len()
            * width && (forall|i: int|
            0 <= i < values.len() ==> #[trigger] chunk(bytes, width, i)
                == fixed_string_element_bytes(width, values[i])->0),
    decreases values.len(),
{
    if values.len() > 0 {
        let head = values.drop_last();
        let last = values.last();
        assert(forall|i: int| 0 <= i < head.len() ==> head[i] == values[i]);
        lemma_fixed_strings_bytes(width, head);
        let before = fixed_strings_bytes(width, head)->0;
        let piece = fixed_string_element_bytes(width, last)->0;
        let bytes = before + piece;
        let n = values.len() as int;
        assert((n - 1) * width + width == n * width) by (nonlinear_arith);
        assert forall|i: int| 0 <= i < n implies #[trigger] chunk(bytes, width, i)
            == fixed_string_element_bytes(width, values[i])->0 by {
            assert(0 <= i * width && i * width + width <= n * width) by (nonlinear_arith)
                requires
                    0 <= i < n,
                    0 <= width,
            ;
            if i < n - 1 {
                assert(i * width + width <= (n - 1) * width) by (nonlinear_arith)
                    requires
                        0 <= i < n - 1,
                        0 <= width,
                ;
                assert(chunk(bytes, width, i) =~= chunk(before, width, i));
                assert(head[i] == values[i]);
            } else {
                assert(chunk(bytes, width, i) =~= piece);
            }
        }
    }
}

/// The law for strings of a fixed width.
pub proof fn lemma_fixed_strings_roundtrip(width: nat, values: Seq<ValueModel>, rest: Seq<u8>)
    requires
        fixed_strings_canonical(width, values),
    ensures
        fixed_strings_bytes(width, values) matches Some(bytes) && fixed_strings_decode(
            width,
            bytes + rest,
            values.len(),
        ) == (Decoded::Value { value: values, consumed: bytes.len() }),
{
    lemma_fixed_strings_bytes(width, values);
    let bytes = fixed_strings_bytes(width, values)->0;
    let n = values.len() as int;
    let decoded = Seq::new(
        values.len(),
        |i: int|
            ValueModel::String(
                chunk(bytes + rest, width, i).take(text_len(chunk(bytes + rest, width, i)) as int),
            ),
    );
    assert forall|i: int| 0 <= i < n implies decoded[i] == values[i] by {
        assert(0 <= i * width && i * width + width <= n * width) by (nonlinear_arith)
            requires
                0 <= i < n,
                0 <= width,
        ;
        assert(chunk(bytes + rest, width, i) =~= chunk(bytes, width, i));
        let text = values[i]->String_0;
        lemma_text_len_padded(text, (width - text.len()) as nat);
        assert((text + zeros((width - text.len()) as nat)).take(text.len() as int) =~= text);
    }
    assert(decoded =~= values);
}

/// The number of elements of the first `i` parts.
pub open spec fn prefix_len<T>(parts: Seq<Seq<T>>, i: int) -> nat {
    concat_all(parts.take(i)).len()
}

/// The elements of the first `i` parts are the first elements of all, and
/// part `i` comes right behind them.
pub proof fn lemma_concat_prefix<T>(parts: Seq<Seq<T>>, i: int)
    requires
        0 <= i <= parts.len(),
    ensures
        prefix_len(parts, i) <= concat_all(parts).len(),
        concat_all(parts.take(i)) == concat_all(parts).take(prefix_len(parts, i) as int),
        i < parts.len() ==> prefix_len(parts, i + 1) == prefix_len(parts, i) + parts[i].len()
            && concat_all(parts).subrange(
            prefix_len(parts, i) as int,
            prefix_len(parts, i + 1) as int,
        ) == parts[i],
    decreases parts.len() - i,
{
    if i == parts.len() {
        assert(parts.take(i) =~= parts);
        assert(concat_all(parts).take(concat_all(parts).len() as int) =~= concat_all(parts));
    } else {
        lemma_concat_prefix(parts, i + 1);
        lemma_concat_all_take(parts, i);
        let all = concat_all(parts);
        let next = concat_all(parts.take(i + 1));
        let here = concat_all(parts.take(i));
        assert(next == here + parts[i]);
        assert(here =~= next.take(here.len() as int));
        assert(next.take(here.len() as int) =~= all.take(here.len() as int));
        assert(parts[i] =~= next.skip(here.len() as int));
        assert(next.skip(here.len() as int) =~= all.subrange(
            here.len() as int,
            next.len() as int,
        ));
    }
}

/// The cumulative offsets of `parts` are written as eight bytes each, and
/// offset `i` counts the elements of the parts up to and including `i`.
pub proof fn lemma_offsets_bytes<T>(parts: Seq<Seq<T>>, rest: Seq<u8>)
    requires
        concat_all(parts).len() <= usize::MAX,
    ensures
        offsets_bytes(parts) matches Some(bytes) && bytes.len() == parts.len() * 8 && (forall|
            i: int,
        |
            0 <= i < parts.len() ==> #[trigger] offset_at(bytes + rest, i) == prefix_len(
                parts,
                i + 1,
            )),
    decreases parts.len(),
{
    lemma_auto_spec_u64_to_from_le_bytes();
    if parts.len() > 0 {
        let head = parts.drop_last();
        let n = parts.len() as int;
        lemma_concat_prefix(parts, n - 1);
        assert(parts.take(n - 1) =~= head);
        let total = concat_all(parts).len();
        let piece = spec_u64_to_le_bytes(total as u64);
        lemma_offsets_bytes(head, piece + rest);
        let before = offsets_bytes(head)->0;
        let bytes = before + piece;
        assert(before + (piece + rest) =~= bytes + rest);
        assert forall|i: int| 0 <= i < n implies #[trigger] offset_at(bytes + rest, i)
            == prefix_len(parts, i + 1) by {
            if i < n - 1 {
                assert(offset_at(bytes + rest, i) == offset_at(before + (piece + rest), i));
                assert(head.take(i + 1) =~= parts.take(i + 1));
            } else {
                assert(chunk(bytes + rest, 8, i) =~= piece);
                assert(parts.take(n) =~= parts);
            }
        }
    }
}

/// What was written as the offsets of `parts` is read back as offsets that
/// never decrease and that cut the elements of all parts into the parts.
pub proof fn lemma_offsets_roundtrip<T>(parts: Seq<Seq<T>>, rest: Seq<u8>)
    requires
        concat_all(parts).len() <= usize::MAX,
    ensures
        offsets_bytes(parts) matches Some(bytes) && bytes.len() == parts.len() * 8
            && offsets_decode(bytes + rest, parts.len()) == (Decoded::Value {
            value: concat_all(parts).len(),
            consumed: bytes.len(),
        }) && split_parts(concat_all(parts), bytes + rest, parts.len()) == parts,
{
    lemma_offsets_bytes(parts, rest);
    let bytes = offsets_bytes(parts)->0;
    let all = bytes + rest;
    let n = parts.len();
    assert forall|i: int| 0 <= i <= n implies #[trigger] part_start(all, i) == prefix_len(
        parts,
        i,
    ) by {
        if i == 0 {
            assert(parts.take(0) =~= Seq::<Seq<T>>::empty());
        } else {
            assert(offset_at(all, i - 1) == prefix_len(parts, i));
        }
    }
    assert forall|i: int, j: int| 0 <= i <= j < n implies #[trigger] offset_at(all, i)
        <= #[trigger] offset_at(all, j) by {
        lemma_prefix_len_monotone(parts, i + 1, j + 1);
    }
    assert forall|i: int| 0 <= i < n implies #[trigger] offset_at(all, i) <= usize::MAX by {
        lemma_concat_prefix(parts, i + 1);
    }
    assert(parts.take(n as int) =~= parts);
    let cut = split_parts(concat_all(parts), all, n);
    assert forall|i: int| 0 <= i < n implies cut[i] == parts[i] by {
        lemma_concat_prefix(parts, i);
        assert(part_start(all, i) == prefix_len(parts, i));
        assert(offset_at(all, i) == prefix_len(parts, i + 1));
    }
    assert(cut =~= parts);
}

/// The more parts, the more elements.
pub proof fn lemma_prefix_len_monotone<T>(parts: Seq<Seq<T>>, i: int, j: int)
    requires
        0 <= i <= j <= parts.len(),
    ensures
        prefix_len(parts, i) <= prefix_len(parts, j),
    decreases j - i,
{
    if i < j {
        lemma_prefix_len_monotone(parts, i, j - 1);
        lemma_concat_prefix(parts, j - 1);
    }
}

/// Whether a column of type `t` holds values that the wire holds exactly:
/// values of the type, strings that fit, strings of a fixed width without
/// zero bytes, and no more elements than this machine can address.
pub open spec fn column_canonical(t: TypeModel, values: Seq<ValueModel>) -> bool
    decreases t, 0nat,
{
    match t {
        TypeModel::String => strings_canonical(values),
        TypeModel::FixedString(width) => fixed_strings_canonical(width, values),
        TypeModel::Nullable(inner) => column_canonical(
            *inner,
            nulls_replaced(values, default_model(*inner)),
        ),
        TypeModel::Array(inner) => array_parts(values) matches Some(parts) && concat_all(
            parts,
        ).len() <= usize::MAX && column_canonical(*inner, concat_all(parts)),
        TypeModel::Mapping(key, value) => map_parts(values) matches Some(parts) && concat_all(
            parts.0,
        ).len() <= usize::MAX && column_canonical(*key, concat_all(parts.0))
            && column_canonical(*value, concat_all(parts.1)),
        TypeModel::Tuple(items) => tuple_component(values, items.len(), 0) is Some
            && tuple_canonical(items, values, 0),
        TypeModel::LowCardinality(inner) => values.len() == 0 || (dictionary_canonical(
            *inner,
            values,
        ) && column_canonical(dictionary_type(*inner), dictionary(*inner, values))),
        TypeModel::Point => point_parts(values) is Some,
        TypeModel::Ring => ring_parts(values) matches Some(rings) && rings_canonical(rings),
        TypeModel::Polygon => polygon_parts(values) matches Some(polygons) && polygons_canonical(
            polygons,
        ),
        TypeModel::MultiPolygon => multi_polygon_parts(values) matches Some(shapes)
            && multi_polygons_canonical(shapes),
        _ => scalar_width(t) is Some && scalars_canonical(t, values),
    }
}

/// Whether the values of a dictionary-encoded column can be dictionary
/// keys of its inner type: strings or scalars, absent only where the inner
/// type is nullable, and fewer than this machine can address.
pub open spec fn dictionary_canonical(inner: TypeModel, values: Seq<ValueModel>) -> bool {
    &&& values.len() < usize::MAX
    &&& key_type(dictionary_type(inner))
    &&& keys_or_absent(values)
    &&& inner is Nullable || forall|i: int| 0 <= i < values.len() ==> !(#[trigger] values[i]
        is Null)
}

/// Whether the rings of a column have no more points than this machine can
/// address.
pub open spec fn rings_canonical(rings: Seq<Seq<(u64, u64)>>) -> bool {
    concat_all(rings).len() <= usize::MAX
}

/// Whether the polygons of a column have no more rings and points than
/// this machine can address.
pub open spec fn polygons_canonical(polygons: Seq<Seq<Seq<(u64, u64)>>>) -> bool {
    concat_all(polygons).len() <= usize::MAX && rings_canonical(concat_all(polygons))
}

/// Whether the multi-polygons of a column have no more polygons, rings and
/// points than this machine can address.
pub open spec fn multi_polygons_canonical(shapes: Seq<Seq<Seq<Seq<(u64, u64)>>>>) -> bool {
    concat_all(shapes).len() <= usize::MAX && polygons_canonical(concat_all(shapes))
}

/// Whether, from component `from` on, the column of each component of a
/// column of tuples holds values that the wire holds exactly.
pub open spec fn tuple_canonical(items: Seq<TypeModel>, values: Seq<ValueModel>, from: nat) -> bool
    decreases items, items.len() - from,
{
    if from >= items.len() {
        true
    } else {
        column_canonical(items[from as int], tuple_component(values, items.len(), from as int)->0)
            && tuple_canonical(items, values, from + 1)
    }
}

/// Component `k` of the tuples of a column.
pub open spec fn component(items: Seq<TypeModel>, values: Seq<ValueModel>, k: int) -> Seq<
    ValueModel,
> {
    tuple_component(values, items.len(), k)->0
}

/// What holds from one component on holds from every later one on.
pub proof fn lemma_tuple_canonical_from(
    items: Seq<TypeModel>,
    values: Seq<ValueModel>,
    from: nat,
    k: nat,
)
    requires
        tuple_canonical(items, values, from),
        from <= k,
    ensures
        tuple_canonical(items, values, k),
        k < items.len() ==> column_canonical(items[k as int], component(items, values, k as int)),
    decreases k - from,
{
    if from < k && from < items.len() {
        lemma_tuple_canonical_from(items, values, from + 1, k);
    }
}

/// The keys of all maps are as many as their values, part by part.
pub proof fn lemma_map_parts_agree(values: Seq<ValueModel>, i: int)
    requires
        map_parts(values) is Some,
        0 <= i <= values.len(),
    ensures
        prefix_len((map_parts(values)->0).0, i) == prefix_len((map_parts(values)->0).1, i),
    decreases i,
{
    let keys = (map_parts(values)->0).0;
    let items = (map_parts(values)->0).1;
    if i == 0 {
        assert(keys.take(0) =~= Seq::<Seq<ValueModel>>::empty());
        assert(items.take(0) =~= Seq::<Seq<ValueModel>>::empty());
    } else {
        lemma_map_parts_agree(values, i - 1);
        lemma_concat_prefix(keys, i - 1);
        lemma_concat_prefix(items, i - 1);
        assert(keys[i - 1] == values[i - 1]->Mapping_0);
        assert(items[i - 1] == values[i - 1]->Mapping_1);
    }
}

/// The step of the law for nullable columns: where the inner column, with
/// the placeholders in it, is read back as it was written, the nullable
/// column is.
pub proof fn lemma_nullable_roundtrip(
    inner: TypeModel,
    values: Seq<ValueModel>,
    rest: Seq<u8>,
)
    requires
        column_bytes(inner, nulls_replaced(values, default_model(inner))) matches Some(payload)
            && column_decode(inner, payload + rest, values.len()) == (Decoded::Value {
            value: nulls_replaced(values, default_model(inner)),
            consumed: payload.len(),
        }),
    ensures
        column_bytes(TypeModel::Nullable(Box::new(inner)), values) matches Some(bytes)
            && column_decode(TypeModel::Nullable(Box::new(inner)), bytes + rest, values.len())
            == (Decoded::Value { value: values, consumed: bytes.len() }),
{
    let t = TypeModel::Nullable(Box::new(inner));
    let present = nulls_replaced(values, default_model(inner));
    let mask = null_mask(values);
    let payload = column_bytes(inner, present)->0;
    let bytes = mask + payload;
    let n = values.len();
    assert((bytes + rest).skip(n as int) =~= payload + rest);
    let decoded = Seq::new(
        n,
        |i: int|
            if (bytes + rest)[i] != 0 {
                ValueModel::Null
            } else {
                present[i]
            },
    );
    assert(decoded =~= values);
    assert(nullable_decode(t, bytes + rest, n) == (Decoded::Value {
        value: values,
        consumed: bytes.len(),
    }));
}

/// The step of the law for columns of arrays: where the column of all
/// elements is read back as it was written, the column of arrays is.
pub proof fn lemma_array_roundtrip(inner: TypeModel, values: Seq<ValueModel>, rest: Seq<u8>)
    requires
        array_parts(values) matches Some(parts) && concat_all(parts).len() <= usize::MAX && (
        column_bytes(inner, concat_all(parts)) matches Some(payload) && column_decode(
            inner,
            payload + rest,
            concat_all(parts).len(),
        ) == (Decoded::Value { value: concat_all(parts), consumed: payload.len() })),
    ensures
        column_bytes(TypeModel::Array(Box::new(inner)), values) matches Some(bytes)
            && column_decode(TypeModel::Array(Box::new(inner)), bytes + rest, values.len())
            == (Decoded::Value { value: values, consumed: bytes.len() }),
{
    let t = TypeModel::Array(Box::new(inner));
    let parts = array_parts(values)->0;
    let flat = concat_all(parts);
    let payload = column_bytes(inner, flat)->0;
    lemma_offsets_roundtrip(parts, payload + rest);
    let offsets = offsets_bytes(parts)->0;
    let bytes = offsets + payload;
    let n = values.len();
    assert(offsets + (payload + rest) =~= bytes + rest);
    assert((bytes + rest).skip(offsets.len() as int) =~= payload + rest);
    let decoded = Seq::new(n, |i: int| ValueModel::Array(split_parts(flat, bytes + rest, n)[i]));
    assert(decoded =~= values);
    assert(array_decode(t, bytes + rest, n) == (Decoded::Value {
        value: values,
        consumed: bytes.len(),
    }));
}

/// The values of all maps are cut into the maps by the offsets of the
/// keys.
pub proof fn lemma_map_items_split(values: Seq<ValueModel>, all: Seq<u8>)
    requires
        map_parts(values) is Some,
        forall|i: int|
            0 <= i < values.len() ==> #[trigger] offset_at(all, i) == prefix_len(
                (map_parts(values)->0).0,
                i + 1,
            ),
    ensures
        split_parts(concat_all((map_parts(values)->0).1), all, values.len()) == (map_parts(
            values,
        )->0).1,
{
    let keys = (map_parts(values)->0).0;
    let items = (map_parts(values)->0).1;
    let n = values.len();
    let cut_items = split_parts(concat_all(items), all, n);
    assert forall|i: int| 0 <= i < n implies cut_items[i] == items[i] by {
        lemma_map_parts_agree(values, i);
        lemma_map_parts_agree(values, i + 1);
        lemma_concat_prefix(items, i);
        if i > 0 {
            assert(offset_at(all, i - 1) == prefix_len(keys, i));
        } else {
            assert(keys.take(0) =~= Seq::<Seq<ValueModel>>::empty());
            assert(items.take(0) =~= Seq::<Seq<ValueModel>>::empty());
        }
        assert(offset_at(all, i) == prefix_len(keys, i + 1));
    }
    assert(cut_items =~= items);
}

/// The step of the law for columns of maps: where the column of all keys
/// and the column of all values are read back as they were written, the
/// column of maps is.
#[verifier::spinoff_prover]
#[verifier::rlimit(40)]
pub proof fn lemma_map_roundtrip(
    key: TypeModel,
    value: TypeModel,
    values: Seq<ValueModel>,
    rest: Seq<u8>,
)
    requires
        map_parts(values) matches Some(parts) && concat_all(parts.0).len() <= usize::MAX && (
        column_bytes(value, concat_all(parts.1)) matches Some(item_bytes) && column_decode(
            value,
            item_bytes + rest,
            concat_all(parts.1).len(),
        ) == (Decoded::Value { value: concat_all(parts.1), consumed: item_bytes.len() }) && (
        column_bytes(key, concat_all(parts.0)) matches Some(key_bytes) && column_decode(
            key,
            key_bytes + (item_bytes + rest),
            concat_all(parts.0).len(),
        ) == (Decoded::Value { value: concat_all(parts.0), consumed: key_bytes.len() }))),
    ensures
        column_bytes(TypeModel::Mapping(Box::new(key), Box::new(value)), values) matches Some(
            bytes,
        ) && column_decode(
            TypeModel::Mapping(Box::new(key), Box::new(value)),
            bytes + rest,
            values.len(),
        ) == (Decoded::Value { value: values, consumed: bytes.len() }),
{
    let t = TypeModel::Mapping(Box::new(key), Box::new(value));
    let keys = (map_parts(values)->0).0;
    let items = (map_parts(values)->0).1;
    let flat_keys = concat_all(keys);
    let flat_items = concat_all(items);
    let item_bytes = column_bytes(value, flat_items)->0;
    let key_bytes = column_bytes(key, flat_keys)->0;
    lemma_offsets_roundtrip(keys, key_bytes + item_bytes + rest);
    lemma_offsets_bytes(keys, key_bytes + item_bytes + rest);
    let offsets = offsets_bytes(keys)->0;
    let bytes = offsets + key_bytes + item_bytes;
    let all = bytes + rest;
    let n = values.len();
    assert(offsets + (key_bytes + item_bytes + rest) =~= all);
    assert(all.skip(offsets.len() as int) =~= key_bytes + (item_bytes + rest));
    assert(all.skip((offsets.len() + key_bytes.len()) as int) =~= item_bytes + rest);
    assert(keys.take(n as int) =~= keys);
    assert(items.take(n as int) =~= items);
    lemma_map_parts_agree(values, n as int);
    lemma_map_items_split(values, all);
    let decoded = Seq::new(
        n,
        |i: int|
            ValueModel::Mapping(
                split_parts(flat_keys, all, n)[i],
                split_parts(flat_items, all, n)[i],
            ),
    );
    assert(decoded =~= values);
    assert(map_decode(t, all, n) == (Decoded::Value { value: values, consumed: bytes.len() }));
}

/// The columns of the components of a column of tuples, from component
/// `from` on, can be written.
pub proof fn lemma_tuple_tail(items: Seq<TypeModel>, values: Seq<ValueModel>, from: nat)
    requires
        tuple_component(values, items.len(), 0) is Some,
        tuple_canonical(items, values, from),
        from <= items.len(),
    ensures
        tuple_bytes(items, values, from) is Some,
        from < items.len() ==> column_bytes(
            items[from as int],
            component(items, values, from as int),
        ) is Some && tuple_bytes(items, values, from + 1) is Some && tuple_bytes(
            items,
            values,
            from,
        )->0 == column_bytes(items[from as int], component(items, values, from as int))->0
            + tuple_bytes(items, values, from + 1)->0,
    decreases items, items.len() - from, 0nat,
{
    if from < items.len() {
        lemma_column_roundtrip(
            items[from as int],
            component(items, values, from as int),
            Seq::empty(),
        );
        lemma_tuple_tail(items, values, from + 1);
        assert(tuple_component(values, items.len(), from as int) is Some);
    }
}

/// The first `upto` component columns of a column of tuples are read back
/// as they were written.
pub proof fn lemma_tuple_columns(
    items: Seq<TypeModel>,
    values: Seq<ValueModel>,
    rest: Seq<u8>,
    upto: nat,
)
    requires
        tuple_component(values, items.len(), 0) is Some,
        tuple_canonical(items, values, 0),
        upto <= items.len(),
    ensures
        tuple_bytes(items, values, 0) matches Some(whole) && (tuple_bytes(
            items,
            values,
            upto,
        ) matches Some(tail) && tail.len() <= whole.len() && (whole + rest).skip(
            whole.len() - tail.len(),
        ) == tail + rest && tuple_decode(items, whole + rest, values.len(), upto)
            == (Decoded::Value {
            value: Seq::new(upto, |k: int| component(items, values, k)),
            consumed: (whole.len() - tail.len()) as nat,
        })),
    decreases items, items.len() + 1 + upto, 0nat,
{
    lemma_tuple_tail(items, values, 0);
    let whole = tuple_bytes(items, values, 0)->0;
    if upto == 0 {
        assert((whole + rest).skip(0) =~= whole + rest);
        assert(Seq::new(0, |k: int| component(items, values, k)) =~= Seq::<
            Seq<ValueModel>,
        >::empty());
    } else {
        let k = (upto - 1) as nat;
        lemma_tuple_columns(items, values, rest, k);
        lemma_tuple_canonical_from(items, values, 0, k);
        lemma_tuple_tail(items, values, k);
        let tail = tuple_bytes(items, values, k)->0;
        let next = tuple_bytes(items, values, upto)->0;
        let piece = column_bytes(items[k as int], component(items, values, k as int))->0;
        assert(tail == piece + next);
        lemma_column_roundtrip(items[k as int], component(items, values, k as int), next + rest);
        let consumed = (whole.len() - tail.len()) as nat;
        assert((whole + rest).skip(consumed as int) == tail + rest);
        assert(tail + rest =~= piece + (next + rest));
        assert((whole + rest).skip((consumed + piece.len()) as int) =~= (tail + rest).skip(
            piece.len() as int,
        ));
        assert((tail + rest).skip(piece.len() as int) =~= next + rest);
        let head = Seq::new(k, |j: int| component(items, values, j));
        assert(head.push(component(items, values, k as int)) =~= Seq::new(
            upto,
            |j: int| component(items, values, j),
        ));
    }
}

/// The step of the law for columns of tuples: where the columns of all
/// components are read back as they were written, the column of tuples is.
pub proof fn lemma_tuple_rows(items: Seq<TypeModel>, values: Seq<ValueModel>, rest: Seq<u8>)
    requires
        tuple_component(values, items.len(), 0) is Some,
        tuple_bytes(items, values, 0) matches Some(whole) && tuple_bytes(
            items,
            values,
            items.len(),
        ) == Some(Seq::<u8>::empty()) && tuple_decode(
            items,
            whole + rest,
            values.len(),
            items.len(),
        ) == (Decoded::Value {
            value: Seq::new(items.len(), |k: int| component(items, values, k)),
            consumed: whole.len(),
        }),
    ensures
        column_bytes(TypeModel::Tuple(items), values) matches Some(bytes) && column_decode(
            TypeModel::Tuple(items),
            bytes + rest,
            values.len(),
        ) == (Decoded::Value { value: values, consumed: bytes.len() }),
{
    let t = TypeModel::Tuple(items);
    let whole = tuple_bytes(items, values, 0)->0;
    let columns = Seq::new(items.len(), |k: int| component(items, values, k));
    let n = values.len();
    let decoded = Seq::new(
        n,
        |i: int| ValueModel::Tuple(Seq::new(items.len(), |k: int| columns[k][i])),
    );
    assert forall|i: int| 0 <= i < n implies decoded[i] == values[i] by {
        let fields = values[i]->Tuple_0;
        assert(values[i] is Tuple && fields.len() == items.len());
        let rebuilt = Seq::new(items.len(), |k: int| columns[k][i]);
        assert forall|k: int| 0 <= k < items.len() implies rebuilt[k] == fields[k] by {
            assert(tuple_component(values, items.len(), k) is Some);
            assert(columns[k][i] == fields[k]);
        }
        assert(rebuilt =~= fields);
    }
    assert(decoded =~= values);
    assert(tuple_rows_decode(t, whole + rest, n) == (Decoded::Value {
        value: values,
        consumed: whole.len(),
    }));
}

/// The first (or second) coordinates of points are written as eight bytes
/// each, each at its place.
pub proof fn lemma_halves_bytes(points: Seq<(u64, u64)>, first: bool, count: nat, rest: Seq<u8>)
    requires
        count <= points.len(),
    ensures
        halves_bytes(points, first, count).len() == count * 8,
        forall|i: int|
            0 <= i < count ==> spec_u64_from_le_bytes(
                #[trigger] chunk(halves_bytes(points, first, count) + rest, 8, i),
            ) == (if first {
                points[i].0
            } else {
                points[i].1
            }),
    decreases count,
{
    lemma_auto_spec_u64_to_from_le_bytes();
    if count > 0 {
        let coordinate = if first {
            points[count - 1].0
        } else {
            points[count - 1].1
        };
        let piece = spec_u64_to_le_bytes(coordinate);
        lemma_halves_bytes(points, first, (count - 1) as nat, piece + rest);
        let before = halves_bytes(points, first, (count - 1) as nat);
        let bytes = before + piece;
        assert(before + (piece + rest) =~= bytes + rest);
        assert forall|i: int| 0 <= i < count implies spec_u64_from_le_bytes(
            #[trigger] chunk(bytes + rest, 8, i),
        ) == (if first {
            points[i].0
        } else {
            points[i].1
        }) by {
            if i < count - 1 {
                assert(chunk(bytes + rest, 8, i) == chunk(before + (piece + rest), 8, i));
            } else {
                assert(chunk(bytes + rest, 8, i) =~= piece);
            }
        }
    }
}

/// The law for points.
pub proof fn lemma_points_roundtrip(points: Seq<(u64, u64)>, rest: Seq<u8>)
    ensures
        points_bytes(points).len() == points.len() * 16,
        points_decode(points_bytes(points) + rest, points.len()) == (Decoded::Value {
            value: points,
            consumed: points_bytes(points).len(),
        }),
{
    reveal(points_decode);
    let n = points.len();
    let firsts = halves_bytes(points, true, n);
    let seconds = halves_bytes(points, false, n);
    let bytes = firsts + seconds;
    lemma_halves_bytes(points, true, n, seconds + rest);
    lemma_halves_bytes(points, false, n, rest);
    assert(firsts + (seconds + rest) =~= bytes + rest);
    let decoded = Seq::new(
        n,
        |i: int|
            (
                spec_u64_from_le_bytes(chunk(bytes + rest, 8, i)),
                spec_u64_from_le_bytes(chunk(bytes + rest, 8, n + i)),
            ),
    );
    assert forall|i: int| 0 <= i < n implies decoded[i] == points[i] by {
        assert(chunk(bytes + rest, 8, i) == chunk(firsts + (seconds + rest), 8, i));
        assert(chunk(bytes + rest, 8, n + i) =~= chunk(seconds + rest, 8, i));
    }
    assert(decoded =~= points);
}

/// The law for rings.
pub proof fn lemma_rings_roundtrip(rings: Seq<Seq<(u64, u64)>>, rest: Seq<u8>)
    requires
        rings_canonical(rings),
    ensures
        rings_bytes(rings) matches Some(bytes) && rings_decode(bytes + rest, rings.len())
            == (Decoded::Value { value: rings, consumed: bytes.len() }),
{
    reveal(rings_decode);
    let flat = concat_all(rings);
    let payload = points_bytes(flat);
    lemma_points_roundtrip(flat, rest);
    lemma_offsets_roundtrip(rings, payload + rest);
    let offsets = offsets_bytes(rings)->0;
    let bytes = offsets + payload;
    assert(offsets + (payload + rest) =~= bytes + rest);
    assert((bytes + rest).skip(offsets.len() as int) =~= payload + rest);
}

/// The law for polygons.
pub proof fn lemma_polygons_roundtrip(polygons: Seq<Seq<Seq<(u64, u64)>>>, rest: Seq<u8>)
    requires
        polygons_canonical(polygons),
    ensures
        polygons_bytes(polygons) matches Some(bytes) && polygons_decode(
            bytes + rest,
            polygons.len(),
        ) == (Decoded::Value { value: polygons, consumed: bytes.len() }),
{
    reveal(polygons_decode);
    let flat = concat_all(polygons);
    lemma_rings_roundtrip(flat, rest);
    let payload = rings_bytes(flat)->0;
    lemma_offsets_roundtrip(polygons, payload + rest);
    let offsets = offsets_bytes(polygons)->0;
    let bytes = offsets + payload;
    assert(offsets + (payload + rest) =~= bytes + rest);
    assert((bytes + rest).skip(offsets.len() as int) =~= payload + rest);
}

/// The law for multi-polygons.
pub proof fn lemma_multi_polygons_roundtrip(
    shapes: Seq<Seq<Seq<Seq<(u64, u64)>>>>,
    rest: Seq<u8>,
)
    requires
        multi_polygons_canonical(shapes),
    ensures
        multi_polygons_bytes(shapes) matches Some(bytes) && multi_polygons_decode(
            bytes + rest,
            shapes.len(),
        ) == (Decoded::Value { value: shapes, consumed: bytes.len() }),
{
    reveal(multi_polygons_decode);
    let flat = concat_all(shapes);
    lemma_polygons_roundtrip(flat, rest);
    let payload = polygons_bytes(flat)->0;
    lemma_offsets_roundtrip(shapes, payload + rest);
    let offsets = offsets_bytes(shapes)->0;
    let bytes = offsets + payload;
    assert(offsets + (payload + rest) =~= bytes + rest);
    assert((bytes + rest).skip(offsets.len() as int) =~= payload + rest);
}

/// The law for columns of shapes.
pub proof fn lemma_shapes_roundtrip(t: TypeModel, values: Seq<ValueModel>, rest: Seq<u8>)
    requires
        t is Point || t is Ring || t is Polygon || t is MultiPolygon,
        column_canonical(t, values),
    ensures
        column_bytes(t, values) matches Some(bytes) && column_decode(
            t,
            bytes + rest,
            values.len(),
        ) == (Decoded::Value { value: values, consumed: bytes.len() }),
{
    let n = values.len();
    match t {
        TypeModel::Point => {
            reveal(point_values_decode);
            let points = point_parts(values)->0;
            lemma_points_roundtrip(points, rest);
            assert(Seq::new(n, |i: int| ValueModel::Point(points[i].0, points[i].1)) =~= values);
        },
        TypeModel::Ring => {
            reveal(ring_values_decode);
            let rings = ring_parts(values)->0;
            lemma_rings_roundtrip(rings, rest);
            assert(Seq::new(n, |i: int| ValueModel::Ring(rings[i])) =~= values);
        },
        TypeModel::Polygon => {
            reveal(polygon_values_decode);
            let polygons = polygon_parts(values)->0;
            lemma_polygons_roundtrip(polygons, rest);
            assert(Seq::new(n, |i: int| ValueModel::Polygon(polygons[i])) =~= values);
        },
        _ => {
            reveal(multi_polygon_values_decode);
            let shapes = multi_polygon_parts(values)->0;
            lemma_multi_polygons_roundtrip(shapes, rest);
            assert(Seq::new(n, |i: int| ValueModel::MultiPolygon(shapes[i])) =~= values);
        },
    }
}

/// Every row of a dictionary-encoded column has an index into the
/// dictionary, the dictionary holds the value of the row at that index, and
/// index 0 of a nullable column stands for the absent element alone.
pub proof fn lemma_dictionary_index(inner: TypeModel, values: Seq<ValueModel>, i: int)
    requires
        dictionary_canonical(inner, values),
        0 <= i < values.len(),
    ensures
        dictionary_index(inner, values, values[i]) matches Some(index) && index < dictionary(
            inner,
            values,
        ).len() && dictionary(inner, values).len() <= values.len() + 1 && (if values[i] is Null {
            inner is Nullable && index == 0
        } else {
            dictionary(inner, values)[index as int] == values[i] && (inner is Nullable ==> index
                != 0)
        }),
{
    lemma_distinct_present_distinct(values);
    let keys = distinct_present(values);
    if !(values[i] is Null) {
        assert(keys.contains(values[i]));
        let at = keys.index_of(values[i]);
        assert(0 <= at < keys.len() && keys[at] == values[i]);
    }
}

/// One index, written at the narrowest width that addresses the
/// dictionary and read back, is itself.
pub proof fn lemma_index_roundtrip(size: nat, index: nat, rest: Seq<u8>)
    requires
        index < size,
        size <= usize::MAX,
    ensures
        index_bytes(index_width_code(size), index).len() == index_width(index_width_code(size)),
        index_at(index_bytes(index_width_code(size), index) + rest, index_width_code(size), 0)
            == index,
{
    lemma_auto_spec_u16_to_from_le_bytes();
    lemma_auto_spec_u32_to_from_le_bytes();
    lemma_auto_spec_u64_to_from_le_bytes();
    let code = index_width_code(size);
    let piece = index_bytes(code, index);
    let width = index_width(code);
    assert(chunk(piece + rest, width, 0) =~= piece);
    if code == 0 {
        assert(piece[0] == index as u8);
    }
}

/// The indices of the first `count` rows of a dictionary-encoded column
/// are written at the width of the column, each at its place.
pub proof fn lemma_indices_bytes(
    inner: TypeModel,
    values: Seq<ValueModel>,
    count: nat,
    rest: Seq<u8>,
)
    requires
        dictionary_canonical(inner, values),
        count <= values.len(),
    ensures
        indices_bytes(
            inner,
            values,
            index_width_code(dictionary(inner, values).len()),
            count,
        ) matches Some(bytes) && bytes.len() == count * index_width(
            index_width_code(dictionary(inner, values).len()),
        ) && (forall|i: int|
            0 <= i < count ==> #[trigger] index_at(
                bytes + rest,
                index_width_code(dictionary(inner, values).len()),
                i,
            ) == dictionary_index(inner, values, values[i])->0),
    decreases count,
{
    let size = dictionary(inner, values).len();
    let code = index_width_code(size);
    let width = index_width(code);
    if count > 0 {
        let last = (count - 1) as int;
        lemma_dictionary_index(inner, values, last);
        let index = dictionary_index(inner, values, values[last])->0;
        let piece = index_bytes(code, index);
        lemma_index_roundtrip(size, index, rest);
        lemma_indices_bytes(inner, values, (count - 1) as nat, piece + rest);
        let before = indices_bytes(inner, values, code, (count - 1) as nat)->0;
        let bytes = before + piece;
        assert(before + (piece + rest) =~= bytes + rest);
        assert((count - 1) * width + width == count * width) by (nonlinear_arith);
        assert forall|i: int| 0 <= i < count implies #[trigger] index_at(bytes + rest, code, i)
            == dictionary_index(inner, values, values[i])->0 by {
            assert(0 <= i * width && i * width + width <= count * width) by (nonlinear_arith)
                requires
                    0 <= i < count,
                    0 <= width,
            ;
            if i < count - 1 {
                assert(index_at(bytes + rest, code, i) == index_at(
                    before + (piece + rest),
                    code,
                    i,
                ));
            } else {
                assert(chunk(bytes + rest, width, i) =~= chunk(piece + rest, width, 0));
            }
        }
    }
}

/// The rows of a dictionary-encoded column are read back from its indices
/// and its dictionary.
pub proof fn lemma_rows_roundtrip(inner: TypeModel, values: Seq<ValueModel>, rest: Seq<u8>)
    requires
        dictionary_canonical(inner, values),
    ensures
        indices_bytes(
            inner,
            values,
            index_width_code(dictionary(inner, values).len()),
            values.len(),
        ) matches Some(bytes) && rows_decode(
            dictionary(inner, values),
            inner is Nullable,
            index_width_code(dictionary(inner, values).len()),
            bytes + rest,
            values.len(),
        ) == (Decoded::Value { value: values, consumed: bytes.len() }),
{
    let entries = dictionary(inner, values);
    let code = index_width_code(entries.len());
    let n = values.len();
    lemma_indices_bytes(inner, values, n, rest);
    let bytes = indices_bytes(inner, values, code, n)->0;
    let all = bytes + rest;
    assert forall|i: int| 0 <= i < n implies #[trigger] index_at(all, code, i)
        < entries.len() by {
        lemma_dictionary_index(inner, values, i);
    }
    let decoded = Seq::new(
        n,
        |i: int|
            if inner is Nullable && index_at(all, code, i) == 0 {
                ValueModel::Null
            } else {
                entries[index_at(all, code, i) as int]
            },
    );
    assert forall|i: int| 0 <= i < n implies decoded[i] == values[i] by {
        lemma_dictionary_index(inner, values, i);
        assert(index_at(all, code, i) == dictionary_index(inner, values, values[i])->0);
    }
    assert(decoded =~= values);
}

/// What follows the dictionary of a dictionary-encoded column that is
/// followed by `rest`: the number of rows, the indices, and `rest`.
pub open spec fn dictionary_tail(inner: TypeModel, values: Seq<ValueModel>, rest: Seq<u8>) -> Seq<
    u8,
> {
    spec_u64_to_le_bytes(values.len() as u64) + indices_bytes(
        inner,
        values,
        index_width_code(dictionary(inner, values).len()),
        values.len(),
    )->0 + rest
}

/// The step of the law for dictionary-encoded columns: where the
/// dictionary is read back as it was written, the column is.
#[verifier::spinoff_prover]
#[verifier::rlimit(40)]
pub proof fn lemma_low_cardinality_roundtrip(
    inner: TypeModel,
    values: Seq<ValueModel>,
    rest: Seq<u8>,
)
    requires
        values.len() > 0,
        dictionary_canonical(inner, values),
        column_bytes(dictionary_type(inner), dictionary(inner, values)) matches Some(keys)
            && column_decode(
            dictionary_type(inner),
            keys + dictionary_tail(inner, values, rest),
            dictionary(inner, values).len(),
        ) == (Decoded::Value { value: dictionary(inner, values), consumed: keys.len() }),
    ensures
        column_bytes(TypeModel::LowCardinality(Box::new(inner)), values) matches Some(bytes)
            && column_decode(
            TypeModel::LowCardinality(Box::new(inner)),
            bytes + rest,
            values.len(),
        ) == (Decoded::Value { value: values, consumed: bytes.len() }),
{
    lemma_auto_spec_u64_to_from_le_bytes();
    let t = TypeModel::LowCardinality(Box::new(inner));
    let base = dictionary_type(inner);
    let entries = dictionary(inner, values);
    let n = values.len();
    lemma_dictionary_index(inner, values, 0);
    let code = index_width_code(entries.len());
    let keys = column_bytes(base, entries)->0;
    lemma_rows_roundtrip(inner, values, rest);
    let indices = indices_bytes(inner, values, code, n)->0;
    let flags = spec_u64_to_le_bytes((LOW_CARDINALITY_FLAGS + code) as u64);
    let size = spec_u64_to_le_bytes(entries.len() as u64);
    let count = spec_u64_to_le_bytes(n as u64);
    let bytes = flags + size + keys + count + indices;
    let all = bytes + rest;
    assert(column_bytes(t, values) == Some(bytes));
    assert(all.subrange(0, 8) =~= flags);
    assert(all.subrange(8, 16) =~= size);
    assert((LOW_CARDINALITY_FLAGS + code) % 256 == code);
    let tail = dictionary_tail(inner, values, rest);
    assert(tail == count + indices + rest);
    assert(all.skip(16) =~= keys + tail);
    assert(column_decode(base, keys + tail, entries.len()) == (Decoded::Value {
        value: entries,
        consumed: keys.len(),
    }));
    assert(all.subrange((16 + keys.len()) as int, (16 + keys.len() + 8) as int) =~= count);
    assert(all.skip((16 + keys.len() + 8) as int) =~= indices + rest);
    assert(low_cardinality_inner_decode(inner, all, n) == (Decoded::Value {
        value: values,
        consumed: bytes.len(),
    }));
}

/// The round-trip law of the column codec: a column whose values the wire
/// holds exactly, written as its type and read back as that type with its
/// number of rows, whatever follows it, is the same column, and reading
/// takes exactly the bytes that were written.
pub proof fn lemma_column_roundtrip(t: TypeModel, values: Seq<ValueModel>, rest: Seq<u8>)
    requires
        column_canonical(t, values),
    ensures
        column_bytes(t, values) matches Some(bytes) && column_decode(
            t,
            bytes + rest,
            values.len(),
        ) == (Decoded::Value { value: values, consumed: bytes.len() }),
    decreases t, 0nat, 0nat,
{
    match t {
        TypeModel::String => {
            lemma_strings_roundtrip(values, rest);
        },
        TypeModel::FixedString(width) => {
            lemma_fixed_strings_roundtrip(width, values, rest);
        },
        TypeModel::Nullable(inner) => {
            lemma_column_roundtrip(*inner, nulls_replaced(values, default_model(*inner)), rest);
            lemma_nullable_roundtrip(*inner, values, rest);
        },
        TypeModel::Array(inner) => {
            lemma_column_roundtrip(*inner, concat_all(array_parts(values)->0), rest);
            lemma_array_roundtrip(*inner, values, rest);
        },
        TypeModel::Mapping(key, value) => {
            let parts = map_parts(values)->0;
            lemma_column_roundtrip(*value, concat_all(parts.1), rest);
            let item_bytes = column_bytes(*value, concat_all(parts.1))->0;
            lemma_column_roundtrip(*key, concat_all(parts.0), item_bytes + rest);
            lemma_map_roundtrip(*key, *value, values, rest);
        },
        TypeModel::Tuple(items) => {
            lemma_tuple_columns(items, values, rest, items.len());
            lemma_tuple_rows(items, values, rest);
        },
        TypeModel::LowCardinality(inner) => {
            if values.len() == 0 {
                assert(values =~= Seq::<ValueModel>::empty());
                assert(Seq::<u8>::empty() + rest =~= rest);
                assert(column_bytes(t, values) == Some(Seq::<u8>::empty()));
                assert(low_cardinality_inner_decode(*inner, rest, 0) == (Decoded::Value {
                    value: Seq::<ValueModel>::empty(),
                    consumed: 0,
                }));
                assert(low_cardinality_decode(t, rest, 0) == low_cardinality_inner_decode(
                    *inner,
                    rest,
                    0,
                ));
            } else {
                lemma_column_roundtrip(
                    dictionary_type(*inner),
                    dictionary(*inner, values),
                    dictionary_tail(*inner, values, rest),
                );
                lemma_low_cardinality_roundtrip(*inner, values, rest);
            }
        },
        TypeModel::Point | TypeModel::Ring | TypeModel::Polygon | TypeModel::MultiPolygon => {
            lemma_shapes_roundtrip(t, values, rest);
        },
        _ => {
            lemma_scalars_roundtrip(t, values, rest);
        },
    }
}

} // verus!

//! The wire format of a column, stated as functions from values to bytes.
//!
//! All integers are little-endian. A column of a scalar type is its
//! elements packed one after the other; the composite types are built from
//! columns of their parts.

use crate::io::string_bytes;
use crate::types::TypeModel;
use crate::values::ValueModel;
use vstd::bytes::{
    spec_u128_to_le_bytes, spec_u16_to_le_bytes, spec_u32_to_le_bytes, spec_u64_to_le_bytes,
};
use vstd::prelude::*;

verus! {

/// The flags that a dictionary-encoded column is written with, before the
/// width of its indices is added: a new dictionary of unique values that
/// comes with its keys.
pub const LOW_CARDINALITY_FLAGS: u64 = 0x0002_0202_0100_0000;

/// The version that the prefix of a dictionary-encoded column names.
pub const LOW_CARDINALITY_VERSION: u64 = 1;

/// The number of bytes of one element of a scalar type.
pub open spec fn scalar_width(t: TypeModel) -> Option<nat> {
    match t {
        TypeModel::Int8 | TypeModel::UInt8 | TypeModel::Enum8(_) => Some(1),
        TypeModel::Int16 | TypeModel::UInt16 | TypeModel::Date | TypeModel::Enum16(_) => Some(2),
        TypeModel::Int32
        | TypeModel::UInt32
        | TypeModel::Float32
        | TypeModel::Decimal32(_)
        | TypeModel::DateTime(_) => Some(4),
        TypeModel::Int64
        | TypeModel::UInt64
        | TypeModel::Float64
        | TypeModel::Decimal64(_)
        | TypeModel::DateTime64(_, _) => Some(8),
        TypeModel::Int128 | TypeModel::UInt128 | TypeModel::Decimal128(_) | TypeModel::Uuid =>
            Some(16),
        TypeModel::Int256 | TypeModel::UInt256 | TypeModel::Decimal256(_) => Some(32),
        _ => None,
    }
}

/// The bytes of a 256-bit number that is held most significant byte first.
pub open spec fn wide_bytes(big_endian: Seq<u8>) -> Option<Seq<u8>> {
    if big_endian.len() == 32 {
        Some(big_endian.reverse())
    } else {
        None
    }
}

/// The sixteen bytes of a UUID: its two halves, the high one first, each
/// little-endian.
pub open spec fn uuid_bytes(x: u128) -> Seq<u8> {
    spec_u64_to_le_bytes((x / 0x1_0000_0000_0000_0000) as u64) + spec_u64_to_le_bytes(
        (x % 0x1_0000_0000_0000_0000) as u64,
    )
}

/// The bytes of one element of a scalar type; nothing where the value is
/// not of the type.
pub open spec fn scalar_bytes(t: TypeModel, v: ValueModel) -> Option<Seq<u8>> {
    match (t, v) {
        (TypeModel::Int8, ValueModel::Int8(x)) => Some(seq![x as u8]),
        (TypeModel::Int16, ValueModel::Int16(x)) => Some(spec_u16_to_le_bytes(x as u16)),
        (TypeModel::Int32, ValueModel::Int32(x)) => Some(spec_u32_to_le_bytes(x as u32)),
        (TypeModel::Int64, ValueModel::Int64(x)) => Some(spec_u64_to_le_bytes(x as u64)),
        (TypeModel::Int128, ValueModel::Int128(x)) => Some(spec_u128_to_le_bytes(x as u128)),
        (TypeModel::Int256, ValueModel::Int256(x)) => wide_bytes(x),
        (TypeModel::UInt8, ValueModel::UInt8(x)) => Some(seq![x]),
        (TypeModel::UInt16, ValueModel::UInt16(x)) => Some(spec_u16_to_le_bytes(x)),
        (TypeModel::UInt32, ValueModel::UInt32(x)) => Some(spec_u32_to_le_bytes(x)),
        (TypeModel::UInt64, ValueModel::UInt64(x)) => Some(spec_u64_to_le_bytes(x)),
        (TypeModel::UInt128, ValueModel::UInt128(x)) => Some(spec_u128_to_le_bytes(x)),
        (TypeModel::UInt256, ValueModel::UInt256(x)) => wide_bytes(x),
        (TypeModel::Float32, ValueModel::Float32(x)) => Some(spec_u32_to_le_bytes(x)),
        (TypeModel::Float64, ValueModel::Float64(x)) => Some(spec_u64_to_le_bytes(x)),
        (TypeModel::Decimal32(_), ValueModel::Decimal32(_, x)) => Some(
            spec_u32_to_le_bytes(x as u32),
        ),
        (TypeModel::Decimal64(_), ValueModel::Decimal64(_, x)) => Some(
            spec_u64_to_le_bytes(x as u64),
        ),
        (TypeModel::Decimal128(_), ValueModel::Decimal128(_, x)) => Some(
            spec_u128_to_le_bytes(x as u128),
        ),
        (TypeModel::Decimal256(_), ValueModel::Decimal256(_, x)) => wide_bytes(x),
        (TypeModel::Uuid, ValueModel::Uuid(x)) => Some(uuid_bytes(x)),
        (TypeModel::Date, ValueModel::Date(x)) => Some(spec_u16_to_le_bytes(x)),
        (TypeModel::DateTime(_), ValueModel::DateTime(_, x)) => Some(spec_u32_to_le_bytes(x)),
        (TypeModel::DateTime64(_, _), ValueModel::DateTime64(_, x, _)) => Some(
            spec_u64_to_le_bytes(x as u64),
        ),
        (TypeModel::Enum8(_), ValueModel::Enum8(x)) => Some(seq![x as u8]),
        (TypeModel::Enum16(_), ValueModel::Enum16(x)) => Some(spec_u16_to_le_bytes(x as u16)),
        _ => None,
    }
}

/// A column of a scalar type: the bytes of its elements, in order.
pub open spec fn scalars_bytes(t: TypeModel, values: Seq<ValueModel>) -> Option<Seq<u8>>
    decreases values.len(),
{
    if values.len() == 0 {
        Some(Seq::empty())
    } else {
        match (scalars_bytes(t, values.drop_last()), scalar_bytes(t, values.last())) {
            (Some(head), Some(last)) => Some(head + last),
            _ => None,
        }
    }
}

/// The bytes of one string element: its length as a varint, then its
/// bytes.
pub open spec fn string_element_bytes(v: ValueModel) -> Option<Seq<u8>> {
    match v {
        ValueModel::String(bytes) => Some(string_bytes(bytes)),
        _ => None,
    }
}

/// A column of strings.
pub open spec fn strings_bytes(values: Seq<ValueModel>) -> Option<Seq<u8>>
    decreases values.len(),
{
    if values.len() == 0 {
        Some(Seq::empty())
    } else {
        match (strings_bytes(values.drop_last()), string_element_bytes(values.last())) {
            (Some(head), Some(last)) => Some(head + last),
            _ => None,
        }
    }
}

/// `n` zero bytes.
pub open spec fn zeros(n: nat) -> Seq<u8> {
    Seq::new(n, |i: int| 0u8)
}

/// The bytes of one element of a fixed-width string: the bytes, padded
/// with zeros to the width; nothing where the string is longer.
pub open spec fn fixed_string_element_bytes(width: nat, v: ValueModel) -> Option<Seq<u8>> {
    match v {
        ValueModel::String(bytes) => if bytes.len() <= width {
            Some(bytes + zeros((width - bytes.len()) as nat))
        } else {
            None
        },
        _ => None,
    }
}

/// A column of fixed-width strings.
pub open spec fn fixed_strings_bytes(width: nat, values: Seq<ValueModel>) -> Option<Seq<u8>>
    decreases values.len(),
{
    if values.len() == 0 {
        Some(Seq::empty())
    } else {
        match (
            fixed_strings_bytes(width, values.drop_last()),
            fixed_string_element_bytes(width, values.last()),
        ) {
            (Some(head), Some(last)) => Some(head + last),
            _ => None,
        }
    }
}

/// The sequences of `parts`, one after the other.
pub open spec fn concat_all<T>(parts: Seq<Seq<T>>) -> Seq<T>
    decreases parts.len(),
{
    if parts.len() == 0 {
        Seq::empty()
    } else {
        concat_all(parts.drop_last()) + parts.last()
    }
}

/// The cumulative offsets of `parts`: for each part, the number of
/// elements up to and including it, as eight little-endian bytes. Nothing
/// where a count does not fit in 64 bits.
pub open spec fn offsets_bytes<T>(parts: Seq<Seq<T>>) -> Option<Seq<u8>>
    decreases parts.len(),
{
    if parts.len() == 0 {
        Some(Seq::empty())
    } else {
        match offsets_bytes(parts.drop_last()) {
            Some(head) => if concat_all(parts).len() <= u64::MAX {
                Some(head + spec_u64_to_le_bytes(concat_all(parts).len() as u64))
            } else {
                None
            },
            None => None,
        }
    }
}

/// Putting one more part behind the first `i` adds its elements.
pub proof fn lemma_concat_all_take<T>(parts: Seq<Seq<T>>, i: int)
    requires
        0 <= i < parts.len(),
    ensures
        concat_all(parts.take(i + 1)) == concat_all(parts.take(i)) + parts[i],
{
    assert(parts.take(i + 1).drop_last() =~= parts.take(i));
}

/// The offsets of the first `i + 1` parts are those of the first `i` and
/// the count of all elements so far.
pub proof fn lemma_offsets_take<T>(parts: Seq<Seq<T>>, i: int)
    requires
        0 <= i < parts.len(),
    ensures
        offsets_bytes(parts.take(i + 1)) == (match offsets_bytes(parts.take(i)) {
            Some(head) => if concat_all(parts.take(i + 1)).len() <= u64::MAX {
                Some(head + spec_u64_to_le_bytes(concat_all(parts.take(i + 1)).len() as u64))
            } else {
                None
            },
            None => None,
        }),
{
    assert(parts.take(i + 1).drop_last() =~= parts.take(i));
}

/// The elements of each array of `values`; nothing where a value is no
/// array.
pub open spec fn array_parts(values: Seq<ValueModel>) -> Option<Seq<Seq<ValueModel>>> {
    if forall|i: int| 0 <= i < values.len() ==> (#[trigger] values[i]) is Array {
        Some(Seq::new(values.len(), |i: int| values[i]->Array_0))
    } else {
        None
    }
}

/// The keys of each map of `values`, and the values of each; nothing where
/// a value is no map or has not as many keys as values.
pub open spec fn map_parts(values: Seq<ValueModel>) -> Option<
    (Seq<Seq<ValueModel>>, Seq<Seq<ValueModel>>),
> {
    if forall|i: int|
        0 <= i < values.len() ==> ((#[trigger] values[i]) matches ValueModel::Mapping(k, v)
            && k.len() == v.len()) {
        Some(
            (
                Seq::new(values.len(), |i: int| values[i]->Mapping_0),
                Seq::new(values.len(), |i: int| values[i]->Mapping_1),
            ),
        )
    } else {
        None
    }
}

/// Component `k` of each tuple of `values`; nothing where a value is no
/// tuple of `arity` components.
pub open spec fn tuple_component(values: Seq<ValueModel>, arity: nat, k: int) -> Option<
    Seq<ValueModel>,
> {
    if forall|i: int|
        0 <= i < values.len() ==> ((#[trigger] values[i]) matches ValueModel::Tuple(items)
            && items.len() == arity) {
        Some(Seq::new(values.len(), |i: int| values[i]->Tuple_0[k]))
    } else {
        None
    }
}

/// The value that stands in for an absent element of type `t`: the zero of
/// the type.
pub open spec fn default_model(t: TypeModel) -> ValueModel
    decreases t, 0nat,
{
    match t {
        TypeModel::Int8 => ValueModel::Int8(0),
        TypeModel::Int16 => ValueModel::Int16(0),
        TypeModel::Int32 => ValueModel::Int32(0),
        TypeModel::Int64 => ValueModel::Int64(0),
        TypeModel::Int128 => ValueModel::Int128(0),
        TypeModel::Int256 => ValueModel::Int256(zeros(32)),
        TypeModel::UInt8 => ValueModel::UInt8(0),
        TypeModel::UInt16 => ValueModel::UInt16(0),
        TypeModel::UInt32 => ValueModel::UInt32(0),
        TypeModel::UInt64 => ValueModel::UInt64(0),
        TypeModel::UInt128 => ValueModel::UInt128(0),
        TypeModel::UInt256 => ValueModel::UInt256(zeros(32)),
        TypeModel::Float32 => ValueModel::Float32(0),
        TypeModel::Float64 => ValueModel::Float64(0),
        TypeModel::Decimal32(scale) => ValueModel::Decimal32(scale, 0),
        TypeModel::Decimal64(scale) => ValueModel::Decimal64(scale, 0),
        TypeModel::Decimal128(scale) => ValueModel::Decimal128(scale, 0),
        TypeModel::Decimal256(scale) => ValueModel::Decimal256(scale, zeros(32)),
        TypeModel::String => ValueModel::String(Seq::empty()),
        TypeModel::FixedString(_) => ValueModel::String(Seq::empty()),
        TypeModel::Uuid => ValueModel::Uuid(0),
        TypeModel::Date => ValueModel::Date(0),
        TypeModel::DateTime(zone) => ValueModel::DateTime(zone, 0),
        TypeModel::DateTime64(precision, zone) => ValueModel::DateTime64(zone, 0, precision),
        TypeModel::Enum8(_) => ValueModel::Enum8(0),
        TypeModel::Enum16(_) => ValueModel::Enum16(0),
        TypeModel::LowCardinality(inner) => default_model(*inner),
        TypeModel::Array(_) => ValueModel::Array(Seq::empty()),
        TypeModel::Tuple(items) => ValueModel::Tuple(default_models(items)),
        TypeModel::Nullable(_) => ValueModel::Null,
        TypeModel::Mapping(_, _) => ValueModel::Mapping(Seq::empty(), Seq::empty()),
        TypeModel::Point => ValueModel::Point(0, 0),
        TypeModel::Ring => ValueModel::Ring(Seq::empty()),
        TypeModel::Polygon => ValueModel::Polygon(Seq::empty()),
        TypeModel::MultiPolygon => ValueModel::MultiPolygon(Seq::empty()),
    }
}

/// The zero of each of `items`.
pub open spec fn default_models(items: Seq<TypeModel>) -> Seq<ValueModel>
    decreases items, 1nat,
{
    Seq::new(
        items.len(),
        |i: int|
            if 0 <= i < items.len() {
                default_model(items[i])
            } else {
                ValueModel::Null
            },
    )
}

/// The mask of a nullable column: one byte per element, 1 where it is
/// absent.
pub open spec fn null_mask(values: Seq<ValueModel>) -> Seq<u8> {
    Seq::new(
        values.len(),
        |i: int|
            if values[i] is Null {
                1u8
            } else {
                0u8
            },
    )
}

/// `values` with `placeholder` in the place of every absent element.
pub open spec fn nulls_replaced(values: Seq<ValueModel>, placeholder: ValueModel) -> Seq<
    ValueModel,
> {
    Seq::new(
        values.len(),
        |i: int|
            if values[i] is Null {
                placeholder
            } else {
                values[i]
            },
    )
}

/// The elements of `values` that are present, each once, in the order in
/// which they first occur.
pub open spec fn distinct_present(values: Seq<ValueModel>) -> Seq<ValueModel>
    decreases values.len(),
{
    if values.len() == 0 {
        Seq::empty()
    } else {
        let head = distinct_present(values.drop_last());
        if values.last() is Null || head.contains(values.last()) {
            head
        } else {
            head.push(values.last())
        }
    }
}

/// Whether a value can be a dictionary key: a string or a scalar.
pub open spec fn key_value(v: ValueModel) -> bool {
    match v {
        ValueModel::Array(_)
        | ValueModel::Tuple(_)
        | ValueModel::Null
        | ValueModel::Mapping(_, _)
        | ValueModel::Point(_, _)
        | ValueModel::Ring(_)
        | ValueModel::Polygon(_)
        | ValueModel::MultiPolygon(_) => false,
        _ => true,
    }
}

/// Whether a type can be the type of a dictionary: a string type or a
/// scalar type.
pub open spec fn key_type(t: TypeModel) -> bool {
    t is String || t is FixedString || scalar_width(t) is Some
}

/// Whether every element is absent or can be a dictionary key.
pub open spec fn keys_or_absent(values: Seq<ValueModel>) -> bool {
    forall|i: int| 0 <= i < values.len() ==> (#[trigger] values[i]) is Null || key_value(values[i])
}

/// Taking one more element into account adds it to the distinct present
/// elements unless it is absent or was seen before.
pub proof fn lemma_distinct_present_take(values: Seq<ValueModel>, i: int)
    requires
        0 <= i < values.len(),
    ensures
        distinct_present(values.take(i + 1)) == (if values[i] is Null || distinct_present(
            values.take(i),
        ).contains(values[i]) {
            distinct_present(values.take(i))
        } else {
            distinct_present(values.take(i)).push(values[i])
        }),
{
    assert(values.take(i + 1).drop_last() =~= values.take(i));
}

/// The distinct present elements are present, are elements, and are
/// pairwise different.
pub proof fn lemma_distinct_present_distinct(values: Seq<ValueModel>)
    ensures
        forall|a: int, b: int|
            0 <= a < b < distinct_present(values).len() ==> distinct_present(values)[a]
                != distinct_present(values)[b],
        forall|a: int|
            0 <= a < distinct_present(values).len() ==> !(#[trigger] distinct_present(
                values,
            )[a] is Null) && values.contains(distinct_present(values)[a]),
        forall|k: int|
            0 <= k < values.len() && !(values[k] is Null) ==> distinct_present(values).contains(
                #[trigger] values[k],
            ),
        distinct_present(values).len() <= values.len(),
    decreases values.len(),
{
    if values.len() > 0 {
        let head = distinct_present(values.drop_last());
        let all = distinct_present(values);
        lemma_distinct_present_distinct(values.drop_last());
        assert forall|a: int| 0 <= a < all.len() implies !(#[trigger] all[a] is Null)
            && values.contains(all[a]) by {
            if a < head.len() {
                let k = choose|k: int|
                    0 <= k < values.drop_last().len() && values.drop_last()[k] == head[a];
                assert(values[k] == all[a]);
            } else {
                assert(values[values.len() - 1] == all[a]);
            }
        }
        assert forall|k: int| 0 <= k < values.len() && !(values[k] is Null) implies all.contains(
            #[trigger] values[k],
        ) by {
            if k < values.len() - 1 {
                assert(values.drop_last()[k] == values[k]);
                let j = choose|j: int| 0 <= j < head.len() && head[j] == values[k];
                assert(all[j] == values[k]);
            } else if head.contains(values.last()) {
                let j = choose|j: int| 0 <= j < head.len() && head[j] == values.last();
                assert(all[j] == values[k]);
            } else {
                assert(all[all.len() - 1] == values[k]);
            }
        }
    }
}

/// The distinct present elements of a beginning are a beginning of the
/// distinct present elements of the whole.
pub proof fn lemma_distinct_present_prefix(values: Seq<ValueModel>, i: int)
    requires
        0 <= i <= values.len(),
    ensures
        distinct_present(values.take(i)).len() <= distinct_present(values).len(),
        forall|j: int|
            0 <= j < distinct_present(values.take(i)).len() ==> (#[trigger] distinct_present(
                values.take(i),
            )[j]) == distinct_present(values)[j],
    decreases values.len() - i,
{
    if i == values.len() {
        assert(values.take(i) =~= values);
    } else {
        lemma_distinct_present_take(values, i);
        lemma_distinct_present_prefix(values, i + 1);
        let small = distinct_present(values.take(i));
        let next = distinct_present(values.take(i + 1));
        assert forall|j: int| 0 <= j < small.len() implies (#[trigger] small[j])
            == distinct_present(values)[j] by {
            assert(small[j] == next[j]);
        }
    }
}

/// An element stands in the distinct present elements of the whole at the
/// place where it stands in those of a beginning.
pub proof fn lemma_distinct_present_index(values: Seq<ValueModel>, i: int, j: int)
    requires
        0 <= i <= values.len(),
        0 <= j < distinct_present(values.take(i)).len(),
    ensures
        distinct_present(values).index_of(distinct_present(values.take(i))[j]) == j,
{
    let whole = distinct_present(values);
    let v = distinct_present(values.take(i))[j];
    lemma_distinct_present_prefix(values, i);
    lemma_distinct_present_distinct(values);
    assert(whole[j] == v);
    assert(whole.contains(v));
    let k = whole.index_of(v);
    assert(0 <= k < whole.len() && whole[k] == v);
    if k < j {
        assert(whole[k] != whole[j]);
    } else if j < k {
        assert(whole[j] != whole[k]);
    }
}

/// Where an element has no index, the indices cannot be written.
pub proof fn lemma_indices_bytes_need_index(
    inner: TypeModel,
    values: Seq<ValueModel>,
    code: nat,
    count: nat,
    k: int,
)
    requires
        0 <= k < count,
        dictionary_index(inner, values, values[k]) is None,
    ensures
        indices_bytes(inner, values, code, count) is None,
    decreases count,
{
    if k < count - 1 {
        lemma_indices_bytes_need_index(inner, values, code, (count - 1) as nat, k);
    }
}

/// The type of the dictionary of a dictionary-encoded column: the inner
/// type without its nullability.
pub open spec fn dictionary_type(inner: TypeModel) -> TypeModel {
    match inner {
        TypeModel::Nullable(base) => *base,
        other => other,
    }
}

/// The dictionary of a dictionary-encoded column: for a nullable inner
/// type the placeholder of the absent element at index 0, then the
/// distinct present elements in first-seen order.
pub open spec fn dictionary(inner: TypeModel, values: Seq<ValueModel>) -> Seq<ValueModel> {
    if inner is Nullable {
        seq![default_model(dictionary_type(inner))] + distinct_present(values)
    } else {
        distinct_present(values)
    }
}

/// The index of `v` in the dictionary of a column; nothing for an absent
/// element where the inner type is not nullable.
pub open spec fn dictionary_index(inner: TypeModel, values: Seq<ValueModel>, v: ValueModel)
    -> Option<nat> {
    if v is Null {
        if inner is Nullable {
            Some(0)
        } else {
            None
        }
    } else {
        let at = distinct_present(values).index_of(v);
        if inner is Nullable {
            Some((at + 1) as nat)
        } else {
            Some(at as nat)
        }
    }
}

/// The code of the narrowest index width that addresses a dictionary of
/// `size` entries: 0 for one byte, 1 for two, 2 for four, 3 for eight.
pub open spec fn index_width_code(size: nat) -> nat {
    if size <= 0x100 {
        0
    } else if size <= 0x1_0000 {
        1
    } else if size <= 0x1_0000_0000 {
        2
    } else {
        3
    }
}

/// One index at the width that `code` names.
pub open spec fn index_bytes(code: nat, index: nat) -> Seq<u8> {
    if code == 0 {
        seq![index as u8]
    } else if code == 1 {
        spec_u16_to_le_bytes(index as u16)
    } else if code == 2 {
        spec_u32_to_le_bytes(index as u32)
    } else {
        spec_u64_to_le_bytes(index as u64)
    }
}

/// The packed dictionary indices of the first `count` elements of `values`.
pub open spec fn indices_bytes(
    inner: TypeModel,
    values: Seq<ValueModel>,
    code: nat,
    count: nat,
) -> Option<Seq<u8>>
    decreases count,
{
    if count == 0 {
        Some(Seq::empty())
    } else {
        match (
            indices_bytes(inner, values, code, (count - 1) as nat),
            dictionary_index(inner, values, values[count - 1]),
        ) {
            (Some(head), Some(index)) => Some(head + index_bytes(code, index)),
            _ => None,
        }
    }
}

/// The coordinates of each point, as a column of pairs of floats: all
/// first coordinates, then all second ones.
pub open spec fn points_bytes(points: Seq<(u64, u64)>) -> Seq<u8> {
    halves_bytes(points, true, points.len()) + halves_bytes(points, false, points.len())
}

/// The first (or second) coordinates of the first `count` points.
pub open spec fn halves_bytes(points: Seq<(u64, u64)>, first: bool, count: nat) -> Seq<u8>
    decreases count,
{
    if count == 0 {
        Seq::empty()
    } else {
        halves_bytes(points, first, (count - 1) as nat) + spec_u64_to_le_bytes(
            if first {
                points[count - 1].0
            } else {
                points[count - 1].1
            },
        )
    }
}

/// A column of rings: offsets, then the points of all rings.
pub open spec fn rings_bytes(rings: Seq<Seq<(u64, u64)>>) -> Option<Seq<u8>> {
    match offsets_bytes(rings) {
        Some(offsets) => Some(offsets + points_bytes(concat_all(rings))),
        None => None,
    }
}

/// A column of polygons: offsets, then the rings of all polygons.
pub open spec fn polygons_bytes(polygons: Seq<Seq<Seq<(u64, u64)>>>) -> Option<Seq<u8>> {
    match (offsets_bytes(polygons), rings_bytes(concat_all(polygons))) {
        (Some(offsets), Some(rings)) => Some(offsets + rings),
        _ => None,
    }
}

/// A column of multi-polygons: offsets, then the polygons of all of them.
pub open spec fn multi_polygons_bytes(shapes: Seq<Seq<Seq<Seq<(u64, u64)>>>>) -> Option<Seq<u8>> {
    match (offsets_bytes(shapes), polygons_bytes(concat_all(shapes))) {
        (Some(offsets), Some(polygons)) => Some(offsets + polygons),
        _ => None,
    }
}

/// The shapes that `values` hold; nothing where a value is of another kind.
pub open spec fn point_parts(values: Seq<ValueModel>) -> Option<Seq<(u64, u64)>> {
    if forall|i: int| 0 <= i < values.len() ==> (#[trigger] values[i]) is Point {
        Some(Seq::new(values.len(), |i: int| (values[i]->Point_0, values[i]->Point_1)))
    } else {
        None
    }
}

/// The rings that `values` hold.
pub open spec fn ring_parts(values: Seq<ValueModel>) -> Option<Seq<Seq<(u64, u64)>>> {
    if forall|i: int| 0 <= i < values.len() ==> (#[trigger] values[i]) is Ring {
        Some(Seq::new(values.len(), |i: int| values[i]->Ring_0))
    } else {
        None
    }
}

/// The polygons that `values` hold.
pub open spec fn polygon_parts(values: Seq<ValueModel>) -> Option<Seq<Seq<Seq<(u64, u64)>>>> {
    if forall|i: int| 0 <= i < values.len() ==> (#[trigger] values[i]) is Polygon {
        Some(Seq::new(values.len(), |i: int| values[i]->Polygon_0))
    } else {
        None
    }
}

/// The multi-polygons that `values` hold.
pub open spec fn multi_polygon_parts(values: Seq<ValueModel>) -> Option<
    Seq<Seq<Seq<Seq<(u64, u64)>>>>,
> {
    if forall|i: int| 0 <= i < values.len() ==> (#[trigger] values[i]) is MultiPolygon {
        Some(Seq::new(values.len(), |i: int| values[i]->MultiPolygon_0))
    } else {
        None
    }
}

/// The bytes of a column of type `t` that holds `values`; nothing where
/// the values cannot be written as that type.
pub open spec fn column_bytes(t: TypeModel, values: Seq<ValueModel>) -> Option<Seq<u8>>
    decreases t, 0nat,
{
    match t {
        TypeModel::String => strings_bytes(values),
        TypeModel::FixedString(width) => fixed_strings_bytes(width, values),
        TypeModel::Nullable(inner) => match column_bytes(
            *inner,
            nulls_replaced(values, default_model(*inner)),
        ) {
            Some(payload) => Some(null_mask(values) + payload),
            None => None,
        },
        TypeModel::Array(inner) => match array_parts(values) {
            Some(parts) => match (offsets_bytes(parts), column_bytes(*inner, concat_all(parts))) {
                (Some(offsets), Some(payload)) => Some(offsets + payload),
                _ => None,
            },
            None => None,
        },
        TypeModel::Mapping(key, value) => match map_parts(values) {
            Some((keys, items)) => match (
                offsets_bytes(keys),
                column_bytes(*key, concat_all(keys)),
                column_bytes(*value, concat_all(items)),
            ) {
                (Some(offsets), Some(key_bytes), Some(item_bytes)) => Some(
                    offsets + key_bytes + item_bytes,
                ),
                _ => None,
            },
            None => None,
        },
        TypeModel::Tuple(items) => tuple_bytes(items, values, 0),
        TypeModel::LowCardinality(inner) => if values.len() == 0 {
            Some(Seq::empty())
        } else if !key_type(dictionary_type(*inner)) || !keys_or_absent(values) {
            None
        } else {
            let entries = dictionary(*inner, values);
            let code = index_width_code(entries.len());
            match (
                column_bytes(dictionary_type(*inner), entries),
                indices_bytes(*inner, values, code, values.len()),
            ) {
                (Some(keys), Some(indices)) => Some(
                    spec_u64_to_le_bytes((LOW_CARDINALITY_FLAGS + code) as u64)
                        + spec_u64_to_le_bytes(entries.len() as u64) + keys
                        + spec_u64_to_le_bytes(values.len() as u64) + indices,
                ),
                _ => None,
            }
        },
        TypeModel::Point => match point_parts(values) {
            Some(points) => Some(points_bytes(points)),
            None => None,
        },
        TypeModel::Ring => match ring_parts(values) {
            Some(rings) => rings_bytes(rings),
            None => None,
        },
        TypeModel::Polygon => match polygon_parts(values) {
            Some(polygons) => polygons_bytes(polygons),
            None => None,
        },
        TypeModel::MultiPolygon => match multi_polygon_parts(values) {
            Some(shapes) => multi_polygons_bytes(shapes),
            None => None,
        },
        _ => scalars_bytes(t, values),
    }
}

/// The columns of the components of a tuple column from component `from`
/// on, one after the other.
pub open spec fn tuple_bytes(items: Seq<TypeModel>, values: Seq<ValueModel>, from: nat) -> Option<
    Seq<u8>,
>
    decreases items, items.len() - from,
{
    if from >= items.len() {
        if tuple_component(values, items.len(), 0) is Some {
            Some(Seq::empty())
        } else {
            None
        }
    } else {
        match tuple_component(values, items.len(), from as int) {
            Some(component) => match (
                column_bytes(items[from as int], component),
                tuple_bytes(items, values, from + 1),
            ) {
                (Some(head), Some(rest)) => Some(head + rest),
                _ => None,
            },
            None => None,
        }
    }
}

/// `head` in front of `rest`, where there is a rest.
pub open spec fn option_prepend(head: Seq<u8>, rest: Option<Seq<u8>>) -> Option<Seq<u8>> {
    match rest {
        Some(bytes) => Some(head + bytes),
        None => None,
    }
}

/// The bytes in front of a column of type `t`: the version of every
/// dictionary encoding inside the type.
pub open spec fn prefix_bytes(t: TypeModel) -> Seq<u8>
    decreases t, 0nat,
{
    match t {
        TypeModel::LowCardinality(_) => spec_u64_to_le_bytes(LOW_CARDINALITY_VERSION),
        TypeModel::Nullable(inner) => prefix_bytes(*inner),
        TypeModel::Array(inner) => prefix_bytes(*inner),
        TypeModel::Mapping(key, value) => prefix_bytes(*key) + prefix_bytes(*value),
        TypeModel::Tuple(items) => prefixes_bytes(items, 0),
        _ => Seq::empty(),
    }
}

/// The prefixes of the components of a tuple from component `from` on.
pub open spec fn prefixes_bytes(items: Seq<TypeModel>, from: nat) -> Seq<u8>
    decreases items, items.len() - from,
{
    if from >= items.len() {
        Seq::empty()
    } else {
        prefix_bytes(items[from as int]) + prefixes_bytes(items, from + 1)
    }
}

} // verus!

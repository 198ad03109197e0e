//! Writing columns.

pub mod nullable;

use crate::errors::{ErrorKind, KlickhouseError};
use crate::io::{append_bytes, ClickhouseWrite};
use crate::types::serialize::nullable::NullableSerializer;
use crate::types::wire::{
    array_parts, column_bytes, concat_all, default_model, default_models, dictionary,
    dictionary_index, dictionary_type, distinct_present, index_bytes, index_width_code,
    indices_bytes, key_type, key_value, keys_or_absent, lemma_distinct_present_index,
    lemma_distinct_present_take, lemma_indices_bytes_need_index, LOW_CARDINALITY_FLAGS,
    fixed_string_element_bytes, fixed_strings_bytes, lemma_concat_all_take, lemma_offsets_take,
    map_parts, offsets_bytes, option_prepend, prefix_bytes, prefixes_bytes, scalar_bytes,
    scalar_width, scalars_bytes, string_element_bytes, strings_bytes, tuple_bytes,
    tuple_component, uuid_bytes, wide_bytes, zeros, LOW_CARDINALITY_VERSION,
};
use crate::types::{types_model, Type, TypeModel};
use crate::types::wire::{
    halves_bytes, multi_polygon_parts, multi_polygons_bytes, point_parts, points_bytes,
    polygon_parts, polygons_bytes, ring_parts, rings_bytes,
};
use crate::values::{
    clone_multi_polygon, clone_polygon, clone_ring, multi_polygons_model, points_model,
    polygons_model, rings_model,
};
use crate::values::{
    clone_values, i256, is_key, key_eq, u256, values_model, Date, DateTime, DynDateTime64, MultiPolygon, Point,
    Polygon, Ring, Value, ValueModel,
};
use vstd::bytes::{u128_to_le_bytes, u16_to_le_bytes, u32_to_le_bytes, u64_to_le_bytes};
use vstd::prelude::*;

verus! {

/// The error of a value that cannot be written as the column's type.
pub fn mismatch(text: &str) -> (e: KlickhouseError)
    ensures
        e.says(ErrorKind::SerializeError, text@),
{
    KlickhouseError::SerializeError(text.to_owned())
}

/// Appends a 16-bit number, little-endian.
pub fn push_u16(out: &mut Vec<u8>, x: u16)
    ensures
        final(out)@ == old(out)@ + vstd::bytes::spec_u16_to_le_bytes(x),
{
    let bytes = u16_to_le_bytes(x);
    append_bytes(out, bytes.as_slice());
}

/// Appends a 32-bit number, little-endian.
pub fn push_u32(out: &mut Vec<u8>, x: u32)
    ensures
        final(out)@ == old(out)@ + vstd::bytes::spec_u32_to_le_bytes(x),
{
    let bytes = u32_to_le_bytes(x);
    append_bytes(out, bytes.as_slice());
}

/// Appends a 64-bit number, little-endian.
pub fn push_u64(out: &mut Vec<u8>, x: u64)
    ensures
        final(out)@ == old(out)@ + vstd::bytes::spec_u64_to_le_bytes(x),
{
    let bytes = u64_to_le_bytes(x);
    append_bytes(out, bytes.as_slice());
}

/// Appends a 128-bit number, little-endian.
pub fn push_u128(out: &mut Vec<u8>, x: u128)
    ensures
        final(out)@ == old(out)@ + vstd::bytes::spec_u128_to_le_bytes(x),
{
    let bytes = u128_to_le_bytes(x);
    append_bytes(out, bytes.as_slice());
}

/// Appends a 256-bit number that is held most significant byte first.
pub fn push_wide(out: &mut Vec<u8>, big_endian: &[u8; 32])
    ensures
        Some(final(out)@) == match wide_bytes(big_endian@) {
            Some(bytes) => Some(old(out)@ + bytes),
            None => None,
        },
{
    let mut i: usize = 0;
    while i < 32
        invariant
            i <= 32,
            big_endian@.len() == 32,
            out@ == old(out)@ + big_endian@.reverse().take(i as int),
        decreases 32 - i,
    {
        out.push(big_endian[31 - i]);
        i += 1;
        assert(out@ =~= old(out)@ + big_endian@.reverse().take(i as int));
    }
    assert(big_endian@.reverse().take(32) =~= big_endian@.reverse());
}

/// Appends the bytes of one element of a scalar type. Nothing is appended
/// where the value is not of the type.
pub fn push_scalar(t: &Type, v: &Value, out: &mut Vec<u8>) -> (r: bool)
    ensures
        match scalar_bytes(t@, v@) {
            Some(bytes) => r && final(out)@ == old(out)@ + bytes,
            None => !r && final(out)@ == old(out)@,
        },
{
    match (t, v) {
        (Type::Int8, Value::Int8(x)) => {
            out.push(#[verifier::truncate] (*x as u8));
            assert(out@ =~= old(out)@ + seq![*x as u8]);
        },
        (Type::Int16, Value::Int16(x)) => push_u16(out, #[verifier::truncate] (*x as u16)),
        (Type::Int32, Value::Int32(x)) => push_u32(out, #[verifier::truncate] (*x as u32)),
        (Type::Int64, Value::Int64(x)) => push_u64(out, #[verifier::truncate] (*x as u64)),
        (Type::Int128, Value::Int128(x)) => push_u128(out, #[verifier::truncate] (*x as u128)),
        (Type::Int256, Value::Int256(x)) => push_wide(out, &x.0),
        (Type::UInt8, Value::UInt8(x)) => {
            out.push(*x);
            assert(out@ =~= old(out)@ + seq![*x]);
        },
        (Type::UInt16, Value::UInt16(x)) => push_u16(out, *x),
        (Type::UInt32, Value::UInt32(x)) => push_u32(out, *x),
        (Type::UInt64, Value::UInt64(x)) => push_u64(out, *x),
        (Type::UInt128, Value::UInt128(x)) => push_u128(out, *x),
        (Type::UInt256, Value::UInt256(x)) => push_wide(out, &x.0),
        (Type::Float32, Value::Float32(x)) => push_u32(out, *x),
        (Type::Float64, Value::Float64(x)) => push_u64(out, *x),
        (Type::Decimal32(_), Value::Decimal32(_, x)) => push_u32(
            out,
            #[verifier::truncate] (*x as u32),
        ),
        (Type::Decimal64(_), Value::Decimal64(_, x)) => push_u64(
            out,
            #[verifier::truncate] (*x as u64),
        ),
        (Type::Decimal128(_), Value::Decimal128(_, x)) => push_u128(
            out,
            #[verifier::truncate] (*x as u128),
        ),
        (Type::Decimal256(_), Value::Decimal256(_, x)) => push_wide(out, &x.0),
        (Type::Uuid, Value::Uuid(x)) => {
            push_u64(out, (*x / 0x1_0000_0000_0000_0000) as u64);
            push_u64(out, (*x % 0x1_0000_0000_0000_0000) as u64);
            assert(out@ =~= old(out)@ + uuid_bytes(*x));
        },
        (Type::Date, Value::Date(d)) => push_u16(out, d.0),
        (Type::DateTime(_), Value::DateTime(d)) => push_u32(out, d.1),
        (Type::DateTime64(_, _), Value::DateTime64(d)) => push_u64(
            out,
            #[verifier::truncate] (d.1 as u64),
        ),
        (Type::Enum8(_), Value::Enum8(x)) => {
            out.push(#[verifier::truncate] (*x as u8));
            assert(out@ =~= old(out)@ + seq![*x as u8]);
        },
        (Type::Enum16(_), Value::Enum16(x)) => push_u16(out, #[verifier::truncate] (*x as u16)),
        _ => {
            return false;
        },
    }
    true
}

/// Writes a column of a scalar type.
pub fn serialize_scalars(t: &Type, values: &Vec<Value>, out: &mut Vec<u8>) -> (r: Result<
    (),
    KlickhouseError,
>)
    ensures
        match scalars_bytes(t@, values_model(values@)) {
            Some(bytes) => r is Ok && final(out)@ == old(out)@ + bytes,
            None => r matches Err(e) && e.kind() == ErrorKind::SerializeError,
        },
{
    let ghost models = values_model(values@);
    let mut i: usize = 0;
    assert(models.take(0) =~= Seq::<ValueModel>::empty());
    while i < values.len()
        invariant
            i <= values@.len(),
            models == values_model(values@),
            scalars_bytes(t@, models.take(i as int)) matches Some(bytes) && out@ == old(out)@
                + bytes,
        decreases values@.len() - i,
    {
        let ghost head = scalars_bytes(t@, models.take(i as int))->0;
        assert(models.take(i + 1).drop_last() =~= models.take(i as int));
        assert(models.take(i + 1).last() == values@[i as int]@);
        if !push_scalar(t, &values[i], out) {
            proof {
                lemma_scalars_bytes_prefix(t@, models, i + 1);
            }
            return Err(mismatch("value does not have the type of its column"));
        }
        assert(out@ =~= old(out)@ + (head + scalar_bytes(t@, values@[i as int]@)->0));
        i += 1;
    }
    assert(models.take(values@.len() as int) =~= models);
    Ok(())
}

/// Where a beginning of a scalar column cannot be written, the column
/// cannot.
pub proof fn lemma_scalars_bytes_prefix(t: TypeModel, values: Seq<ValueModel>, n: int)
    requires
        0 <= n <= values.len(),
        scalars_bytes(t, values.take(n)) is None,
    ensures
        scalars_bytes(t, values) is None,
    decreases values.len(),
{
    if n == values.len() {
        assert(values.take(n) =~= values);
    } else {
        assert(values.drop_last().take(n) =~= values.take(n));
        lemma_scalars_bytes_prefix(t, values.drop_last(), n);
    }
}

/// Where a beginning of a string column cannot be written, the column
/// cannot.
pub proof fn lemma_strings_bytes_prefix(values: Seq<ValueModel>, n: int)
    requires
        0 <= n <= values.len(),
        strings_bytes(values.take(n)) is None,
    ensures
        strings_bytes(values) is None,
    decreases values.len(),
{
    if n == values.len() {
        assert(values.take(n) =~= values);
    } else {
        assert(values.drop_last().take(n) =~= values.take(n));
        lemma_strings_bytes_prefix(values.drop_last(), n);
    }
}

/// Where a beginning of a fixed-width string column cannot be written, the
/// column cannot.
pub proof fn lemma_fixed_strings_bytes_prefix(width: nat, values: Seq<ValueModel>, n: int)
    requires
        0 <= n <= values.len(),
        fixed_strings_bytes(width, values.take(n)) is None,
    ensures
        fixed_strings_bytes(width, values) is None,
    decreases values.len(),
{
    if n == values.len() {
        assert(values.take(n) =~= values);
    } else {
        assert(values.drop_last().take(n) =~= values.take(n));
        lemma_fixed_strings_bytes_prefix(width, values.drop_last(), n);
    }
}

/// Writes a column of strings: for each element its length as a varint and
/// its bytes.
pub fn serialize_strings(values: &Vec<Value>, out: &mut Vec<u8>) -> (r: Result<
    (),
    KlickhouseError,
>)
    ensures
        match strings_bytes(values_model(values@)) {
            Some(bytes) => r is Ok && final(out)@ == old(out)@ + bytes,
            None => r matches Err(e) && e.kind() == ErrorKind::SerializeError,
        },
{
    let ghost models = values_model(values@);
    let mut i: usize = 0;
    assert(models.take(0) =~= Seq::<ValueModel>::empty());
    while i < values.len()
        invariant
            i <= values@.len(),
            models == values_model(values@),
            strings_bytes(models.take(i as int)) matches Some(bytes) && out@ == old(out)@ + bytes,
        decreases values@.len() - i,
    {
        let ghost head = strings_bytes(models.take(i as int))->0;
        assert(models.take(i + 1).drop_last() =~= models.take(i as int));
        assert(models.take(i + 1).last() == values@[i as int]@);
        match &values[i] {
            Value::String(bytes) => {
                let _ = out.write_string(bytes.as_slice());
                assert(out@ =~= old(out)@ + (head + string_element_bytes(values@[i as int]@)->0));
            },
            _ => {
                proof {
                    lemma_strings_bytes_prefix(models, i + 1);
                }
                return Err(mismatch("value is no string"));
            },
        }
        i += 1;
    }
    assert(models.take(values@.len() as int) =~= models);
    Ok(())
}

/// Writes a column of fixed-width strings: each element padded with zeros
/// to the width. An element longer than the width is an error.
pub fn serialize_fixed_strings(width: usize, values: &Vec<Value>, out: &mut Vec<u8>) -> (r:
    Result<(), KlickhouseError>)
    ensures
        match fixed_strings_bytes(width as nat, values_model(values@)) {
            Some(bytes) => r is Ok && final(out)@ == old(out)@ + bytes,
            None => r matches Err(e) && e.kind() == ErrorKind::SerializeError,
        },
{
    let ghost models = values_model(values@);
    let mut i: usize = 0;
    assert(models.take(0) =~= Seq::<ValueModel>::empty());
    while i < values.len()
        invariant
            i <= values@.len(),
            models == values_model(values@),
            fixed_strings_bytes(width as nat, models.take(i as int)) matches Some(bytes) && out@
                == old(out)@ + bytes,
        decreases values@.len() - i,
    {
        let ghost head = fixed_strings_bytes(width as nat, models.take(i as int))->0;
        assert(models.take(i + 1).drop_last() =~= models.take(i as int));
        assert(models.take(i + 1).last() == values@[i as int]@);
        match &values[i] {
            Value::String(bytes) => {
                if bytes.len() > width {
                    proof {
                        lemma_fixed_strings_bytes_prefix(width as nat, models, i + 1);
                    }
                    return Err(mismatch("string is longer than the fixed width of its column"));
                }
                let ghost before = out@;
                append_bytes(out, bytes.as_slice());
                let mut k: usize = bytes.len();
                while k < width
                    invariant
                        bytes@.len() <= k <= width,
                        out@ == before + bytes@ + zeros((k - bytes@.len()) as nat),
                    decreases width - k,
                {
                    out.push(0);
                    k += 1;
                    assert(out@ =~= before + bytes@ + zeros((k - bytes@.len()) as nat));
                }
                assert(out@ =~= old(out)@ + (head + fixed_string_element_bytes(
                    width as nat,
                    values@[i as int]@,
                )->0));
            },
            _ => {
                proof {
                    lemma_fixed_strings_bytes_prefix(width as nat, models, i + 1);
                }
                return Err(mismatch("value is no string"));
            },
        }
        i += 1;
    }
    assert(models.take(values@.len() as int) =~= models);
    Ok(())
}

/// Appends a copy of each of `items` to `flat`.
pub fn extend_cloned(flat: &mut Vec<Value>, items: &Vec<Value>)
    ensures
        values_model(final(flat)@) == values_model(old(flat)@) + values_model(items@),
        final(flat)@.len() == old(flat)@.len() + items@.len(),
{
    let mut i: usize = 0;
    while i < items.len()
        invariant
            i <= items@.len(),
            flat@.len() == old(flat)@.len() + i,
            forall|k: int| 0 <= k < old(flat)@.len() ==> (#[trigger] flat@[k]) == old(flat)@[k],
            forall|j: int|
                old(flat)@.len() <= j < old(flat)@.len() + i ==> (#[trigger] flat@[j])@
                    == items@[j - old(flat)@.len()]@,
        decreases items@.len() - i,
    {
        flat.push(items[i].clone());
        i += 1;
    }
    assert(values_model(flat@) =~= values_model(old(flat)@) + values_model(items@));
}

impl Type {
    /// The value that stands in for an absent element of this type.
    pub fn default_value(&self) -> (r: Value)
        ensures
            r@ == default_model(self@),
        decreases self,
    {
        match self {
            Type::Int8 => Value::Int8(0),
            Type::Int16 => Value::Int16(0),
            Type::Int32 => Value::Int32(0),
            Type::Int64 => Value::Int64(0),
            Type::Int128 => Value::Int128(0),
            Type::Int256 => {
                let zero = i256([0u8; 32]);
                assert(zero.0@ =~= zeros(32));
                Value::Int256(zero)
            },
            Type::UInt8 => Value::UInt8(0),
            Type::UInt16 => Value::UInt16(0),
            Type::UInt32 => Value::UInt32(0),
            Type::UInt64 => Value::UInt64(0),
            Type::UInt128 => Value::UInt128(0),
            Type::UInt256 => {
                let zero = u256([0u8; 32]);
                assert(zero.0@ =~= zeros(32));
                Value::UInt256(zero)
            },
            Type::Float32 => Value::Float32(0),
            Type::Float64 => Value::Float64(0),
            Type::Decimal32(scale) => Value::Decimal32(*scale, 0),
            Type::Decimal64(scale) => Value::Decimal64(*scale, 0),
            Type::Decimal128(scale) => Value::Decimal128(*scale, 0),
            Type::Decimal256(scale) => {
                let zero = i256([0u8; 32]);
                assert(zero.0@ =~= zeros(32));
                Value::Decimal256(*scale, zero)
            },
            Type::String => Value::String(Vec::new()),
            Type::FixedString(_) => Value::String(Vec::new()),
            Type::Uuid => Value::Uuid(0),
            Type::Date => Value::Date(Date(0)),
            Type::DateTime(zone) => Value::DateTime(DateTime(zone.clone(), 0)),
            Type::DateTime64(precision, zone) => Value::DateTime64(
                DynDateTime64(zone.clone(), 0, *precision),
            ),
            Type::Enum8(_) => Value::Enum8(0),
            Type::Enum16(_) => Value::Enum16(0),
            Type::LowCardinality(inner) => inner.default_value(),
            Type::Array(_) => {
                let items: Vec<Value> = Vec::new();
                assert(values_model(items@) =~= Seq::<ValueModel>::empty());
                Value::Array(items)
            },
            Type::Tuple(items) => {
                let mut values: Vec<Value> = Vec::new();
                let mut i: usize = 0;
                while i < items.len()
                    invariant
                        *self matches Type::Tuple(v) && v == *items,
                        i <= items@.len(),
                        values@.len() == i,
                        forall|k: int|
                            0 <= k < i ==> (#[trigger] values@[k])@ == default_model(items@[k]@),
                    decreases items@.len() - i,
                {
                    values.push(items[i].default_value());
                    i += 1;
                }
                assert(values_model(values@) =~= default_models(types_model(items@)));
                Value::Tuple(values)
            },
            Type::Nullable(_) => Value::Null,
            Type::Mapping(_, _) => {
                let keys: Vec<Value> = Vec::new();
                let values: Vec<Value> = Vec::new();
                assert(values_model(keys@) =~= Seq::<ValueModel>::empty());
                assert(values_model(values@) =~= Seq::<ValueModel>::empty());
                Value::Mapping(keys, values)
            },
            Type::Point => Value::Point(Point([0u64; 2])),
            Type::Ring => {
                let ring = Ring(Vec::new());
                assert(ring.model() =~= Seq::<(u64, u64)>::empty());
                Value::Ring(ring)
            },
            Type::Polygon => {
                let polygon = Polygon(Vec::new());
                assert(polygon.model() =~= Seq::<Seq<(u64, u64)>>::empty());
                Value::Polygon(polygon)
            },
            Type::MultiPolygon => {
                let shape = MultiPolygon(Vec::new());
                assert(shape.model() =~= Seq::<Seq<Seq<(u64, u64)>>>::empty());
                Value::MultiPolygon(shape)
            },
        }
    }

    /// Writes what stands in front of a column of this type: the version
    /// of every dictionary encoding inside it.
    pub fn serialize_prefix(&self, out: &mut Vec<u8>)
        ensures
            final(out)@ == old(out)@ + prefix_bytes(self@),
        decreases self,
    {
        match self {
            Type::LowCardinality(_) => push_u64(out, LOW_CARDINALITY_VERSION),
            Type::Nullable(inner) => inner.serialize_prefix(out),
            Type::Array(inner) => inner.serialize_prefix(out),
            Type::Mapping(key, value) => {
                key.serialize_prefix(out);
                value.serialize_prefix(out);
                assert(out@ =~= old(out)@ + prefix_bytes(self@));
            },
            Type::Tuple(items) => {
                let ghost models = types_model(items@);
                let mut i: usize = 0;
                while i < items.len()
                    invariant
                        *self matches Type::Tuple(v) && v == *items,
                        i <= items@.len(),
                        models == types_model(items@),
                        out@ + prefixes_bytes(models, i as nat) == old(out)@ + prefixes_bytes(
                            models,
                            0,
                        ),
                    decreases items@.len() - i,
                {
                    let ghost before = out@;
                    items[i].serialize_prefix(out);
                    assert(models[i as int] == items@[i as int]@);
                    assert(out@ + prefixes_bytes(models, (i + 1) as nat) =~= before
                        + prefixes_bytes(models, i as nat));
                    i += 1;
                }
                assert(out@ + prefixes_bytes(models, i as nat) =~= out@);
            },
            _ => {
                assert(out@ =~= old(out)@ + prefix_bytes(self@));
            },
        }
    }

    /// Writes `values` as a column of this type. Values that cannot be
    /// written as this type are a serialize error.
    pub fn serialize_column(&self, values: &Vec<Value>, out: &mut Vec<u8>) -> (r: Result<
        (),
        KlickhouseError,
    >)
        ensures
            match column_bytes(self@, values_model(values@)) {
                Some(bytes) => r is Ok && final(out)@ == old(out)@ + bytes,
                None => r matches Err(e) && e.kind() == ErrorKind::SerializeError,
            },
        decreases self, 1nat,
    {
        match self {
            Type::String => serialize_strings(values, out),
            Type::FixedString(width) => serialize_fixed_strings(*width, values, out),
            Type::Nullable(_) => NullableSerializer::write(self, values, out),
            Type::Array(inner) => serialize_array(inner, values, out),
            Type::Mapping(_, _) => serialize_map(self, values, out),
            Type::Tuple(items) => serialize_tuple(items, values, out),
            Type::LowCardinality(inner) => serialize_low_cardinality(inner, values, out),
            Type::Point => serialize_points(values, out),
            Type::Ring => serialize_rings(values, out),
            Type::Polygon => serialize_polygons(values, out),
            Type::MultiPolygon => serialize_multi_polygons(values, out),
            _ => serialize_scalars(self, values, out),
        }
    }
}

/// Writes the cumulative offsets of the arrays in `values` and returns
/// their elements, one array after the other.
fn flatten_arrays(values: &Vec<Value>, out: &mut Vec<u8>) -> (r: Option<Vec<Value>>)
    ensures
        match array_parts(values_model(values@)) {
            Some(parts) => (r matches Some(flat) && values_model(flat@) == concat_all(parts)) && (
            offsets_bytes(parts) matches Some(offsets) && final(out)@ == old(out)@ + offsets),
            None => r is None,
        },
{
    let ghost models = values_model(values@);
    let ghost parts = Seq::new(models.len(), |i: int| models[i]->Array_0);
    let mut flat: Vec<Value> = Vec::new();
    let mut i: usize = 0;
    proof {
        assert(parts.take(0) =~= Seq::<Seq<ValueModel>>::empty());
        assert(values_model(flat@) =~= Seq::<ValueModel>::empty());
    }
    while i < values.len()
        invariant
            i <= values@.len(),
            models == values_model(values@),
            parts == Seq::new(models.len(), |i: int| models[i]->Array_0),
            forall|k: int| 0 <= k < i ==> (#[trigger] models[k]) is Array,
            values_model(flat@) == concat_all(parts.take(i as int)),
            offsets_bytes(parts.take(i as int)) matches Some(offsets) && out@ == old(out)@
                + offsets,
        decreases values@.len() - i,
    {
        let ghost head = offsets_bytes(parts.take(i as int))->0;
        assert(models[i as int] == values@[i as int]@);
        match &values[i] {
            Value::Array(items) => {
                extend_cloned(&mut flat, items);
                proof {
                    lemma_concat_all_take(parts, i as int);
                    lemma_offsets_take(parts, i as int);
                }
                push_u64(out, flat.len() as u64);
                assert(out@ =~= old(out)@ + (head + vstd::bytes::spec_u64_to_le_bytes(
                    flat@.len() as u64,
                )));
            },
            _ => {
                return None;
            },
        }
        i += 1;
    }
    assert(parts.take(values@.len() as int) =~= parts);
    Some(flat)
}

/// Writes a column of arrays: the cumulative offsets, then the column of
/// all elements.
fn serialize_array(inner: &Type, values: &Vec<Value>, out: &mut Vec<u8>) -> (r: Result<
    (),
    KlickhouseError,
>)
    ensures
        match column_bytes(TypeModel::Array(Box::new(inner@)), values_model(values@)) {
            Some(bytes) => r is Ok && final(out)@ == old(out)@ + bytes,
            None => r matches Err(e) && e.kind() == ErrorKind::SerializeError,
        },
    decreases inner, 2nat,
{
    let flat = match flatten_arrays(values, out) {
        Some(flat) => flat,
        None => {
            return Err(mismatch("value is no array"));
        },
    };
    let ghost offsets = out@;
    let r = inner.serialize_column(&flat, out);
    proof {
        let parts = array_parts(values_model(values@))->0;
        match column_bytes(inner@, concat_all(parts)) {
            Some(payload) => {
                assert(out@ =~= old(out)@ + (offsets_bytes(parts)->0 + payload));
            },
            None => {},
        }
    }
    r
}

/// Writes the cumulative offsets of the maps in `values` and returns their
/// keys and their values, one map after the other.
fn flatten_maps(values: &Vec<Value>, out: &mut Vec<u8>) -> (r: Option<(Vec<Value>, Vec<Value>)>)
    ensures
        match map_parts(values_model(values@)) {
            Some((keys, items)) => (r matches Some(flat) && values_model(flat.0@) == concat_all(
                keys,
            ) && values_model(flat.1@) == concat_all(items)) && (offsets_bytes(
                keys,
            ) matches Some(offsets) && final(out)@ == old(out)@ + offsets),
            None => r is None,
        },
{
    let ghost models = values_model(values@);
    let ghost keys = Seq::new(models.len(), |i: int| models[i]->Mapping_0);
    let ghost items = Seq::new(models.len(), |i: int| models[i]->Mapping_1);
    let mut flat_keys: Vec<Value> = Vec::new();
    let mut flat_items: Vec<Value> = Vec::new();
    let mut i: usize = 0;
    proof {
        assert(keys.take(0) =~= Seq::<Seq<ValueModel>>::empty());
        assert(items.take(0) =~= Seq::<Seq<ValueModel>>::empty());
        assert(values_model(flat_keys@) =~= Seq::<ValueModel>::empty());
        assert(values_model(flat_items@) =~= Seq::<ValueModel>::empty());
    }
    while i < values.len()
        invariant
            i <= values@.len(),
            models == values_model(values@),
            keys == Seq::new(models.len(), |i: int| models[i]->Mapping_0),
            items == Seq::new(models.len(), |i: int| models[i]->Mapping_1),
            forall|k: int|
                0 <= k < i ==> ((#[trigger] models[k]) matches ValueModel::Mapping(a, b)
                    && a.len() == b.len()),
            values_model(flat_keys@) == concat_all(keys.take(i as int)),
            values_model(flat_items@) == concat_all(items.take(i as int)),
            offsets_bytes(keys.take(i as int)) matches Some(offsets) && out@ == old(out)@
                + offsets,
        decreases values@.len() - i,
    {
        let ghost head = offsets_bytes(keys.take(i as int))->0;
        assert(models[i as int] == values@[i as int]@);
        match &values[i] {
            Value::Mapping(k, v) => {
                if k.len() != v.len() {
                    return None;
                }
                extend_cloned(&mut flat_keys, k);
                extend_cloned(&mut flat_items, v);
                proof {
                    lemma_concat_all_take(keys, i as int);
                    lemma_concat_all_take(items, i as int);
                    lemma_offsets_take(keys, i as int);
                }
                push_u64(out, flat_keys.len() as u64);
                assert(out@ =~= old(out)@ + (head + vstd::bytes::spec_u64_to_le_bytes(
                    flat_keys@.len() as u64,
                )));
            },
            _ => {
                return None;
            },
        }
        i += 1;
    }
    assert(keys.take(values@.len() as int) =~= keys);
    assert(items.take(values@.len() as int) =~= items);
    Some((flat_keys, flat_items))
}

/// Writes a column of maps: the cumulative offsets, then the column of all
/// keys, then the column of all values.
fn serialize_map(t: &Type, values: &Vec<Value>, out: &mut Vec<u8>) -> (r: Result<
    (),
    KlickhouseError,
>)
    requires
        (t is Mapping),
    ensures
        match column_bytes(t@, values_model(values@)) {
            Some(bytes) => r is Ok && final(out)@ == old(out)@ + bytes,
            None => r matches Err(e) && e.kind() == ErrorKind::SerializeError,
        },
    decreases t, 0nat,
{
    let (key, value) = match t {
        Type::Mapping(key, value) => (key, value),
        _ => {
            return Ok(());
        },
    };
    let (flat_keys, flat_items) = match flatten_maps(values, out) {
        Some(flat) => flat,
        None => {
            return Err(mismatch("value is no map with as many keys as values"));
        },
    };
    let written = key.serialize_column(&flat_keys, out);
    if written.is_err() {
        return written;
    }
    let r = value.serialize_column(&flat_items, out);
    proof {
        let parts = map_parts(values_model(values@))->0;
        match (column_bytes(key@, concat_all(parts.0)), column_bytes(value@, concat_all(parts.1))) {
            (Some(a), Some(b)) => {
                assert(out@ =~= old(out)@ + (offsets_bytes(parts.0)->0 + a + b));
            },
            _ => {},
        }
    }
    r
}

/// Whether every value is a tuple of `arity` components.
fn all_tuples(values: &Vec<Value>, arity: usize) -> (r: bool)
    ensures
        r == (tuple_component(values_model(values@), arity as nat, 0) is Some),
{
    let ghost models = values_model(values@);
    let mut i: usize = 0;
    while i < values.len()
        invariant
            i <= values@.len(),
            models == values_model(values@),
            forall|k: int|
                0 <= k < i ==> ((#[trigger] models[k]) matches ValueModel::Tuple(items)
                    && items.len() == arity),
        decreases values@.len() - i,
    {
        assert(models[i as int] == values@[i as int]@);
        match &values[i] {
            Value::Tuple(items) => {
                if items.len() != arity {
                    return false;
                }
            },
            _ => {
                return false;
            },
        }
        i += 1;
    }
    true
}

/// A copy of component `k` of each tuple.
fn tuple_column(values: &Vec<Value>, arity: usize, k: usize) -> (r: Vec<Value>)
    requires
        k < arity,
        tuple_component(values_model(values@), arity as nat, 0) is Some,
    ensures
        Some(values_model(r@)) == tuple_component(values_model(values@), arity as nat, k as int),
{
    let ghost models = values_model(values@);
    let mut column: Vec<Value> = Vec::new();
    let mut i: usize = 0;
    while i < values.len()
        invariant
            i <= values@.len(),
            k < arity,
            models == values_model(values@),
            forall|j: int|
                0 <= j < models.len() ==> ((#[trigger] models[j]) matches ValueModel::Tuple(items)
                    && items.len() == arity),
            column@.len() == i,
            forall|j: int| 0 <= j < i ==> (#[trigger] column@[j])@ == models[j]->Tuple_0[k as int],
        decreases values@.len() - i,
    {
        assert(models[i as int] == values@[i as int]@);
        match &values[i] {
            Value::Tuple(items) => {
                assert(values_model(items@)[k as int] == items@[k as int]@);
                column.push(items[k].clone());
            },
            _ => {
                assert(false);
            },
        }
        i += 1;
    }
    assert(values_model(column@) =~= tuple_component(models, arity as nat, k as int)->0);
    column
}

/// Writes a column of tuples: for each component the column of that
/// component, in field order.
fn serialize_tuple(items: &Vec<Type>, values: &Vec<Value>, out: &mut Vec<u8>) -> (r: Result<
    (),
    KlickhouseError,
>)
    ensures
        match tuple_bytes(types_model(items@), values_model(values@), 0) {
            Some(bytes) => r is Ok && final(out)@ == old(out)@ + bytes,
            None => r matches Err(e) && e.kind() == ErrorKind::SerializeError,
        },
    decreases items, 2nat,
{
    let ghost types = types_model(items@);
    let ghost models = values_model(values@);
    if !all_tuples(values, items.len()) {
        proof {
            lemma_tuple_bytes_needs_tuples(types, models, 0);
        }
        return Err(mismatch("value is no tuple of the arity of its column"));
    }
    let ghost mut written: Seq<u8> = Seq::empty();
    let mut k: usize = 0;
    assert(out@ =~= old(out)@ + written);
    while k < items.len()
        invariant
            k <= items@.len(),
            types == types_model(items@),
            models == values_model(values@),
            tuple_component(models, items@.len() as nat, 0) is Some,
            out@ == old(out)@ + written,
            tuple_bytes(types, models, 0) == option_prepend(
                written,
                tuple_bytes(types, models, k as nat),
            ),
        decreases items@.len() - k,
    {
        let column = tuple_column(values, items.len(), k);
        assert(types[k as int] == items@[k as int]@);
        let ghost head = column_bytes(types[k as int], values_model(column@));
        let ghost rest = tuple_bytes(types, models, (k + 1) as nat);
        let r = items[k].serialize_column(&column, out);
        if r.is_err() {
            return r;
        }
        proof {
            match rest {
                Some(bytes) => {
                    assert(written + (head->0 + bytes) =~= (written + head->0) + bytes);
                },
                None => {},
            }
            assert(out@ =~= old(out)@ + (written + head->0));
            written = written + head->0;
        }
        k += 1;
    }
    assert(written + Seq::<u8>::empty() =~= written);
    Ok(())
}

/// A tuple column of values that are not all tuples of the right arity
/// cannot be written.
pub proof fn lemma_tuple_bytes_needs_tuples(
    items: Seq<TypeModel>,
    values: Seq<ValueModel>,
    from: nat,
)
    requires
        tuple_component(values, items.len(), 0) is None,
    ensures
        tuple_bytes(items, values, from) is None,
    decreases items.len() - from,
{
    if from < items.len() {
        assert(tuple_component(values, items.len(), from as int) is None);
    }
}

/// Whether a type can be the type of a dictionary.
pub fn is_key_type(t: &Type) -> (r: bool)
    ensures
        r == key_type(t@),
{
    match t {
        Type::LowCardinality(_)
        | Type::Array(_)
        | Type::Tuple(_)
        | Type::Nullable(_)
        | Type::Mapping(_, _)
        | Type::Point
        | Type::Ring
        | Type::Polygon
        | Type::MultiPolygon => false,
        _ => true,
    }
}

/// The place of `v` among `keys`.
fn find_key(keys: &Vec<Value>, v: &Value) -> (r: Option<usize>)
    requires
        key_value(v@),
        forall|j: int| 0 <= j < keys@.len() ==> key_value(#[trigger] keys@[j]@),
    ensures
        match r {
            Some(j) => j < keys@.len() && keys@[j as int]@ == v@,
            None => !values_model(keys@).contains(v@),
        },
{
    let mut j: usize = 0;
    while j < keys.len()
        invariant
            j <= keys@.len(),
            key_value(v@),
            forall|k: int| 0 <= k < keys@.len() ==> key_value(#[trigger] keys@[k]@),
            forall|k: int| 0 <= k < j ==> (#[trigger] keys@[k])@ != v@,
        decreases keys@.len() - j,
    {
        if key_eq(&keys[j], v) {
            return Some(j);
        }
        j += 1;
    }
    assert forall|k: int| 0 <= k < values_model(keys@).len() implies values_model(keys@)[k]
        != v@ by {
        assert(values_model(keys@)[k] == keys@[k]@);
    }
    None
}

/// Appends one dictionary index at the width that `code` names.
fn push_index(out: &mut Vec<u8>, code: u64, index: usize)
    requires
        code <= 3,
    ensures
        final(out)@ == old(out)@ + index_bytes(code as nat, index as nat),
{
    if code == 0 {
        out.push(#[verifier::truncate] (index as u8));
        assert(out@ =~= old(out)@ + index_bytes(code as nat, index as nat));
    } else if code == 1 {
        push_u16(out, #[verifier::truncate] (index as u16));
    } else if code == 2 {
        push_u32(out, #[verifier::truncate] (index as u32));
    } else {
        push_u64(out, index as u64);
    }
}

/// Writes a dictionary-encoded column: flags with the width of the
/// indices, the size of the dictionary, the dictionary as a column of the
/// inner type without its nullability, the number of rows, and one index
/// per row. An empty column is written as nothing.
fn serialize_low_cardinality(inner: &Type, values: &Vec<Value>, out: &mut Vec<u8>) -> (r: Result<
    (),
    KlickhouseError,
>)
    ensures
        match column_bytes(TypeModel::LowCardinality(Box::new(inner@)), values_model(values@)) {
            Some(bytes) => r is Ok && final(out)@ == old(out)@ + bytes,
            None => r matches Err(e) && e.kind() == ErrorKind::SerializeError,
        },
    decreases inner, 2nat,
{
    let ghost models = values_model(values@);
    if values.len() == 0 {
        assert(out@ =~= old(out)@ + Seq::<u8>::empty());
        return Ok(());
    }
    let nullable = match inner {
        Type::Nullable(_) => true,
        _ => false,
    };
    let base: &Type = match inner {
        Type::Nullable(b) => b,
        other => other,
    };
    assert(base@ == dictionary_type(inner@));
    if !is_key_type(base) {
        return Err(mismatch("type cannot be dictionary-encoded"));
    }
    let offset: usize = if nullable {
        1
    } else {
        0
    };
    let mut keys: Vec<Value> = Vec::new();
    let mut indices: Vec<usize> = Vec::new();
    let mut i: usize = 0;
    proof {
        assert(models.take(0) =~= Seq::<ValueModel>::empty());
        assert(values_model(keys@) =~= Seq::<ValueModel>::empty());
    }
    while i < values.len()
        invariant
            i <= values@.len(),
            models == values_model(values@),
            nullable == (inner@ is Nullable),
            offset == (if nullable {
                1int
            } else {
                0int
            }),
            values_model(keys@) == distinct_present(models.take(i as int)),
            keys@.len() <= i,
            forall|j: int| 0 <= j < keys@.len() ==> key_value(#[trigger] keys@[j]@),
            indices@.len() == i,
            forall|k: int| 0 <= k < i ==> (#[trigger] models[k]) is Null || key_value(models[k]),
            forall|k: int|
                0 <= k < i ==> if (#[trigger] models[k]) is Null {
                    nullable && indices@[k] == 0
                } else {
                    offset <= indices@[k] < offset + keys@.len() && keys@[indices@[k] - offset]@
                        == models[k]
                },
        decreases values@.len() - i,
    {
        let v = &values[i];
        assert(models[i as int] == v@);
        proof {
            lemma_distinct_present_take(models, i as int);
        }
        match v {
            Value::Null => {
                if !nullable {
                    proof {
                        lemma_indices_bytes_need_index(
                            inner@,
                            models,
                            index_width_code(dictionary(inner@, models).len()),
                            models.len(),
                            i as int,
                        );
                    }
                    return Err(mismatch("absent value in a column that is not nullable"));
                }
                indices.push(0);
            },
            _ => {
                if !is_key(v) {
                    return Err(mismatch("value cannot be a dictionary key"));
                }
                match find_key(&keys, v) {
                    Some(j) => {
                        assert(values_model(keys@)[j as int] == keys@[j as int]@);
                        indices.push(j + offset);
                    },
                    None => {
                        let ghost before = values_model(keys@);
                        keys.push(v.clone());
                        assert(values_model(keys@) =~= before.push(v@));
                        indices.push(keys.len() - 1 + offset);
                    },
                }
            },
        }
        i += 1;
    }
    assert(models.take(values@.len() as int) =~= models);
    let mut entries: Vec<Value> = Vec::new();
    if nullable {
        entries.push(base.default_value());
    }
    let ghost first = values_model(entries@);
    extend_cloned(&mut entries, &keys);
    proof {
        if nullable {
            assert(first =~= seq![default_model(dictionary_type(inner@))]);
        } else {
            assert(first =~= Seq::<ValueModel>::empty());
        }
        assert(values_model(entries@) =~= dictionary(inner@, models));
    }
    let size = entries.len() as u64;
    let code: u64 = if size <= 0x100 {
        0
    } else if size <= 0x1_0000 {
        1
    } else if size <= 0x1_0000_0000 {
        2
    } else {
        3
    };
    assert(code == index_width_code(dictionary(inner@, models).len()));
    push_u64(out, LOW_CARDINALITY_FLAGS + code);
    push_u64(out, size);
    let written = base.serialize_column(&entries, out);
    if written.is_err() {
        return written;
    }
    push_u64(out, values.len() as u64);
    let ghost base_out = out@;
    let mut k: usize = 0;
    while k < values.len()
        invariant
            k <= values@.len(),
            code <= 3,
            models == values_model(values@),
            nullable == (inner@ is Nullable),
            offset == (if nullable {
                1int
            } else {
                0int
            }),
            indices@.len() == values@.len(),
            values_model(keys@) == distinct_present(models),
            forall|k: int|
                0 <= k < models.len() ==> if (#[trigger] models[k]) is Null {
                    nullable && indices@[k] == 0
                } else {
                    offset <= indices@[k] < offset + keys@.len() && keys@[indices@[k] - offset]@
                        == models[k]
                },
            indices_bytes(inner@, models, code as nat, k as nat) matches Some(bytes) && out@
                == base_out + bytes,
        decreases values@.len() - k,
    {
        let ghost head = indices_bytes(inner@, models, code as nat, k as nat)->0;
        proof {
            if !(models[k as int] is Null) {
                let j = indices@[k as int] - offset;
                assert(models.take(models.len() as int) =~= models);
                assert(values_model(keys@)[j] == keys@[j]@);
                lemma_distinct_present_index(models, models.len() as int, j);
            }
            assert(dictionary_index(inner@, models, models[k as int]) == Some(
                indices@[k as int] as nat,
            ));
        }
        push_index(out, code, indices[k]);
        assert(out@ =~= base_out + (head + index_bytes(code as nat, indices@[k as int] as nat)));
        k += 1;
    }
    proof {
        let keys_bytes = column_bytes(dictionary_type(inner@), dictionary(inner@, models))->0;
        let tail = indices_bytes(inner@, models, code as nat, models.len())->0;
        assert(out@ =~= old(out)@ + (vstd::bytes::spec_u64_to_le_bytes(
            (LOW_CARDINALITY_FLAGS + code) as u64,
        ) + vstd::bytes::spec_u64_to_le_bytes(dictionary(inner@, models).len() as u64) + keys_bytes
            + vstd::bytes::spec_u64_to_le_bytes(models.len() as u64) + tail));
    }
    Ok(())
}

/// Appends a copy of each of `more` to `flat`.
fn extend_points(flat: &mut Vec<Point>, more: &Vec<Point>)
    ensures
        points_model(final(flat)@) == points_model(old(flat)@) + points_model(more@),
        final(flat)@.len() == old(flat)@.len() + more@.len(),
{
    let mut i: usize = 0;
    while i < more.len()
        invariant
            i <= more@.len(),
            flat@ == old(flat)@ + more@.take(i as int),
        decreases more@.len() - i,
    {
        flat.push(more[i]);
        i += 1;
        assert(flat@ =~= old(flat)@ + more@.take(i as int));
    }
    assert(more@.take(more@.len() as int) =~= more@);
    assert(points_model(flat@) =~= points_model(old(flat)@) + points_model(more@));
}

/// Appends a copy of each of `more` to `flat`.
fn extend_rings(flat: &mut Vec<Ring>, more: &Vec<Ring>)
    ensures
        rings_model(final(flat)@) == rings_model(old(flat)@) + rings_model(more@),
        final(flat)@.len() == old(flat)@.len() + more@.len(),
{
    let mut i: usize = 0;
    while i < more.len()
        invariant
            i <= more@.len(),
            flat@.len() == old(flat)@.len() + i,
            forall|k: int| 0 <= k < old(flat)@.len() ==> (#[trigger] flat@[k]) == old(flat)@[k],
            forall|j: int|
                old(flat)@.len() <= j < old(flat)@.len() + i ==> (#[trigger] flat@[j]).model()
                    == more@[j - old(flat)@.len()].model(),
        decreases more@.len() - i,
    {
        flat.push(clone_ring(&more[i]));
        i += 1;
    }
    assert(rings_model(flat@) =~= rings_model(old(flat)@) + rings_model(more@));
}

/// Appends a copy of each of `more` to `flat`.
fn extend_polygons(flat: &mut Vec<Polygon>, more: &Vec<Polygon>)
    ensures
        polygons_model(final(flat)@) == polygons_model(old(flat)@) + polygons_model(more@),
        final(flat)@.len() == old(flat)@.len() + more@.len(),
{
    let mut i: usize = 0;
    while i < more.len()
        invariant
            i <= more@.len(),
            flat@.len() == old(flat)@.len() + i,
            forall|k: int| 0 <= k < old(flat)@.len() ==> (#[trigger] flat@[k]) == old(flat)@[k],
            forall|j: int|
                old(flat)@.len() <= j < old(flat)@.len() + i ==> (#[trigger] flat@[j]).model()
                    == more@[j - old(flat)@.len()].model(),
        decreases more@.len() - i,
    {
        flat.push(clone_polygon(&more[i]));
        i += 1;
    }
    assert(polygons_model(flat@) =~= polygons_model(old(flat)@) + polygons_model(more@));
}

/// Writes points as a column of pairs: all first coordinates, then all
/// second ones.
fn write_points(points: &Vec<Point>, out: &mut Vec<u8>)
    ensures
        final(out)@ == old(out)@ + points_bytes(points_model(points@)),
{
    let ghost models = points_model(points@);
    let mut i: usize = 0;
    assert(out@ =~= old(out)@ + halves_bytes(models, true, 0));
    while i < points.len()
        invariant
            i <= points@.len(),
            models == points_model(points@),
            out@ == old(out)@ + halves_bytes(models, true, i as nat),
        decreases points@.len() - i,
    {
        let ghost before = halves_bytes(models, true, i as nat);
        push_u64(out, points[i].0[0]);
        assert(models[i as int] == points@[i as int].model());
        assert(out@ =~= old(out)@ + (before + vstd::bytes::spec_u64_to_le_bytes(
            models[i as int].0,
        )));
        i += 1;
    }
    let ghost first = out@;
    let mut k: usize = 0;
    assert(out@ =~= first + halves_bytes(models, false, 0));
    while k < points.len()
        invariant
            k <= points@.len(),
            models == points_model(points@),
            out@ == first + halves_bytes(models, false, k as nat),
        decreases points@.len() - k,
    {
        let ghost before = halves_bytes(models, false, k as nat);
        push_u64(out, points[k].0[1]);
        assert(models[k as int] == points@[k as int].model());
        assert(out@ =~= first + (before + vstd::bytes::spec_u64_to_le_bytes(models[k as int].1)));
        k += 1;
    }
    assert(out@ =~= old(out)@ + points_bytes(models));
}

/// Writes rings as a column of arrays of points.
fn write_rings(rings: &Vec<Ring>, out: &mut Vec<u8>)
    ensures
        rings_bytes(rings_model(rings@)) matches Some(bytes) && final(out)@ == old(out)@ + bytes,
{
    let ghost parts = rings_model(rings@);
    let mut flat: Vec<Point> = Vec::new();
    let mut i: usize = 0;
    proof {
        assert(parts.take(0) =~= Seq::<Seq<(u64, u64)>>::empty());
        assert(points_model(flat@) =~= Seq::<(u64, u64)>::empty());
        assert(out@ =~= old(out)@ + Seq::<u8>::empty());
    }
    while i < rings.len()
        invariant
            i <= rings@.len(),
            parts == rings_model(rings@),
            points_model(flat@) == concat_all(parts.take(i as int)),
            offsets_bytes(parts.take(i as int)) matches Some(offsets) && out@ == old(out)@
                + offsets,
        decreases rings@.len() - i,
    {
        let ghost head = offsets_bytes(parts.take(i as int))->0;
        assert(parts[i as int] == rings@[i as int].model());
        extend_points(&mut flat, &rings[i].0);
        proof {
            lemma_concat_all_take(parts, i as int);
            lemma_offsets_take(parts, i as int);
        }
        push_u64(out, flat.len() as u64);
        assert(out@ =~= old(out)@ + (head + vstd::bytes::spec_u64_to_le_bytes(
            flat@.len() as u64,
        )));
        i += 1;
    }
    assert(parts.take(rings@.len() as int) =~= parts);
    let ghost offsets = offsets_bytes(parts)->0;
    write_points(&flat, out);
    assert(out@ =~= old(out)@ + (offsets + points_bytes(concat_all(parts))));
}

/// Writes polygons as a column of arrays of rings.
fn write_polygons(polygons: &Vec<Polygon>, out: &mut Vec<u8>)
    ensures
        polygons_bytes(polygons_model(polygons@)) matches Some(bytes) && final(out)@ == old(out)@
            + bytes,
{
    let ghost parts = polygons_model(polygons@);
    let mut flat: Vec<Ring> = Vec::new();
    let mut i: usize = 0;
    proof {
        assert(parts.take(0) =~= Seq::<Seq<Seq<(u64, u64)>>>::empty());
        assert(rings_model(flat@) =~= Seq::<Seq<(u64, u64)>>::empty());
        assert(out@ =~= old(out)@ + Seq::<u8>::empty());
    }
    while i < polygons.len()
        invariant
            i <= polygons@.len(),
            parts == polygons_model(polygons@),
            rings_model(flat@) == concat_all(parts.take(i as int)),
            offsets_bytes(parts.take(i as int)) matches Some(offsets) && out@ == old(out)@
                + offsets,
        decreases polygons@.len() - i,
    {
        let ghost head = offsets_bytes(parts.take(i as int))->0;
        assert(parts[i as int] == polygons@[i as int].model());
        extend_rings(&mut flat, &polygons[i].0);
        proof {
            lemma_concat_all_take(parts, i as int);
            lemma_offsets_take(parts, i as int);
        }
        push_u64(out, flat.len() as u64);
        assert(out@ =~= old(out)@ + (head + vstd::bytes::spec_u64_to_le_bytes(
            flat@.len() as u64,
        )));
        i += 1;
    }
    assert(parts.take(polygons@.len() as int) =~= parts);
    let ghost offsets = offsets_bytes(parts)->0;
    write_rings(&flat, out);
    assert(out@ =~= old(out)@ + (offsets + rings_bytes(concat_all(parts))->0));
}

/// Writes multi-polygons as a column of arrays of polygons.
fn write_multi_polygons(shapes: &Vec<MultiPolygon>, out: &mut Vec<u8>)
    ensures
        multi_polygons_bytes(multi_polygons_model(shapes@)) matches Some(bytes) && final(out)@
            == old(out)@ + bytes,
{
    let ghost parts = multi_polygons_model(shapes@);
    let mut flat: Vec<Polygon> = Vec::new();
    let mut i: usize = 0;
    proof {
        assert(parts.take(0) =~= Seq::<Seq<Seq<Seq<(u64, u64)>>>>::empty());
        assert(polygons_model(flat@) =~= Seq::<Seq<Seq<(u64, u64)>>>::empty());
        assert(out@ =~= old(out)@ + Seq::<u8>::empty());
    }
    while i < shapes.len()
        invariant
            i <= shapes@.len(),
            parts == multi_polygons_model(shapes@),
            polygons_model(flat@) == concat_all(parts.take(i as int)),
            offsets_bytes(parts.take(i as int)) matches Some(offsets) && out@ == old(out)@
                + offsets,
        decreases shapes@.len() - i,
    {
        let ghost head = offsets_bytes(parts.take(i as int))->0;
        assert(parts[i as int] == shapes@[i as int].model());
        extend_polygons(&mut flat, &shapes[i].0);
        proof {
            lemma_concat_all_take(parts, i as int);
            lemma_offsets_take(parts, i as int);
        }
        push_u64(out, flat.len() as u64);
        assert(out@ =~= old(out)@ + (head + vstd::bytes::spec_u64_to_le_bytes(
            flat@.len() as u64,
        )));
        i += 1;
    }
    assert(parts.take(shapes@.len() as int) =~= parts);
    let ghost offsets = offsets_bytes(parts)->0;
    write_polygons(&flat, out);
    assert(out@ =~= old(out)@ + (offsets + polygons_bytes(concat_all(parts))->0));
}

/// Writes a column of points.
fn serialize_points(values: &Vec<Value>, out: &mut Vec<u8>) -> (r: Result<(), KlickhouseError>)
    ensures
        match column_bytes(TypeModel::Point, values_model(values@)) {
            Some(bytes) => r is Ok && final(out)@ == old(out)@ + bytes,
            None => r matches Err(e) && e.kind() == ErrorKind::SerializeError,
        },
{
    let ghost models = values_model(values@);
    let mut points: Vec<Point> = Vec::new();
    let mut i: usize = 0;
    while i < values.len()
        invariant
            i <= values@.len(),
            models == values_model(values@),
            points@.len() == i,
            forall|k: int| 0 <= k < i ==> (#[trigger] models[k]) is Point,
            forall|k: int|
                0 <= k < i ==> (#[trigger] points@[k]).model() == (
                    models[k]->Point_0,
                    models[k]->Point_1,
                ),
        decreases values@.len() - i,
    {
        assert(models[i as int] == values@[i as int]@);
        match &values[i] {
            Value::Point(p) => {
                points.push(*p);
            },
            _ => {
                return Err(mismatch("value is no point"));
            },
        }
        i += 1;
    }
    assert(points_model(points@) =~= point_parts(models)->0);
    write_points(&points, out);
    Ok(())
}

/// Writes a column of rings.
fn serialize_rings(values: &Vec<Value>, out: &mut Vec<u8>) -> (r: Result<(), KlickhouseError>)
    ensures
        match column_bytes(TypeModel::Ring, values_model(values@)) {
            Some(bytes) => r is Ok && final(out)@ == old(out)@ + bytes,
            None => r matches Err(e) && e.kind() == ErrorKind::SerializeError,
        },
{
    let ghost models = values_model(values@);
    let mut rings: Vec<Ring> = Vec::new();
    let mut i: usize = 0;
    while i < values.len()
        invariant
            i <= values@.len(),
            models == values_model(values@),
            rings@.len() == i,
            forall|k: int| 0 <= k < i ==> (#[trigger] models[k]) is Ring,
            forall|k: int| 0 <= k < i ==> (#[trigger] rings@[k]).model() == models[k]->Ring_0,
        decreases values@.len() - i,
    {
        assert(models[i as int] == values@[i as int]@);
        match &values[i] {
            Value::Ring(ring) => {
                rings.push(clone_ring(ring));
            },
            _ => {
                return Err(mismatch("value is no ring"));
            },
        }
        i += 1;
    }
    assert(rings_model(rings@) =~= ring_parts(models)->0);
    write_rings(&rings, out);
    Ok(())
}

/// Writes a column of polygons.
fn serialize_polygons(values: &Vec<Value>, out: &mut Vec<u8>) -> (r: Result<(), KlickhouseError>)
    ensures
        match column_bytes(TypeModel::Polygon, values_model(values@)) {
            Some(bytes) => r is Ok && final(out)@ == old(out)@ + bytes,
            None => r matches Err(e) && e.kind() == ErrorKind::SerializeError,
        },
{
    let ghost models = values_model(values@);
    let mut polygons: Vec<Polygon> = Vec::new();
    let mut i: usize = 0;
    while i < values.len()
        invariant
            i <= values@.len(),
            models == values_model(values@),
            polygons@.len() == i,
            forall|k: int| 0 <= k < i ==> (#[trigger] models[k]) is Polygon,
            forall|k: int|
                0 <= k < i ==> (#[trigger] polygons@[k]).model() == models[k]->Polygon_0,
        decreases values@.len() - i,
    {
        assert(models[i as int] == values@[i as int]@);
        match &values[i] {
            Value::Polygon(polygon) => {
                polygons.push(clone_polygon(polygon));
            },
            _ => {
                return Err(mismatch("value is no polygon"));
            },
        }
        i += 1;
    }
    assert(polygons_model(polygons@) =~= polygon_parts(models)->0);
    write_polygons(&polygons, out);
    Ok(())
}

/// Writes a column of multi-polygons.
fn serialize_multi_polygons(values: &Vec<Value>, out: &mut Vec<u8>) -> (r: Result<
    (),
    KlickhouseError,
>)
    ensures
        match column_bytes(TypeModel::MultiPolygon, values_model(values@)) {
            Some(bytes) => r is Ok && final(out)@ == old(out)@ + bytes,
            None => r matches Err(e) && e.kind() == ErrorKind::SerializeError,
        },
{
    let ghost models = values_model(values@);
    let mut shapes: Vec<MultiPolygon> = Vec::new();
    let mut i: usize = 0;
    while i < values.len()
        invariant
            i <= values@.len(),
            models == values_model(values@),
            shapes@.len() == i,
            forall|k: int| 0 <= k < i ==> (#[trigger] models[k]) is MultiPolygon,
            forall|k: int|
                0 <= k < i ==> (#[trigger] shapes@[k]).model() == models[k]->MultiPolygon_0,
        decreases values@.len() - i,
    {
        assert(models[i as int] == values@[i as int]@);
        match &values[i] {
            Value::MultiPolygon(shape) => {
                shapes.push(clone_multi_polygon(shape));
            },
            _ => {
                return Err(mismatch("value is no multi-polygon"));
            },
        }
        i += 1;
    }
    assert(multi_polygons_model(shapes@) =~= multi_polygon_parts(models)->0);
    write_multi_polygons(&shapes, out);
    Ok(())
}

} // verus!

//! Which values a type admits.

use crate::errors::{ErrorKind, KlickhouseError};
use crate::types::{entries16_model, entries8_model, types_model, Type, TypeModel};
use crate::values::{values_model, Value, ValueModel};
use vstd::prelude::*;

verus! {

/// Whether `code` is the value of one of `entries`.
pub open spec fn has_code(entries: Seq<(Seq<char>, int)>, code: int) -> bool {
    exists|i: int| 0 <= i < entries.len() && (#[trigger] entries[i]).1 == code
}

/// Whether `v` is a value of type `t`.
pub open spec fn value_fits(t: TypeModel, v: ValueModel) -> bool
    decreases t, 0nat,
{
    match (t, v) {
        (TypeModel::Int8, ValueModel::Int8(_)) => true,
        (TypeModel::Int16, ValueModel::Int16(_)) => true,
        (TypeModel::Int32, ValueModel::Int32(_)) => true,
        (TypeModel::Int64, ValueModel::Int64(_)) => true,
        (TypeModel::Int128, ValueModel::Int128(_)) => true,
        (TypeModel::Int256, ValueModel::Int256(x)) => x.len() == 32,
        (TypeModel::UInt8, ValueModel::UInt8(_)) => true,
        (TypeModel::UInt16, ValueModel::UInt16(_)) => true,
        (TypeModel::UInt32, ValueModel::UInt32(_)) => true,
        (TypeModel::UInt64, ValueModel::UInt64(_)) => true,
        (TypeModel::UInt128, ValueModel::UInt128(_)) => true,
        (TypeModel::UInt256, ValueModel::UInt256(x)) => x.len() == 32,
        (TypeModel::Float32, ValueModel::Float32(_)) => true,
        (TypeModel::Float64, ValueModel::Float64(_)) => true,
        (TypeModel::Decimal32(scale), ValueModel::Decimal32(s, _)) => s == scale,
        (TypeModel::Decimal64(scale), ValueModel::Decimal64(s, _)) => s == scale,
        (TypeModel::Decimal128(scale), ValueModel::Decimal128(s, _)) => s == scale,
        (TypeModel::Decimal256(scale), ValueModel::Decimal256(s, x)) => s == scale && x.len()
            == 32,
        (TypeModel::String, ValueModel::String(_)) => true,
        (TypeModel::FixedString(width), ValueModel::String(bytes)) => bytes.len() <= width,
        (TypeModel::Uuid, ValueModel::Uuid(_)) => true,
        (TypeModel::Date, ValueModel::Date(_)) => true,
        (TypeModel::DateTime(zone), ValueModel::DateTime(z, _)) => z == zone,
        (TypeModel::DateTime64(precision, zone), ValueModel::DateTime64(z, _, p)) => z == zone
            && p == precision,
        (TypeModel::Enum8(entries), ValueModel::Enum8(code)) => has_code(entries, code as int),
        (TypeModel::Enum16(entries), ValueModel::Enum16(code)) => has_code(entries, code as int),
        (TypeModel::LowCardinality(inner), _) => value_fits(*inner, v),
        (TypeModel::Array(inner), ValueModel::Array(items)) => all_fit(*inner, items),
        (TypeModel::Tuple(types), ValueModel::Tuple(items)) => items.len() == types.len()
            && each_fits(types, items, 0),
        (TypeModel::Nullable(_), ValueModel::Null) => true,
        (TypeModel::Nullable(inner), _) => value_fits(*inner, v),
        (TypeModel::Mapping(key, value), ValueModel::Mapping(keys, items)) => keys.len()
            == items.len() && all_fit(*key, keys) && all_fit(*value, items),
        (TypeModel::Point, ValueModel::Point(_, _)) => true,
        (TypeModel::Ring, ValueModel::Ring(_)) => true,
        (TypeModel::Polygon, ValueModel::Polygon(_)) => true,
        (TypeModel::MultiPolygon, ValueModel::MultiPolygon(_)) => true,
        _ => false,
    }
}

/// Whether every one of `values` is a value of type `t`.
pub open spec fn all_fit(t: TypeModel, values: Seq<ValueModel>) -> bool
    decreases t, 1nat,
{
    forall|i: int| 0 <= i < values.len() ==> value_fits(t, #[trigger] values[i])
}

/// Whether, from index `from` on, each value is of the type at its index.
pub open spec fn each_fits(types: Seq<TypeModel>, values: Seq<ValueModel>, from: nat) -> bool
    decreases types, types.len() - from,
{
    if from >= types.len() || from >= values.len() {
        true
    } else {
        value_fits(types[from as int], values[from as int]) && each_fits(types, values, from + 1)
    }
}

/// The error of a value that is not of the type it was given for.
fn unfit() -> (e: KlickhouseError)
    ensures
        e.says(ErrorKind::SerializeError, "could not assign value to type"@),
{
    KlickhouseError::SerializeError("could not assign value to type".to_owned())
}

/// Whether `code` is the value of one of `entries`.
fn has_code8(entries: &Vec<(String, i8)>, code: i8) -> (r: bool)
    ensures
        r == has_code(entries8_model(entries@), code as int),
{
    let ghost model = entries8_model(entries@);
    let mut i: usize = 0;
    while i < entries.len()
        invariant
            i <= entries@.len(),
            model == entries8_model(entries@),
            forall|k: int| 0 <= k < i ==> (#[trigger] model[k]).1 != code,
        decreases entries@.len() - i,
    {
        assert(model[i as int].1 == entries@[i as int].1);
        if entries[i].1 == code {
            return true;
        }
        i += 1;
    }
    false
}

/// Whether `code` is the value of one of `entries`.
fn has_code16(entries: &Vec<(String, i16)>, code: i16) -> (r: bool)
    ensures
        r == has_code(entries16_model(entries@), code as int),
{
    let ghost model = entries16_model(entries@);
    let mut i: usize = 0;
    while i < entries.len()
        invariant
            i <= entries@.len(),
            model == entries16_model(entries@),
            forall|k: int| 0 <= k < i ==> (#[trigger] model[k]).1 != code,
        decreases entries@.len() - i,
    {
        assert(model[i as int].1 == entries@[i as int].1);
        if entries[i].1 == code {
            return true;
        }
        i += 1;
    }
    false
}

impl Type {
    /// Whether every one of `values` is a value of this type.
    fn all_valid(&self, values: &Vec<Value>) -> (r: bool)
        ensures
            r == all_fit(self@, values_model(values@)),
        decreases self, 1nat,
    {
        let ghost models = values_model(values@);
        let mut i: usize = 0;
        while i < values.len()
            invariant
                i <= values@.len(),
                models == values_model(values@),
                forall|k: int| 0 <= k < i ==> value_fits(self@, #[trigger] models[k]),
            decreases values@.len() - i,
        {
            assert(models[i as int] == values@[i as int]@);
            if !self.fits(&values[i]) {
                return false;
            }
            i += 1;
        }
        true
    }

    /// Whether `value` is a value of this type.
    pub fn fits(&self, value: &Value) -> (r: bool)
        ensures
            r == value_fits(self@, value@),
        decreases self, 0nat,
    {
        match (self, value) {
            (Type::Int8, Value::Int8(_)) => true,
            (Type::Int16, Value::Int16(_)) => true,
            (Type::Int32, Value::Int32(_)) => true,
            (Type::Int64, Value::Int64(_)) => true,
            (Type::Int128, Value::Int128(_)) => true,
            (Type::Int256, Value::Int256(_)) => true,
            (Type::UInt8, Value::UInt8(_)) => true,
            (Type::UInt16, Value::UInt16(_)) => true,
            (Type::UInt32, Value::UInt32(_)) => true,
            (Type::UInt64, Value::UInt64(_)) => true,
            (Type::UInt128, Value::UInt128(_)) => true,
            (Type::UInt256, Value::UInt256(_)) => true,
            (Type::Float32, Value::Float32(_)) => true,
            (Type::Float64, Value::Float64(_)) => true,
            (Type::Decimal32(scale), Value::Decimal32(s, _)) => *s == *scale,
            (Type::Decimal64(scale), Value::Decimal64(s, _)) => *s == *scale,
            (Type::Decimal128(scale), Value::Decimal128(s, _)) => *s == *scale,
            (Type::Decimal256(scale), Value::Decimal256(s, _)) => *s == *scale,
            (Type::String, Value::String(_)) => true,
            (Type::FixedString(width), Value::String(bytes)) => bytes.len() <= *width,
            (Type::Uuid, Value::Uuid(_)) => true,
            (Type::Date, Value::Date(_)) => true,
            (Type::DateTime(zone), Value::DateTime(d)) => d.0 == *zone,
            (Type::DateTime64(precision, zone), Value::DateTime64(d)) => d.0 == *zone && d.2
                == *precision,
            (Type::Enum8(entries), Value::Enum8(code)) => has_code8(entries, *code),
            (Type::Enum16(entries), Value::Enum16(code)) => has_code16(entries, *code),
            (Type::LowCardinality(inner), _) => inner.fits(value),
            (Type::Array(inner), Value::Array(items)) => inner.all_valid(items),
            (Type::Tuple(types), Value::Tuple(items)) => {
                assert(values_model(items@).len() == items@.len());
                assert(types_model(types@).len() == types@.len());
                if items.len() != types.len() {
                    return false;
                }
                let ghost models = values_model(items@);
                let ghost kinds = types_model(types@);
                let mut i: usize = types.len();
                while i > 0
                    invariant
                        *self matches Type::Tuple(v) && v == *types,
                        *value matches Value::Tuple(w) && w == *items,
                        i <= types@.len(),
                        items@.len() == types@.len(),
                        models == values_model(items@),
                        kinds == types_model(types@),
                        each_fits(kinds, models, i as nat),
                    decreases i,
                {
                    i -= 1;
                    assert(models[i as int] == items@[i as int]@);
                    assert(kinds[i as int] == types@[i as int]@);
                    if !types[i].fits(&items[i]) {
                        proof {
                            lemma_each_fits_needs(kinds, models, 0, i as int);
                        }
                        return false;
                    }
                }
                true
            },
            (Type::Nullable(_), Value::Null) => true,
            (Type::Nullable(inner), _) => inner.fits(value),
            (Type::Mapping(key, item), Value::Mapping(keys, items)) => keys.len() == items.len()
                && key.all_valid(keys) && item.all_valid(items),
            (Type::Point, Value::Point(_)) => true,
            (Type::Ring, Value::Ring(_)) => true,
            (Type::Polygon, Value::Polygon(_)) => true,
            (Type::MultiPolygon, Value::MultiPolygon(_)) => true,
            _ => false,
        }
    }

    /// Checks that `value` is a value of this type; one that is not is a
    /// serialize error.
    pub fn validate_value(&self, value: &Value) -> (r: Result<(), KlickhouseError>)
        ensures
            value_fits(self@, value@) ==> r is Ok,
            !value_fits(self@, value@) ==> (r matches Err(e) && e.kind()
                == ErrorKind::SerializeError),
    {
        if self.fits(value) {
            Ok(())
        } else {
            Err(unfit())
        }
    }
}

/// Where one value is not of the type at its index, not each is.
pub proof fn lemma_each_fits_needs(
    types: Seq<TypeModel>,
    values: Seq<ValueModel>,
    from: nat,
    at: int,
)
    requires
        from <= at < types.len(),
        at < values.len(),
        !value_fits(types[at], values[at]),
    ensures
        !each_fits(types, values, from),
    decreases at - from,
{
    if from < at {
        lemma_each_fits_needs(types, values, from + 1, at);
    }
}

} // verus!

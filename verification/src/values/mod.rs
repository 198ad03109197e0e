//! The values that travel in columns.

pub mod bigdecimal;

use vstd::prelude::*;
use vstd::string::{StrSliceExecFns, StringSliceAdditionalSpecFns};

verus! {

/// A signed 256-bit integer, most significant byte first.
#[allow(non_camel_case_types)]
#[derive(Debug, Clone, Copy, PartialEq, Eq, Hash)]
pub struct i256(pub [u8; 32]);

/// An unsigned 256-bit integer, most significant byte first.
#[allow(non_camel_case_types)]
#[derive(Debug, Clone, Copy, PartialEq, Eq, Hash)]
pub struct u256(pub [u8; 32]);

/// Days since 1970-01-01.
#[derive(Debug, Clone, Copy, PartialEq, Eq, Hash)]
pub struct Date(pub u16);

/// Seconds since the epoch, in a named time zone.
#[derive(Debug, Clone, PartialEq, Eq, Hash)]
pub struct DateTime(pub String, pub u32);

/// Ticks of `10^-precision` seconds since the epoch, in a named time zone:
/// zone, ticks, precision.
#[derive(Debug, Clone, PartialEq, Eq, Hash)]
pub struct DynDateTime64(pub String, pub i64, pub usize);

/// A point of the plane: the bit patterns of its two 64-bit floating-point
/// coordinates.
#[derive(Debug, Clone, Copy, PartialEq, Eq, Hash)]
pub struct Point(pub [u64; 2]);

/// A closed line of points.
#[derive(Debug, Clone, PartialEq, Eq, Hash)]
pub struct Ring(pub Vec<Point>);

/// An outer ring and the rings of its holes.
#[derive(Debug, Clone, PartialEq, Eq, Hash)]
pub struct Polygon(pub Vec<Ring>);

/// Several polygons.
#[derive(Debug, Clone, PartialEq, Eq, Hash)]
pub struct MultiPolygon(pub Vec<Polygon>);

/// One element of a column. Floating-point numbers are held as their bit
/// patterns, so that every value, a NaN too, equals itself.
#[derive(Debug, PartialEq, Eq)]
pub enum Value {
    Int8(i8),
    Int16(i16),
    Int32(i32),
    Int64(i64),
    Int128(i128),
    Int256(i256),
    UInt8(u8),
    UInt16(u16),
    UInt32(u32),
    UInt64(u64),
    UInt128(u128),
    UInt256(u256),
    Float32(u32),
    Float64(u64),
    Decimal32(usize, i32),
    Decimal64(usize, i64),
    Decimal128(usize, i128),
    Decimal256(usize, i256),
    String(Vec<u8>),
    Uuid(u128),
    Date(Date),
    DateTime(DateTime),
    DateTime64(DynDateTime64),
    Enum8(i8),
    Enum16(i16),
    Array(Vec<Value>),
    Tuple(Vec<Value>),
    Null,
    Mapping(Vec<Value>, Vec<Value>),
    Point(Point),
    Ring(Ring),
    Polygon(Polygon),
    MultiPolygon(MultiPolygon),
}

/// Mathematical model of a [`Value`]. The shapes are modelled by the
/// arrays and tuples of numbers that they are made of.
pub enum ValueModel {
    Int8(i8),
    Int16(i16),
    Int32(i32),
    Int64(i64),
    Int128(i128),
    Int256(Seq<u8>),
    UInt8(u8),
    UInt16(u16),
    UInt32(u32),
    UInt64(u64),
    UInt128(u128),
    UInt256(Seq<u8>),
    Float32(u32),
    Float64(u64),
    Decimal32(nat, i32),
    Decimal64(nat, i64),
    Decimal128(nat, i128),
    Decimal256(nat, Seq<u8>),
    String(Seq<u8>),
    Uuid(u128),
    Date(u16),
    DateTime(Seq<char>, u32),
    DateTime64(Seq<char>, i64, nat),
    Enum8(i8),
    Enum16(i16),
    Array(Seq<ValueModel>),
    Tuple(Seq<ValueModel>),
    Null,
    Mapping(Seq<ValueModel>, Seq<ValueModel>),
    Point(u64, u64),
    Ring(Seq<(u64, u64)>),
    Polygon(Seq<Seq<(u64, u64)>>),
    MultiPolygon(Seq<Seq<Seq<(u64, u64)>>>),
}

impl Point {
    /// The two coordinates.
    pub open spec fn model(&self) -> (u64, u64) {
        (self.0@[0], self.0@[1])
    }
}

/// Model of a list of points.
pub open spec fn points_model(points: Seq<Point>) -> Seq<(u64, u64)> {
    Seq::new(points.len(), |i: int| points[i].model())
}

impl Ring {
    /// The points, in order.
    pub open spec fn model(&self) -> Seq<(u64, u64)> {
        points_model(self.0@)
    }
}

/// Model of a list of rings.
pub open spec fn rings_model(rings: Seq<Ring>) -> Seq<Seq<(u64, u64)>> {
    Seq::new(rings.len(), |i: int| rings[i].model())
}

impl Polygon {
    /// The rings, in order.
    pub open spec fn model(&self) -> Seq<Seq<(u64, u64)>> {
        rings_model(self.0@)
    }
}

/// Model of a list of polygons.
pub open spec fn polygons_model(polygons: Seq<Polygon>) -> Seq<Seq<Seq<(u64, u64)>>> {
    Seq::new(polygons.len(), |i: int| polygons[i].model())
}

impl MultiPolygon {
    /// The polygons, in order.
    pub open spec fn model(&self) -> Seq<Seq<Seq<(u64, u64)>>> {
        polygons_model(self.0@)
    }
}

/// Model of a list of multi-polygons.
pub open spec fn multi_polygons_model(shapes: Seq<MultiPolygon>) -> Seq<
    Seq<Seq<Seq<(u64, u64)>>>,
> {
    Seq::new(shapes.len(), |i: int| shapes[i].model())
}

/// Model of a list of values.
pub open spec fn values_model(items: Seq<Value>) -> Seq<ValueModel>
    decreases items,
{
    Seq::new(
        items.len(),
        |i: int|
            if 0 <= i < items.len() {
                items[i].model()
            } else {
                ValueModel::Null
            },
    )
}

impl Value {
    /// The model of this value.
    pub open spec fn model(&self) -> ValueModel
        decreases self,
    {
        match self {
            Value::Int8(x) => ValueModel::Int8(*x),
            Value::Int16(x) => ValueModel::Int16(*x),
            Value::Int32(x) => ValueModel::Int32(*x),
            Value::Int64(x) => ValueModel::Int64(*x),
            Value::Int128(x) => ValueModel::Int128(*x),
            Value::Int256(x) => ValueModel::Int256(x.0@),
            Value::UInt8(x) => ValueModel::UInt8(*x),
            Value::UInt16(x) => ValueModel::UInt16(*x),
            Value::UInt32(x) => ValueModel::UInt32(*x),
            Value::UInt64(x) => ValueModel::UInt64(*x),
            Value::UInt128(x) => ValueModel::UInt128(*x),
            Value::UInt256(x) => ValueModel::UInt256(x.0@),
            Value::Float32(x) => ValueModel::Float32(*x),
            Value::Float64(x) => ValueModel::Float64(*x),
            Value::Decimal32(s, x) => ValueModel::Decimal32(*s as nat, *x),
            Value::Decimal64(s, x) => ValueModel::Decimal64(*s as nat, *x),
            Value::Decimal128(s, x) => ValueModel::Decimal128(*s as nat, *x),
            Value::Decimal256(s, x) => ValueModel::Decimal256(*s as nat, x.0@),
            Value::String(bytes) => ValueModel::String(bytes@),
            Value::Uuid(x) => ValueModel::Uuid(*x),
            Value::Date(d) => ValueModel::Date(d.0),
            Value::DateTime(d) => ValueModel::DateTime(d.0@, d.1),
            Value::DateTime64(d) => ValueModel::DateTime64(d.0@, d.1, d.2 as nat),
            Value::Enum8(x) => ValueModel::Enum8(*x),
            Value::Enum16(x) => ValueModel::Enum16(*x),
            Value::Array(items) => ValueModel::Array(values_model(items@)),
            Value::Tuple(items) => ValueModel::Tuple(values_model(items@)),
            Value::Null => ValueModel::Null,
            Value::Mapping(keys, values) => ValueModel::Mapping(
                values_model(keys@),
                values_model(values@),
            ),
            Value::Point(p) => ValueModel::Point(p.model().0, p.model().1),
            Value::Ring(r) => ValueModel::Ring(r.model()),
            Value::Polygon(p) => ValueModel::Polygon(p.model()),
            Value::MultiPolygon(m) => ValueModel::MultiPolygon(m.model()),
        }
    }

    /// The string value that holds the bytes of `text`.
    pub fn string(text: &str) -> (r: Value)
        ensures
            r@ == ValueModel::String(text.spec_bytes()),
    {
        Value::String(text.as_bytes_vec())
    }
}

impl View for Value {
    type V = ValueModel;

    open spec fn view(&self) -> ValueModel {
        self.model()
    }
}

/// Whether `a` and `b` hold the same bytes.
pub fn bytes_eq(a: &[u8], b: &[u8]) -> (r: bool)
    ensures
        r == (a@ == b@),
{
    if a.len() != b.len() {
        return false;
    }
    let mut i: usize = 0;
    while i < a.len()
        invariant
            i <= a@.len(),
            a@.len() == b@.len(),
            forall|k: int| 0 <= k < i ==> a@[k] == b@[k],
        decreases a@.len() - i,
    {
        if a[i] != b[i] {
            return false;
        }
        i += 1;
    }
    assert(a@ =~= b@);
    true
}

/// Whether `a` and `b` are the same 256-bit number.
pub fn wide_eq(a: &[u8; 32], b: &[u8; 32]) -> (r: bool)
    ensures
        r == (a@ == b@),
{
    let mut i: usize = 0;
    while i < 32
        invariant
            i <= 32,
            forall|k: int| 0 <= k < i ==> a@[k] == b@[k],
        decreases 32 - i,
    {
        if a[i] != b[i] {
            return false;
        }
        i += 1;
    }
    assert(a@ =~= b@);
    true
}

/// Whether `a` and `b` are the same string or the same scalar. Values of
/// other kinds are never the same key.
pub fn key_eq(a: &Value, b: &Value) -> (r: bool)
    ensures
        r == (crate::types::wire::key_value(a@) && crate::types::wire::key_value(b@) && a@
            == b@),
{
    match (a, b) {
        (Value::Int8(x), Value::Int8(y)) => *x == *y,
        (Value::Int16(x), Value::Int16(y)) => *x == *y,
        (Value::Int32(x), Value::Int32(y)) => *x == *y,
        (Value::Int64(x), Value::Int64(y)) => *x == *y,
        (Value::Int128(x), Value::Int128(y)) => *x == *y,
        (Value::Int256(x), Value::Int256(y)) => wide_eq(&x.0, &y.0),
        (Value::UInt8(x), Value::UInt8(y)) => *x == *y,
        (Value::UInt16(x), Value::UInt16(y)) => *x == *y,
        (Value::UInt32(x), Value::UInt32(y)) => *x == *y,
        (Value::UInt64(x), Value::UInt64(y)) => *x == *y,
        (Value::UInt128(x), Value::UInt128(y)) => *x == *y,
        (Value::UInt256(x), Value::UInt256(y)) => wide_eq(&x.0, &y.0),
        (Value::Float32(x), Value::Float32(y)) => *x == *y,
        (Value::Float64(x), Value::Float64(y)) => *x == *y,
        (Value::Decimal32(s, x), Value::Decimal32(t, y)) => *s == *t && *x == *y,
        (Value::Decimal64(s, x), Value::Decimal64(t, y)) => *s == *t && *x == *y,
        (Value::Decimal128(s, x), Value::Decimal128(t, y)) => *s == *t && *x == *y,
        (Value::Decimal256(s, x), Value::Decimal256(t, y)) => *s == *t && wide_eq(&x.0, &y.0),
        (Value::String(x), Value::String(y)) => bytes_eq(x.as_slice(), y.as_slice()),
        (Value::Uuid(x), Value::Uuid(y)) => *x == *y,
        (Value::Date(x), Value::Date(y)) => x.0 == y.0,
        (Value::DateTime(x), Value::DateTime(y)) => x.0 == y.0 && x.1 == y.1,
        (Value::DateTime64(x), Value::DateTime64(y)) => x.0 == y.0 && x.1 == y.1 && x.2 == y.2,
        (Value::Enum8(x), Value::Enum8(y)) => *x == *y,
        (Value::Enum16(x), Value::Enum16(y)) => *x == *y,
        _ => false,
    }
}

/// Whether `v` can be a dictionary key: a string or a scalar.
pub fn is_key(v: &Value) -> (r: bool)
    ensures
        r == crate::types::wire::key_value(v@),
{
    match v {
        Value::Array(_)
        | Value::Tuple(_)
        | Value::Null
        | Value::Mapping(_, _)
        | Value::Point(_)
        | Value::Ring(_)
        | Value::Polygon(_)
        | Value::MultiPolygon(_) => false,
        _ => true,
    }
}

/// A copy of `bytes`.
pub fn clone_bytes(bytes: &Vec<u8>) -> (out: Vec<u8>)
    ensures
        out@ == bytes@,
{
    let mut out: Vec<u8> = Vec::new();
    let mut i: usize = 0;
    while i < bytes.len()
        invariant
            i <= bytes@.len(),
            out@ == bytes@.take(i as int),
        decreases bytes@.len() - i,
    {
        out.push(bytes[i]);
        i += 1;
        assert(out@ =~= bytes@.take(i as int));
    }
    assert(bytes@.take(bytes@.len() as int) =~= bytes@);
    out
}

/// A copy of `ring`.
pub fn clone_ring(ring: &Ring) -> (out: Ring)
    ensures
        out.model() == ring.model(),
{
    let mut points: Vec<Point> = Vec::new();
    let mut i: usize = 0;
    while i < ring.0.len()
        invariant
            i <= ring.0@.len(),
            points@ == ring.0@.take(i as int),
        decreases ring.0@.len() - i,
    {
        points.push(ring.0[i]);
        i += 1;
        assert(points@ =~= ring.0@.take(i as int));
    }
    assert(ring.0@.take(ring.0@.len() as int) =~= ring.0@);
    Ring(points)
}

/// A copy of `polygon`.
pub fn clone_polygon(polygon: &Polygon) -> (out: Polygon)
    ensures
        out.model() == polygon.model(),
{
    let mut rings: Vec<Ring> = Vec::new();
    let mut i: usize = 0;
    while i < polygon.0.len()
        invariant
            i <= polygon.0@.len(),
            rings@.len() == i,
            forall|k: int| 0 <= k < i ==> (#[trigger] rings@[k]).model() == polygon.0@[k].model(),
        decreases polygon.0@.len() - i,
    {
        rings.push(clone_ring(&polygon.0[i]));
        i += 1;
    }
    let out = Polygon(rings);
    assert(out.model() =~= polygon.model());
    out
}

/// A copy of `shape`.
pub fn clone_multi_polygon(shape: &MultiPolygon) -> (out: MultiPolygon)
    ensures
        out.model() == shape.model(),
{
    let mut polygons: Vec<Polygon> = Vec::new();
    let mut i: usize = 0;
    while i < shape.0.len()
        invariant
            i <= shape.0@.len(),
            polygons@.len() == i,
            forall|k: int| 0 <= k < i ==> (#[trigger] polygons@[k]).model() == shape.0@[k].model(),
        decreases shape.0@.len() - i,
    {
        polygons.push(clone_polygon(&shape.0[i]));
        i += 1;
    }
    let out = MultiPolygon(polygons);
    assert(out.model() =~= shape.model());
    out
}

/// A copy of each of `items`.
pub fn clone_values(items: &Vec<Value>) -> (out: Vec<Value>)
    ensures
        values_model(out@) == values_model(items@),
        out@.len() == items@.len(),
    decreases items,
{
    let mut out: Vec<Value> = Vec::new();
    let mut i: usize = 0;
    while i < items.len()
        invariant
            i <= items@.len(),
            out@.len() == i,
            forall|k: int| 0 <= k < i ==> (#[trigger] out@[k])@ == items@[k]@,
        decreases items@.len() - i,
    {
        out.push(items[i].clone());
        i += 1;
    }
    assert(values_model(out@) =~= values_model(items@));
    out
}

impl Clone for Value {
    fn clone(&self) -> (res: Self)
        ensures
            res@ == self@,
        decreases self,
    {
        match self {
            Value::Int8(x) => Value::Int8(*x),
            Value::Int16(x) => Value::Int16(*x),
            Value::Int32(x) => Value::Int32(*x),
            Value::Int64(x) => Value::Int64(*x),
            Value::Int128(x) => Value::Int128(*x),
            Value::Int256(x) => Value::Int256(*x),
            Value::UInt8(x) => Value::UInt8(*x),
            Value::UInt16(x) => Value::UInt16(*x),
            Value::UInt32(x) => Value::UInt32(*x),
            Value::UInt64(x) => Value::UInt64(*x),
            Value::UInt128(x) => Value::UInt128(*x),
            Value::UInt256(x) => Value::UInt256(*x),
            Value::Float32(x) => Value::Float32(*x),
            Value::Float64(x) => Value::Float64(*x),
            Value::Decimal32(s, x) => Value::Decimal32(*s, *x),
            Value::Decimal64(s, x) => Value::Decimal64(*s, *x),
            Value::Decimal128(s, x) => Value::Decimal128(*s, *x),
            Value::Decimal256(s, x) => Value::Decimal256(*s, *x),
            Value::String(bytes) => Value::String(clone_bytes(bytes)),
            Value::Uuid(x) => Value::Uuid(*x),
            Value::Date(d) => Value::Date(*d),
            Value::DateTime(d) => Value::DateTime(DateTime(d.0.clone(), d.1)),
            Value::DateTime64(d) => Value::DateTime64(DynDateTime64(d.0.clone(), d.1, d.2)),
            Value::Enum8(x) => Value::Enum8(*x),
            Value::Enum16(x) => Value::Enum16(*x),
            Value::Array(items) => Value::Array(clone_values(items)),
            Value::Tuple(items) => Value::Tuple(clone_values(items)),
            Value::Null => Value::Null,
            Value::Mapping(keys, values) => Value::Mapping(
                clone_values(keys),
                clone_values(values),
            ),
            Value::Point(p) => Value::Point(*p),
            Value::Ring(r) => Value::Ring(clone_ring(r)),
            Value::Polygon(p) => Value::Polygon(clone_polygon(p)),
            Value::MultiPolygon(m) => Value::MultiPolygon(clone_multi_polygon(m)),
        }
    }
}

} // verus!

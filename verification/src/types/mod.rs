//! The type tree that describes a column's wire layout.

pub mod deserialize;
pub mod grammar_law;
pub mod parse;
pub mod print;
pub mod roundtrip;
pub mod serialize;
pub mod unwire;
pub mod validate;
pub mod wire;

use vstd::prelude::*;

verus! {

/// Wire-level description of a column.
#[derive(Debug, PartialEq, Eq)]
pub enum Type {
    Int8,
    Int16,
    Int32,
    Int64,
    Int128,
    Int256,
    UInt8,
    UInt16,
    UInt32,
    UInt64,
    UInt128,
    UInt256,
    Float32,
    Float64,
    Decimal32(usize),
    Decimal64(usize),
    Decimal128(usize),
    Decimal256(usize),
    String,
    FixedString(usize),
    Uuid,
    Date,
    DateTime(String),
    DateTime64(usize, String),
    Enum8(Vec<(String, i8)>),
    Enum16(Vec<(String, i16)>),
    LowCardinality(Box<Type>),
    Array(Box<Type>),
    Tuple(Vec<Type>),
    Nullable(Box<Type>),
    Mapping(Box<Type>, Box<Type>),
    Point,
    Ring,
    Polygon,
    MultiPolygon,
}

/// Mathematical model of a [`Type`].
pub enum TypeModel {
    Int8,
    Int16,
    Int32,
    Int64,
    Int128,
    Int256,
    UInt8,
    UInt16,
    UInt32,
    UInt64,
    UInt128,
    UInt256,
    Float32,
    Float64,
    Decimal32(nat),
    Decimal64(nat),
    Decimal128(nat),
    Decimal256(nat),
    String,
    FixedString(nat),
    Uuid,
    Date,
    DateTime(Seq<char>),
    DateTime64(nat, Seq<char>),
    Enum8(Seq<(Seq<char>, int)>),
    Enum16(Seq<(Seq<char>, int)>),
    LowCardinality(Box<TypeModel>),
    Array(Box<TypeModel>),
    Tuple(Seq<TypeModel>),
    Nullable(Box<TypeModel>),
    Mapping(Box<TypeModel>, Box<TypeModel>),
    Point,
    Ring,
    Polygon,
    MultiPolygon,
}

impl Type {
    /// The model of this type.
    pub open spec fn model(&self) -> TypeModel
        decreases self,
    {
        match self {
            Type::Int8 => TypeModel::Int8,
            Type::Int16 => TypeModel::Int16,
            Type::Int32 => TypeModel::Int32,
            Type::Int64 => TypeModel::Int64,
            Type::Int128 => TypeModel::Int128,
            Type::Int256 => TypeModel::Int256,
            Type::UInt8 => TypeModel::UInt8,
            Type::UInt16 => TypeModel::UInt16,
            Type::UInt32 => TypeModel::UInt32,
            Type::UInt64 => TypeModel::UInt64,
            Type::UInt128 => TypeModel::UInt128,
            Type::UInt256 => TypeModel::UInt256,
            Type::Float32 => TypeModel::Float32,
            Type::Float64 => TypeModel::Float64,
            Type::Decimal32(s) => TypeModel::Decimal32(*s as nat),
            Type::Decimal64(s) => TypeModel::Decimal64(*s as nat),
            Type::Decimal128(s) => TypeModel::Decimal128(*s as nat),
            Type::Decimal256(s) => TypeModel::Decimal256(*s as nat),
            Type::String => TypeModel::String,
            Type::FixedString(n) => TypeModel::FixedString(*n as nat),
            Type::Uuid => TypeModel::Uuid,
            Type::Date => TypeModel::Date,
            Type::DateTime(tz) => TypeModel::DateTime(tz@),
            Type::DateTime64(p, tz) => TypeModel::DateTime64(*p as nat, tz@),
            Type::Enum8(entries) => TypeModel::Enum8(entries8_model(entries@)),
            Type::Enum16(entries) => TypeModel::Enum16(entries16_model(entries@)),
            Type::LowCardinality(inner) => TypeModel::LowCardinality(Box::new(inner.model())),
            Type::Array(inner) => TypeModel::Array(Box::new(inner.model())),
            Type::Tuple(items) => TypeModel::Tuple(types_model(items@)),
            Type::Nullable(inner) => TypeModel::Nullable(Box::new(inner.model())),
            Type::Mapping(key, value) => TypeModel::Mapping(Box::new(key.model()), Box::new(value.model())),
            Type::Point => TypeModel::Point,
            Type::Ring => TypeModel::Ring,
            Type::Polygon => TypeModel::Polygon,
            Type::MultiPolygon => TypeModel::MultiPolygon,
        }
    }
}

impl View for Type {
    type V = TypeModel;

    open spec fn view(&self) -> TypeModel {
        self.model()
    }
}

/// Model of a list of enum entries.
pub open spec fn entries8_model(entries: Seq<(String, i8)>) -> Seq<(Seq<char>, int)> {
    Seq::new(entries.len(), |i: int| (entries[i].0@, entries[i].1 as int))
}

/// Model of a list of wide enum entries.
pub open spec fn entries16_model(entries: Seq<(String, i16)>) -> Seq<(Seq<char>, int)> {
    Seq::new(entries.len(), |i: int| (entries[i].0@, entries[i].1 as int))
}

/// Model of a list of types.
pub open spec fn types_model(items: Seq<Type>) -> Seq<TypeModel>
    decreases items,
{
    Seq::new(
        items.len(),
        |i: int|
            if 0 <= i < items.len() {
                items[i].model()
            } else {
                TypeModel::Int8
            },
    )
}

fn clone_entries8(entries: &Vec<(String, i8)>) -> (res: Vec<(String, i8)>)
    ensures
        entries8_model(res@) == entries8_model(entries@),
{
    let mut out: Vec<(String, i8)> = Vec::new();
    let mut i: usize = 0;
    while i < entries.len()
        invariant
            i <= entries.len(),
            out@.len() == i,
            forall|j: int| 0 <= j < i ==> out@[j].0@ == entries@[j].0@
                && out@[j].1 == entries@[j].1,
        decreases entries.len() - i,
    {
        out.push((entries[i].0.clone(), entries[i].1));
        i += 1;
    }
    assert(entries8_model(out@) =~= entries8_model(entries@));
    out
}

fn clone_entries16(entries: &Vec<(String, i16)>) -> (res: Vec<(String, i16)>)
    ensures
        entries16_model(res@) == entries16_model(entries@),
{
    let mut out: Vec<(String, i16)> = Vec::new();
    let mut i: usize = 0;
    while i < entries.len()
        invariant
            i <= entries.len(),
            out@.len() == i,
            forall|j: int| 0 <= j < i ==> out@[j].0@ == entries@[j].0@
                && out@[j].1 == entries@[j].1,
        decreases entries.len() - i,
    {
        out.push((entries[i].0.clone(), entries[i].1));
        i += 1;
    }
    assert(entries16_model(out@) =~= entries16_model(entries@));
    out
}

impl Clone for Type {
    fn clone(&self) -> (res: Self)
        ensures
            res@ == self@,
        decreases self,
    {
        match self {
            Type::Int8 => Type::Int8,
            Type::Int16 => Type::Int16,
            Type::Int32 => Type::Int32,
            Type::Int64 => Type::Int64,
            Type::Int128 => Type::Int128,
            Type::Int256 => Type::Int256,
            Type::UInt8 => Type::UInt8,
            Type::UInt16 => Type::UInt16,
            Type::UInt32 => Type::UInt32,
            Type::UInt64 => Type::UInt64,
            Type::UInt128 => Type::UInt128,
            Type::UInt256 => Type::UInt256,
            Type::Float32 => Type::Float32,
            Type::Float64 => Type::Float64,
            Type::Decimal32(s) => Type::Decimal32(*s),
            Type::Decimal64(s) => Type::Decimal64(*s),
            Type::Decimal128(s) => Type::Decimal128(*s),
            Type::Decimal256(s) => Type::Decimal256(*s),
            Type::String => Type::String,
            Type::FixedString(n) => Type::FixedString(*n),
            Type::Uuid => Type::Uuid,
            Type::Date => Type::Date,
            Type::DateTime(tz) => Type::DateTime(tz.clone()),
            Type::DateTime64(p, tz) => Type::DateTime64(*p, tz.clone()),
            Type::Enum8(entries) => Type::Enum8(clone_entries8(entries)),
            Type::Enum16(entries) => Type::Enum16(clone_entries16(entries)),
            Type::LowCardinality(inner) => Type::LowCardinality(Box::new((&**inner).clone())),
            Type::Array(inner) => Type::Array(Box::new((&**inner).clone())),
            Type::Tuple(items) => {
                let mut out: Vec<Type> = Vec::new();
                let mut i: usize = 0;
                while i < items.len()
                    invariant
                        *self matches Type::Tuple(v) && v == *items,
                        i <= items.len(),
                        out@.len() == i,
                        forall|j: int| 0 <= j < i ==> out@[j]@ == items@[j]@,
                    decreases items.len() - i,
                {
                    out.push(items[i].clone());
                    i += 1;
                }
                assert(types_model(out@) =~= types_model(items@));
                Type::Tuple(out)
            },
            Type::Nullable(inner) => Type::Nullable(Box::new((&**inner).clone())),
            Type::Mapping(key, value) => Type::Mapping(
                Box::new((&**key).clone()),
                Box::new((&**value).clone()),
            ),
            Type::Point => Type::Point,
            Type::Ring => Type::Ring,
            Type::Polygon => Type::Polygon,
            Type::MultiPolygon => Type::MultiPolygon,
        }
    }
}

} // verus!

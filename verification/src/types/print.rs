//! The canonical textual form of a type.

use crate::text::{
    chars_of, decimal, push_decimal, push_quoted, push_signed_decimal, push_str, quoted,
    signed_decimal, string_of,
};
use crate::types::{entries16_model, entries8_model, types_model, Type, TypeModel};
use vstd::prelude::*;

verus! {

/// The canonical text of a type.
pub open spec fn type_text(t: TypeModel) -> Seq<char>
    decreases t, 0nat,
{
    match t {
        TypeModel::Int8 => "Int8"@,
        TypeModel::Int16 => "Int16"@,
        TypeModel::Int32 => "Int32"@,
        TypeModel::Int64 => "Int64"@,
        TypeModel::Int128 => "Int128"@,
        TypeModel::Int256 => "Int256"@,
        TypeModel::UInt8 => "UInt8"@,
        TypeModel::UInt16 => "UInt16"@,
        TypeModel::UInt32 => "UInt32"@,
        TypeModel::UInt64 => "UInt64"@,
        TypeModel::UInt128 => "UInt128"@,
        TypeModel::UInt256 => "UInt256"@,
        TypeModel::Float32 => "Float32"@,
        TypeModel::Float64 => "Float64"@,
        TypeModel::Decimal32(scale) => "Decimal32("@ + decimal(scale) + ")"@,
        TypeModel::Decimal64(scale) => "Decimal64("@ + decimal(scale) + ")"@,
        TypeModel::Decimal128(scale) => "Decimal128("@ + decimal(scale) + ")"@,
        TypeModel::Decimal256(scale) => "Decimal256("@ + decimal(scale) + ")"@,
        TypeModel::String => "String"@,
        TypeModel::FixedString(n) => "FixedString("@ + decimal(n) + ")"@,
        TypeModel::Uuid => "UUID"@,
        TypeModel::Date => "Date"@,
        TypeModel::DateTime(zone) => "DateTime("@ + quoted(zone) + ")"@,
        TypeModel::DateTime64(precision, zone) => "DateTime64("@ + decimal(precision) + ", "@
            + quoted(zone) + ")"@,
        TypeModel::Enum8(entries) => "Enum8("@ + entries_text(entries, 0) + ")"@,
        TypeModel::Enum16(entries) => "Enum16("@ + entries_text(entries, 0) + ")"@,
        TypeModel::LowCardinality(inner) => "LowCardinality("@ + type_text(*inner) + ")"@,
        TypeModel::Array(inner) => "Array("@ + type_text(*inner) + ")"@,
        TypeModel::Tuple(items) => "Tuple("@ + types_text(items, 0) + ")"@,
        TypeModel::Nullable(inner) => "Nullable("@ + type_text(*inner) + ")"@,
        TypeModel::Mapping(key, value) => "Map("@ + type_text(*key) + ", "@ + type_text(*value)
            + ")"@,
        TypeModel::Point => "Point"@,
        TypeModel::Ring => "Ring"@,
        TypeModel::Polygon => "Polygon"@,
        TypeModel::MultiPolygon => "MultiPolygon"@,
    }
}

/// The texts of the types from index `from` on, a comma and a blank in
/// front of each but the very first of the list.
pub open spec fn types_text(items: Seq<TypeModel>, from: nat) -> Seq<char>
    decreases items, items.len() - from,
{
    if from >= items.len() {
        Seq::empty()
    } else {
        (if from > 0 {
            ", "@
        } else {
            Seq::empty()
        }) + type_text(items[from as int]) + types_text(items, from + 1)
    }
}

/// The text of one enum entry.
pub open spec fn entry_text(entry: (Seq<char>, int)) -> Seq<char> {
    quoted(entry.0) + " = "@ + signed_decimal(entry.1)
}

/// The texts of the entries from index `from` on, a comma and a blank in
/// front of each but the very first of the list.
pub open spec fn entries_text(entries: Seq<(Seq<char>, int)>, from: nat) -> Seq<char>
    decreases entries.len() - from,
{
    if from >= entries.len() {
        Seq::empty()
    } else {
        (if from > 0 {
            ", "@
        } else {
            Seq::empty()
        }) + entry_text(entries[from as int]) + entries_text(entries, from + 1)
    }
}

/// Appends an opening word, a number and the closing parenthesis.
fn push_with_number(out: &mut Vec<char>, open: &str, n: usize)
    ensures
        final(out)@ == old(out)@ + (open@ + decimal(n as nat) + ")"@),
{
    push_str(out, open);
    push_decimal(out, n as u128);
    push_str(out, ")");
    assert(out@ =~= old(out)@ + (open@ + decimal(n as nat) + ")"@));
}

/// Appends the entries of an enum.
fn push_entries8(out: &mut Vec<char>, entries: &Vec<(String, i8)>)
    ensures
        final(out)@ == old(out)@ + entries_text(entries8_model(entries@), 0),
{
    let ghost model = entries8_model(entries@);
    let mut i: usize = 0;
    while i < entries.len()
        invariant
            i <= entries@.len(),
            model == entries8_model(entries@),
            out@ + entries_text(model, i as nat) == old(out)@ + entries_text(model, 0),
        decreases entries@.len() - i,
    {
        let ghost before = out@;
        if i > 0 {
            push_str(out, ", ");
        }
        let name = chars_of(entries[i].0.as_str());
        push_quoted(out, name.as_slice());
        push_str(out, " = ");
        push_signed_decimal(out, entries[i].1 as i64);
        assert(model[i as int] == (entries@[i as int].0@, entries@[i as int].1 as int));
        assert(out@ + entries_text(model, (i + 1) as nat) =~= before + entries_text(
            model,
            i as nat,
        ));
        i += 1;
    }
    assert(out@ + entries_text(model, i as nat) =~= out@);
}

/// Appends the entries of a wide enum.
fn push_entries16(out: &mut Vec<char>, entries: &Vec<(String, i16)>)
    ensures
        final(out)@ == old(out)@ + entries_text(entries16_model(entries@), 0),
{
    let ghost model = entries16_model(entries@);
    let mut i: usize = 0;
    while i < entries.len()
        invariant
            i <= entries@.len(),
            model == entries16_model(entries@),
            out@ + entries_text(model, i as nat) == old(out)@ + entries_text(model, 0),
        decreases entries@.len() - i,
    {
        let ghost before = out@;
        if i > 0 {
            push_str(out, ", ");
        }
        let name = chars_of(entries[i].0.as_str());
        push_quoted(out, name.as_slice());
        push_str(out, " = ");
        push_signed_decimal(out, entries[i].1 as i64);
        assert(model[i as int] == (entries@[i as int].0@, entries@[i as int].1 as int));
        assert(out@ + entries_text(model, (i + 1) as nat) =~= before + entries_text(
            model,
            i as nat,
        ));
        i += 1;
    }
    assert(out@ + entries_text(model, i as nat) =~= out@);
}

/// Appends the canonical text of `t`.
pub fn push_type(out: &mut Vec<char>, t: &Type)
    ensures
        final(out)@ == old(out)@ + type_text(t@),
    decreases t,
{
    match t {
        Type::Int8 => push_str(out, "Int8"),
        Type::Int16 => push_str(out, "Int16"),
        Type::Int32 => push_str(out, "Int32"),
        Type::Int64 => push_str(out, "Int64"),
        Type::Int128 => push_str(out, "Int128"),
        Type::Int256 => push_str(out, "Int256"),
        Type::UInt8 => push_str(out, "UInt8"),
        Type::UInt16 => push_str(out, "UInt16"),
        Type::UInt32 => push_str(out, "UInt32"),
        Type::UInt64 => push_str(out, "UInt64"),
        Type::UInt128 => push_str(out, "UInt128"),
        Type::UInt256 => push_str(out, "UInt256"),
        Type::Float32 => push_str(out, "Float32"),
        Type::Float64 => push_str(out, "Float64"),
        Type::Decimal32(scale) => push_with_number(out, "Decimal32(", *scale),
        Type::Decimal64(scale) => push_with_number(out, "Decimal64(", *scale),
        Type::Decimal128(scale) => push_with_number(out, "Decimal128(", *scale),
        Type::Decimal256(scale) => push_with_number(out, "Decimal256(", *scale),
        Type::String => push_str(out, "String"),
        Type::FixedString(n) => push_with_number(out, "FixedString(", *n),
        Type::Uuid => push_str(out, "UUID"),
        Type::Date => push_str(out, "Date"),
        Type::DateTime(zone) => {
            push_str(out, "DateTime(");
            let name = chars_of(zone.as_str());
            push_quoted(out, name.as_slice());
            push_str(out, ")");
            assert(out@ =~= old(out)@ + type_text(t@));
        },
        Type::DateTime64(precision, zone) => {
            push_str(out, "DateTime64(");
            push_decimal(out, *precision as u128);
            push_str(out, ", ");
            let name = chars_of(zone.as_str());
            push_quoted(out, name.as_slice());
            push_str(out, ")");
            assert(out@ =~= old(out)@ + type_text(t@));
        },
        Type::Enum8(entries) => {
            push_str(out, "Enum8(");
            push_entries8(out, entries);
            push_str(out, ")");
            assert(out@ =~= old(out)@ + type_text(t@));
        },
        Type::Enum16(entries) => {
            push_str(out, "Enum16(");
            push_entries16(out, entries);
            push_str(out, ")");
            assert(out@ =~= old(out)@ + type_text(t@));
        },
        Type::LowCardinality(inner) => {
            push_str(out, "LowCardinality(");
            push_type(out, inner);
            push_str(out, ")");
            assert(out@ =~= old(out)@ + type_text(t@));
        },
        Type::Array(inner) => {
            push_str(out, "Array(");
            push_type(out, inner);
            push_str(out, ")");
            assert(out@ =~= old(out)@ + type_text(t@));
        },
        Type::Tuple(items) => {
            push_str(out, "Tuple(");
            let ghost base = out@;
            let ghost models = types_model(items@);
            let mut i: usize = 0;
            while i < items.len()
                invariant
                    *t matches Type::Tuple(v) && v == *items,
                    i <= items@.len(),
                    models == types_model(items@),
                    out@ + types_text(models, i as nat) == base + types_text(models, 0),
                decreases items@.len() - i,
            {
                let ghost before = out@;
                if i > 0 {
                    push_str(out, ", ");
                }
                push_type(out, &items[i]);
                assert(models[i as int] == items@[i as int]@);
                assert(out@ + types_text(models, (i + 1) as nat) =~= before + types_text(
                    models,
                    i as nat,
                ));
                i += 1;
            }
            assert(out@ + types_text(models, i as nat) =~= out@);
            push_str(out, ")");
            assert(out@ =~= old(out)@ + type_text(t@));
        },
        Type::Nullable(inner) => {
            push_str(out, "Nullable(");
            push_type(out, inner);
            push_str(out, ")");
            assert(out@ =~= old(out)@ + type_text(t@));
        },
        Type::Mapping(key, value) => {
            push_str(out, "Map(");
            push_type(out, key);
            push_str(out, ", ");
            push_type(out, value);
            push_str(out, ")");
            assert(out@ =~= old(out)@ + type_text(t@));
        },
        Type::Point => push_str(out, "Point"),
        Type::Ring => push_str(out, "Ring"),
        Type::Polygon => push_str(out, "Polygon"),
        Type::MultiPolygon => push_str(out, "MultiPolygon"),
    }
}

impl Type {
    /// The canonical text of this type.
    pub fn to_string(&self) -> (r: String)
        ensures
            r@ == type_text(self@),
    {
        let mut out: Vec<char> = Vec::new();
        push_type(&mut out, self);
        assert(out@ =~= type_text(self@));
        string_of(&out)
    }
}

} // verus!

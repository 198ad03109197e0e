//! The round-trip law of the type grammar: the canonical text of a type
//! reads back as the type.

use crate::text::{
    decimal, lemma_decimal_roundtrip, lemma_parse_int_roundtrip, lemma_parse_quoted_roundtrip,
    lemma_parse_uint_roundtrip, lemma_run_len_bounds, lemma_run_len_exact, parse_int,
    parse_quoted, parse_uint, quoted, run_len, signed_decimal, CharClass,
};
use crate::types::parse::{
    decimal_type, entries_distinct, parse_arguments, parse_char, parse_datetime64_arguments,
    parse_decimal_arguments, parse_entries, parse_entry, parse_number, parse_number_argument,
    parse_type, parse_type_list, parse_type_text, parse_zone, simple_type, then_close,
    timezone_known,
};
use crate::types::print::{entries_text, entry_text, type_text, types_text};
use crate::types::TypeModel;
use vstd::prelude::*;

verus! {

/// The characters of the names of the types without arguments.
pub proof fn lemma_simple_words()
    ensures
        "Int8"@ == seq!['I', 'n', 't', '8'],
        "Int16"@ == seq!['I', 'n', 't', '1', '6'],
        "Int32"@ == seq!['I', 'n', 't', '3', '2'],
        "Int64"@ == seq!['I', 'n', 't', '6', '4'],
        "Int128"@ == seq!['I', 'n', 't', '1', '2', '8'],
        "Int256"@ == seq!['I', 'n', 't', '2', '5', '6'],
        "UInt8"@ == seq!['U', 'I', 'n', 't', '8'],
        "UInt16"@ == seq!['U', 'I', 'n', 't', '1', '6'],
        "UInt32"@ == seq!['U', 'I', 'n', 't', '3', '2'],
        "UInt64"@ == seq!['U', 'I', 'n', 't', '6', '4'],
        "UInt128"@ == seq!['U', 'I', 'n', 't', '1', '2', '8'],
        "UInt256"@ == seq!['U', 'I', 'n', 't', '2', '5', '6'],
        "Float32"@ == seq!['F', 'l', 'o', 'a', 't', '3', '2'],
        "Float64"@ == seq!['F', 'l', 'o', 'a', 't', '6', '4'],
        "String"@ == seq!['S', 't', 'r', 'i', 'n', 'g'],
        "UUID"@ == seq!['U', 'U', 'I', 'D'],
        "Date"@ == seq!['D', 'a', 't', 'e'],
        "Point"@ == seq!['P', 'o', 'i', 'n', 't'],
        "Ring"@ == seq!['R', 'i', 'n', 'g'],
        "Polygon"@ == seq!['P', 'o', 'l', 'y', 'g', 'o', 'n'],
        "MultiPolygon"@ == seq!['M', 'u', 'l', 't', 'i', 'P', 'o', 'l', 'y', 'g', 'o', 'n'],
{
    reveal_strlit("Int8");
    assert("Int8"@ =~= seq!['I', 'n', 't', '8']);
    reveal_strlit("Int16");
    assert("Int16"@ =~= seq!['I', 'n', 't', '1', '6']);
    reveal_strlit("Int32");
    assert("Int32"@ =~= seq!['I', 'n', 't', '3', '2']);
    reveal_strlit("Int64");
    assert("Int64"@ =~= seq!['I', 'n', 't', '6', '4']);
    reveal_strlit("Int128");
    assert("Int128"@ =~= seq!['I', 'n', 't', '1', '2', '8']);
    reveal_strlit("Int256");
    assert("Int256"@ =~= seq!['I', 'n', 't', '2', '5', '6']);
    reveal_strlit("UInt8");
    assert("UInt8"@ =~= seq!['U', 'I', 'n', 't', '8']);
    reveal_strlit("UInt16");
    assert("UInt16"@ =~= seq!['U', 'I', 'n', 't', '1', '6']);
    reveal_strlit("UInt32");
    assert("UInt32"@ =~= seq!['U', 'I', 'n', 't', '3', '2']);
    reveal_strlit("UInt64");
    assert("UInt64"@ =~= seq!['U', 'I', 'n', 't', '6', '4']);
    reveal_strlit("UInt128");
    assert("UInt128"@ =~= seq!['U', 'I', 'n', 't', '1', '2', '8']);
    reveal_strlit("UInt256");
    assert("UInt256"@ =~= seq!['U', 'I', 'n', 't', '2', '5', '6']);
    reveal_strlit("Float32");
    assert("Float32"@ =~= seq!['F', 'l', 'o', 'a', 't', '3', '2']);
    reveal_strlit("Float64");
    assert("Float64"@ =~= seq!['F', 'l', 'o', 'a', 't', '6', '4']);
    reveal_strlit("String");
    assert("String"@ =~= seq!['S', 't', 'r', 'i', 'n', 'g']);
    reveal_strlit("UUID");
    assert("UUID"@ =~= seq!['U', 'U', 'I', 'D']);
    reveal_strlit("Date");
    assert("Date"@ =~= seq!['D', 'a', 't', 'e']);
    reveal_strlit("Point");
    assert("Point"@ =~= seq!['P', 'o', 'i', 'n', 't']);
    reveal_strlit("Ring");
    assert("Ring"@ =~= seq!['R', 'i', 'n', 'g']);
    reveal_strlit("Polygon");
    assert("Polygon"@ =~= seq!['P', 'o', 'l', 'y', 'g', 'o', 'n']);
    reveal_strlit("MultiPolygon");
    assert("MultiPolygon"@ =~= seq!['M', 'u', 'l', 't', 'i', 'P', 'o', 'l', 'y', 'g', 'o', 'n']);
}

/// The characters of the names of the types with arguments.
pub proof fn lemma_composite_words()
    ensures
        "Nullable"@ == seq!['N', 'u', 'l', 'l', 'a', 'b', 'l', 'e'],
        "Array"@ == seq!['A', 'r', 'r', 'a', 'y'],
        "LowCardinality"@ == seq!['L', 'o', 'w', 'C', 'a', 'r', 'd', 'i', 'n', 'a', 'l', 'i', 't', 'y'],
        "Tuple"@ == seq!['T', 'u', 'p', 'l', 'e'],
        "Map"@ == seq!['M', 'a', 'p'],
        "FixedString"@ == seq!['F', 'i', 'x', 'e', 'd', 'S', 't', 'r', 'i', 'n', 'g'],
        "Decimal32"@ == seq!['D', 'e', 'c', 'i', 'm', 'a', 'l', '3', '2'],
        "Decimal64"@ == seq!['D', 'e', 'c', 'i', 'm', 'a', 'l', '6', '4'],
        "Decimal128"@ == seq!['D', 'e', 'c', 'i', 'm', 'a', 'l', '1', '2', '8'],
        "Decimal256"@ == seq!['D', 'e', 'c', 'i', 'm', 'a', 'l', '2', '5', '6'],
        "Decimal"@ == seq!['D', 'e', 'c', 'i', 'm', 'a', 'l'],
        "DateTime"@ == seq!['D', 'a', 't', 'e', 'T', 'i', 'm', 'e'],
        "DateTime64"@ == seq!['D', 'a', 't', 'e', 'T', 'i', 'm', 'e', '6', '4'],
        "Enum8"@ == seq!['E', 'n', 'u', 'm', '8'],
        "Enum16"@ == seq!['E', 'n', 'u', 'm', '1', '6'],
{
    reveal_strlit("Nullable");
    assert("Nullable"@ =~= seq!['N', 'u', 'l', 'l', 'a', 'b', 'l', 'e']);
    reveal_strlit("Array");
    assert("Array"@ =~= seq!['A', 'r', 'r', 'a', 'y']);
    reveal_strlit("LowCardinality");
    assert("LowCardinality"@ =~= seq!['L', 'o', 'w', 'C', 'a', 'r', 'd', 'i', 'n', 'a', 'l', 'i', 't', 'y']);
    reveal_strlit("Tuple");
    assert("Tuple"@ =~= seq!['T', 'u', 'p', 'l', 'e']);
    reveal_strlit("Map");
    assert("Map"@ =~= seq!['M', 'a', 'p']);
    reveal_strlit("FixedString");
    assert("FixedString"@ =~= seq!['F', 'i', 'x', 'e', 'd', 'S', 't', 'r', 'i', 'n', 'g']);
    reveal_strlit("Decimal32");
    assert("Decimal32"@ =~= seq!['D', 'e', 'c', 'i', 'm', 'a', 'l', '3', '2']);
    reveal_strlit("Decimal64");
    assert("Decimal64"@ =~= seq!['D', 'e', 'c', 'i', 'm', 'a', 'l', '6', '4']);
    reveal_strlit("Decimal128");
    assert("Decimal128"@ =~= seq!['D', 'e', 'c', 'i', 'm', 'a', 'l', '1', '2', '8']);
    reveal_strlit("Decimal256");
    assert("Decimal256"@ =~= seq!['D', 'e', 'c', 'i', 'm', 'a', 'l', '2', '5', '6']);
    reveal_strlit("Decimal");
    assert("Decimal"@ =~= seq!['D', 'e', 'c', 'i', 'm', 'a', 'l']);
    reveal_strlit("DateTime");
    assert("DateTime"@ =~= seq!['D', 'a', 't', 'e', 'T', 'i', 'm', 'e']);
    reveal_strlit("DateTime64");
    assert("DateTime64"@ =~= seq!['D', 'a', 't', 'e', 'T', 'i', 'm', 'e', '6', '4']);
    reveal_strlit("Enum8");
    assert("Enum8"@ =~= seq!['E', 'n', 'u', 'm', '8']);
    reveal_strlit("Enum16");
    assert("Enum16"@ =~= seq!['E', 'n', 'u', 'm', '1', '6']);
}

/// The characters of the marks between arguments.
pub proof fn lemma_marks()
    ensures
        ")"@ == seq![')'],
        ", "@ == seq![',', ' '],
        " = "@ == seq![' ', '=', ' '],
        "UTC"@ == seq!['U', 'T', 'C'],
{
    reveal_strlit(")");
    assert(")"@ =~= seq![')']);
    reveal_strlit(", ");
    assert(", "@ =~= seq![',', ' ']);
    reveal_strlit(" = ");
    assert(" = "@ =~= seq![' ', '=', ' ']);
    reveal_strlit("UTC");
    assert("UTC"@ =~= seq!['U', 'T', 'C']);
}

/// Whether `w` is a word: one or more letters, digits and underscores.
pub open spec fn is_word(w: Seq<char>) -> bool {
    w.len() > 0 && forall|i: int| 0 <= i < w.len() ==> CharClass::Ident.spec_contains(
        #[trigger] w[i],
    )
}

/// Whether what follows a word ends the word.
pub open spec fn ends_word(rest: Seq<char>) -> bool {
    rest.len() > 0 ==> !CharClass::Ident.spec_contains(rest[0])
}

/// No run starts where the first character is outside the class.
pub proof fn lemma_run_len_none(s: Seq<char>, class: CharClass)
    requires
        s.len() > 0 ==> !class.spec_contains(s[0]),
    ensures
        run_len(s, class) == 0,
{
}

/// A character that is no blank is found where it stands.
pub proof fn lemma_parse_char_here(s: Seq<char>, c: char)
    requires
        s.len() > 0,
        s[0] == c,
        !CharClass::Space.spec_contains(c),
    ensures
        parse_char(s, c) == Some(1nat),
{
}

/// A closing parenthesis is found where it stands.
pub proof fn lemma_then_close_here<T>(s: Seq<char>, at: nat, value: T)
    requires
        at < s.len(),
        s[at as int] == ')',
    ensures
        then_close(s, at, value) == Some((value, at + 1)),
{
    assert(s.skip(at as int)[0] == ')');
}

/// A word at the head of a text is read as the identifier of a type.
pub proof fn lemma_word_head(w: Seq<char>, tail: Seq<char>)
    requires
        is_word(w),
        ends_word(tail),
    ensures
        run_len(w + tail, CharClass::Space) == 0,
        run_len((w + tail).skip(0), CharClass::Ident) == w.len(),
        (w + tail).subrange(0, w.len() as int) == w,
{
    let s = w + tail;
    assert(s[0] == w[0]);
    assert(CharClass::Ident.spec_contains(w[0]));
    assert(s.skip(0) =~= s);
    lemma_run_len_exact(w, tail, CharClass::Ident);
    assert(s.subrange(0, w.len() as int) =~= w);
}

/// The law for the types without arguments, given that the text of the
/// type is a word that names the type.
pub proof fn lemma_named_roundtrip(t: TypeModel, w: Seq<char>, rest: Seq<char>)
    requires
        is_word(w),
        simple_type(w) == Some(t),
        ends_word(rest),
    ensures
        parse_type(w + rest) == Some((t, w.len())),
{
    reveal(parse_type);
    lemma_word_head(w, rest);
}

/// A word that names no type without arguments, an opening parenthesis and
/// arguments are read as the type that the arguments make of the word.
pub proof fn lemma_open_roundtrip(w: Seq<char>, body: Seq<char>, t: TypeModel, m: nat)
    requires
        is_word(w),
        simple_type(w) is None,
        parse_arguments(w, body) == Some((t, m)),
        m <= body.len(),
    ensures
        parse_type(w.push('(') + body) == Some((t, w.len() + 1 + m)),
{
    reveal(parse_arguments);
    reveal(parse_type);
    let tail = seq!['('] + body;
    let s = w.push('(') + body;
    assert(s =~= w + tail);
    lemma_word_head(w, tail);
    assert(s.skip(w.len() as int) =~= tail);
    lemma_parse_char_here(tail, '(');
    assert(s.skip((w.len() + 1) as int) =~= body);
}

/// Whether `t` is a type without arguments.
pub open spec fn is_named(t: TypeModel) -> bool {
    match t {
        TypeModel::Int8 => true,
        TypeModel::Int16 => true,
        TypeModel::Int32 => true,
        TypeModel::Int64 => true,
        TypeModel::Int128 => true,
        TypeModel::Int256 => true,
        TypeModel::UInt8 => true,
        TypeModel::UInt16 => true,
        TypeModel::UInt32 => true,
        TypeModel::UInt64 => true,
        TypeModel::UInt128 => true,
        TypeModel::UInt256 => true,
        TypeModel::Float32 => true,
        TypeModel::Float64 => true,
        TypeModel::String => true,
        TypeModel::Uuid => true,
        TypeModel::Date => true,
        TypeModel::Point => true,
        TypeModel::Ring => true,
        TypeModel::Polygon => true,
        TypeModel::MultiPolygon => true,
        _ => false,
    }
}

/// The text of a type without arguments is a word that names the type.
pub proof fn lemma_simple_names(t: TypeModel)
    requires
        is_named(t),
    ensures
        is_word(type_text(t)),
        simple_type(type_text(t)) == Some(t),
{
    reveal(simple_type);
    lemma_simple_words();
}

/// `Decimal32` is a word that names no type without arguments, and the
/// opening of the type is the word and a parenthesis.
pub proof fn lemma_word_decimal32()
    ensures
        is_word("Decimal32"@),
        simple_type("Decimal32"@) is None,
        "Decimal32("@ == "Decimal32"@.push('('),
{
    reveal(simple_type);
    lemma_simple_words();
    reveal_strlit("Decimal32");
    reveal_strlit("Decimal32(");
    assert("Decimal32"@ =~= seq!['D', 'e', 'c', 'i', 'm', 'a', 'l', '3', '2']);
    assert("Decimal32("@ =~= "Decimal32"@.push('('));
}

/// `Decimal64` is a word that names no type without arguments, and the
/// opening of the type is the word and a parenthesis.
pub proof fn lemma_word_decimal64()
    ensures
        is_word("Decimal64"@),
        simple_type("Decimal64"@) is None,
        "Decimal64("@ == "Decimal64"@.push('('),
{
    reveal(simple_type);
    lemma_simple_words();
    reveal_strlit("Decimal64");
    reveal_strlit("Decimal64(");
    assert("Decimal64"@ =~= seq!['D', 'e', 'c', 'i', 'm', 'a', 'l', '6', '4']);
    assert("Decimal64("@ =~= "Decimal64"@.push('('));
}

/// `Decimal128` is a word that names no type without arguments, and the
/// opening of the type is the word and a parenthesis.
pub proof fn lemma_word_decimal128()
    ensures
        is_word("Decimal128"@),
        simple_type("Decimal128"@) is None,
        "Decimal128("@ == "Decimal128"@.push('('),
{
    reveal(simple_type);
    lemma_simple_words();
    reveal_strlit("Decimal128");
    reveal_strlit("Decimal128(");
    assert("Decimal128"@ =~= seq!['D', 'e', 'c', 'i', 'm', 'a', 'l', '1', '2', '8']);
    assert("Decimal128("@ =~= "Decimal128"@.push('('));
}

/// `Decimal256` is a word that names no type without arguments, and the
/// opening of the type is the word and a parenthesis.
pub proof fn lemma_word_decimal256()
    ensures
        is_word("Decimal256"@),
        simple_type("Decimal256"@) is None,
        "Decimal256("@ == "Decimal256"@.push('('),
{
    reveal(simple_type);
    lemma_simple_words();
    reveal_strlit("Decimal256");
    reveal_strlit("Decimal256(");
    assert("Decimal256"@ =~= seq!['D', 'e', 'c', 'i', 'm', 'a', 'l', '2', '5', '6']);
    assert("Decimal256("@ =~= "Decimal256"@.push('('));
}

/// `FixedString` is a word that names no type without arguments, and the
/// opening of the type is the word and a parenthesis.
pub proof fn lemma_word_fixed_string()
    ensures
        is_word("FixedString"@),
        simple_type("FixedString"@) is None,
        "FixedString("@ == "FixedString"@.push('('),
{
    reveal(simple_type);
    lemma_simple_words();
    reveal_strlit("FixedString");
    reveal_strlit("FixedString(");
    assert("FixedString"@ =~= seq!['F', 'i', 'x', 'e', 'd', 'S', 't', 'r', 'i', 'n', 'g']);
    assert("FixedString("@ =~= "FixedString"@.push('('));
}

/// `DateTime` is a word that names no type without arguments, and the
/// opening of the type is the word and a parenthesis.
pub proof fn lemma_word_datetime()
    ensures
        is_word("DateTime"@),
        simple_type("DateTime"@) is None,
        "DateTime("@ == "DateTime"@.push('('),
{
    reveal(simple_type);
    lemma_simple_words();
    reveal_strlit("DateTime");
    reveal_strlit("DateTime(");
    assert("DateTime"@ =~= seq!['D', 'a', 't', 'e', 'T', 'i', 'm', 'e']);
    assert("DateTime("@ =~= "DateTime"@.push('('));
}

/// `DateTime64` is a word that names no type without arguments, and the
/// opening of the type is the word and a parenthesis.
pub proof fn lemma_word_datetime64()
    ensures
        is_word("DateTime64"@),
        simple_type("DateTime64"@) is None,
        "DateTime64("@ == "DateTime64"@.push('('),
{
    reveal(simple_type);
    lemma_simple_words();
    reveal_strlit("DateTime64");
    reveal_strlit("DateTime64(");
    assert("DateTime64"@ =~= seq!['D', 'a', 't', 'e', 'T', 'i', 'm', 'e', '6', '4']);
    assert("DateTime64("@ =~= "DateTime64"@.push('('));
}

/// `Enum8` is a word that names no type without arguments, and the
/// opening of the type is the word and a parenthesis.
pub proof fn lemma_word_enum8()
    ensures
        is_word("Enum8"@),
        simple_type("Enum8"@) is None,
        "Enum8("@ == "Enum8"@.push('('),
{
    reveal(simple_type);
    lemma_simple_words();
    reveal_strlit("Enum8");
    reveal_strlit("Enum8(");
    assert("Enum8"@ =~= seq!['E', 'n', 'u', 'm', '8']);
    assert("Enum8("@ =~= "Enum8"@.push('('));
}

/// `Enum16` is a word that names no type without arguments, and the
/// opening of the type is the word and a parenthesis.
pub proof fn lemma_word_enum16()
    ensures
        is_word("Enum16"@),
        simple_type("Enum16"@) is None,
        "Enum16("@ == "Enum16"@.push('('),
{
    reveal(simple_type);
    lemma_simple_words();
    reveal_strlit("Enum16");
    reveal_strlit("Enum16(");
    assert("Enum16"@ =~= seq!['E', 'n', 'u', 'm', '1', '6']);
    assert("Enum16("@ =~= "Enum16"@.push('('));
}

/// `LowCardinality` is a word that names no type without arguments, and the
/// opening of the type is the word and a parenthesis.
pub proof fn lemma_word_low_cardinality()
    ensures
        is_word("LowCardinality"@),
        simple_type("LowCardinality"@) is None,
        "LowCardinality("@ == "LowCardinality"@.push('('),
{
    reveal(simple_type);
    lemma_simple_words();
    reveal_strlit("LowCardinality");
    reveal_strlit("LowCardinality(");
    assert("LowCardinality"@ =~= seq!['L', 'o', 'w', 'C', 'a', 'r', 'd', 'i', 'n', 'a', 'l', 'i', 't', 'y']);
    assert("LowCardinality("@ =~= "LowCardinality"@.push('('));
}

/// `Array` is a word that names no type without arguments, and the
/// opening of the type is the word and a parenthesis.
pub proof fn lemma_word_array()
    ensures
        is_word("Array"@),
        simple_type("Array"@) is None,
        "Array("@ == "Array"@.push('('),
{
    reveal(simple_type);
    lemma_simple_words();
    reveal_strlit("Array");
    reveal_strlit("Array(");
    assert("Array"@ =~= seq!['A', 'r', 'r', 'a', 'y']);
    assert("Array("@ =~= "Array"@.push('('));
}

/// `Tuple` is a word that names no type without arguments, and the
/// opening of the type is the word and a parenthesis.
pub proof fn lemma_word_tuple()
    ensures
        is_word("Tuple"@),
        simple_type("Tuple"@) is None,
        "Tuple("@ == "Tuple"@.push('('),
{
    reveal(simple_type);
    lemma_simple_words();
    reveal_strlit("Tuple");
    reveal_strlit("Tuple(");
    assert("Tuple"@ =~= seq!['T', 'u', 'p', 'l', 'e']);
    assert("Tuple("@ =~= "Tuple"@.push('('));
}

/// `Nullable` is a word that names no type without arguments, and the
/// opening of the type is the word and a parenthesis.
pub proof fn lemma_word_nullable()
    ensures
        is_word("Nullable"@),
        simple_type("Nullable"@) is None,
        "Nullable("@ == "Nullable"@.push('('),
{
    reveal(simple_type);
    lemma_simple_words();
    reveal_strlit("Nullable");
    reveal_strlit("Nullable(");
    assert("Nullable"@ =~= seq!['N', 'u', 'l', 'l', 'a', 'b', 'l', 'e']);
    assert("Nullable("@ =~= "Nullable"@.push('('));
}

/// `Map` is a word that names no type without arguments, and the
/// opening of the type is the word and a parenthesis.
pub proof fn lemma_word_map()
    ensures
        is_word("Map"@),
        simple_type("Map"@) is None,
        "Map("@ == "Map"@.push('('),
{
    reveal(simple_type);
    lemma_simple_words();
    reveal_strlit("Map");
    reveal_strlit("Map(");
    assert("Map"@ =~= seq!['M', 'a', 'p']);
    assert("Map("@ =~= "Map"@.push('('));
}

/// The arguments of `Nullable` are one type.
#[verifier::spinoff_prover]
#[verifier::rlimit(60)]
pub proof fn lemma_select_nullable(s: Seq<char>)
    ensures
        parse_arguments("Nullable"@, s) == (match parse_type(s) {
            Some((t, m)) => then_close(s, m, TypeModel::Nullable(Box::new(t))),
            None => None,
        }),
{
    reveal(parse_arguments);
    reveal(parse_type);
    lemma_composite_words();
}

/// The arguments of `Array` are one type.
#[verifier::spinoff_prover]
#[verifier::rlimit(60)]
pub proof fn lemma_select_array(s: Seq<char>)
    ensures
        parse_arguments("Array"@, s) == (match parse_type(s) {
            Some((t, m)) => then_close(s, m, TypeModel::Array(Box::new(t))),
            None => None,
        }),
{
    reveal(parse_arguments);
    reveal(parse_type);
    lemma_composite_words();
}

/// The arguments of `LowCardinality` are one type.
#[verifier::spinoff_prover]
#[verifier::rlimit(60)]
pub proof fn lemma_select_low_cardinality(s: Seq<char>)
    ensures
        parse_arguments("LowCardinality"@, s) == (match parse_type(s) {
            Some((t, m)) => then_close(s, m, TypeModel::LowCardinality(Box::new(t))),
            None => None,
        }),
{
    reveal(parse_arguments);
    reveal(parse_type);
    lemma_composite_words();
}

/// The arguments of `Tuple` are a list of types.
#[verifier::spinoff_prover]
#[verifier::rlimit(60)]
pub proof fn lemma_select_tuple(s: Seq<char>)
    ensures
        parse_arguments("Tuple"@, s) == (match parse_type_list(s) {
            Some((items, m)) => then_close(s, m, TypeModel::Tuple(items)),
            None => None,
        }),
{
    reveal(parse_arguments);
    reveal(parse_type);
    lemma_composite_words();
}

/// The arguments of `Map` are two types.
#[verifier::spinoff_prover]
#[verifier::rlimit(60)]
pub proof fn lemma_select_map(s: Seq<char>)
    ensures
        parse_arguments("Map"@, s) == (match parse_type_list(s) {
            Some((items, m)) => if items.len() == 2 {
                then_close(s, m, TypeModel::Mapping(Box::new(items[0]), Box::new(items[1])))
            } else {
                None
            },
            None => None,
        }),
{
    reveal(parse_arguments);
    reveal(parse_type);
    lemma_composite_words();
}

/// The argument of `FixedString` is one number.
#[verifier::spinoff_prover]
#[verifier::rlimit(60)]
pub proof fn lemma_select_fixed_string(s: Seq<char>)
    ensures
        parse_arguments("FixedString"@, s) == parse_number_argument(
            s,
            usize::MAX as nat,
            |n: nat| TypeModel::FixedString(n),
        ),
{
    reveal(parse_arguments);
    reveal(parse_type);
    lemma_composite_words();
}

/// The argument of `Decimal32` is one number.
#[verifier::spinoff_prover]
#[verifier::rlimit(60)]
pub proof fn lemma_select_decimal32(s: Seq<char>)
    ensures
        parse_arguments("Decimal32"@, s) == parse_number_argument(
            s,
            9,
            |n: nat| TypeModel::Decimal32(n),
        ),
{
    reveal(parse_arguments);
    reveal(parse_type);
    lemma_composite_words();
}

/// The argument of `Decimal64` is one number.
#[verifier::spinoff_prover]
#[verifier::rlimit(60)]
pub proof fn lemma_select_decimal64(s: Seq<char>)
    ensures
        parse_arguments("Decimal64"@, s) == parse_number_argument(
            s,
            18,
            |n: nat| TypeModel::Decimal64(n),
        ),
{
    reveal(parse_arguments);
    reveal(parse_type);
    lemma_composite_words();
}

/// The argument of `Decimal128` is one number.
#[verifier::spinoff_prover]
#[verifier::rlimit(60)]
pub proof fn lemma_select_decimal128(s: Seq<char>)
    ensures
        parse_arguments("Decimal128"@, s) == parse_number_argument(
            s,
            38,
            |n: nat| TypeModel::Decimal128(n),
        ),
{
    reveal(parse_arguments);
    reveal(parse_type);
    lemma_composite_words();
}

/// The argument of `Decimal256` is one number.
#[verifier::spinoff_prover]
#[verifier::rlimit(60)]
pub proof fn lemma_select_decimal256(s: Seq<char>)
    ensures
        parse_arguments("Decimal256"@, s) == parse_number_argument(
            s,
            76,
            |n: nat| TypeModel::Decimal256(n),
        ),
{
    reveal(parse_arguments);
    reveal(parse_type);
    lemma_composite_words();
}

/// The argument of `DateTime` is a time zone.
#[verifier::spinoff_prover]
#[verifier::rlimit(60)]
pub proof fn lemma_select_datetime(s: Seq<char>)
    ensures
        parse_arguments("DateTime"@, s) == (match parse_zone(s) {
            Some((zone, m)) => then_close(s, m, TypeModel::DateTime(zone)),
            None => None,
        }),
{
    reveal(parse_arguments);
    reveal(parse_type);
    lemma_composite_words();
}

/// The arguments of `DateTime64` are a precision and a time zone.
#[verifier::spinoff_prover]
#[verifier::rlimit(60)]
pub proof fn lemma_select_datetime64(s: Seq<char>)
    ensures
        parse_arguments("DateTime64"@, s) == parse_datetime64_arguments(s),
{
    reveal(parse_arguments);
    reveal(parse_type);
    lemma_composite_words();
    let w = "DateTime64"@;
    assert(w.len() == 10);
    assert(w[0] == 'D' && w[1] == 'a' && w[8] == '6');
    assert("Nullable"@[0] == 'N');
    assert("Array"@[0] == 'A');
    assert("LowCardinality"@[0] == 'L');
    assert("Tuple"@[0] == 'T');
    assert("Map"@[0] == 'M');
    assert("FixedString"@[0] == 'F');
    assert("Decimal32"@[1] == 'e');
    assert("Decimal64"@[1] == 'e');
    assert("Decimal128"@[1] == 'e');
    assert("Decimal256"@[1] == 'e');
    assert("Decimal"@[1] == 'e');
    assert("DateTime"@.len() == 8);
}

/// The arguments of `Enum8` are entries with values of eight bits.
#[verifier::spinoff_prover]
#[verifier::rlimit(60)]
pub proof fn lemma_select_enum8(s: Seq<char>)
    ensures
        parse_arguments("Enum8"@, s) == (match parse_entries(s, i8::MIN as int, i8::MAX as int) {
            Some((entries, m)) => if entries_distinct(entries) {
                then_close(s, m, TypeModel::Enum8(entries))
            } else {
                None
            },
            None => None,
        }),
{
    reveal(parse_arguments);
    reveal(parse_type);
    lemma_composite_words();
}

/// The arguments of `Enum16` are entries with values of sixteen bits.
#[verifier::spinoff_prover]
#[verifier::rlimit(60)]
pub proof fn lemma_select_enum16(s: Seq<char>)
    ensures
        parse_arguments("Enum16"@, s) == (match parse_entries(
            s,
            i16::MIN as int,
            i16::MAX as int,
        ) {
            Some((entries, m)) => if entries_distinct(entries) {
                then_close(s, m, TypeModel::Enum16(entries))
            } else {
                None
            },
            None => None,
        }),
{
    reveal(parse_arguments);
    reveal(parse_type);
    lemma_composite_words();
}

/// A number up to `max`, in front of a closing parenthesis, is read as the
/// single argument that it is.
pub proof fn lemma_number_argument(
    n: nat,
    max: nat,
    rest: Seq<char>,
    make: spec_fn(nat) -> TypeModel,
)
    requires
        n <= max,
    ensures
        parse_number_argument(decimal(n) + (seq![')'] + rest), max, make) == Some(
            (make(n), decimal(n).len() + 1),
        ),
{
    let tail = seq![')'] + rest;
    let s = decimal(n) + tail;
    lemma_decimal_roundtrip(n);
    assert(s[0] == decimal(n)[0]);
    lemma_run_len_none(s, CharClass::Space);
    assert(s.skip(0) =~= s);
    lemma_parse_uint_roundtrip(n, max, tail);
    assert(s[decimal(n).len() as int] == ')');
    lemma_then_close_here(s, decimal(n).len(), make(n));
}

/// The quoted name of a known time zone is read as that time zone.
pub proof fn lemma_zone_roundtrip(zone: Seq<char>, rest: Seq<char>)
    requires
        timezone_known(zone),
    ensures
        parse_zone(quoted(zone) + rest) == Some((zone, quoted(zone).len())),
{
    let s = quoted(zone) + rest;
    assert(s[0] == '\'');
    lemma_run_len_none(s, CharClass::Space);
    assert(s.skip(0) =~= s);
    lemma_parse_quoted_roundtrip(zone, rest);
}

/// A precision, a comma, a blank, the quoted name of a known time zone and
/// a closing parenthesis are read as the arguments of a date with time of
/// that precision.
pub proof fn lemma_datetime64_arguments(precision: nat, zone: Seq<char>, rest: Seq<char>)
    requires
        precision <= 9,
        timezone_known(zone),
    ensures
        parse_datetime64_arguments(
            decimal(precision) + seq![',', ' '] + quoted(zone) + seq![')'] + rest,
        ) == Some(
            (
                TypeModel::DateTime64(precision, zone),
                decimal(precision).len() + 2 + quoted(zone).len() + 1,
            ),
        ),
{
    let t = TypeModel::DateTime64(precision, zone);
    let digits = decimal(precision);
    let close = seq![')'] + rest;
    let body = digits + seq![',', ' '] + quoted(zone) + seq![')'] + rest;
    lemma_decimal_roundtrip(precision);
    assert(body[0] == digits[0]);
    lemma_run_len_none(body, CharClass::Space);
    assert(body.skip(0) =~= body);
    let after_digits = seq![',', ' '] + quoted(zone) + close;
    assert(body =~= digits + after_digits);
    lemma_parse_uint_roundtrip(precision, 9, after_digits);
    let d = digits.len();
    assert(body.skip(d as int) =~= after_digits);
    lemma_parse_char_here(after_digits, ',');
    let zone_text = seq![' '] + quoted(zone) + close;
    assert(body.skip((d + 1) as int) =~= zone_text);
    let quoted_text = quoted(zone) + close;
    assert(zone_text[0] == ' ');
    assert(zone_text.skip(1) =~= quoted_text);
    assert(quoted_text[0] == '\'');
    lemma_run_len_none(quoted_text, CharClass::Space);
    assert(run_len(zone_text, CharClass::Space) == 1);
    lemma_parse_quoted_roundtrip(zone, close);
    assert(parse_zone(zone_text) == Some((zone, 1 + quoted(zone).len())));
    let m = d + 1 + 1 + quoted(zone).len();
    assert(body[m as int] == ')');
    lemma_then_close_here(body, m, t);
}

/// `lead` blanks.
pub open spec fn blanks(lead: nat) -> Seq<char> {
    Seq::new(lead, |i: int| ' ')
}

/// Blanks in front of a text that starts with no blank are a run of
/// blanks of their number.
pub proof fn lemma_blanks_run(lead: nat, u: Seq<char>)
    requires
        u.len() > 0 ==> !CharClass::Space.spec_contains(u[0]),
    ensures
        run_len(blanks(lead) + u, CharClass::Space) == lead,
        (blanks(lead) + u).skip(lead as int) == u,
{
    assert forall|i: int| 0 <= i < blanks(lead).len() implies CharClass::Space.spec_contains(
        #[trigger] blanks(lead)[i],
    ) by {}
    lemma_run_len_exact(blanks(lead), u, CharClass::Space);
    assert((blanks(lead) + u).skip(lead as int) =~= u);
}

/// The text of one enum entry, behind blanks and in front of what is no
/// digit, is read as that entry.
#[verifier::spinoff_prover]
#[verifier::rlimit(100)]
pub proof fn lemma_entry_roundtrip(
    entry: (Seq<char>, int),
    lead: nat,
    rest: Seq<char>,
    min: int,
    max: int,
)
    requires
        min <= entry.1 <= max,
        min <= 0 <= max,
        rest.len() > 0 ==> !CharClass::Digit.spec_contains(rest[0]),
    ensures
        entry_text(entry).len() == quoted(entry.0).len() + 3 + signed_decimal(entry.1).len(),
        parse_entry(blanks(lead) + entry_text(entry) + rest, min, max) == Some(
            (entry, lead + entry_text(entry).len()),
        ),
{
    lemma_marks();
    reveal(parse_entry);
    let name = quoted(entry.0);
    let number = signed_decimal(entry.1);
    let text = entry_text(entry) + rest;
    let s = blanks(lead) + entry_text(entry) + rest;
    assert(s =~= blanks(lead) + text);
    assert(text[0] == '\'');
    lemma_blanks_run(lead, text);
    let after_name = " = "@ + number + rest;
    assert(text =~= name + after_name);
    lemma_parse_quoted_roundtrip(entry.0, after_name);
    let q = name.len();
    assert(s.skip((lead + q) as int) =~= after_name);
    let from_equals = seq!['=', ' '] + number + rest;
    assert(after_name =~= blanks(1) + from_equals);
    lemma_blanks_run(1, from_equals);
    assert(after_name[1] == '=');
    assert(parse_char(after_name, '=') == Some(2nat));
    let at = lead + q + 2;
    let tail = seq![' '] + number + rest;
    assert(s.skip(at as int) =~= tail);
    let value_text = number + rest;
    lemma_decimal_roundtrip(
        if entry.1 < 0 {
            (-entry.1) as nat
        } else {
            entry.1 as nat
        },
    );
    assert(value_text[0] == number[0]);
    assert(!CharClass::Space.spec_contains(value_text[0]));
    assert(tail =~= blanks(1) + value_text);
    lemma_blanks_run(1, value_text);
    assert(s.skip((at + 1) as int) =~= value_text);
    lemma_parse_int_roundtrip(entry.1, min, max, rest);
}

/// The entries of an enum from index `from` on.
pub open spec fn entries_from(entries: Seq<(Seq<char>, int)>, from: nat) -> Seq<char> {
    entry_text(entries[from as int]) + entries_text(entries, from + 1)
}

/// Whether the values of all entries lie within `min ..= max`.
pub open spec fn entries_within(entries: Seq<(Seq<char>, int)>, min: int, max: int) -> bool {
    forall|i: int| 0 <= i < entries.len() ==> min <= (#[trigger] entries[i]).1 <= max
}

/// The texts of the entries of an enum from index `from` on, behind blanks
/// and in front of a closing parenthesis, are read as those entries.
pub proof fn lemma_entries_roundtrip(
    entries: Seq<(Seq<char>, int)>,
    from: nat,
    lead: nat,
    rest: Seq<char>,
    min: int,
    max: int,
)
    requires
        from < entries.len(),
        entries_within(entries, min, max),
        min <= 0 <= max,
        rest.len() > 0 && rest[0] == ')',
    ensures
        parse_entries(blanks(lead) + entries_from(entries, from) + rest, min, max) == Some(
            (entries.skip(from as int), lead + entries_from(entries, from).len()),
        ),
    decreases entries.len() - from,
{
    lemma_marks();
    let entry = entries[from as int];
    let later = entries_text(entries, from + 1);
    let tail = later + rest;
    let s = blanks(lead) + entries_from(entries, from) + rest;
    assert(s =~= blanks(lead) + entry_text(entry) + tail);
    let m = lead + entry_text(entry).len();
    if from + 1 < entries.len() {
        let next = entries_from(entries, from + 1);
        assert(later =~= ", "@ + next);
        assert(tail[0] == ',');
        lemma_entry_roundtrip(entry, lead, tail, min, max);
        assert(s.skip(m as int) =~= tail);
        lemma_parse_char_here(tail, ',');
        lemma_entries_roundtrip(entries, from + 1, 1, rest, min, max);
        assert(s.skip((m + 1) as int) =~= blanks(1) + next + rest);
        assert(seq![entry] + entries.skip((from + 1) as int) =~= entries.skip(from as int));
    } else {
        assert(later =~= Seq::<char>::empty());
        assert(tail =~= rest);
        lemma_entry_roundtrip(entry, lead, tail, min, max);
        assert(s.skip(m as int) =~= rest);
        assert(parse_char(rest, ',') is None) by {
            lemma_run_len_none(rest, CharClass::Space);
        }
        assert(seq![entry] =~= entries.skip(from as int));
    }
}

/// The entries of an enum, a closing parenthesis behind them, are read as
/// the arguments of an enum whose values take eight bits.
pub proof fn lemma_enum8_arguments(entries: Seq<(Seq<char>, int)>, rest: Seq<char>)
    requires
        entries.len() > 0,
        entries_within(entries, i8::MIN as int, i8::MAX as int),
        entries_distinct(entries),
    ensures
        parse_arguments("Enum8"@, entries_text(entries, 0) + seq![')'] + rest) == Some(
            (TypeModel::Enum8(entries), entries_text(entries, 0).len() + 1),
        ),
{
    let close = seq![')'] + rest;
    let body = entries_text(entries, 0) + seq![')'] + rest;
    lemma_entries_roundtrip(entries, 0, 0, close, i8::MIN as int, i8::MAX as int);
    assert(blanks(0) + entries_from(entries, 0) + close =~= body);
    assert(entries_text(entries, 0) =~= entries_from(entries, 0));
    assert(entries.skip(0) =~= entries);
    let m = entries_text(entries, 0).len();
    assert(body[m as int] == ')');
    lemma_then_close_here(body, m, TypeModel::Enum8(entries));
    lemma_select_enum8(body);
}

/// The entries of an enum, a closing parenthesis behind them, are read as
/// the arguments of an enum whose values take sixteen bits.
pub proof fn lemma_enum16_arguments(entries: Seq<(Seq<char>, int)>, rest: Seq<char>)
    requires
        entries.len() > 0,
        entries_within(entries, i16::MIN as int, i16::MAX as int),
        entries_distinct(entries),
    ensures
        parse_arguments("Enum16"@, entries_text(entries, 0) + seq![')'] + rest) == Some(
            (TypeModel::Enum16(entries), entries_text(entries, 0).len() + 1),
        ),
{
    let close = seq![')'] + rest;
    let body = entries_text(entries, 0) + seq![')'] + rest;
    lemma_entries_roundtrip(entries, 0, 0, close, i16::MIN as int, i16::MAX as int);
    assert(blanks(0) + entries_from(entries, 0) + close =~= body);
    assert(entries_text(entries, 0) =~= entries_from(entries, 0));
    assert(entries.skip(0) =~= entries);
    let m = entries_text(entries, 0).len();
    assert(body[m as int] == ')');
    lemma_then_close_here(body, m, TypeModel::Enum16(entries));
    lemma_select_enum16(body);
}

/// Blanks in front of the text of a type are passed over.
#[verifier::spinoff_prover]
#[verifier::rlimit(60)]
pub proof fn lemma_parse_type_lead(lead: nat, u: Seq<char>)
    requires
        run_len(u, CharClass::Space) == 0,
    ensures
        parse_type(blanks(lead) + u) == (match parse_type(u) {
            Some((t, m)) => Some((t, lead + m)),
            None => None,
        }),
{
    reveal(parse_type);
    let s = blanks(lead) + u;
    assert(u.len() > 0 ==> !CharClass::Space.spec_contains(u[0]));
    lemma_blanks_run(lead, u);
    assert(u.skip(0) =~= u);
    let n = run_len(u, CharClass::Ident);
    lemma_run_len_bounds(u, CharClass::Ident);
    if n > 0 {
        assert(s.subrange(lead as int, (lead + n) as int) =~= u.subrange(0, n as int));
        assert(s.skip((lead + n) as int) =~= u.skip(n as int));
        let name = u.subrange(0, n as int);
        match parse_char(u.skip(n as int), '(') {
            Some(open) => {
                lemma_run_len_bounds(u.skip(n as int), CharClass::Space);
                assert(s.skip((lead + n + open) as int) =~= u.skip((n + open) as int));
            },
            None => {},
        }
    }
}

/// The step of the law for `Nullable`: where the text of the inner type, in
/// front of a closing parenthesis, reads back as the inner type, the text
/// of the type reads back as the type.
pub proof fn lemma_nullable_roundtrip(inner: TypeModel, rest: Seq<char>)
    requires
        parse_type(type_text(inner) + (seq![')'] + rest)) == Some(
            (inner, type_text(inner).len()),
        ),
    ensures
        parse_type(type_text(TypeModel::Nullable(Box::new(inner))) + rest) == Some(
            (TypeModel::Nullable(Box::new(inner)), type_text(TypeModel::Nullable(Box::new(inner))).len()),
        ),
{
    let t = TypeModel::Nullable(Box::new(inner));
    let u = type_text(inner);
    let body = u + (seq![')'] + rest);
    let m = u.len();
    lemma_marks();
    lemma_word_nullable();
    lemma_select_nullable(body);
    assert(body[m as int] == ')');
    lemma_then_close_here(body, m, t);
    lemma_open_roundtrip("Nullable"@, body, t, m + 1);
    assert(type_text(t) + rest =~= "Nullable"@.push('(') + body);
}

/// The step of the law for `Array`: where the text of the inner type, in
/// front of a closing parenthesis, reads back as the inner type, the text
/// of the type reads back as the type.
pub proof fn lemma_array_roundtrip(inner: TypeModel, rest: Seq<char>)
    requires
        parse_type(type_text(inner) + (seq![')'] + rest)) == Some(
            (inner, type_text(inner).len()),
        ),
    ensures
        parse_type(type_text(TypeModel::Array(Box::new(inner))) + rest) == Some(
            (TypeModel::Array(Box::new(inner)), type_text(TypeModel::Array(Box::new(inner))).len()),
        ),
{
    let t = TypeModel::Array(Box::new(inner));
    let u = type_text(inner);
    let body = u + (seq![')'] + rest);
    let m = u.len();
    lemma_marks();
    lemma_word_array();
    lemma_select_array(body);
    assert(body[m as int] == ')');
    lemma_then_close_here(body, m, t);
    lemma_open_roundtrip("Array"@, body, t, m + 1);
    assert(type_text(t) + rest =~= "Array"@.push('(') + body);
}

/// The step of the law for `LowCardinality`: where the text of the inner type, in
/// front of a closing parenthesis, reads back as the inner type, the text
/// of the type reads back as the type.
pub proof fn lemma_low_cardinality_roundtrip(inner: TypeModel, rest: Seq<char>)
    requires
        parse_type(type_text(inner) + (seq![')'] + rest)) == Some(
            (inner, type_text(inner).len()),
        ),
    ensures
        parse_type(type_text(TypeModel::LowCardinality(Box::new(inner))) + rest) == Some(
            (TypeModel::LowCardinality(Box::new(inner)), type_text(TypeModel::LowCardinality(Box::new(inner))).len()),
        ),
{
    let t = TypeModel::LowCardinality(Box::new(inner));
    let u = type_text(inner);
    let body = u + (seq![')'] + rest);
    let m = u.len();
    lemma_marks();
    lemma_word_low_cardinality();
    lemma_select_low_cardinality(body);
    assert(body[m as int] == ')');
    lemma_then_close_here(body, m, t);
    lemma_open_roundtrip("LowCardinality"@, body, t, m + 1);
    assert(type_text(t) + rest =~= "LowCardinality"@.push('(') + body);
}

/// The law for `FixedString`.
pub proof fn lemma_fixed_string_roundtrip(n: nat, rest: Seq<char>)
    requires
        n <= usize::MAX,
    ensures
        parse_type(type_text(TypeModel::FixedString(n)) + rest) == Some(
            (TypeModel::FixedString(n), type_text(TypeModel::FixedString(n)).len()),
        ),
{
    let t = TypeModel::FixedString(n);
    let body = decimal(n) + (seq![')'] + rest);
    lemma_marks();
    lemma_word_fixed_string();
    lemma_select_fixed_string(body);
    lemma_number_argument(n, usize::MAX as nat, rest, |n: nat| TypeModel::FixedString(n));
    lemma_open_roundtrip("FixedString"@, body, t, decimal(n).len() + 1);
    assert(type_text(t) + rest =~= "FixedString"@.push('(') + body);
}

/// The law for `Decimal32`.
pub proof fn lemma_decimal32_roundtrip(n: nat, rest: Seq<char>)
    requires
        n <= 9,
    ensures
        parse_type(type_text(TypeModel::Decimal32(n)) + rest) == Some(
            (TypeModel::Decimal32(n), type_text(TypeModel::Decimal32(n)).len()),
        ),
{
    let t = TypeModel::Decimal32(n);
    let body = decimal(n) + (seq![')'] + rest);
    lemma_marks();
    lemma_word_decimal32();
    lemma_select_decimal32(body);
    lemma_number_argument(n, 9, rest, |n: nat| TypeModel::Decimal32(n));
    lemma_open_roundtrip("Decimal32"@, body, t, decimal(n).len() + 1);
    assert(type_text(t) + rest =~= "Decimal32"@.push('(') + body);
}

/// The law for `Decimal64`.
pub proof fn lemma_decimal64_roundtrip(n: nat, rest: Seq<char>)
    requires
        n <= 18,
    ensures
        parse_type(type_text(TypeModel::Decimal64(n)) + rest) == Some(
            (TypeModel::Decimal64(n), type_text(TypeModel::Decimal64(n)).len()),
        ),
{
    let t = TypeModel::Decimal64(n);
    let body = decimal(n) + (seq![')'] + rest);
    lemma_marks();
    lemma_word_decimal64();
    lemma_select_decimal64(body);
    lemma_number_argument(n, 18, rest, |n: nat| TypeModel::Decimal64(n));
    lemma_open_roundtrip("Decimal64"@, body, t, decimal(n).len() + 1);
    assert(type_text(t) + rest =~= "Decimal64"@.push('(') + body);
}

/// The law for `Decimal128`.
pub proof fn lemma_decimal128_roundtrip(n: nat, rest: Seq<char>)
    requires
        n <= 38,
    ensures
        parse_type(type_text(TypeModel::Decimal128(n)) + rest) == Some(
            (TypeModel::Decimal128(n), type_text(TypeModel::Decimal128(n)).len()),
        ),
{
    let t = TypeModel::Decimal128(n);
    let body = decimal(n) + (seq![')'] + rest);
    lemma_marks();
    lemma_word_decimal128();
    lemma_select_decimal128(body);
    lemma_number_argument(n, 38, rest, |n: nat| TypeModel::Decimal128(n));
    lemma_open_roundtrip("Decimal128"@, body, t, decimal(n).len() + 1);
    assert(type_text(t) + rest =~= "Decimal128"@.push('(') + body);
}

/// The law for `Decimal256`.
pub proof fn lemma_decimal256_roundtrip(n: nat, rest: Seq<char>)
    requires
        n <= 76,
    ensures
        parse_type(type_text(TypeModel::Decimal256(n)) + rest) == Some(
            (TypeModel::Decimal256(n), type_text(TypeModel::Decimal256(n)).len()),
        ),
{
    let t = TypeModel::Decimal256(n);
    let body = decimal(n) + (seq![')'] + rest);
    lemma_marks();
    lemma_word_decimal256();
    lemma_select_decimal256(body);
    lemma_number_argument(n, 76, rest, |n: nat| TypeModel::Decimal256(n));
    lemma_open_roundtrip("Decimal256"@, body, t, decimal(n).len() + 1);
    assert(type_text(t) + rest =~= "Decimal256"@.push('(') + body);
}

/// The law for dates with times.
pub proof fn lemma_datetime_roundtrip(zone: Seq<char>, rest: Seq<char>)
    requires
        timezone_known(zone),
    ensures
        parse_type(type_text(TypeModel::DateTime(zone)) + rest) == Some(
            (TypeModel::DateTime(zone), type_text(TypeModel::DateTime(zone)).len()),
        ),
{
    let t = TypeModel::DateTime(zone);
    let tail = seq![')'] + rest;
    let body = quoted(zone) + tail;
    lemma_marks();
    lemma_word_datetime();
    lemma_select_datetime(body);
    lemma_zone_roundtrip(zone, tail);
    assert(body[quoted(zone).len() as int] == ')');
    lemma_then_close_here(body, quoted(zone).len(), t);
    lemma_open_roundtrip("DateTime"@, body, t, quoted(zone).len() + 1);
    assert(type_text(t) + rest =~= "DateTime"@.push('(') + body);
}

/// The law for dates with times of a precision.
pub proof fn lemma_datetime64_roundtrip(precision: nat, zone: Seq<char>, rest: Seq<char>)
    requires
        precision <= 9,
        timezone_known(zone),
    ensures
        parse_type(type_text(TypeModel::DateTime64(precision, zone)) + rest) == Some(
            (
                TypeModel::DateTime64(precision, zone),
                type_text(TypeModel::DateTime64(precision, zone)).len(),
            ),
        ),
{
    let t = TypeModel::DateTime64(precision, zone);
    let body = decimal(precision) + seq![',', ' '] + quoted(zone) + seq![')'] + rest;
    lemma_marks();
    lemma_word_datetime64();
    lemma_select_datetime64(body);
    lemma_datetime64_arguments(precision, zone, rest);
    lemma_open_roundtrip(
        "DateTime64"@,
        body,
        t,
        decimal(precision).len() + 2 + quoted(zone).len() + 1,
    );
    assert(type_text(t) + rest =~= "DateTime64"@.push('(') + body);
}

/// The law for enums whose values take eight bits.
pub proof fn lemma_enum8_roundtrip(entries: Seq<(Seq<char>, int)>, rest: Seq<char>)
    requires
        entries.len() > 0,
        entries_within(entries, i8::MIN as int, i8::MAX as int),
        entries_distinct(entries),
    ensures
        parse_type(type_text(TypeModel::Enum8(entries)) + rest) == Some(
            (TypeModel::Enum8(entries), type_text(TypeModel::Enum8(entries)).len()),
        ),
{
    let t = TypeModel::Enum8(entries);
    let body = entries_text(entries, 0) + seq![')'] + rest;
    lemma_marks();
    lemma_word_enum8();
    lemma_enum8_arguments(entries, rest);
    lemma_open_roundtrip("Enum8"@, body, t, entries_text(entries, 0).len() + 1);
    assert(type_text(t) + rest =~= "Enum8"@.push('(') + body);
}

/// The law for enums whose values take sixteen bits.
pub proof fn lemma_enum16_roundtrip(entries: Seq<(Seq<char>, int)>, rest: Seq<char>)
    requires
        entries.len() > 0,
        entries_within(entries, i16::MIN as int, i16::MAX as int),
        entries_distinct(entries),
    ensures
        parse_type(type_text(TypeModel::Enum16(entries)) + rest) == Some(
            (TypeModel::Enum16(entries), type_text(TypeModel::Enum16(entries)).len()),
        ),
{
    let t = TypeModel::Enum16(entries);
    let body = entries_text(entries, 0) + seq![')'] + rest;
    lemma_marks();
    lemma_word_enum16();
    lemma_enum16_arguments(entries, rest);
    lemma_open_roundtrip("Enum16"@, body, t, entries_text(entries, 0).len() + 1);
    assert(type_text(t) + rest =~= "Enum16"@.push('(') + body);
}

/// Whether `t` is a type that the grammar can spell: scales and
/// precisions within their bounds, known time zones, enums with at least
/// one entry, values in range and neither names nor values twice, tuples
/// with at least one component.
pub open spec fn type_valid(t: TypeModel) -> bool
    decreases t, 0nat,
{
    match t {
        TypeModel::Decimal32(scale) => scale <= 9,
        TypeModel::Decimal64(scale) => scale <= 18,
        TypeModel::Decimal128(scale) => scale <= 38,
        TypeModel::Decimal256(scale) => scale <= 76,
        TypeModel::FixedString(n) => n <= usize::MAX,
        TypeModel::DateTime(zone) => timezone_known(zone),
        TypeModel::DateTime64(precision, zone) => precision <= 9 && timezone_known(zone),
        TypeModel::Enum8(entries) => entries.len() > 0 && entries_within(
            entries,
            i8::MIN as int,
            i8::MAX as int,
        ) && entries_distinct(entries),
        TypeModel::Enum16(entries) => entries.len() > 0 && entries_within(
            entries,
            i16::MIN as int,
            i16::MAX as int,
        ) && entries_distinct(entries),
        TypeModel::Nullable(inner) => type_valid(*inner),
        TypeModel::Array(inner) => type_valid(*inner),
        TypeModel::LowCardinality(inner) => type_valid(*inner),
        TypeModel::Mapping(key, value) => type_valid(*key) && type_valid(*value),
        TypeModel::Tuple(items) => items.len() > 0 && types_valid(items, 0),
        _ => true,
    }
}

/// Whether the types from index `from` on are types that the grammar can
/// spell.
pub open spec fn types_valid(items: Seq<TypeModel>, from: nat) -> bool
    decreases items, items.len() - from,
{
    if from >= items.len() {
        true
    } else {
        type_valid(items[from as int]) && types_valid(items, from + 1)
    }
}

/// The texts of the types of a list from index `from` on, without the
/// separator in front.
pub open spec fn types_from(items: Seq<TypeModel>, from: nat) -> Seq<char> {
    type_text(items[from as int]) + types_text(items, from + 1)
}

/// The text of a type starts with a letter.
pub proof fn lemma_type_text_starts(t: TypeModel)
    ensures
        type_text(t).len() > 0,
        !CharClass::Space.spec_contains(type_text(t)[0]),
        CharClass::Ident.spec_contains(type_text(t)[0]),
{
    lemma_simple_words();
    reveal_strlit("Decimal32(");
    reveal_strlit("Decimal64(");
    reveal_strlit("Decimal128(");
    reveal_strlit("Decimal256(");
    reveal_strlit("FixedString(");
    reveal_strlit("DateTime(");
    reveal_strlit("DateTime64(");
    reveal_strlit("Enum8(");
    reveal_strlit("Enum16(");
    reveal_strlit("LowCardinality(");
    reveal_strlit("Array(");
    reveal_strlit("Tuple(");
    reveal_strlit("Nullable(");
    reveal_strlit("Map(");
    match t {
        TypeModel::Decimal32(_) => {
            assert(type_text(t)[0] == "Decimal32("@[0]);
        },
        TypeModel::Decimal64(_) => {
            assert(type_text(t)[0] == "Decimal64("@[0]);
        },
        TypeModel::Decimal128(_) => {
            assert(type_text(t)[0] == "Decimal128("@[0]);
        },
        TypeModel::Decimal256(_) => {
            assert(type_text(t)[0] == "Decimal256("@[0]);
        },
        TypeModel::FixedString(_) => {
            assert(type_text(t)[0] == "FixedString("@[0]);
        },
        TypeModel::DateTime(_) => {
            assert(type_text(t)[0] == "DateTime("@[0]);
        },
        TypeModel::DateTime64(_, _) => {
            assert(type_text(t)[0] == "DateTime64("@[0]);
        },
        TypeModel::Enum8(_) => {
            assert(type_text(t)[0] == "Enum8("@[0]);
        },
        TypeModel::Enum16(_) => {
            assert(type_text(t)[0] == "Enum16("@[0]);
        },
        TypeModel::LowCardinality(_) => {
            assert(type_text(t)[0] == "LowCardinality("@[0]);
        },
        TypeModel::Array(_) => {
            assert(type_text(t)[0] == "Array("@[0]);
        },
        TypeModel::Tuple(_) => {
            assert(type_text(t)[0] == "Tuple("@[0]);
        },
        TypeModel::Nullable(_) => {
            assert(type_text(t)[0] == "Nullable("@[0]);
        },
        TypeModel::Mapping(_, _) => {
            assert(type_text(t)[0] == "Map("@[0]);
        },
        _ => {},
    }
}

/// One step of reading a list of types: a type, read with the blanks in
/// front of it, and what follows it.
pub proof fn lemma_type_list_step(
    first: TypeModel,
    lead: nat,
    tail: Seq<char>,
    later: Option<(Seq<TypeModel>, nat)>,
)
    requires
        parse_type(type_text(first) + tail) == Some((first, type_text(first).len())),
        tail.len() > 0,
        tail[0] == ',' ==> later == parse_type_list(tail.skip(1)),
        tail[0] == ',' || tail[0] == ')',
    ensures
        parse_type_list(blanks(lead) + type_text(first) + tail) == (if tail[0] == ',' {
            match later {
                Some((rest, k)) => Some(
                    (seq![first] + rest, lead + type_text(first).len() + 1 + k),
                ),
                None => None,
            }
        } else {
            Some((seq![first], lead + type_text(first).len()))
        }),
{
    reveal(parse_type);
    reveal(parse_arguments);
    let text = type_text(first) + tail;
    let s = blanks(lead) + type_text(first) + tail;
    assert(s =~= blanks(lead) + text);
    lemma_type_text_starts(first);
    assert(text[0] == type_text(first)[0]);
    lemma_run_len_none(text, CharClass::Space);
    lemma_parse_type_lead(lead, text);
    let m = lead + type_text(first).len();
    assert(s.skip(m as int) =~= tail);
    if tail[0] == ',' {
        lemma_parse_char_here(tail, ',');
        assert(s.skip((m + 1) as int) =~= tail.skip(1));
    } else {
        lemma_run_len_none(tail, CharClass::Space);
        assert(parse_char(tail, ',') is None);
    }
}

/// The step of the law for maps: where the texts of the type of the keys
/// and of the type of the values read back as those types, the text of the
/// map reads back as the map.
pub proof fn lemma_map_type_roundtrip(key: TypeModel, value: TypeModel, rest: Seq<char>)
    requires
        parse_type(type_text(value) + (seq![')'] + rest)) == Some(
            (value, type_text(value).len()),
        ),
        parse_type(type_text(key) + (seq![',', ' '] + type_text(value) + seq![')'] + rest))
            == Some((key, type_text(key).len())),
    ensures
        parse_type(type_text(TypeModel::Mapping(Box::new(key), Box::new(value))) + rest) == Some(
            (
                TypeModel::Mapping(Box::new(key), Box::new(value)),
                type_text(TypeModel::Mapping(Box::new(key), Box::new(value))).len(),
            ),
        ),
{
    let t = TypeModel::Mapping(Box::new(key), Box::new(value));
    let close = seq![')'] + rest;
    let second = blanks(1) + type_text(value) + close;
    let tail = seq![',', ' '] + type_text(value) + seq![')'] + rest;
    let body = type_text(key) + tail;
    lemma_marks();
    lemma_word_map();
    lemma_select_map(body);
    lemma_type_list_step(value, 1, close, None);
    assert(tail.skip(1) =~= second);
    lemma_type_list_step(key, 0, tail, parse_type_list(second));
    assert(blanks(0) + type_text(key) + tail =~= body);
    let items = seq![key] + seq![value];
    assert(items.len() == 2 && items[0] == key && items[1] == value);
    let m = type_text(key).len() + 1 + 1 + type_text(value).len();
    assert(body[m as int] == ')');
    lemma_then_close_here(body, m, t);
    lemma_open_roundtrip("Map"@, body, t, m + 1);
    assert(type_text(t) + rest =~= "Map"@.push('(') + body);
}

/// The step of the law for tuples: where the texts of the components read
/// back as the components, the text of the tuple reads back as the tuple.
pub proof fn lemma_tuple_type_roundtrip(items: Seq<TypeModel>, rest: Seq<char>)
    requires
        items.len() > 0,
        parse_type_list(types_from(items, 0) + (seq![')'] + rest)) == Some(
            (items, types_from(items, 0).len()),
        ),
    ensures
        parse_type(type_text(TypeModel::Tuple(items)) + rest) == Some(
            (TypeModel::Tuple(items), type_text(TypeModel::Tuple(items)).len()),
        ),
{
    let t = TypeModel::Tuple(items);
    let body = types_from(items, 0) + (seq![')'] + rest);
    lemma_marks();
    lemma_word_tuple();
    lemma_select_tuple(body);
    let m = types_from(items, 0).len();
    assert(body[m as int] == ')');
    lemma_then_close_here(body, m, t);
    lemma_open_roundtrip("Tuple"@, body, t, m + 1);
    assert(types_text(items, 0) =~= types_from(items, 0));
    assert(type_text(t) + rest =~= "Tuple"@.push('(') + body);
}

/// The texts of the types of a list from index `from` on, behind blanks
/// and in front of a closing parenthesis, read back as those types.
pub proof fn lemma_types_roundtrip(
    items: Seq<TypeModel>,
    from: nat,
    lead: nat,
    rest: Seq<char>,
)
    requires
        from < items.len(),
        types_valid(items, from),
        rest.len() > 0 && rest[0] == ')',
    ensures
        parse_type_list(blanks(lead) + types_from(items, from) + rest) == Some(
            (items.skip(from as int), lead + types_from(items, from).len()),
        ),
    decreases items, items.len() - from, 0nat,
{
    lemma_marks();
    let first = items[from as int];
    let later = types_text(items, from + 1);
    let tail = later + rest;
    assert(blanks(lead) + types_from(items, from) + rest =~= blanks(lead) + type_text(first)
        + tail);
    if from + 1 < items.len() {
        let next = types_from(items, from + 1);
        assert(later =~= ", "@ + next);
        assert(tail[0] == ',');
        lemma_type_roundtrip(first, tail);
        lemma_types_roundtrip(items, from + 1, 1, rest);
        assert(tail.skip(1) =~= blanks(1) + next + rest);
        lemma_type_list_step(first, lead, tail, parse_type_list(tail.skip(1)));
        assert(seq![first] + items.skip((from + 1) as int) =~= items.skip(from as int));
    } else {
        assert(later =~= Seq::<char>::empty());
        assert(tail =~= rest);
        lemma_type_roundtrip(first, tail);
        lemma_type_list_step(first, lead, tail, None);
        assert(seq![first] =~= items.skip(from as int));
    }
}

/// The round-trip law of the type grammar, with what may follow: the
/// canonical text of a type that the grammar can spell, in front of
/// anything that ends a word, reads back as the type and takes exactly the
/// text.
pub proof fn lemma_type_roundtrip(t: TypeModel, rest: Seq<char>)
    requires
        type_valid(t),
        ends_word(rest),
    ensures
        parse_type(type_text(t) + rest) == Some((t, type_text(t).len())),
    decreases t, 0nat, 1nat,
{
    let close = seq![')'] + rest;
    match t {
        TypeModel::Decimal32(n) => lemma_decimal32_roundtrip(n, rest),
        TypeModel::Decimal64(n) => lemma_decimal64_roundtrip(n, rest),
        TypeModel::Decimal128(n) => lemma_decimal128_roundtrip(n, rest),
        TypeModel::Decimal256(n) => lemma_decimal256_roundtrip(n, rest),
        TypeModel::FixedString(n) => lemma_fixed_string_roundtrip(n, rest),
        TypeModel::DateTime(zone) => lemma_datetime_roundtrip(zone, rest),
        TypeModel::DateTime64(precision, zone) => lemma_datetime64_roundtrip(
            precision,
            zone,
            rest,
        ),
        TypeModel::Enum8(entries) => lemma_enum8_roundtrip(entries, rest),
        TypeModel::Enum16(entries) => lemma_enum16_roundtrip(entries, rest),
        TypeModel::Nullable(inner) => {
            lemma_type_roundtrip(*inner, close);
            lemma_nullable_roundtrip(*inner, rest);
        },
        TypeModel::Array(inner) => {
            lemma_type_roundtrip(*inner, close);
            lemma_array_roundtrip(*inner, rest);
        },
        TypeModel::LowCardinality(inner) => {
            lemma_type_roundtrip(*inner, close);
            lemma_low_cardinality_roundtrip(*inner, rest);
        },
        TypeModel::Mapping(key, value) => {
            lemma_type_roundtrip(*value, close);
            lemma_type_roundtrip(*key, seq![',', ' '] + type_text(*value) + seq![')'] + rest);
            lemma_map_type_roundtrip(*key, *value, rest);
        },
        TypeModel::Tuple(items) => {
            lemma_types_roundtrip(items, 0, 0, close);
            assert(blanks(0) + types_from(items, 0) + close =~= types_from(items, 0) + close);
            assert(items.skip(0) =~= items);
            lemma_tuple_type_roundtrip(items, rest);
        },
        _ => {
            lemma_simple_names(t);
            lemma_named_roundtrip(t, type_text(t), rest);
        },
    }
}

/// The round-trip law of the type grammar: the canonical text of a type
/// that the grammar can spell reads back as the type.
pub proof fn lemma_type_text_roundtrip(t: TypeModel)
    requires
        type_valid(t),
    ensures
        parse_type_text(type_text(t)) == Some(t),
{
    let text = type_text(t);
    lemma_type_roundtrip(t, Seq::empty());
    assert(text + Seq::<char>::empty() =~= text);
    assert(text.skip(text.len() as int) =~= Seq::<char>::empty());
}

} // verus!

//! Reading a type from its textual form.
//!
//! A type is an identifier, followed for some identifiers by a
//! parenthesised argument list: numbers, single-quoted literals, nested
//! types, or `'name' = number` entries. Blanks may stand around every token.

use crate::text::{
    chars_eq, chars_of, parse_int, parse_quoted, parse_uint, run_len, scan_int, scan_quoted,
    scan_run, scan_uint, string_of, CharClass,
};
use crate::errors::{ErrorKind, KlickhouseError};
use crate::io::copy_range;
use crate::types::{entries16_model, entries8_model, types_model, Type, TypeModel};
use vstd::prelude::*;
use vstd::string::StringExecFns;

verus! {

/// Whether `name` is a time zone that `chrono_tz` knows.
pub uninterp spec fn timezone_known(name: Seq<char>) -> bool;

/// `chrono_tz::Tz::from_str`: whether the name parses is a function of the
/// name.
#[verifier::external_body]
pub(crate) fn is_known_timezone(name: &str) -> (r: bool)
    ensures
        r == timezone_known(name@),
{
    match name.parse::<chrono_tz::Tz>() {
        Ok(_) => true,
        Err(_) => false,
    }
}

/// After optional blanks, the character `c`: the number of characters up to
/// and including it.
pub open spec fn parse_char(s: Seq<char>, c: char) -> Option<nat> {
    let blanks = run_len(s, CharClass::Space);
    if blanks < s.len() && s[blanks as int] == c {
        Some(blanks + 1)
    } else {
        None
    }
}

/// `value`, once the closing parenthesis was found behind the first `at`
/// characters of `s`.
pub open spec fn then_close<T>(s: Seq<char>, at: nat, value: T) -> Option<(T, nat)> {
    if at > s.len() {
        None
    } else {
        match parse_char(s.skip(at as int), ')') {
            Some(close) => Some((value, at + close)),
            None => None,
        }
    }
}

/// The type that an identifier without arguments names.
#[verifier::opaque]
pub open spec fn simple_type(name: Seq<char>) -> Option<TypeModel> {
    if name == "Int8"@ {
        Some(TypeModel::Int8)
    } else if name == "Int16"@ {
        Some(TypeModel::Int16)
    } else if name == "Int32"@ {
        Some(TypeModel::Int32)
    } else if name == "Int64"@ {
        Some(TypeModel::Int64)
    } else if name == "Int128"@ {
        Some(TypeModel::Int128)
    } else if name == "Int256"@ {
        Some(TypeModel::Int256)
    } else if name == "UInt8"@ {
        Some(TypeModel::UInt8)
    } else if name == "UInt16"@ {
        Some(TypeModel::UInt16)
    } else if name == "UInt32"@ {
        Some(TypeModel::UInt32)
    } else if name == "UInt64"@ {
        Some(TypeModel::UInt64)
    } else if name == "UInt128"@ {
        Some(TypeModel::UInt128)
    } else if name == "UInt256"@ {
        Some(TypeModel::UInt256)
    } else if name == "Float32"@ {
        Some(TypeModel::Float32)
    } else if name == "Float64"@ {
        Some(TypeModel::Float64)
    } else if name == "String"@ {
        Some(TypeModel::String)
    } else if name == "UUID"@ {
        Some(TypeModel::Uuid)
    } else if name == "Date"@ {
        Some(TypeModel::Date)
    } else if name == "Point"@ {
        Some(TypeModel::Point)
    } else if name == "Ring"@ {
        Some(TypeModel::Ring)
    } else if name == "Polygon"@ {
        Some(TypeModel::Polygon)
    } else if name == "MultiPolygon"@ {
        Some(TypeModel::MultiPolygon)
    } else {
        None
    }
}

/// Whether no two entries share a name and no two share a value.
pub open spec fn entries_distinct(entries: Seq<(Seq<char>, int)>) -> bool {
    forall|i: int, j: int|
        0 <= i < j < entries.len() ==> (#[trigger] entries[i]).0 != (#[trigger] entries[j]).0
            && entries[i].1 != entries[j].1
}

/// The decimal type of `precision` digits, `scale` of them fractional: the
/// narrowest width that holds the precision.
pub open spec fn decimal_type(precision: nat, scale: nat) -> Option<TypeModel> {
    if precision < 1 || scale > precision {
        None
    } else if precision <= 9 {
        Some(TypeModel::Decimal32(scale))
    } else if precision <= 18 {
        Some(TypeModel::Decimal64(scale))
    } else if precision <= 38 {
        Some(TypeModel::Decimal128(scale))
    } else if precision <= 76 {
        Some(TypeModel::Decimal256(scale))
    } else {
        None
    }
}

/// The type at the head of `s` and the number of characters it takes.
#[verifier::opaque]
pub open spec fn parse_type(s: Seq<char>) -> Option<(TypeModel, nat)>
    decreases s.len(), 1nat,
{
    let blanks = run_len(s, CharClass::Space);
    if blanks > s.len() {
        None
    } else {
        let n = run_len(s.skip(blanks as int), CharClass::Ident);
        let end = blanks + n;
        if n == 0 || end > s.len() {
            None
        } else {
            let name = s.subrange(blanks as int, end as int);
            match simple_type(name) {
                Some(t) => Some((t, end)),
                None => match parse_char(s.skip(end as int), '(') {
                    Some(open) => if end + open > s.len() {
                        None
                    } else {
                        match parse_arguments(name, s.skip((end + open) as int)) {
                            Some((t, m)) => Some((t, end + open + m)),
                            None => None,
                        }
                    },
                    None => if name == "DateTime"@ {
                        Some((TypeModel::DateTime("UTC"@), end))
                    } else {
                        None
                    },
                },
            }
        }
    }
}

/// The arguments of the type called `name`, from behind the opening
/// parenthesis up to and including the closing one.
#[verifier::opaque]
pub open spec fn parse_arguments(name: Seq<char>, s: Seq<char>) -> Option<(TypeModel, nat)>
    decreases s.len(), 3nat,
{
    if name == "Nullable"@ {
        match parse_type(s) {
            Some((t, m)) => then_close(s, m, TypeModel::Nullable(Box::new(t))),
            None => None,
        }
    } else if name == "Array"@ {
        match parse_type(s) {
            Some((t, m)) => then_close(s, m, TypeModel::Array(Box::new(t))),
            None => None,
        }
    } else if name == "LowCardinality"@ {
        match parse_type(s) {
            Some((t, m)) => then_close(s, m, TypeModel::LowCardinality(Box::new(t))),
            None => None,
        }
    } else if name == "Tuple"@ {
        match parse_type_list(s) {
            Some((items, m)) => then_close(s, m, TypeModel::Tuple(items)),
            None => None,
        }
    } else if name == "Map"@ {
        match parse_type_list(s) {
            Some((items, m)) => if items.len() == 2 {
                then_close(s, m, TypeModel::Mapping(Box::new(items[0]), Box::new(items[1])))
            } else {
                None
            },
            None => None,
        }
    } else if name == "FixedString"@ {
        parse_number_argument(s, usize::MAX as nat, |n: nat| TypeModel::FixedString(n))
    } else if name == "Decimal32"@ {
        parse_number_argument(s, 9, |n: nat| TypeModel::Decimal32(n))
    } else if name == "Decimal64"@ {
        parse_number_argument(s, 18, |n: nat| TypeModel::Decimal64(n))
    } else if name == "Decimal128"@ {
        parse_number_argument(s, 38, |n: nat| TypeModel::Decimal128(n))
    } else if name == "Decimal256"@ {
        parse_number_argument(s, 76, |n: nat| TypeModel::Decimal256(n))
    } else if name == "Decimal"@ {
        parse_decimal_arguments(s)
    } else if name == "DateTime"@ {
        match parse_zone(s) {
            Some((zone, m)) => then_close(s, m, TypeModel::DateTime(zone)),
            None => None,
        }
    } else if name == "DateTime64"@ {
        parse_datetime64_arguments(s)
    } else if name == "Enum8"@ {
        match parse_entries(s, i8::MIN as int, i8::MAX as int) {
            Some((entries, m)) => if entries_distinct(entries) {
                then_close(s, m, TypeModel::Enum8(entries))
            } else {
                None
            },
            None => None,
        }
    } else if name == "Enum16"@ {
        match parse_entries(s, i16::MIN as int, i16::MAX as int) {
            Some((entries, m)) => if entries_distinct(entries) {
                then_close(s, m, TypeModel::Enum16(entries))
            } else {
                None
            },
            None => None,
        }
    } else {
        None
    }
}

/// One or more types, separated by commas.
pub open spec fn parse_type_list(s: Seq<char>) -> Option<(Seq<TypeModel>, nat)>
    decreases s.len(), 2nat,
{
    match parse_type(s) {
        Some((t, m)) => if m == 0 || m > s.len() {
            None
        } else {
            match parse_char(s.skip(m as int), ',') {
                Some(comma) => if m + comma > s.len() {
                    None
                } else {
                    match parse_type_list(s.skip((m + comma) as int)) {
                        Some((rest, k)) => Some((seq![t] + rest, m + comma + k)),
                        None => None,
                    }
                },
                None => Some((seq![t], m)),
            }
        },
        None => None,
    }
}

/// After optional blanks, an unsigned number up to `max`: the number and
/// the characters taken.
pub open spec fn parse_number(s: Seq<char>, max: nat) -> Option<(nat, nat)> {
    let blanks = run_len(s, CharClass::Space);
    if blanks > s.len() {
        None
    } else {
        match parse_uint(s.skip(blanks as int), max) {
            Some((value, digits)) => Some((value, blanks + digits)),
            None => None,
        }
    }
}

/// A single number up to `max` as the whole argument list.
pub open spec fn parse_number_argument(
    s: Seq<char>,
    max: nat,
    make: spec_fn(nat) -> TypeModel,
) -> Option<(TypeModel, nat)> {
    match parse_number(s, max) {
        Some((value, m)) => then_close(s, m, make(value)),
        None => None,
    }
}

/// Precision and scale as the whole argument list.
pub open spec fn parse_decimal_arguments(s: Seq<char>) -> Option<(TypeModel, nat)> {
    match parse_number(s, 76) {
        Some((precision, m)) => if m > s.len() {
            None
        } else {
            match parse_char(s.skip(m as int), ',') {
                Some(comma) => if m + comma > s.len() {
                    None
                } else {
                    match parse_number(s.skip((m + comma) as int), 76) {
                        Some((scale, k)) => match decimal_type(precision, scale) {
                            Some(t) => then_close(s, m + comma + k, t),
                            None => None,
                        },
                        None => None,
                    }
                },
                None => None,
            }
        },
        None => None,
    }
}

/// After optional blanks, the quoted name of a known time zone.
pub open spec fn parse_zone(s: Seq<char>) -> Option<(Seq<char>, nat)> {
    let blanks = run_len(s, CharClass::Space);
    if blanks > s.len() {
        None
    } else {
        match parse_quoted(s.skip(blanks as int)) {
            Some((zone, m)) => if timezone_known(zone) {
                Some((zone, blanks + m))
            } else {
                None
            },
            None => None,
        }
    }
}

/// A precision up to nine and, optionally, a time zone as the whole
/// argument list; the zone is UTC where none is given.
pub open spec fn parse_datetime64_arguments(s: Seq<char>) -> Option<(TypeModel, nat)> {
    match parse_number(s, 9) {
        Some((precision, m)) => if m > s.len() {
            None
        } else {
            match parse_char(s.skip(m as int), ',') {
                Some(comma) => if m + comma > s.len() {
                    None
                } else {
                    match parse_zone(s.skip((m + comma) as int)) {
                        Some((zone, k)) => then_close(
                            s,
                            m + comma + k,
                            TypeModel::DateTime64(precision, zone),
                        ),
                        None => None,
                    }
                },
                None => then_close(s, m, TypeModel::DateTime64(precision, "UTC"@)),
            }
        },
        None => None,
    }
}

/// One entry `'name' = value` of an enum, the value within `min ..= max`.
#[verifier::opaque]
pub open spec fn parse_entry(s: Seq<char>, min: int, max: int) -> Option<((Seq<char>, int), nat)> {
    let blanks = run_len(s, CharClass::Space);
    if blanks > s.len() {
        None
    } else {
        match parse_quoted(s.skip(blanks as int)) {
            Some((name, q)) => if blanks + q > s.len() {
                None
            } else {
                match parse_char(s.skip((blanks + q) as int), '=') {
                    Some(eq) => if blanks + q + eq > s.len() {
                        None
                    } else {
                        let at = blanks + q + eq;
                        let more = run_len(s.skip(at as int), CharClass::Space);
                        if at + more > s.len() {
                            None
                        } else {
                            match parse_int(s.skip((at + more) as int), min, max) {
                                Some((value, d)) => Some(((name, value), at + more + d)),
                                None => None,
                            }
                        }
                    },
                    None => None,
                }
            },
            None => None,
        }
    }
}

/// One or more enum entries, separated by commas.
pub open spec fn parse_entries(s: Seq<char>, min: int, max: int) -> Option<
    (Seq<(Seq<char>, int)>, nat),
>
    decreases s.len(),
{
    match parse_entry(s, min, max) {
        Some((entry, m)) => if m == 0 || m > s.len() {
            None
        } else {
            match parse_char(s.skip(m as int), ',') {
                Some(comma) => if m + comma > s.len() {
                    None
                } else {
                    match parse_entries(s.skip((m + comma) as int), min, max) {
                        Some((rest, k)) => Some((seq![entry] + rest, m + comma + k)),
                        None => None,
                    }
                },
                None => Some((seq![entry], m)),
            }
        },
        None => None,
    }
}

/// The type that the whole of `s` spells, blanks around it allowed.
pub open spec fn parse_type_text(s: Seq<char>) -> Option<TypeModel> {
    match parse_type(s) {
        Some((t, m)) => if m <= s.len() && m + run_len(s.skip(m as int), CharClass::Space)
            == s.len() {
            Some(t)
        } else {
            None
        },
        None => None,
    }
}

/// Model of a list of entries whose values are not narrowed yet.
pub open spec fn wide_entries_model(entries: Seq<(String, i64)>) -> Seq<(Seq<char>, int)> {
    Seq::new(entries.len(), |i: int| (entries[i].0@, entries[i].1 as int))
}

/// Whether `name` spells `word`.
fn is_word(name: &[char], word: &str) -> (r: bool)
    ensures
        r == (name@ == word@),
{
    let letters = chars_of(word);
    chars_eq(name, letters.as_slice())
}

/// A copy of `chars[start..end]`.
fn copy_chars(chars: &[char], start: usize, end: usize) -> (out: Vec<char>)
    requires
        start <= end <= chars@.len(),
    ensures
        out@ == chars@.subrange(start as int, end as int),
{
    let mut out: Vec<char> = Vec::new();
    let mut i: usize = start;
    while i < end
        invariant
            start <= i <= end <= chars@.len(),
            out@ == chars@.subrange(start as int, i as int),
        decreases end - i,
    {
        out.push(chars[i]);
        i += 1;
        assert(out@ =~= chars@.subrange(start as int, i as int));
    }
    out
}

/// Finds the character `c` behind optional blanks and returns the position
/// behind it.
fn scan_char(chars: &[char], pos: usize, c: char) -> (r: Option<usize>)
    requires
        pos <= chars@.len(),
    ensures
        match parse_char(chars@.skip(pos as int), c) {
            Some(n) => (r matches Some(end) && end == pos + n) && pos + n <= chars@.len() && n
                >= 1,
            None => r is None,
        },
{
    let at = scan_run(chars, pos, CharClass::Space);
    proof {
        if at < chars@.len() {
            assert(chars@.skip(pos as int)[at - pos] == chars@[at as int]);
        }
    }
    if at < chars.len() && chars[at] == c {
        Some(at + 1)
    } else {
        None
    }
}

/// Finds the closing parenthesis behind optional blanks.
fn scan_close(chars: &[char], start: usize, at: usize) -> (r: Option<usize>)
    requires
        start <= at <= chars@.len(),
    ensures
        match then_close(chars@.skip(start as int), (at - start) as nat, ()) {
            Some((_, n)) => (r matches Some(end) && end == start + n) && start + n
                <= chars@.len() && start + n > at,
            None => r is None,
        },
{
    assert(chars@.skip(start as int).skip(at - start) =~= chars@.skip(at as int));
    scan_char(chars, at, ')')
}

/// `then_close` puts the value beside the end that it finds for any value.
proof fn lemma_then_close<T>(s: Seq<char>, at: nat, value: T)
    ensures
        match then_close(s, at, ()) {
            Some((_, n)) => then_close(s, at, value) == Some((value, n)),
            None => then_close(s, at, value) is None,
        },
{
}

/// The type that an identifier without arguments names.
fn simple_type_of(name: &[char]) -> (r: Option<Type>)
    ensures
        match simple_type(name@) {
            Some(model) => r matches Some(t) && t@ == model,
            None => r is None,
        },
{
    proof {
        reveal(simple_type);
    }
    if is_word(name, "Int8") {
        Some(Type::Int8)
    } else if is_word(name, "Int16") {
        Some(Type::Int16)
    } else if is_word(name, "Int32") {
        Some(Type::Int32)
    } else if is_word(name, "Int64") {
        Some(Type::Int64)
    } else if is_word(name, "Int128") {
        Some(Type::Int128)
    } else if is_word(name, "Int256") {
        Some(Type::Int256)
    } else if is_word(name, "UInt8") {
        Some(Type::UInt8)
    } else if is_word(name, "UInt16") {
        Some(Type::UInt16)
    } else if is_word(name, "UInt32") {
        Some(Type::UInt32)
    } else if is_word(name, "UInt64") {
        Some(Type::UInt64)
    } else if is_word(name, "UInt128") {
        Some(Type::UInt128)
    } else if is_word(name, "UInt256") {
        Some(Type::UInt256)
    } else if is_word(name, "Float32") {
        Some(Type::Float32)
    } else if is_word(name, "Float64") {
        Some(Type::Float64)
    } else if is_word(name, "String") {
        Some(Type::String)
    } else if is_word(name, "UUID") {
        Some(Type::Uuid)
    } else if is_word(name, "Date") {
        Some(Type::Date)
    } else if is_word(name, "Point") {
        Some(Type::Point)
    } else if is_word(name, "Ring") {
        Some(Type::Ring)
    } else if is_word(name, "Polygon") {
        Some(Type::Polygon)
    } else if is_word(name, "MultiPolygon") {
        Some(Type::MultiPolygon)
    } else {
        None
    }
}

/// Reads an unsigned number behind optional blanks.
fn scan_number(chars: &[char], pos: usize, max: u64) -> (r: Option<(u64, usize)>)
    requires
        pos <= chars@.len(),
    ensures
        match parse_number(chars@.skip(pos as int), max as nat) {
            Some((value, n)) => (r matches Some(p) && p.0 == value && p.1 == pos + n) && pos + n
                <= chars@.len() && n >= 1 && value <= max,
            None => r is None,
        },
{
    let at = scan_run(chars, pos, CharClass::Space);
    assert(chars@.skip(pos as int).skip(at - pos) =~= chars@.skip(at as int));
    scan_uint(chars, at, max)
}

/// Reads the quoted name of a known time zone behind optional blanks.
fn scan_zone(chars: &[char], pos: usize) -> (r: Option<(String, usize)>)
    requires
        pos <= chars@.len(),
    ensures
        match parse_zone(chars@.skip(pos as int)) {
            Some((zone, n)) => (r matches Some(p) && p.0@ == zone && p.1 == pos + n) && pos + n
                <= chars@.len() && n >= 1 && timezone_known(zone),
            None => r is None,
        },
{
    let at = scan_run(chars, pos, CharClass::Space);
    assert(chars@.skip(pos as int).skip(at - pos) =~= chars@.skip(at as int));
    match scan_quoted(chars, at) {
        Some((name, end)) => {
            let zone = string_of(&name);
            if is_known_timezone(zone.as_str()) {
                Some((zone, end))
            } else {
                None
            }
        },
        None => None,
    }
}

/// Reads one enum entry.
fn scan_entry(chars: &[char], pos: usize, min: i64, max: i64) -> (r: Option<
    ((String, i64), usize),
>)
    requires
        pos <= chars@.len(),
        min <= 0 <= max,
    ensures
        match parse_entry(chars@.skip(pos as int), min as int, max as int) {
            Some((entry, n)) => (r matches Some(p) && (p.0).0@ == entry.0 && (p.0).1 == entry.1
                && p.1 == pos + n) && pos + n <= chars@.len() && n >= 1 && min <= entry.1 <= max,
            None => r is None,
        },
{
    proof {
        reveal(parse_entry);
    }
    let ghost s = chars@.skip(pos as int);
    let at = scan_run(chars, pos, CharClass::Space);
    assert(s.skip(at - pos) =~= chars@.skip(at as int));
    let (name, after_name) = match scan_quoted(chars, at) {
        Some(p) => p,
        None => {
            return None;
        },
    };
    assert(s.skip(after_name - pos) =~= chars@.skip(after_name as int));
    let after_eq = match scan_char(chars, after_name, '=') {
        Some(p) => p,
        None => {
            return None;
        },
    };
    assert(s.skip(after_eq - pos) =~= chars@.skip(after_eq as int));
    let number_at = scan_run(chars, after_eq, CharClass::Space);
    assert(s.skip(number_at - pos) =~= chars@.skip(number_at as int));
    match scan_int(chars, number_at, min, max) {
        Some((value, end)) => Some(((string_of(&name), value), end)),
        None => None,
    }
}

/// What the entries read so far add to the rest of an entry list.
pub open spec fn entries_resume(
    rest: Option<(Seq<(Seq<char>, int)>, nat)>,
    head: Seq<(Seq<char>, int)>,
    taken: nat,
) -> Option<(Seq<(Seq<char>, int)>, nat)> {
    match rest {
        Some((tail, n)) => Some((head + tail, n + taken)),
        None => None,
    }
}

/// Resuming twice is resuming once with the entries and the characters
/// put together.
proof fn lemma_entries_resume_step(
    rest: Option<(Seq<(Seq<char>, int)>, nat)>,
    head: Seq<(Seq<char>, int)>,
    entry: (Seq<char>, int),
    taken: nat,
    more: nat,
)
    ensures
        entries_resume(entries_resume(rest, seq![entry], more), head, taken) == entries_resume(
            rest,
            head.push(entry),
            taken + more,
        ),
{
    match rest {
        Some((tail, n)) => {
            assert(head + (seq![entry] + tail) =~= head.push(entry) + tail);
        },
        None => {},
    }
}

/// Reads one or more enum entries, separated by commas.
fn scan_entries(chars: &[char], pos: usize, min: i64, max: i64) -> (r: Option<
    (Vec<(String, i64)>, usize),
>)
    requires
        pos <= chars@.len(),
        min <= 0 <= max,
    ensures
        match parse_entries(chars@.skip(pos as int), min as int, max as int) {
            Some((entries, n)) => (r matches Some(p) && wide_entries_model(p.0@) == entries && p.1
                == pos + n && (forall|i: int|
                0 <= i < p.0@.len() ==> min <= (#[trigger] p.0@[i]).1 <= max)) && pos + n
                <= chars@.len() && n >= 1,
            None => r is None,
        },
{
    let ghost whole = parse_entries(chars@.skip(pos as int), min as int, max as int);
    let mut out: Vec<(String, i64)> = Vec::new();
    let mut at: usize = pos;
    proof {
        match whole {
            Some((tail, n)) => {
                assert(wide_entries_model(out@) + tail =~= tail);
            },
            None => {},
        }
    }
    loop
        invariant
            pos <= at <= chars@.len(),
            min <= 0 <= max,
            whole == parse_entries(chars@.skip(pos as int), min as int, max as int),
            whole == entries_resume(
                parse_entries(chars@.skip(at as int), min as int, max as int),
                wide_entries_model(out@),
                (at - pos) as nat,
            ),
            forall|i: int| 0 <= i < out@.len() ==> min <= (#[trigger] out@[i]).1 <= max,
        decreases chars@.len() - at,
    {
        let ghost here = chars@.skip(at as int);
        let ghost rest_here = parse_entries(here, min as int, max as int);
        let (entry, end) = match scan_entry(chars, at, min, max) {
            Some(p) => p,
            None => {
                return None;
            },
        };
        let ghost entry_model = (entry.0@, entry.1 as int);
        let ghost before = wide_entries_model(out@);
        out.push(entry);
        assert(wide_entries_model(out@) =~= before.push(entry_model));
        assert(here.skip(end - at) =~= chars@.skip(end as int));
        match scan_char(chars, end, ',') {
            Some(next) => {
                assert(here.skip(next - at) =~= chars@.skip(next as int));
                let ghost rest_next = parse_entries(
                    chars@.skip(next as int),
                    min as int,
                    max as int,
                );
                assert(rest_here == entries_resume(
                    rest_next,
                    seq![entry_model],
                    (next - at) as nat,
                ));
                proof {
                    lemma_entries_resume_step(
                        rest_next,
                        before,
                        entry_model,
                        (at - pos) as nat,
                        (next - at) as nat,
                    );
                }
                at = next;
            },
            None => {
                assert(rest_here == Some((seq![entry_model], (end - at) as nat)));
                assert(before + seq![entry_model] =~= before.push(entry_model));
                return Some((out, end));
            },
        }
    }
}

/// Whether no two entries share a name and no two share a value.
fn entries_are_distinct(entries: &Vec<(String, i64)>) -> (r: bool)
    ensures
        r == entries_distinct(wide_entries_model(entries@)),
{
    let ghost model = wide_entries_model(entries@);
    let mut j: usize = 0;
    while j < entries.len()
        invariant
            j <= entries@.len(),
            model == wide_entries_model(entries@),
            forall|a: int, b: int|
                0 <= a < b < j ==> (#[trigger] model[a]).0 != (#[trigger] model[b]).0 && model[a].1
                    != model[b].1,
        decreases entries@.len() - j,
    {
        let mut i: usize = 0;
        while i < j
            invariant
                i <= j < entries@.len(),
                model == wide_entries_model(entries@),
                forall|a: int|
                    0 <= a < i ==> (#[trigger] model[a]).0 != model[j as int].0 && model[a].1
                        != model[j as int].1,
            decreases j - i,
        {
            if entries[i].0 == entries[j].0 || entries[i].1 == entries[j].1 {
                assert(model[i as int].0 == entries@[i as int].0@);
                assert(model[j as int].0 == entries@[j as int].0@);
                return false;
            }
            assert(model[i as int].0 == entries@[i as int].0@);
            assert(model[j as int].0 == entries@[j as int].0@);
            i += 1;
        }
        j += 1;
    }
    true
}

/// The entries with their values as 8-bit integers.
fn narrow_entries8(entries: Vec<(String, i64)>) -> (out: Vec<(String, i8)>)
    requires
        forall|i: int|
            0 <= i < entries@.len() ==> i8::MIN <= (#[trigger] entries@[i]).1 <= i8::MAX,
    ensures
        entries8_model(out@) == wide_entries_model(entries@),
{
    let mut out: Vec<(String, i8)> = Vec::new();
    let mut i: usize = 0;
    while i < entries.len()
        invariant
            i <= entries@.len(),
            out@.len() == i,
            forall|k: int|
                0 <= k < entries@.len() ==> i8::MIN <= (#[trigger] entries@[k]).1 <= i8::MAX,
            forall|k: int|
                0 <= k < i ==> (#[trigger] out@[k]).0@ == entries@[k].0@ && out@[k].1
                    == entries@[k].1,
        decreases entries@.len() - i,
    {
        out.push((entries[i].0.clone(), entries[i].1 as i8));
        i += 1;
    }
    assert(entries8_model(out@) =~= wide_entries_model(entries@));
    out
}

/// The entries with their values as 16-bit integers.
fn narrow_entries16(entries: Vec<(String, i64)>) -> (out: Vec<(String, i16)>)
    requires
        forall|i: int|
            0 <= i < entries@.len() ==> i16::MIN <= (#[trigger] entries@[i]).1 <= i16::MAX,
    ensures
        entries16_model(out@) == wide_entries_model(entries@),
{
    let mut out: Vec<(String, i16)> = Vec::new();
    let mut i: usize = 0;
    while i < entries.len()
        invariant
            i <= entries@.len(),
            out@.len() == i,
            forall|k: int|
                0 <= k < entries@.len() ==> i16::MIN <= (#[trigger] entries@[k]).1 <= i16::MAX,
            forall|k: int|
                0 <= k < i ==> (#[trigger] out@[k]).0@ == entries@[k].0@ && out@[k].1
                    == entries@[k].1,
        decreases entries@.len() - i,
    {
        out.push((entries[i].0.clone(), entries[i].1 as i16));
        i += 1;
    }
    assert(entries16_model(out@) =~= wide_entries_model(entries@));
    out
}

/// The decimal type of `precision` digits, `scale` of them fractional.
fn decimal_type_of(precision: u64, scale: u64) -> (r: Option<Type>)
    requires
        precision <= 76,
        scale <= 76,
    ensures
        match decimal_type(precision as nat, scale as nat) {
            Some(model) => r matches Some(t) && t@ == model,
            None => r is None,
        },
{
    if precision < 1 || scale > precision {
        None
    } else if precision <= 9 {
        Some(Type::Decimal32(scale as usize))
    } else if precision <= 18 {
        Some(Type::Decimal64(scale as usize))
    } else if precision <= 38 {
        Some(Type::Decimal128(scale as usize))
    } else {
        Some(Type::Decimal256(scale as usize))
    }
}

/// Reads a single number up to `max` and the closing parenthesis.
fn scan_number_argument(chars: &[char], pos: usize, max: u64) -> (r: Option<(u64, usize)>)
    requires
        pos <= chars@.len(),
    ensures
        forall|make: spec_fn(nat) -> TypeModel|
            match #[trigger] parse_number_argument(chars@.skip(pos as int), max as nat, make) {
                Some((model, n)) => (r matches Some(p) && model == make(p.0 as nat) && p.1 == pos
                    + n) && pos + n <= chars@.len() && n >= 1,
                None => r is None,
            },
        r matches Some(p) ==> p.0 <= max,
{
    let ghost s = chars@.skip(pos as int);
    match scan_number(chars, pos, max) {
        Some((value, at)) => match scan_close(chars, pos, at) {
            Some(end) => {
                assert forall|make: spec_fn(nat) -> TypeModel|
                    (#[trigger] parse_number_argument(s, max as nat, make)) == Some(
                        (make(value as nat), (end - pos) as nat),
                    ) by {
                    lemma_then_close(s, (at - pos) as nat, make(value as nat));
                }
                Some((value, end))
            },
            None => {
                assert forall|make: spec_fn(nat) -> TypeModel|
                    (#[trigger] parse_number_argument(s, max as nat, make)) is None by {
                    lemma_then_close(s, (at - pos) as nat, make(value as nat));
                }
                None
            },
        },
        None => None,
    }
}

/// Reads precision, scale and the closing parenthesis.
fn scan_decimal_arguments(chars: &[char], pos: usize) -> (r: Option<(Type, usize)>)
    requires
        pos <= chars@.len(),
    ensures
        match parse_decimal_arguments(chars@.skip(pos as int)) {
            Some((model, n)) => (r matches Some(p) && p.0@ == model && p.1 == pos + n) && pos + n
                <= chars@.len() && n >= 1,
            None => r is None,
        },
{
    let ghost s = chars@.skip(pos as int);
    let (precision, at) = match scan_number(chars, pos, 76) {
        Some(p) => p,
        None => {
            return None;
        },
    };
    assert(s.skip(at - pos) =~= chars@.skip(at as int));
    let next = match scan_char(chars, at, ',') {
        Some(p) => p,
        None => {
            return None;
        },
    };
    assert(s.skip(next - pos) =~= chars@.skip(next as int));
    let (scale, after) = match scan_number(chars, next, 76) {
        Some(p) => p,
        None => {
            return None;
        },
    };
    let t = match decimal_type_of(precision, scale) {
        Some(t) => t,
        None => {
            return None;
        },
    };
    proof {
        lemma_then_close(s, (after - pos) as nat, t@);
    }
    match scan_close(chars, pos, after) {
        Some(end) => Some((t, end)),
        None => None,
    }
}

/// Reads a precision, optionally a time zone, and the closing parenthesis.
fn scan_datetime64_arguments(chars: &[char], pos: usize) -> (r: Option<(Type, usize)>)
    requires
        pos <= chars@.len(),
    ensures
        match parse_datetime64_arguments(chars@.skip(pos as int)) {
            Some((model, n)) => (r matches Some(p) && p.0@ == model && p.1 == pos + n) && pos + n
                <= chars@.len() && n >= 1,
            None => r is None,
        },
{
    let ghost s = chars@.skip(pos as int);
    let (precision, at) = match scan_number(chars, pos, 9) {
        Some(p) => p,
        None => {
            return None;
        },
    };
    assert(s.skip(at - pos) =~= chars@.skip(at as int));
    match scan_char(chars, at, ',') {
        Some(next) => {
            assert(s.skip(next - pos) =~= chars@.skip(next as int));
            let (zone, after) = match scan_zone(chars, next) {
                Some(p) => p,
                None => {
                    return None;
                },
            };
            let t = Type::DateTime64(precision as usize, zone);
            proof {
                lemma_then_close(s, (after - pos) as nat, t@);
            }
            match scan_close(chars, pos, after) {
                Some(end) => Some((t, end)),
                None => None,
            }
        },
        None => {
            let t = Type::DateTime64(precision as usize, "UTC".to_owned());
            proof {
                lemma_then_close(s, (at - pos) as nat, t@);
            }
            match scan_close(chars, pos, at) {
                Some(end) => Some((t, end)),
                None => None,
            }
        },
    }
}

/// Reads the entries of an enum and the closing parenthesis.
fn scan_enum_arguments(chars: &[char], pos: usize, wide: bool) -> (r: Option<(Type, usize)>)
    requires
        pos <= chars@.len(),
    ensures
        match parse_entries(
            chars@.skip(pos as int),
            if wide {
                i16::MIN as int
            } else {
                i8::MIN as int
            },
            if wide {
                i16::MAX as int
            } else {
                i8::MAX as int
            },
        ) {
            Some((entries, m)) => if entries_distinct(entries) {
                match then_close(chars@.skip(pos as int), m, ()) {
                    Some((_, n)) => (r matches Some(p) && p.0@ == (if wide {
                        TypeModel::Enum16(entries)
                    } else {
                        TypeModel::Enum8(entries)
                    }) && p.1 == pos + n) && pos + n <= chars@.len() && n >= 1,
                    None => r is None,
                }
            } else {
                r is None
            },
            None => r is None,
        },
{
    let min: i64 = if wide {
        i16::MIN as i64
    } else {
        i8::MIN as i64
    };
    let max: i64 = if wide {
        i16::MAX as i64
    } else {
        i8::MAX as i64
    };
    let (entries, at) = match scan_entries(chars, pos, min, max) {
        Some(p) => p,
        None => {
            return None;
        },
    };
    if !entries_are_distinct(&entries) {
        return None;
    }
    let end = match scan_close(chars, pos, at) {
        Some(e) => e,
        None => {
            return None;
        },
    };
    if wide {
        Some((Type::Enum16(narrow_entries16(entries)), end))
    } else {
        Some((Type::Enum8(narrow_entries8(entries)), end))
    }
}

/// Reads the type at `pos` and returns it with the position behind it.
#[verifier::spinoff_prover]
#[verifier::rlimit(50)]
fn scan_type(chars: &[char], pos: usize) -> (r: Option<(Type, usize)>)
    requires
        pos <= chars@.len(),
    ensures
        match parse_type(chars@.skip(pos as int)) {
            Some((model, n)) => (r matches Some(p) && p.0@ == model && p.1 == pos + n) && pos + n
                <= chars@.len() && n >= 1,
            None => r is None,
        },
    decreases chars@.len() - pos, 1nat,
{
    proof {
        reveal(parse_type);
        reveal(parse_arguments);
    }
    let ghost s = chars@.skip(pos as int);
    let start = scan_run(chars, pos, CharClass::Space);
    assert(s.skip(start - pos) =~= chars@.skip(start as int));
    let end = scan_run(chars, start, CharClass::Ident);
    if end == start {
        return None;
    }
    let name = copy_chars(chars, start, end);
    assert(name@ =~= s.subrange(start - pos, end - pos));
    match simple_type_of(name.as_slice()) {
        Some(t) => {
            return Some((t, end));
        },
        None => {},
    }
    assert(s.skip(end - pos) =~= chars@.skip(end as int));
    match scan_char(chars, end, '(') {
        Some(open) => {
            assert(s.skip(open - pos) =~= chars@.skip(open as int));
            scan_arguments(name.as_slice(), chars, open)
        },
        None => {
            if is_word(name.as_slice(), "DateTime") {
                Some((Type::DateTime("UTC".to_owned()), end))
            } else {
                None
            }
        },
    }
}

/// Reads one or more types, separated by commas.
fn scan_type_list(chars: &[char], pos: usize) -> (r: Option<(Vec<Type>, usize)>)
    requires
        pos <= chars@.len(),
    ensures
        match parse_type_list(chars@.skip(pos as int)) {
            Some((models, n)) => (r matches Some(p) && types_model(p.0@) == models && p.1 == pos
                + n) && pos + n <= chars@.len() && n >= 1,
            None => r is None,
        },
    decreases chars@.len() - pos, 2nat,
{
    proof {
        reveal(parse_type);
        reveal(parse_arguments);
    }
    let ghost s = chars@.skip(pos as int);
    let (first, end) = match scan_type(chars, pos) {
        Some(p) => p,
        None => {
            return None;
        },
    };
    assert(s.skip(end - pos) =~= chars@.skip(end as int));
    let ghost first_model = first@;
    match scan_char(chars, end, ',') {
        Some(next) => {
            assert(s.skip(next - pos) =~= chars@.skip(next as int));
            match scan_type_list(chars, next) {
                Some((mut rest, after)) => {
                    let ghost rest_models = types_model(rest@);
                    let mut items: Vec<Type> = Vec::new();
                    items.push(first);
                    items.append(&mut rest);
                    assert(types_model(items@) =~= seq![first_model] + rest_models);
                    Some((items, after))
                },
                None => None,
            }
        },
        None => {
            let mut items: Vec<Type> = Vec::new();
            items.push(first);
            assert(types_model(items@) =~= seq![first_model]);
            Some((items, end))
        },
    }
}

/// Reads one type and the closing parenthesis.
fn scan_type_argument(chars: &[char], pos: usize) -> (r: Option<(Type, usize)>)
    requires
        pos <= chars@.len(),
    ensures
        match parse_type(chars@.skip(pos as int)) {
            Some((model, m)) => match then_close(chars@.skip(pos as int), m, ()) {
                Some((_, n)) => (r matches Some(p) && p.0@ == model && p.1 == pos + n) && pos + n
                    <= chars@.len() && n >= 1,
                None => r is None,
            },
            None => r is None,
        },
    decreases chars@.len() - pos, 3nat,
{
    proof {
        reveal(parse_type);
        reveal(parse_arguments);
    }
    let (inner, at) = match scan_type(chars, pos) {
        Some(p) => p,
        None => {
            return None;
        },
    };
    match scan_close(chars, pos, at) {
        Some(end) => Some((inner, end)),
        None => None,
    }
}

/// Reads one or more types and the closing parenthesis.
fn scan_types_argument(chars: &[char], pos: usize) -> (r: Option<(Vec<Type>, usize)>)
    requires
        pos <= chars@.len(),
    ensures
        match parse_type_list(chars@.skip(pos as int)) {
            Some((models, m)) => match then_close(chars@.skip(pos as int), m, ()) {
                Some((_, n)) => (r matches Some(p) && types_model(p.0@) == models && p.1 == pos
                    + n) && pos + n <= chars@.len() && n >= 1,
                None => r is None,
            },
            None => r is None,
        },
    decreases chars@.len() - pos, 3nat,
{
    proof {
        reveal(parse_type);
        reveal(parse_arguments);
    }
    let (items, at) = match scan_type_list(chars, pos) {
        Some(p) => p,
        None => {
            return None;
        },
    };
    match scan_close(chars, pos, at) {
        Some(end) => Some((items, end)),
        None => None,
    }
}

/// Reads the quoted name of a known time zone and the closing parenthesis.
fn scan_zone_argument(chars: &[char], pos: usize) -> (r: Option<(String, usize)>)
    requires
        pos <= chars@.len(),
    ensures
        match parse_zone(chars@.skip(pos as int)) {
            Some((zone, m)) => match then_close(chars@.skip(pos as int), m, ()) {
                Some((_, n)) => (r matches Some(p) && p.0@ == zone && p.1 == pos + n) && pos + n
                    <= chars@.len() && n >= 1,
                None => r is None,
            },
            None => r is None,
        },
{
    let (zone, at) = match scan_zone(chars, pos) {
        Some(p) => p,
        None => {
            return None;
        },
    };
    match scan_close(chars, pos, at) {
        Some(end) => Some((zone, end)),
        None => None,
    }
}

/// What the arguments of a type that wraps one type spell.
proof fn lemma_wrapper_arguments(s: Seq<char>)
    ensures
        match parse_type(s) {
            Some((t, m)) => match then_close(s, m, ()) {
                Some((_, n)) => then_close(s, m, TypeModel::Nullable(Box::new(t))) == Some(
                    (TypeModel::Nullable(Box::new(t)), n),
                ) && then_close(s, m, TypeModel::Array(Box::new(t))) == Some(
                    (TypeModel::Array(Box::new(t)), n),
                ) && then_close(s, m, TypeModel::LowCardinality(Box::new(t))) == Some(
                    (TypeModel::LowCardinality(Box::new(t)), n),
                ),
                None => then_close(s, m, TypeModel::Nullable(Box::new(t))) is None && then_close(
                    s,
                    m,
                    TypeModel::Array(Box::new(t)),
                ) is None && then_close(s, m, TypeModel::LowCardinality(Box::new(t))) is None,
            },
            None => true,
        },
{
    reveal(parse_type);
    reveal(parse_arguments);
}

/// What the arguments of a type that is made of a list of types spell.
proof fn lemma_list_arguments(s: Seq<char>)
    ensures
        match parse_type_list(s) {
            Some((items, m)) => match then_close(s, m, ()) {
                Some((_, n)) => then_close(s, m, TypeModel::Tuple(items)) == Some(
                    (TypeModel::Tuple(items), n),
                ) && then_close(
                    s,
                    m,
                    TypeModel::Mapping(Box::new(items[0]), Box::new(items[1])),
                ) == Some((TypeModel::Mapping(Box::new(items[0]), Box::new(items[1])), n)),
                None => then_close(s, m, TypeModel::Tuple(items)) is None && then_close(
                    s,
                    m,
                    TypeModel::Mapping(Box::new(items[0]), Box::new(items[1])),
                ) is None,
            },
            None => true,
        },
{
    reveal(parse_type);
    reveal(parse_arguments);
}

/// What the arguments of a type that names a time zone spell.
proof fn lemma_zone_arguments(s: Seq<char>)
    ensures
        match parse_zone(s) {
            Some((zone, m)) => match then_close(s, m, ()) {
                Some((_, n)) => then_close(s, m, TypeModel::DateTime(zone)) == Some(
                    (TypeModel::DateTime(zone), n),
                ),
                None => then_close(s, m, TypeModel::DateTime(zone)) is None,
            },
            None => true,
        },
{
    reveal(parse_type);
    reveal(parse_arguments);
}

/// What the arguments of an enum spell.
proof fn lemma_enum_arguments(s: Seq<char>, min: int, max: int)
    ensures
        match parse_entries(s, min, max) {
            Some((list, m)) => match then_close(s, m, ()) {
                Some((_, n)) => then_close(s, m, TypeModel::Enum8(list)) == Some(
                    (TypeModel::Enum8(list), n),
                ) && then_close(s, m, TypeModel::Enum16(list)) == Some(
                    (TypeModel::Enum16(list), n),
                ),
                None => then_close(s, m, TypeModel::Enum8(list)) is None && then_close(
                    s,
                    m,
                    TypeModel::Enum16(list),
                ) is None,
            },
            None => true,
        },
{
    reveal(parse_type);
    reveal(parse_arguments);
}

/// Reads the arguments of a type that wraps types: a nullable, an array, a
/// dictionary encoding, a tuple or a map.
fn scan_nested_arguments(name: &[char], chars: &[char], pos: usize) -> (r: Option<(Type, usize)>)
    requires
        pos <= chars@.len(),
        name@ == "Nullable"@ || name@ == "Array"@ || name@ == "LowCardinality"@ || name@
            == "Tuple"@ || name@ == "Map"@,
    ensures
        match parse_arguments(name@, chars@.skip(pos as int)) {
            Some((model, n)) => (r matches Some(p) && p.0@ == model && p.1 == pos + n) && pos + n
                <= chars@.len() && n >= 1,
            None => r is None,
        },
    decreases chars@.len() - pos, 4nat,
{
    proof {
        reveal(parse_type);
        reveal(parse_arguments);
    }
    let ghost s = chars@.skip(pos as int);
    let nullable = is_word(name, "Nullable");
    let array = is_word(name, "Array");
    let low_cardinality = is_word(name, "LowCardinality");
    if nullable || array || low_cardinality {
        proof {
            lemma_wrapper_arguments(s);
        }
        return match scan_type_argument(chars, pos) {
            Some((inner, end)) => {
                let t = if nullable {
                    Type::Nullable(Box::new(inner))
                } else if array {
                    Type::Array(Box::new(inner))
                } else {
                    Type::LowCardinality(Box::new(inner))
                };
                Some((t, end))
            },
            None => None,
        };
    }
    let tuple = is_word(name, "Tuple");
    proof {
        lemma_list_arguments(s);
    }
    let (mut items, end) = match scan_types_argument(chars, pos) {
        Some(p) => p,
        None => {
            return None;
        },
    };
    let ghost models = types_model(items@);
    if tuple {
        return Some((Type::Tuple(items), end));
    }
    if items.len() != 2 {
        return None;
    }
    let value = match items.pop() {
        Some(t) => t,
        None => {
            return None;
        },
    };
    let key = match items.pop() {
        Some(t) => t,
        None => {
            return None;
        },
    };
    assert(key@ == models[0] && value@ == models[1]);
    Some((Type::Mapping(Box::new(key), Box::new(value)), end))
}

/// Reads the single number that is the argument of a fixed-width string or
/// of a decimal of a fixed width.
fn scan_sized_arguments(name: &[char], chars: &[char], pos: usize) -> (r: Option<(Type, usize)>)
    requires
        pos <= chars@.len(),
        name@ != "Nullable"@,
        name@ != "Array"@,
        name@ != "LowCardinality"@,
        name@ != "Tuple"@,
        name@ != "Map"@,
        name@ == "FixedString"@ || name@ == "Decimal32"@ || name@ == "Decimal64"@ || name@
            == "Decimal128"@ || name@ == "Decimal256"@,
    ensures
        match parse_arguments(name@, chars@.skip(pos as int)) {
            Some((model, n)) => (r matches Some(p) && p.0@ == model && p.1 == pos + n) && pos + n
                <= chars@.len() && n >= 1,
            None => r is None,
        },
{
    proof {
        reveal(parse_type);
        reveal(parse_arguments);
    }
    let ghost s = chars@.skip(pos as int);
    if is_word(name, "FixedString") {
        return match scan_number_argument(chars, pos, usize::MAX as u64) {
            Some((n, end)) => {
                assert(parse_number_argument(s, usize::MAX as nat, |n: nat| TypeModel::FixedString(n))
                    is Some);
                Some((Type::FixedString(n as usize), end))
            },
            None => {
                assert(parse_number_argument(s, usize::MAX as nat, |n: nat| TypeModel::FixedString(n))
                    is None);
                None
            },
        };
    }
    if is_word(name, "Decimal32") {
        return match scan_number_argument(chars, pos, 9) {
            Some((n, end)) => {
                assert(parse_number_argument(s, 9, |n: nat| TypeModel::Decimal32(n)) is Some);
                Some((Type::Decimal32(n as usize), end))
            },
            None => {
                assert(parse_number_argument(s, 9, |n: nat| TypeModel::Decimal32(n)) is None);
                None
            },
        };
    }
    if is_word(name, "Decimal64") {
        return match scan_number_argument(chars, pos, 18) {
            Some((n, end)) => {
                assert(parse_number_argument(s, 18, |n: nat| TypeModel::Decimal64(n)) is Some);
                Some((Type::Decimal64(n as usize), end))
            },
            None => {
                assert(parse_number_argument(s, 18, |n: nat| TypeModel::Decimal64(n)) is None);
                None
            },
        };
    }
    if is_word(name, "Decimal128") {
        return match scan_number_argument(chars, pos, 38) {
            Some((n, end)) => {
                assert(parse_number_argument(s, 38, |n: nat| TypeModel::Decimal128(n)) is Some);
                Some((Type::Decimal128(n as usize), end))
            },
            None => {
                assert(parse_number_argument(s, 38, |n: nat| TypeModel::Decimal128(n)) is None);
                None
            },
        };
    }
    match scan_number_argument(chars, pos, 76) {
        Some((n, end)) => {
            assert(parse_number_argument(s, 76, |n: nat| TypeModel::Decimal256(n)) is Some);
            Some((Type::Decimal256(n as usize), end))
        },
        None => {
            assert(parse_number_argument(s, 76, |n: nat| TypeModel::Decimal256(n)) is None);
            None
        },
    }
}

/// Reads the arguments of a decimal, of a date and time, or of an enum.
fn scan_other_arguments(name: &[char], chars: &[char], pos: usize) -> (r: Option<(Type, usize)>)
    requires
        pos <= chars@.len(),
        name@ != "Nullable"@,
        name@ != "Array"@,
        name@ != "LowCardinality"@,
        name@ != "Tuple"@,
        name@ != "Map"@,
        name@ != "FixedString"@,
        name@ != "Decimal32"@,
        name@ != "Decimal64"@,
        name@ != "Decimal128"@,
        name@ != "Decimal256"@,
    ensures
        match parse_arguments(name@, chars@.skip(pos as int)) {
            Some((model, n)) => (r matches Some(p) && p.0@ == model && p.1 == pos + n) && pos + n
                <= chars@.len() && n >= 1,
            None => r is None,
        },
{
    proof {
        reveal(parse_type);
        reveal(parse_arguments);
    }
    let ghost s = chars@.skip(pos as int);
    if is_word(name, "Decimal") {
        return scan_decimal_arguments(chars, pos);
    }
    if is_word(name, "DateTime") {
        proof {
            lemma_zone_arguments(s);
        }
        return match scan_zone_argument(chars, pos) {
            Some((zone, end)) => Some((Type::DateTime(zone), end)),
            None => None,
        };
    }
    if is_word(name, "DateTime64") {
        return scan_datetime64_arguments(chars, pos);
    }
    let narrow = is_word(name, "Enum8");
    let wide = !narrow && is_word(name, "Enum16");
    if narrow || wide {
        proof {
            lemma_enum_arguments(
                s,
                if wide {
                    i16::MIN as int
                } else {
                    i8::MIN as int
                },
                if wide {
                    i16::MAX as int
                } else {
                    i8::MAX as int
                },
            );
        }
        return scan_enum_arguments(chars, pos, wide);
    }
    None
}

/// Reads the arguments of the type called `name`, from behind the opening
/// parenthesis up to and including the closing one.
fn scan_arguments(name: &[char], chars: &[char], pos: usize) -> (r: Option<(Type, usize)>)
    requires
        pos <= chars@.len(),
    ensures
        match parse_arguments(name@, chars@.skip(pos as int)) {
            Some((model, n)) => (r matches Some(p) && p.0@ == model && p.1 == pos + n) && pos + n
                <= chars@.len() && n >= 1,
            None => r is None,
        },
    decreases chars@.len() - pos, 5nat,
{
    proof {
        reveal(parse_type);
        reveal(parse_arguments);
    }
    if is_word(name, "Nullable") || is_word(name, "Array") || is_word(name, "LowCardinality")
        || is_word(name, "Tuple") || is_word(name, "Map") {
        scan_nested_arguments(name, chars, pos)
    } else if is_word(name, "FixedString") || is_word(name, "Decimal32") || is_word(
        name,
        "Decimal64",
    ) || is_word(name, "Decimal128") || is_word(name, "Decimal256") {
        scan_sized_arguments(name, chars, pos)
    } else {
        scan_other_arguments(name, chars, pos)
    }
}

impl Type {
    /// Reads a type from its textual form; text that spells no type is a
    /// type parse error.
    pub fn parse(text: &str) -> (r: Result<Type, KlickhouseError>)
        ensures
            match parse_type_text(text@) {
                Some(model) => r matches Ok(t) && t@ == model,
                None => r matches Err(e) && e.kind() == ErrorKind::TypeParseError,
            },
    {
        proof {
            reveal(parse_type);
        }
        let chars = chars_of(text);
        assert(chars@.skip(0) =~= chars@);
        match scan_type(chars.as_slice(), 0) {
            Some((t, end)) => {
                let rest = scan_run(chars.as_slice(), end, CharClass::Space);
                if rest == chars.len() {
                    return Ok(t);
                }
            },
            None => {},
        }
        let mut message = "invalid type: '".to_owned();
        message.append(text);
        message.push('\'');
        Err(KlickhouseError::TypeParseError(message))
    }
}

impl std::str::FromStr for Type {
    type Err = KlickhouseError;

    fn from_str(s: &str) -> (r: Result<Self, Self::Err>)
        ensures
            match parse_type_text(s@) {
                Some(model) => r matches Ok(t) && t@ == model,
                None => r matches Err(e) && e.kind() == ErrorKind::TypeParseError,
            },
    {
        Type::parse(s)
    }
}

} // verus!

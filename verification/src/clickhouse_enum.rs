//! The names under which the variants of a Rust enum are stored in an enum
//! column: the rules that a derive of the mapping goes by.

use crate::text::{chars_of, optional_text, string_of, texts_model};
use vstd::prelude::*;

verus! {

/// How the names of variants are turned into the names that are stored.
#[derive(Debug, Clone, Copy, PartialEq, Eq, Structural)]
pub enum RenameRule {
    /// The name as it is.
    Keep,
    /// `lowercase`.
    LowerCase,
    /// `UPPERCASE`.
    UpperCase,
    /// `PascalCase`: the name as it is.
    PascalCase,
    /// `camelCase`.
    CamelCase,
    /// `snake_case`.
    SnakeCase,
    /// `SCREAMING_SNAKE_CASE`.
    ScreamingSnakeCase,
    /// `kebab-case`.
    KebabCase,
    /// `SCREAMING-KEBAB-CASE`.
    ScreamingKebabCase,
}

/// One variant of an enum, as the derive sees it.
#[derive(Debug, Clone, PartialEq, Eq)]
pub struct Variant {
    pub ident: String,
    /// Whether the variant has no fields.
    pub is_unit: bool,
    /// The name that the variant asks to be stored under.
    pub rename: Option<String>,
}

/// Why a mapping cannot be derived.
#[derive(Debug, Clone, Copy, PartialEq, Eq, Structural)]
pub enum DeriveError {
    /// The item is no enum.
    NotAnEnum,
    /// The variant at this index has fields.
    VariantWithFields(usize),
}

/// Whether `c` is an ASCII capital.
pub open spec fn is_upper(c: char) -> bool {
    'A' <= c && c <= 'Z'
}

/// Whether `c` is a small ASCII letter.
pub open spec fn is_lower(c: char) -> bool {
    'a' <= c && c <= 'z'
}

/// `c` as a small letter.
pub open spec fn lower(c: char) -> char {
    if is_upper(c) {
        ((c as u8 + 32) as u8) as char
    } else {
        c
    }
}

/// `c` as a capital.
pub open spec fn upper(c: char) -> char {
    if is_lower(c) {
        ((c as u8 - 32) as u8) as char
    } else {
        c
    }
}

/// `c` as a small letter.
fn to_lower(c: char) -> (r: char)
    ensures
        r == lower(c),
{
    if 'A' <= c && c <= 'Z' {
        ((c as u8) + 32) as char
    } else {
        c
    }
}

/// `c` as a capital.
fn to_upper(c: char) -> (r: char)
    ensures
        r == upper(c),
{
    if 'a' <= c && c <= 'z' {
        ((c as u8) - 32) as char
    } else {
        c
    }
}

/// The snake case of the first `upto` characters of a name: small letters,
/// an underscore in front of what was a capital behind the first character.
pub open spec fn snake(name: Seq<char>, upto: nat) -> Seq<char>
    decreases upto,
{
    if upto == 0 {
        Seq::empty()
    } else {
        let c = name[upto - 1];
        if upto > 1 && is_upper(c) {
            snake(name, (upto - 1) as nat).push('_').push(lower(c))
        } else {
            snake(name, (upto - 1) as nat).push(lower(c))
        }
    }
}

/// The name that a variant called `name` is stored under by `rule`.
pub open spec fn spec_apply(rule: RenameRule, name: Seq<char>) -> Seq<char> {
    match rule {
        RenameRule::Keep | RenameRule::PascalCase => name,
        RenameRule::LowerCase => name.map_values(|c: char| lower(c)),
        RenameRule::UpperCase => name.map_values(|c: char| upper(c)),
        RenameRule::CamelCase => if name.len() == 0 {
            name
        } else {
            seq![lower(name[0])] + name.skip(1)
        },
        RenameRule::SnakeCase => snake(name, name.len()),
        RenameRule::ScreamingSnakeCase => snake(name, name.len()).map_values(|c: char| upper(c)),
        RenameRule::KebabCase => snake(name, name.len()).map_values(
            |c: char|
                if c == '_' {
                    '-'
                } else {
                    c
                },
        ),
        RenameRule::ScreamingKebabCase => snake(name, name.len()).map_values(
            |c: char|
                if upper(c) == '_' {
                    '-'
                } else {
                    upper(c)
                },
        ),
    }
}

/// The rule that `text` names, if it names one.
pub open spec fn spec_rule_named(text: Seq<char>) -> Option<RenameRule> {
    if text == "lowercase"@ {
                Some(RenameRule::LowerCase)
            } else if text == "UPPERCASE"@ {
                Some(RenameRule::UpperCase)
            } else if text == "PascalCase"@ {
                Some(RenameRule::PascalCase)
            } else if text == "camelCase"@ {
                Some(RenameRule::CamelCase)
            } else if text == "snake_case"@ {
                Some(RenameRule::SnakeCase)
            } else if text == "SCREAMING_SNAKE_CASE"@ {
                Some(RenameRule::ScreamingSnakeCase)
            } else if text == "kebab-case"@ {
                Some(RenameRule::KebabCase)
            } else if text == "SCREAMING-KEBAB-CASE"@ {
                Some(RenameRule::ScreamingKebabCase)
            } else {
                None
            }
}

impl RenameRule {
    /// The rule that `text` names, if it names one.
    pub fn from_str(text: &str) -> (r: Option<RenameRule>)
        ensures
            r == spec_rule_named(text@),
    {
        let chars = chars_of(text);
        if is_name(&chars, "lowercase") {
            Some(RenameRule::LowerCase)
        } else if is_name(&chars, "UPPERCASE") {
            Some(RenameRule::UpperCase)
        } else if is_name(&chars, "PascalCase") {
            Some(RenameRule::PascalCase)
        } else if is_name(&chars, "camelCase") {
            Some(RenameRule::CamelCase)
        } else if is_name(&chars, "snake_case") {
            Some(RenameRule::SnakeCase)
        } else if is_name(&chars, "SCREAMING_SNAKE_CASE") {
            Some(RenameRule::ScreamingSnakeCase)
        } else if is_name(&chars, "kebab-case") {
            Some(RenameRule::KebabCase)
        } else if is_name(&chars, "SCREAMING-KEBAB-CASE") {
            Some(RenameRule::ScreamingKebabCase)
        } else {
            None
        }
    }

    /// The name that a variant called `variant` is stored under by this
    /// rule.
    pub fn apply_to_variant(&self, variant: &str) -> (r: String)
        ensures
            r@ == spec_apply(*self, variant@),
    {
        let name = chars_of(variant);
        let mut out: Vec<char> = Vec::new();
        let mut i: usize = 0;
        let rule = *self;
        while i < name.len()
            invariant
                i <= name@.len(),
                rule == *self,
                match rule {
                    RenameRule::Keep | RenameRule::PascalCase => out@ == name@.take(i as int),
                    RenameRule::LowerCase => out@ == name@.take(i as int).map_values(
                        |c: char| lower(c),
                    ),
                    RenameRule::UpperCase => out@ == name@.take(i as int).map_values(
                        |c: char| upper(c),
                    ),
                    RenameRule::CamelCase => out@ == (if i == 0 {
                        Seq::<char>::empty()
                    } else {
                        seq![lower(name@[0])] + name@.subrange(1, i as int)
                    }),
                    RenameRule::SnakeCase => out@ == snake(name@, i as nat),
                    RenameRule::ScreamingSnakeCase => out@ == snake(name@, i as nat).map_values(
                        |c: char| upper(c),
                    ),
                    RenameRule::KebabCase => out@ == snake(name@, i as nat).map_values(
                        |c: char|
                            if c == '_' {
                                '-'
                            } else {
                                c
                            },
                    ),
                    RenameRule::ScreamingKebabCase => out@ == snake(name@, i as nat).map_values(
                        |c: char|
                            if upper(c) == '_' {
                                '-'
                            } else {
                                upper(c)
                            },
                    ),
                },
            decreases name@.len() - i,
        {
            let c = name[i];
            let capital = 'A' <= c && c <= 'Z';
            let ghost before = out@;
            let ghost part = snake(name@, i as nat);
            match rule {
                RenameRule::Keep | RenameRule::PascalCase => {
                    out.push(c);
                    assert(out@ =~= name@.take(i + 1));
                },
                RenameRule::LowerCase => {
                    out.push(to_lower(c));
                    assert(out@ =~= name@.take(i + 1).map_values(|c: char| lower(c)));
                },
                RenameRule::UpperCase => {
                    out.push(to_upper(c));
                    assert(out@ =~= name@.take(i + 1).map_values(|c: char| upper(c)));
                },
                RenameRule::CamelCase => {
                    if i == 0 {
                        out.push(to_lower(c));
                    } else {
                        out.push(c);
                    }
                    assert(out@ =~= seq![lower(name@[0])] + name@.subrange(1, i + 1));
                },
                RenameRule::SnakeCase => {
                    if i > 0 && capital {
                        out.push('_');
                    }
                    out.push(to_lower(c));
                },
                RenameRule::ScreamingSnakeCase => {
                    if i > 0 && capital {
                        out.push('_');
                    }
                    out.push(to_upper(to_lower(c)));
                    assert(out@ =~= snake(name@, (i + 1) as nat).map_values(|c: char| upper(c)));
                },
                RenameRule::KebabCase => {
                    if i > 0 && capital {
                        out.push('-');
                    }
                    let low = to_lower(c);
                    out.push(
                        if low == '_' {
                            '-'
                        } else {
                            low
                        },
                    );
                    assert(out@ =~= snake(name@, (i + 1) as nat).map_values(
                        |c: char|
                            if c == '_' {
                                '-'
                            } else {
                                c
                            },
                    ));
                },
                RenameRule::ScreamingKebabCase => {
                    if i > 0 && capital {
                        out.push('-');
                    }
                    let up = to_upper(to_lower(c));
                    out.push(
                        if up == '_' {
                            '-'
                        } else {
                            up
                        },
                    );
                    assert(out@ =~= snake(name@, (i + 1) as nat).map_values(
                        |c: char|
                            if upper(c) == '_' {
                                '-'
                            } else {
                                upper(c)
                            },
                    ));
                },
            }
            i += 1;
        }
        proof {
            assert(name@.take(name@.len() as int) =~= name@);
            if name@.len() > 0 {
                assert(name@.subrange(1, name@.len() as int) =~= name@.skip(1));
            }
        }
        string_of(&out)
    }
}

/// Whether `chars` spell `word`.
fn is_name(chars: &Vec<char>, word: &str) -> (r: bool)
    ensures
        r == (chars@ == word@),
{
    let letters = chars_of(word);
    crate::text::chars_eq(chars.as_slice(), letters.as_slice())
}

/// The names that the first `upto` variants are stored under: for each
/// variant the name that it asks for, else the name that `rule` makes of
/// its own.
pub open spec fn spec_names(variants: Seq<Variant>, rule: RenameRule, upto: nat) -> Seq<Seq<char>> {
    Seq::new(
        upto,
        |i: int|
            match variants[i].rename {
                Some(name) => name@,
                None => spec_apply(rule, variants[i].ident@),
            },
    )
}

/// The names under which the variants of an item are stored, in the order
/// of the variants. Only an enum whose variants have no fields can be
/// mapped: the first variant with fields is reported.
pub fn clickhouse_names(is_enum: bool, variants: &Vec<Variant>, rule: RenameRule) -> (r: Result<
    Vec<String>,
    DeriveError,
>)
    ensures
        !is_enum ==> r == Err::<Vec<String>, DeriveError>(DeriveError::NotAnEnum),
        is_enum ==> match r {
            Ok(names) => (forall|i: int| 0 <= i < variants@.len()
                ==> (#[trigger] variants@[i]).is_unit)
                && texts_model(names@) == spec_names(variants@, rule, variants@.len()),
            Err(e) => e matches DeriveError::VariantWithFields(at) && at < variants@.len()
                && !variants@[at as int].is_unit && forall|j: int|
                0 <= j < at ==> (#[trigger] variants@[j]).is_unit,
        },
{
    if !is_enum {
        return Err(DeriveError::NotAnEnum);
    }
    let mut k: usize = 0;
    while k < variants.len()
        invariant
            is_enum,
            k <= variants@.len(),
            forall|j: int| 0 <= j < k ==> (#[trigger] variants@[j]).is_unit,
        decreases variants@.len() - k,
    {
        if !variants[k].is_unit {
            return Err(DeriveError::VariantWithFields(k));
        }
        k += 1;
    }
    let mut names: Vec<String> = Vec::new();
    let mut i: usize = 0;
    while i < variants.len()
        invariant
            i <= variants@.len(),
            names@.len() == i,
            texts_model(names@) == spec_names(variants@, rule, i as nat),
        decreases variants@.len() - i,
    {
        let ghost before = texts_model(names@);
        let name = match &variants[i].rename {
            Some(renamed) => renamed.clone(),
            None => rule.apply_to_variant(variants[i].ident.as_str()),
        };
        let ghost model = name@;
        assert(model == spec_names(variants@, rule, (i + 1) as nat)[i as int]);
        names.push(name);
        i += 1;
        assert forall|j: int| 0 <= j < i implies texts_model(names@)[j] == spec_names(
            variants@,
            rule,
            i as nat,
        )[j] by {
            if j < i - 1 {
                assert(texts_model(names@)[j] == before[j]);
                assert(before[j] == spec_names(variants@, rule, (i - 1) as nat)[j]);
            }
        }
        assert(texts_model(names@) =~= spec_names(variants@, rule, i as nat));
    }
    Ok(names)
}

/// One argument of an attribute, as the derive sees it.
#[derive(Debug, Clone, PartialEq, Eq)]
pub struct AttributeArg {
    /// The name of the argument.
    pub name: String,
    /// Whether the argument has the form `name = value`.
    pub is_name_value: bool,
    /// The text of the value, where the value is a string literal.
    pub literal: Option<String>,
}

/// One attribute of an item or of a variant, as the derive sees it.
#[derive(Debug, Clone, PartialEq, Eq)]
pub struct Attribute {
    /// Whether the attribute is one of this derive: `klickhouse(..)`.
    pub is_klickhouse: bool,
    /// The arguments, or nothing where they could not be read.
    pub args: Option<Vec<AttributeArg>>,
}

/// Why the attributes of an item give no setting.
#[derive(Debug, Clone, Copy, PartialEq, Eq, Structural)]
pub enum AttributeError {
    /// The arguments of this attribute could not be read.
    Malformed { attribute: usize },
    /// The value of this argument of this attribute is no string literal.
    NotAString { attribute: usize, argument: usize },
    /// The value of this argument of this attribute names no rule.
    UnknownRule { attribute: usize, argument: usize },
}

impl AttributeError {
    /// What is wrong with the setting `key`, in words.
    pub open spec fn text(self, key: Seq<char>) -> Seq<char> {
        match self {
            AttributeError::Malformed { .. } => "malformed arguments in front of "@ + key,
            AttributeError::NotAString { .. } => "expected a string literal for "@ + key,
            AttributeError::UnknownRule { .. } => "unknown rename rule for "@ + key,
        }
    }

    /// What is wrong with the setting `key`, in words.
    pub fn describe(&self, key: &str) -> (r: String)
        ensures
            r@ == self.text(key@),
    {
        let mut out: Vec<char> = Vec::new();
        match self {
            AttributeError::Malformed { .. } => {
                crate::text::push_str(&mut out, "malformed arguments in front of ");
            },
            AttributeError::NotAString { .. } => {
                crate::text::push_str(&mut out, "expected a string literal for ");
            },
            AttributeError::UnknownRule { .. } => {
                crate::text::push_str(&mut out, "unknown rename rule for ");
            },
        }
        crate::text::push_str(&mut out, key);
        string_of(&out)
    }
}

/// The index of the first argument from `from` on that has the form
/// `key = value`.
pub open spec fn spec_argument_named(args: Seq<AttributeArg>, key: Seq<char>, from: nat) -> Option<
    nat,
>
    decreases args.len() - from,
{
    if from >= args.len() {
        None
    } else if args[from as int].is_name_value && args[from as int].name@ == key {
        Some(from)
    } else {
        spec_argument_named(args, key, from + 1)
    }
}

/// Where the setting `key` stands in the attributes from `from` on: the
/// first argument `key = value` of an attribute of this derive. An
/// attribute of this derive in front of it whose arguments could not be
/// read, and a value that is no string literal, are errors.
pub open spec fn spec_find_setting(attrs: Seq<Attribute>, key: Seq<char>, from: nat) -> Result<
    Option<(nat, nat)>,
    AttributeError,
>
    decreases attrs.len() - from,
{
    if from >= attrs.len() {
        Ok(None)
    } else if !attrs[from as int].is_klickhouse {
        spec_find_setting(attrs, key, from + 1)
    } else {
        match attrs[from as int].args {
            None => Err(AttributeError::Malformed { attribute: from as usize }),
            Some(args) => match spec_argument_named(args@, key, 0) {
                Some(k) => if args@[k as int].literal is Some {
                    Ok(Some((from, k)))
                } else {
                    Err(
                        AttributeError::NotAString {
                            attribute: from as usize,
                            argument: k as usize,
                        },
                    )
                },
                None => spec_find_setting(attrs, key, from + 1),
            },
        }
    }
}

/// The index of the first argument that has the form `key = value`.
fn argument_named(args: &Vec<AttributeArg>, key: &Vec<char>) -> (r: Option<usize>)
    ensures
        match r {
            Some(k) => spec_argument_named(args@, key@, 0) == Some(k as nat) && k < args@.len(),
            None => spec_argument_named(args@, key@, 0) is None,
        },
{
    let mut i: usize = 0;
    while i < args.len()
        invariant
            i <= args@.len(),
            spec_argument_named(args@, key@, 0) == spec_argument_named(args@, key@, i as nat),
        decreases args@.len() - i,
    {
        if args[i].is_name_value {
            let name = chars_of(args[i].name.as_str());
            if crate::text::chars_eq(name.as_slice(), key.as_slice()) {
                return Some(i);
            }
        }
        i += 1;
    }
    None
}

/// Where the setting `key` stands in `attrs`: the attribute and the
/// argument.
pub fn find_setting(attrs: &Vec<Attribute>, key: &str) -> (r: Result<
    Option<(usize, usize)>,
    AttributeError,
>)
    ensures
        match r {
            Ok(Some((a, k))) => spec_find_setting(attrs@, key@, 0) == Ok::<
                Option<(nat, nat)>,
                AttributeError,
            >(Some((a as nat, k as nat))) && a < attrs@.len()
                && (attrs@[a as int].args matches Some(
                args,
            ) && k < args@.len() && args@[k as int].literal is Some),
            Ok(None) => spec_find_setting(attrs@, key@, 0) == Ok::<
                Option<(nat, nat)>,
                AttributeError,
            >(None),
            Err(e) => spec_find_setting(attrs@, key@, 0) == Err::<
                Option<(nat, nat)>,
                AttributeError,
            >(e),
        },
{
    let word = chars_of(key);
    let mut i: usize = 0;
    while i < attrs.len()
        invariant
            i <= attrs@.len(),
            word@ == key@,
            spec_find_setting(attrs@, key@, 0) == spec_find_setting(attrs@, key@, i as nat),
        decreases attrs@.len() - i,
    {
        if attrs[i].is_klickhouse {
            match &attrs[i].args {
                None => {
                    return Err(AttributeError::Malformed { attribute: i });
                },
                Some(args) => match argument_named(args, &word) {
                    Some(k) => {
                        return match &args[k].literal {
                            Some(_) => Ok(Some((i, k))),
                            None => Err(AttributeError::NotAString { attribute: i, argument: k }),
                        };
                    },
                    None => {},
                },
            }
        }
        i += 1;
    }
    Ok(None)
}

/// The rule that the attributes of an enum ask for.
pub open spec fn spec_rename_all(attrs: Seq<Attribute>) -> Result<RenameRule, AttributeError> {
    match spec_find_setting(attrs, "rename_all"@, 0) {
        Ok(Some((a, k))) => match spec_rule_named(attrs[a as int].args->0@[k as int].literal->0@) {
            Some(rule) => Ok(rule),
            None => Err(AttributeError::UnknownRule { attribute: a as usize, argument: k as usize }),
        },
        Ok(None) => Ok(RenameRule::Keep),
        Err(e) => Err(e),
    }
}

/// The rule that the attributes of an enum ask for: that of the first
/// `rename_all = ".."` among the arguments of the attributes of this
/// derive, or to keep the names where there is none.
pub fn parse_rename_all(attrs: &Vec<Attribute>) -> (r: Result<RenameRule, AttributeError>)
    ensures
        r == spec_rename_all(attrs@),
{
    match find_setting(attrs, "rename_all")? {
        Some((a, k)) => {
            let text = match &attrs[a].args {
                Some(args) => match &args[k].literal {
                    Some(text) => RenameRule::from_str(text.as_str()),
                    None => None,
                },
                None => None,
            };
            match text {
                Some(rule) => Ok(rule),
                None => Err(AttributeError::UnknownRule { attribute: a, argument: k }),
            }
        },
        None => Ok(RenameRule::Keep),
    }
}

/// The name that the attributes of a variant ask for.
pub open spec fn spec_variant_rename(attrs: Seq<Attribute>) -> Result<
    Option<Seq<char>>,
    AttributeError,
> {
    match spec_find_setting(attrs, "rename"@, 0) {
        Ok(Some((a, k))) => Ok(Some(attrs[a as int].args->0@[k as int].literal->0@)),
        Ok(None) => Ok(None),
        Err(e) => Err(e),
    }
}

/// The name that the attributes of a variant ask for: that of the first
/// `rename = ".."` among the arguments of the attributes of this derive,
/// if there is one.
pub fn parse_variant_rename(attrs: &Vec<Attribute>) -> (r: Result<Option<String>, AttributeError>)
    ensures
        match spec_variant_rename(attrs@) {
            Ok(Some(name)) => r matches Ok(Some(text)) && text@ == name,
            Ok(None) => r matches Ok(None),
            Err(e) => r == Err::<Option<String>, AttributeError>(e),
        },
{
    match find_setting(attrs, "rename")? {
        Some((a, k)) => {
            let name = match &attrs[a].args {
                Some(args) => match &args[k].literal {
                    Some(text) => Some(text.clone()),
                    None => None,
                },
                None => None,
            };
            Ok(name)
        },
        None => Ok(None),
    }
}

/// One variant of an enum with its attributes, as the derive finds it.
#[derive(Debug, Clone, PartialEq, Eq)]
pub struct VariantInput {
    pub ident: String,
    /// Whether the variant has no fields.
    pub is_unit: bool,
    pub attrs: Vec<Attribute>,
}

/// Why the mapping of an item cannot be derived.
#[derive(Debug, Clone, Copy, PartialEq, Eq, Structural)]
pub enum ExpandError {
    /// The item is not one that the mapping can be derived for.
    Item(DeriveError),
    /// The attributes of the item give no rule.
    Container(AttributeError),
    /// The attributes of the variant at this index give no name.
    Variant { variant: usize, error: AttributeError },
}

/// The index of the first variant from `from` on that has fields.
pub open spec fn first_with_fields(variants: Seq<VariantInput>, from: nat) -> Option<nat>
    decreases variants.len() - from,
{
    if from >= variants.len() {
        None
    } else if !variants[from as int].is_unit {
        Some(from)
    } else {
        first_with_fields(variants, from + 1)
    }
}

/// The names that the first `upto` variants ask for by their attributes,
/// or the error of the first variant whose attributes give none.
pub open spec fn spec_renamed(variants: Seq<VariantInput>, upto: nat) -> Result<
    Seq<Option<Seq<char>>>,
    ExpandError,
>
    decreases upto,
{
    if upto == 0 {
        Ok(Seq::empty())
    } else {
        match spec_renamed(variants, (upto - 1) as nat) {
            Ok(names) => match spec_variant_rename(variants[upto - 1].attrs@) {
                Ok(name) => Ok(names.push(name)),
                Err(error) => Err(ExpandError::Variant { variant: (upto - 1) as usize, error }),
            },
            Err(e) => Err(e),
        }
    }
}

/// The names under which the variants of an item are stored. The item must
/// be an enum, and none of its variants may have fields; then the
/// attributes of the item give the rule, and the attributes of each
/// variant the name that it asks for. The first thing found wrong, in this
/// order, is the error.
pub open spec fn spec_expand(is_enum: bool, attrs: Seq<Attribute>, variants: Seq<VariantInput>)
    -> Result<Seq<Seq<char>>, ExpandError> {
    if !is_enum {
        Err(ExpandError::Item(DeriveError::NotAnEnum))
    } else {
        match first_with_fields(variants, 0) {
            Some(at) => Err(ExpandError::Item(DeriveError::VariantWithFields(at as usize))),
            None => match spec_rename_all(attrs) {
                Err(e) => Err(ExpandError::Container(e)),
                Ok(rule) => match spec_renamed(variants, variants.len()) {
                    Err(e) => Err(e),
                    Ok(renames) => Ok(
                        Seq::new(
                            variants.len(),
                            |i: int|
                                match renames[i] {
                                    Some(name) => name,
                                    None => spec_apply(rule, variants[i].ident@),
                                },
                        ),
                    ),
                },
            },
        }
    }
}

/// Where the attributes of one of the first variants give no name, those
/// of the variants do not.
proof fn lemma_renamed_failed(variants: Seq<VariantInput>, m: nat, upto: nat)
    requires
        m <= upto,
    ensures
        spec_renamed(variants, m) is Err ==> spec_renamed(variants, upto) == spec_renamed(
            variants,
            m,
        ),
    decreases upto - m,
{
    if m < upto && spec_renamed(variants, m) is Err {
        lemma_renamed_failed(variants, m, (upto - 1) as nat);
    }
}

/// The names under which the variants of an item are stored, in the order
/// of the variants: what the derive of the mapping goes by.
pub fn expand(is_enum: bool, attrs: &Vec<Attribute>, variants: &Vec<VariantInput>) -> (r: Result<
    Vec<String>,
    ExpandError,
>)
    ensures
        match spec_expand(is_enum, attrs@, variants@) {
            Ok(names) => r matches Ok(v) && texts_model(v@) == names,
            Err(e) => r == Err::<Vec<String>, ExpandError>(e),
        },
{
    if !is_enum {
        return Err(ExpandError::Item(DeriveError::NotAnEnum));
    }
    let mut k: usize = 0;
    while k < variants.len()
        invariant
            is_enum,
            k <= variants@.len(),
            first_with_fields(variants@, 0) == first_with_fields(variants@, k as nat),
        decreases variants@.len() - k,
    {
        if !variants[k].is_unit {
            return Err(ExpandError::Item(DeriveError::VariantWithFields(k)));
        }
        k += 1;
    }
    let rule = match parse_rename_all(attrs) {
        Ok(rule) => rule,
        Err(e) => {
            return Err(ExpandError::Container(e));
        },
    };
    let mut plain: Vec<Variant> = Vec::new();
    let ghost mut renames: Seq<Option<Seq<char>>> = Seq::empty();
    let mut i: usize = 0;
    while i < variants.len()
        invariant
            is_enum,
            first_with_fields(variants@, 0) is None,
            spec_rename_all(attrs@) == Ok::<RenameRule, AttributeError>(rule),
            i <= variants@.len(),
            plain@.len() == i,
            renames.len() == i,
            spec_renamed(variants@, i as nat) == Ok::<Seq<Option<Seq<char>>>, ExpandError>(
                renames,
            ),
            forall|j: int|
                0 <= j < i ==> (#[trigger] plain@[j]).is_unit && plain@[j].ident@
                    == variants@[j].ident@ && optional_text(plain@[j].rename) == renames[j],
        decreases variants@.len() - i,
    {
        let rename = match parse_variant_rename(&variants[i].attrs) {
            Ok(rename) => rename,
            Err(error) => {
                proof {
                    lemma_renamed_failed(variants@, (i + 1) as nat, variants@.len() as nat);
                }
                return Err(ExpandError::Variant { variant: i, error });
            },
        };
        proof {
            renames = renames.push(optional_text(rename));
        }
        plain.push(Variant { ident: variants[i].ident.clone(), is_unit: true, rename });
        i += 1;
    }
    match clickhouse_names(true, &plain, rule) {
        Ok(names) => {
            assert(spec_names(plain@, rule, plain@.len() as nat) =~= spec_expand(
                is_enum,
                attrs@,
                variants@,
            )->Ok_0);
            Ok(names)
        },
        Err(e) => {
            assert(false);
            Err(ExpandError::Item(e))
        },
    }
}

} // verus!

//! Text helpers: characters in and out of strings, and decimal numbers.

use vstd::prelude::*;

verus! {

/// `String::push`: appends one character.
pub assume_specification[ std::string::String::push ](s: &mut std::string::String, c: char)
    ensures
        final(s)@ == old(s)@.push(c),
;

/// Model of an optional text.
pub open spec fn optional_text(s: Option<String>) -> Option<Seq<char>> {
    match s {
        Some(text) => Some(text@),
        None => None,
    }
}

/// Model of a list of texts.
pub open spec fn texts_model(texts: Seq<String>) -> Seq<Seq<char>> {
    Seq::new(texts.len(), |i: int| texts[i]@)
}

/// The characters of `s`, in order.
pub fn chars_of(s: &str) -> (out: Vec<char>)
    ensures
        out@ == s@,
{
    let mut out: Vec<char> = Vec::new();
    for c in it: s.chars()
        invariant
            it.seq() == s@,
            out@ == it.seq().take(it.index() as int),
    {
        out.push(c);
        assert(out@ =~= it.seq().take(it.index() + 1));
    }
    assert(out@ =~= s@);
    out
}

/// The string made of `chars`.
pub fn string_of(chars: &Vec<char>) -> (out: String)
    ensures
        out@ == chars@,
{
    let mut out = String::new();
    let mut i: usize = 0;
    while i < chars.len()
        invariant
            i <= chars.len(),
            out@ == chars@.take(i as int),
        decreases chars.len() - i,
    {
        out.push(chars[i]);
        i += 1;
        assert(out@ =~= chars@.take(i as int));
    }
    assert(out@ =~= chars@);
    out
}

/// Appends the characters of `s` to `out`.
pub fn push_str(out: &mut Vec<char>, s: &str)
    ensures
        final(out)@ == old(out)@ + s@,
{
    for c in it: s.chars()
        invariant
            it.seq() == s@,
            out@ == old(out)@ + it.seq().take(it.index() as int),
    {
        out.push(c);
        assert(out@ =~= old(out)@ + it.seq().take(it.index() + 1));
    }
    assert(out@ =~= old(out)@ + s@);
}

/// Whether `a` and `b` hold the same characters.
pub fn chars_eq(a: &[char], b: &[char]) -> (r: bool)
    ensures
        r == (a@ == b@),
{
    if a.len() != b.len() {
        return false;
    }
    let mut i: usize = 0;
    while i < a.len()
        invariant
            i <= a.len(),
            a@.len() == b@.len(),
            a@.take(i as int) == b@.take(i as int),
        decreases a.len() - i,
    {
        if a[i] != b[i] {
            return false;
        }
        i += 1;
        assert(a@.take(i as int) =~= a@.take(i - 1).push(a@[i - 1]));
        assert(b@.take(i as int) =~= b@.take(i - 1).push(b@[i - 1]));
    }
    assert(a@ =~= a@.take(a@.len() as int));
    assert(b@ =~= b@.take(b@.len() as int));
    true
}

/// Whether `needle` occurs in `hay`.
pub open spec fn contains_text(hay: Seq<char>, needle: Seq<char>) -> bool {
    exists|i: int|
        0 <= i <= hay.len() - needle.len() && #[trigger] hay.subrange(i, i + needle.len())
            == needle
}

/// Whether `needle` stands in `hay` at `at`.
fn occurs_at(hay: &[char], needle: &[char], at: usize) -> (r: bool)
    requires
        at + needle@.len() <= hay@.len(),
    ensures
        r == (hay@.subrange(at as int, at + needle@.len()) == needle@),
{
    let ghost window = hay@.subrange(at as int, at + needle@.len());
    let total = hay.len();
    let mut k: usize = 0;
    while k < needle.len()
        invariant
            k <= needle@.len(),
            total == hay@.len(),
            at + needle@.len() <= hay@.len(),
            window == hay@.subrange(at as int, at + needle@.len()),
            window.take(k as int) == needle@.take(k as int),
        decreases needle@.len() - k,
    {
        if hay[at + k] != needle[k] {
            assert(window[k as int] != needle@[k as int]);
            return false;
        }
        k += 1;
        assert(window.take(k as int) =~= window.take(k - 1).push(window[k - 1]));
        assert(needle@.take(k as int) =~= needle@.take(k - 1).push(needle@[k - 1]));
    }
    assert(window =~= window.take(needle@.len() as int));
    assert(needle@ =~= needle@.take(needle@.len() as int));
    true
}

/// Whether `needle` occurs in `hay`.
pub fn contains_chars(hay: &[char], needle: &[char]) -> (r: bool)
    ensures
        r == contains_text(hay@, needle@),
{
    if needle.len() > hay.len() {
        return false;
    }
    let last = hay.len() - needle.len();
    let mut i: usize = 0;
    while i <= last
        invariant
            i <= last + 1,
            last == hay@.len() - needle@.len(),
            forall|k: int| 0 <= k < i ==> #[trigger] hay@.subrange(k, k + needle@.len()) != needle@,
        decreases last + 1 - i,
    {
        if occurs_at(hay, needle, i) {
            return true;
        }
        if i == last {
            return false;
        }
        i += 1;
    }
    false
}

/// The classes of characters that the scanners know.
#[derive(Debug, Clone, Copy, PartialEq, Eq, Structural)]
pub enum CharClass {
    /// Blank, tab, line feed, carriage return.
    Space,
    /// ASCII letters, ASCII digits and the underscore.
    Ident,
    /// ASCII digits.
    Digit,
}

impl CharClass {
    /// Whether `c` belongs to this class.
    pub open spec fn spec_contains(self, c: char) -> bool {
        match self {
            CharClass::Space => c == ' ' || c == '\t' || c == '\n' || c == '\r',
            CharClass::Ident => ('a' <= c && c <= 'z') || ('A' <= c && c <= 'Z') || ('0' <= c && c
                <= '9') || c == '_',
            CharClass::Digit => '0' <= c && c <= '9',
        }
    }

    /// Whether `c` belongs to this class.
    pub fn contains(&self, c: char) -> (r: bool)
        ensures
            r == self.spec_contains(c),
    {
        match self {
            CharClass::Space => c == ' ' || c == '\t' || c == '\n' || c == '\r',
            CharClass::Ident => ('a' <= c && c <= 'z') || ('A' <= c && c <= 'Z') || ('0' <= c && c
                <= '9') || c == '_',
            CharClass::Digit => '0' <= c && c <= '9',
        }
    }
}

/// The number of characters at the head of `s` that belong to `class`.
pub open spec fn run_len(s: Seq<char>, class: CharClass) -> nat
    decreases s.len(),
{
    if s.len() > 0 && class.spec_contains(s[0]) {
        1 + run_len(s.skip(1), class)
    } else {
        0
    }
}

/// A run ends within the text, at a character outside the class or at the
/// end.
pub proof fn lemma_run_len_bounds(s: Seq<char>, class: CharClass)
    ensures
        run_len(s, class) <= s.len(),
        forall|i: int| 0 <= i < run_len(s, class) ==> class.spec_contains(#[trigger] s[i]),
        run_len(s, class) < s.len() ==> !class.spec_contains(s[run_len(s, class) as int]),
    decreases s.len(),
{
    if s.len() > 0 && class.spec_contains(s[0]) {
        lemma_run_len_bounds(s.skip(1), class);
        assert forall|i: int| 0 <= i < run_len(s, class) implies class.spec_contains(
            #[trigger] s[i],
        ) by {
            if i > 0 {
                assert(s[i] == s.skip(1)[i - 1]);
            }
        }
    }
}

/// The run of `class` at the head of `text + rest` is `text` itself when all
/// of `text` belongs to the class and `rest` does not start with a member.
pub proof fn lemma_run_len_exact(text: Seq<char>, rest: Seq<char>, class: CharClass)
    requires
        forall|i: int| 0 <= i < text.len() ==> class.spec_contains(#[trigger] text[i]),
        rest.len() > 0 ==> !class.spec_contains(rest[0]),
    ensures
        run_len(text + rest, class) == text.len(),
    decreases text.len(),
{
    if text.len() == 0 {
        assert(text + rest =~= rest);
    } else {
        assert((text + rest)[0] == text[0]);
        assert((text + rest).skip(1) =~= text.skip(1) + rest);
        assert forall|i: int| 0 <= i < text.skip(1).len() implies class.spec_contains(
            #[trigger] text.skip(1)[i],
        ) by {
            assert(text.skip(1)[i] == text[i + 1]);
        }
        lemma_run_len_exact(text.skip(1), rest, class);
    }
}

/// The position behind the run of `class` that starts at `pos`.
pub fn scan_run(chars: &[char], pos: usize, class: CharClass) -> (end: usize)
    requires
        pos <= chars@.len(),
    ensures
        end == pos + run_len(chars@.skip(pos as int), class),
        end <= chars@.len(),
{
    let mut i: usize = pos;
    while i < chars.len() && class.contains(chars[i])
        invariant
            pos <= i <= chars@.len(),
            run_len(chars@.skip(pos as int), class) == (i - pos) + run_len(
                chars@.skip(i as int),
                class,
            ),
        decreases chars@.len() - i,
    {
        assert(chars@.skip(i as int)[0] == chars@[i as int]);
        assert(chars@.skip(i as int).skip(1) =~= chars@.skip(i + 1));
        i += 1;
    }
    proof {
        if i < chars@.len() {
            assert(chars@.skip(i as int)[0] == chars@[i as int]);
        }
    }
    i
}

/// The character that stands for the digit `d`.
pub open spec fn digit_char(d: nat) -> char {
    ((48 + d) as u8) as char
}

/// The digit that the character `c` stands for.
pub open spec fn digit_value(c: char) -> nat {
    (c as u32 - 48) as nat
}

/// The decimal digits of `n`, without leading zeros.
pub open spec fn decimal(n: nat) -> Seq<char>
    decreases n,
{
    if n < 10 {
        seq![digit_char(n)]
    } else {
        decimal(n / 10).push(digit_char(n % 10))
    }
}

/// The decimal form of `v`, with a minus sign in front of a negative number.
pub open spec fn signed_decimal(v: int) -> Seq<char> {
    if v < 0 {
        seq!['-'] + decimal((-v) as nat)
    } else {
        decimal(v as nat)
    }
}

/// The number that a sequence of decimal digits spells.
pub open spec fn digits_value(s: Seq<char>) -> nat
    decreases s.len(),
{
    if s.len() == 0 {
        0
    } else {
        digits_value(s.drop_last()) * 10 + digit_value(s.last())
    }
}

/// The decimal form of a number is made of digits and spells that number.
pub proof fn lemma_decimal_roundtrip(n: nat)
    ensures
        decimal(n).len() >= 1,
        forall|i: int|
            0 <= i < decimal(n).len() ==> CharClass::Digit.spec_contains(#[trigger] decimal(n)[i]),
        digits_value(decimal(n)) == n,
        !CharClass::Space.spec_contains(decimal(n)[0]),
        decimal(n)[0] != '-',
    decreases n,
{
    if n < 10 {
        assert(decimal(n).drop_last() =~= Seq::<char>::empty());
        assert(digits_value(decimal(n).drop_last()) == 0);
    } else {
        lemma_decimal_roundtrip(n / 10);
        assert(decimal(n).drop_last() =~= decimal(n / 10));
        assert(decimal(n)[0] == decimal(n / 10)[0]);
    }
}

/// A longer run of digits spells no smaller a number than its beginning.
pub proof fn lemma_digits_value_monotonic(s: Seq<char>, i: int)
    requires
        0 <= i <= s.len(),
    ensures
        digits_value(s.take(i)) <= digits_value(s),
    decreases s.len(),
{
    if i == s.len() {
        assert(s.take(i) =~= s);
    } else {
        lemma_digits_value_monotonic(s.drop_last(), i);
        assert(s.drop_last().take(i) =~= s.take(i));
    }
}

/// Appends the decimal digits of `n`.
pub fn push_decimal(out: &mut Vec<char>, n: u128)
    ensures
        final(out)@ == old(out)@ + decimal(n as nat),
    decreases n,
{
    if n >= 10 {
        push_decimal(out, n / 10);
    }
    let d: u8 = (n % 10) as u8;
    out.push((48 + d) as char);
    proof {
        if n >= 10 {
            assert(out@ =~= old(out)@ + decimal(n as nat));
        } else {
            assert(out@ =~= old(out)@ + decimal(n as nat));
        }
    }
}

/// Appends the decimal form of `v`.
pub fn push_signed_decimal(out: &mut Vec<char>, v: i64)
    ensures
        final(out)@ == old(out)@ + signed_decimal(v as int),
{
    if v < 0 {
        out.push('-');
        let magnitude: u128 = (-(v as i128)) as u128;
        push_decimal(out, magnitude);
        assert(out@ =~= old(out)@ + signed_decimal(v as int));
    } else {
        push_decimal(out, v as u128);
    }
}

/// The unsigned decimal number at the head of `s`, which must not exceed
/// `max`: its value and the number of digits.
pub open spec fn parse_uint(s: Seq<char>, max: nat) -> Option<(nat, nat)> {
    let n = run_len(s, CharClass::Digit);
    if n == 0 || digits_value(s.take(n as int)) > max {
        None
    } else {
        Some((digits_value(s.take(n as int)), n))
    }
}

/// Reads the unsigned decimal number at `pos`: its value and the position
/// behind it.
pub fn scan_uint(chars: &[char], pos: usize, max: u64) -> (r: Option<(u64, usize)>)
    requires
        pos <= chars@.len(),
    ensures
        match parse_uint(chars@.skip(pos as int), max as nat) {
            Some((value, digits)) => (r matches Some(p) && p.0 == value && p.1 == pos + digits)
                && pos + digits <= chars@.len() && digits > 0 && value <= max,
            None => r is None,
        },
{
    let end = scan_run(chars, pos, CharClass::Digit);
    if end == pos {
        return None;
    }
    let ghost digits = chars@.skip(pos as int).take(end - pos);
    let mut acc: u64 = 0;
    let mut i: usize = pos;
    proof {
        lemma_run_len_bounds(chars@.skip(pos as int), CharClass::Digit);
        assert(digits.take(0) =~= Seq::<char>::empty());
    }
    while i < end
        invariant
            pos <= i <= end <= chars@.len(),
            pos < end,
            end == pos + run_len(chars@.skip(pos as int), CharClass::Digit),
            digits == chars@.skip(pos as int).take(end - pos),
            forall|k: int| 0 <= k < end - pos
                ==> CharClass::Digit.spec_contains(#[trigger] digits[k]),
            acc == digits_value(digits.take(i - pos)),
            acc <= max,
        decreases end - i,
    {
        let c = chars[i];
        assert(digits[i - pos] == c);
        let d: u64 = (c as u32 - 48) as u64;
        proof {
            assert(digits.take(i - pos + 1).drop_last() =~= digits.take(i - pos));
            assert(digits.take(i - pos + 1).last() == c);
            lemma_digits_value_monotonic(digits, i - pos + 1);
        }
        if d > max {
            assert(digits_value(digits.take(i - pos + 1)) == acc * 10 + d);
            return None;
        }
        if acc > (max - d) / 10 {
            assert(acc * 10 + d > max) by (nonlinear_arith)
                requires
                    acc > (max - d) / 10,
                    d <= max,
            ;
            assert(digits_value(digits.take(i - pos + 1)) == acc * 10 + d);
            return None;
        }
        assert(acc * 10 + d <= max) by (nonlinear_arith)
            requires
                acc <= (max - d) / 10,
                d <= max,
        ;
        acc = acc * 10 + d;
        i += 1;
    }
    assert(digits.take(end - pos) =~= digits);
    Some((acc, end))
}

/// The signed decimal number at the head of `s`, which must lie within
/// `min ..= max`: its value and the number of characters.
pub open spec fn parse_int(s: Seq<char>, min: int, max: int) -> Option<(int, nat)> {
    if s.len() > 0 && s[0] == '-' {
        match parse_uint(s.skip(1), (-min) as nat) {
            Some((value, digits)) => Some((-(value as int), digits + 1)),
            None => None,
        }
    } else {
        match parse_uint(s, max as nat) {
            Some((value, digits)) => Some((value as int, digits)),
            None => None,
        }
    }
}

/// Reads the signed decimal number at `pos`: its value and the position
/// behind it.
pub fn scan_int(chars: &[char], pos: usize, min: i64, max: i64) -> (r: Option<(i64, usize)>)
    requires
        pos <= chars@.len(),
        min <= 0 <= max,
    ensures
        match parse_int(chars@.skip(pos as int), min as int, max as int) {
            Some((value, consumed)) => (r matches Some(p) && p.0 == value && p.1 == pos
                + consumed) && pos + consumed <= chars@.len() && consumed > 0 && min <= value
                <= max,
            None => r is None,
        },
{
    if pos < chars.len() && chars[pos] == '-' {
        assert(chars@.skip(pos as int)[0] == '-');
        assert(chars@.skip(pos as int).skip(1) =~= chars@.skip(pos + 1));
        let limit: u64 = (-(min as i128)) as u64;
        match scan_uint(chars, pos + 1, limit) {
            Some((value, end)) => Some(((-(value as i128)) as i64, end)),
            None => None,
        }
    } else {
        proof {
            if pos < chars@.len() {
                assert(chars@.skip(pos as int)[0] == chars@[pos as int]);
            }
        }
        match scan_uint(chars, pos, max as u64) {
            Some((value, end)) => Some((value as i64, end)),
            None => None,
        }
    }
}

/// A number within the bounds, printed and followed by a character that is
/// no digit, reads back as itself.
pub proof fn lemma_parse_int_roundtrip(v: int, min: int, max: int, rest: Seq<char>)
    requires
        min <= v <= max,
        min <= 0 <= max,
        rest.len() > 0 ==> !CharClass::Digit.spec_contains(rest[0]),
    ensures
        parse_int(signed_decimal(v) + rest, min, max) == Some((v, signed_decimal(v).len())),
{
    let magnitude: nat = if v < 0 {
        (-v) as nat
    } else {
        v as nat
    };
    lemma_decimal_roundtrip(magnitude);
    lemma_run_len_exact(decimal(magnitude), rest, CharClass::Digit);
    let text = signed_decimal(v) + rest;
    if v < 0 {
        assert(text[0] == '-');
        assert(text.skip(1) =~= decimal(magnitude) + rest);
        assert((decimal(magnitude) + rest).take(decimal(magnitude).len() as int) =~= decimal(
            magnitude,
        ));
    } else {
        assert(text[0] == decimal(magnitude)[0]);
        assert(text.take(decimal(magnitude).len() as int) =~= decimal(magnitude));
    }
}

/// A number up to `max`, printed and followed by a character that is no
/// digit, reads back as itself.
pub proof fn lemma_parse_uint_roundtrip(n: nat, max: nat, rest: Seq<char>)
    requires
        n <= max,
        rest.len() > 0 ==> !CharClass::Digit.spec_contains(rest[0]),
    ensures
        parse_uint(decimal(n) + rest, max) == Some((n, decimal(n).len())),
{
    lemma_decimal_roundtrip(n);
    lemma_run_len_exact(decimal(n), rest, CharClass::Digit);
    assert((decimal(n) + rest).take(decimal(n).len() as int) =~= decimal(n));
}

/// `text` with a backslash in front of every quote and backslash.
pub open spec fn escaped(text: Seq<char>) -> Seq<char>
    decreases text.len(),
{
    if text.len() == 0 {
        Seq::empty()
    } else if text[0] == '\'' || text[0] == '\\' {
        seq!['\\', text[0]] + escaped(text.skip(1))
    } else {
        seq![text[0]] + escaped(text.skip(1))
    }
}

/// `text` as a single-quoted literal.
pub open spec fn quoted(text: Seq<char>) -> Seq<char> {
    seq!['\''] + escaped(text) + seq!['\'']
}

/// The rest of a single-quoted literal, from behind the opening quote to
/// the closing one: the text it spells, and the number of characters up to
/// and including the closing quote. A backslash makes the character behind
/// it part of the text.
pub open spec fn parse_quoted_tail(s: Seq<char>) -> Option<(Seq<char>, nat)>
    decreases s.len(),
{
    if s.len() == 0 {
        None
    } else if s[0] == '\'' {
        Some((Seq::empty(), 1))
    } else if s[0] == '\\' {
        if s.len() < 2 {
            None
        } else {
            match parse_quoted_tail(s.skip(2)) {
                Some((text, consumed)) => Some((seq![s[1]] + text, consumed + 2)),
                None => None,
            }
        }
    } else {
        match parse_quoted_tail(s.skip(1)) {
            Some((text, consumed)) => Some((seq![s[0]] + text, consumed + 1)),
            None => None,
        }
    }
}

/// The single-quoted literal at the head of `s`: the text it spells and the
/// number of characters it takes, quotes included.
pub open spec fn parse_quoted(s: Seq<char>) -> Option<(Seq<char>, nat)> {
    if s.len() > 0 && s[0] == '\'' {
        match parse_quoted_tail(s.skip(1)) {
            Some((text, consumed)) => Some((text, consumed + 1)),
            None => None,
        }
    } else {
        None
    }
}

/// A literal takes no more characters than there are.
pub proof fn lemma_parse_quoted_tail_bounds(s: Seq<char>)
    ensures
        parse_quoted_tail(s) matches Some((text, consumed)) ==> 1 <= consumed <= s.len(),
    decreases s.len(),
{
    if s.len() == 0 {
    } else if s[0] == '\'' {
    } else if s[0] == '\\' {
        if s.len() >= 2 {
            lemma_parse_quoted_tail_bounds(s.skip(2));
        }
    } else {
        lemma_parse_quoted_tail_bounds(s.skip(1));
    }
}

/// Escaped text and its closing quote, whatever follows, read back as the
/// text.
pub proof fn lemma_parse_quoted_tail_roundtrip(text: Seq<char>, rest: Seq<char>)
    ensures
        parse_quoted_tail(escaped(text) + seq!['\''] + rest) == Some(
            (text, escaped(text).len() + 1),
        ),
    decreases text.len(),
{
    let s = escaped(text) + seq!['\''] + rest;
    if text.len() == 0 {
        assert(s[0] == '\'');
    } else {
        lemma_parse_quoted_tail_roundtrip(text.skip(1), rest);
        let tail = escaped(text.skip(1)) + seq!['\''] + rest;
        if text[0] == '\'' || text[0] == '\\' {
            assert(s[0] == '\\');
            assert(s[1] == text[0]);
            assert(s.skip(2) =~= tail);
        } else {
            assert(s[0] == text[0]);
            assert(s.skip(1) =~= tail);
        }
        assert(seq![text[0]] + text.skip(1) =~= text);
    }
}

/// A quoted literal, whatever follows, reads back as its text.
pub proof fn lemma_parse_quoted_roundtrip(text: Seq<char>, rest: Seq<char>)
    ensures
        parse_quoted(quoted(text) + rest) == Some((text, quoted(text).len())),
{
    lemma_parse_quoted_tail_roundtrip(text, rest);
    let s = quoted(text) + rest;
    assert(s[0] == '\'');
    assert(s.skip(1) =~= escaped(text) + seq!['\''] + rest);
}

/// What the characters read so far add to the rest of a literal.
pub open spec fn quoted_resume(rest: Option<(Seq<char>, nat)>, text: Seq<char>, taken: nat)
    -> Option<(Seq<char>, nat)> {
    match rest {
        Some((tail, consumed)) => Some((text + tail, consumed + taken)),
        None => None,
    }
}

/// Reads the single-quoted literal at `pos`: the text it spells and the
/// position behind its closing quote.
pub fn scan_quoted(chars: &[char], pos: usize) -> (r: Option<(Vec<char>, usize)>)
    requires
        pos <= chars@.len(),
    ensures
        match parse_quoted(chars@.skip(pos as int)) {
            Some((text, consumed)) => (r matches Some(p) && p.0@ == text && p.1 == pos + consumed)
                && pos + consumed <= chars@.len() && consumed >= 2,
            None => r is None,
        },
{
    if pos >= chars.len() || chars[pos] != '\'' {
        proof {
            if pos < chars@.len() {
                assert(chars@.skip(pos as int)[0] == chars@[pos as int]);
            }
        }
        return None;
    }
    assert(chars@.skip(pos as int)[0] == '\'');
    assert(chars@.skip(pos as int).skip(1) =~= chars@.skip(pos + 1));
    let ghost whole = parse_quoted_tail(chars@.skip(pos + 1));
    let mut out: Vec<char> = Vec::new();
    let mut i: usize = pos + 1;
    proof {
        assert(Seq::<char>::empty() + Seq::<char>::empty() =~= Seq::<char>::empty());
        match parse_quoted_tail(chars@.skip(i as int)) {
            Some((tail, consumed)) => {
                assert(out@ + tail =~= tail);
            },
            None => {},
        }
    }
    while i < chars.len()
        invariant
            pos + 1 <= i <= chars@.len(),
            chars@.skip(pos as int)[0] == '\'',
            chars@.skip(pos as int).skip(1) == chars@.skip(pos + 1),
            whole == parse_quoted_tail(chars@.skip(pos + 1)),
            whole == quoted_resume(
                parse_quoted_tail(chars@.skip(i as int)),
                out@,
                (i - pos - 1) as nat,
            ),
        decreases chars@.len() - i,
    {
        let c = chars[i];
        let ghost here = chars@.skip(i as int);
        assert(here[0] == c);
        proof {
            lemma_parse_quoted_tail_bounds(here);
        }
        if c == '\'' {
            assert(out@ + Seq::<char>::empty() =~= out@);
            return Some((out, i + 1));
        }
        if c == '\\' {
            if i + 1 >= chars.len() {
                return None;
            }
            let e = chars[i + 1];
            assert(here[1] == e);
            assert(here.skip(2) =~= chars@.skip(i + 2));
            proof {
                match parse_quoted_tail(chars@.skip(i + 2)) {
                    Some((tail, consumed)) => {
                        assert(out@ + (seq![e] + tail) =~= out@.push(e) + tail);
                    },
                    None => {},
                }
            }
            out.push(e);
            i += 2;
        } else {
            assert(here.skip(1) =~= chars@.skip(i + 1));
            proof {
                match parse_quoted_tail(chars@.skip(i + 1)) {
                    Some((tail, consumed)) => {
                        assert(out@ + (seq![c] + tail) =~= out@.push(c) + tail);
                    },
                    None => {},
                }
            }
            out.push(c);
            i += 1;
        }
    }
    None
}

/// Appends `text` as a single-quoted literal.
pub fn push_quoted(out: &mut Vec<char>, text: &[char])
    ensures
        final(out)@ == old(out)@ + quoted(text@),
{
    out.push('\'');
    let ghost base = out@;
    let mut i: usize = 0;
    proof {
        assert(text@.skip(0) =~= text@);
    }
    while i < text.len()
        invariant
            i <= text@.len(),
            out@ + escaped(text@.skip(i as int)) == base + escaped(text@),
        decreases text@.len() - i,
    {
        let c = text[i];
        let ghost before = out@;
        let ghost here = text@.skip(i as int);
        assert(here[0] == c);
        assert(here.skip(1) =~= text@.skip(i + 1));
        if c == '\'' || c == '\\' {
            out.push('\\');
        }
        out.push(c);
        i += 1;
        assert(out@ + escaped(text@.skip(i as int)) =~= before + escaped(here));
    }
    assert(escaped(text@.skip(text@.len() as int)) =~= Seq::<char>::empty());
    assert(out@ =~= base + escaped(text@));
    out.push('\'');
    assert(out@ =~= old(out)@ + quoted(text@));
}

} // verus!

//! Variable-length integers and length-prefixed byte strings, read from and
//! written to in-memory buffers.

use crate::errors::{ErrorKind, KlickhouseError};
use crate::protocol::MAX_STRING_SIZE;
use vstd::prelude::*;
use vstd::utf8::{decode_utf8, valid_utf8};

verus! {

/// What the head of a byte sequence decodes to.
pub enum Decoded<T> {
    /// A value, and the number of bytes it took.
    Value { value: T, consumed: nat },
    /// No value: the kind of the error that reports it. Bytes that end
    /// before the value does are an I/O error.
    Failed(ErrorKind),
}

/// `128` to the power `n`.
pub open spec fn pow128(n: nat) -> nat
    decreases n,
{
    if n == 0 {
        1
    } else {
        128 * pow128((n - 1) as nat)
    }
}

/// The unsigned varint encoding of `value`: groups of seven bits, least
/// significant first, the top bit of a byte set when more follow; at most
/// `limit` bytes are produced.
pub open spec fn var_uint_bytes_within(value: nat, limit: nat) -> Seq<u8>
    decreases limit,
{
    if limit == 0 {
        Seq::empty()
    } else if value < 128 {
        seq![value as u8]
    } else {
        seq![(value % 128 + 128) as u8] + var_uint_bytes_within(value / 128, (limit - 1) as nat)
    }
}

/// The bytes that [`ClickhouseWrite::write_var_uint`] emits for `value`.
pub open spec fn var_uint_bytes(value: u64) -> Seq<u8> {
    var_uint_bytes_within(value as nat, 9)
}

/// The varint at the head of `bytes`, which must end within `limit` bytes.
pub open spec fn var_uint_decode_within(bytes: Seq<u8>, limit: nat) -> Decoded<nat>
    decreases limit,
{
    if limit == 0 {
        Decoded::Failed(ErrorKind::ProtocolError)
    } else if bytes.len() == 0 {
        Decoded::Failed(ErrorKind::Io)
    } else if bytes[0] < 128 {
        Decoded::Value { value: bytes[0] as nat, consumed: 1 }
    } else {
        match var_uint_decode_within(bytes.skip(1), (limit - 1) as nat) {
            Decoded::Value { value, consumed } => Decoded::Value {
                value: (bytes[0] - 128) as nat + 128 * value,
                consumed: consumed + 1,
            },
            other => other,
        }
    }
}

/// The varint at the head of `bytes`: a varint that has not ended after nine
/// bytes is malformed.
pub open spec fn var_uint_decode(bytes: Seq<u8>) -> Decoded<nat> {
    var_uint_decode_within(bytes, 9)
}

/// The length-prefixed byte string at the head of `bytes`.
pub open spec fn string_decode(bytes: Seq<u8>) -> Decoded<Seq<u8>> {
    match var_uint_decode(bytes) {
        Decoded::Value { value, consumed } => {
            if value > MAX_STRING_SIZE {
                Decoded::Failed(ErrorKind::ProtocolError)
            } else if bytes.len() < consumed + value {
                Decoded::Failed(ErrorKind::Io)
            } else {
                Decoded::Value {
                    value: bytes.subrange(consumed as int, (consumed + value) as int),
                    consumed: consumed + value,
                }
            }
        },
        Decoded::Failed(kind) => Decoded::Failed(kind),
    }
}

/// The encoding of a byte string: its length as a varint, then the bytes.
pub open spec fn string_bytes(value: Seq<u8>) -> Seq<u8> {
    var_uint_bytes(value.len() as u64) + value
}

/// A varint decoded within `limit` bytes is below `128^limit` and takes
/// between one and `limit` bytes, all of which are present.
pub proof fn lemma_var_uint_decode_bounds(bytes: Seq<u8>, limit: nat)
    ensures
        var_uint_decode_within(bytes, limit) matches Decoded::Value { value, consumed } ==> value
            < pow128(limit) && 1 <= consumed <= limit && consumed <= bytes.len(),
    decreases limit,
{
    if limit > 0 && bytes.len() > 0 {
        lemma_pow128_monotonic(0, (limit - 1) as nat);
        if bytes[0] >= 128 {
            lemma_var_uint_decode_bounds(bytes.skip(1), (limit - 1) as nat);
        }
    }
}

/// `128^9` is `2^63`.
pub proof fn lemma_pow128_nine()
    ensures
        pow128(0) == 1,
        pow128(8) == 0x100_0000_0000_0000,
        pow128(9) == 0x8000_0000_0000_0000,
{
    reveal_with_fuel(pow128, 10);
}

/// `128^n` grows with `n`.
pub proof fn lemma_pow128_monotonic(a: nat, b: nat)
    requires
        a <= b,
    ensures
        0 < pow128(a) <= pow128(b),
    decreases b,
{
    if b == 0 {
    } else if a == b {
        lemma_pow128_monotonic((a - 1) as nat, (b - 1) as nat);
    } else {
        lemma_pow128_monotonic(a, (b - 1) as nat);
    }
}

/// Decoding undoes encoding: a value below `128^limit`, encoded and followed
/// by any bytes, decodes to itself and takes exactly the encoded bytes.
pub proof fn lemma_var_uint_roundtrip_within(value: nat, limit: nat, rest: Seq<u8>)
    requires
        limit >= 1,
        value < pow128(limit),
    ensures
        1 <= var_uint_bytes_within(value, limit).len() <= limit,
        var_uint_decode_within(var_uint_bytes_within(value, limit) + rest, limit)
            == (Decoded::Value { value, consumed: var_uint_bytes_within(value, limit).len() }),
    decreases limit,
{
    let enc = var_uint_bytes_within(value, limit);
    if value < 128 {
        assert((enc + rest)[0] == value as u8);
    } else {
        assert(limit >= 2) by {
            if limit == 1 {
                reveal_with_fuel(pow128, 2);
            }
        }
        let tail = var_uint_bytes_within(value / 128, (limit - 1) as nat);
        assert(value / 128 < pow128((limit - 1) as nat)) by (nonlinear_arith)
            requires
                value < 128 * pow128((limit - 1) as nat),
        ;
        lemma_var_uint_roundtrip_within(value / 128, (limit - 1) as nat, rest);
        assert((enc + rest)[0] == (value % 128 + 128) as u8);
        assert((enc + rest).skip(1) =~= tail + rest);
        assert(value == value % 128 + 128 * (value / 128)) by (nonlinear_arith);
    }
}

/// The varint law: every value up to `2^63 - 1` is written in at most nine
/// bytes, and reading those bytes back, whatever follows them, yields the
/// value and consumes exactly what was written.
pub proof fn lemma_var_uint_roundtrip(value: u64, rest: Seq<u8>)
    requires
        value <= 0x7fff_ffff_ffff_ffff,
    ensures
        1 <= var_uint_bytes(value).len() <= 9,
        var_uint_decode(var_uint_bytes(value) + rest) == (Decoded::Value {
            value: value as nat,
            consumed: var_uint_bytes(value).len(),
        }),
{
    lemma_pow128_nine();
    lemma_var_uint_roundtrip_within(value as nat, 9, rest);
}

/// The string law: a byte string of at most `MAX_STRING_SIZE` bytes, written
/// and read back, whatever follows it, is the same byte string.
pub proof fn lemma_string_roundtrip(value: Seq<u8>, rest: Seq<u8>)
    requires
        value.len() <= MAX_STRING_SIZE,
    ensures
        string_decode(string_bytes(value) + rest) == (Decoded::Value {
            value,
            consumed: string_bytes(value).len(),
        }),
{
    let prefix = var_uint_bytes(value.len() as u64);
    lemma_var_uint_roundtrip(value.len() as u64, value + rest);
    assert(string_bytes(value) + rest =~= prefix + (value + rest));
    assert((string_bytes(value) + rest).subrange(
        prefix.len() as int,
        (prefix.len() + value.len()) as int,
    ) =~= value);
}

/// A cursor over a buffer of received bytes.
///
/// A read that fails consumes nothing, so the same read can be tried again
/// once more bytes have arrived.
pub struct ByteReader {
    data: Vec<u8>,
    pos: usize,
}

impl ByteReader {
    /// The bytes that have not been read yet.
    pub closed spec fn unread(&self) -> Seq<u8> {
        if self.pos <= self.data@.len() {
            self.data@.skip(self.pos as int)
        } else {
            Seq::empty()
        }
    }

    /// A reader positioned at the start of `data`.
    pub fn new(data: Vec<u8>) -> (r: Self)
        ensures
            r.unread() == data@,
    {
        ByteReader { data, pos: 0 }
    }

    /// The number of unread bytes.
    pub fn remaining(&self) -> (n: usize)
        ensures
            n == self.unread().len(),
    {
        if self.pos <= self.data.len() {
            self.data.len() - self.pos
        } else {
            0
        }
    }

    /// The unread byte at `offset`, if there is one; nothing is consumed.
    pub fn peek(&self, offset: usize) -> (r: Option<u8>)
        ensures
            r == if offset < self.unread().len() {
                Some(self.unread()[offset as int])
            } else {
                None::<u8>
            },
    {
        if self.pos <= self.data.len() && offset < self.data.len() - self.pos {
            Some(self.data[self.pos + offset])
        } else {
            None
        }
    }

    /// A copy of the `n` unread bytes from `offset` on; nothing is consumed.
    pub fn peek_bytes(&self, offset: usize, n: usize) -> (out: Vec<u8>)
        requires
            offset + n <= self.unread().len(),
        ensures
            out@ == self.unread().subrange(offset as int, offset + n),
    {
        let mut out: Vec<u8> = Vec::new();
        let mut i: usize = 0;
        let len = self.data.len();
        assert(n > 0 ==> self.unread().len() == len - self.pos);
        while i < n
            invariant
                i <= n,
                len == self.data@.len(),
                offset + n <= self.unread().len(),
                n > 0 ==> self.pos + offset + n <= len,
                out@ == self.unread().subrange(offset as int, offset + i),
            decreases n - i,
        {
            out.push(self.data[self.pos + offset + i]);
            i += 1;
            assert(out@ =~= self.unread().subrange(offset as int, offset + i));
        }
        out
    }

    /// Decodes the varint at the head of the unread bytes and says how many
    /// bytes it takes; nothing is consumed.
    pub fn peek_var_uint(&self) -> (r: Result<(u64, usize), KlickhouseError>)
        ensures
            match var_uint_decode(self.unread()) {
                Decoded::Value { value, consumed } => r == Ok::<(u64, usize), KlickhouseError>(
                    (value as u64, consumed as usize),
                ) && value <= 0x7fff_ffff_ffff_ffff && 1 <= consumed <= 9 && consumed
                    <= self.unread().len(),
                Decoded::Failed(kind) => r matches Err(e) && e.is_plain(kind),
            },
    {
        let ghost bytes = self.unread();
        let mut i: usize = 0;
        let mut out: u64 = 0;
        let mut scale: u64 = 1;
        proof {
            lemma_pow128_nine();
            lemma_var_uint_decode_bounds(bytes, 9);
            assert(bytes.skip(0) =~= bytes);
        }
        while i < 9
            invariant
                self.unread() == bytes,
                i <= 9,
                i <= bytes.len(),
                scale == pow128(i as nat),
                out < scale,
                var_uint_decode(bytes) == var_uint_resume(
                    var_uint_decode_within(bytes.skip(i as int), (9 - i) as nat),
                    out as nat,
                    scale as nat,
                    i as nat,
                ),
            decreases 9 - i,
        {
            proof {
                lemma_pow128_nine();
                lemma_pow128_monotonic(i as nat, 8);
                lemma_var_uint_decode_bounds(bytes, 9);
            }
            match self.peek(i) {
                None => {
                    return Err(end_of_input());
                },
                Some(b) => {
                    assert(bytes.skip(i as int)[0] == b);
                    assert(bytes.skip(i as int).skip(1) =~= bytes.skip(i + 1));
                    if b < 128 {
                        assert(b * scale < 128 * pow128(8) && b * scale == scale * b)
                            by (nonlinear_arith)
                            requires
                                b < 128,
                                0 < scale <= pow128(8),
                        ;
                        let value = out + (b as u64) * scale;
                        return Ok((value, i + 1));
                    }
                    assert((b - 128) * scale + scale <= 128 * scale && 128 * scale <= 128
                        * pow128(8)) by (nonlinear_arith)
                        requires
                            128 <= b < 256,
                            0 < scale <= pow128(8),
                    ;
                    let ghost rest = var_uint_decode_within(
                        bytes.skip(i + 1),
                        (9 - i - 1) as nat,
                    );
                    let ghost low = out as nat;
                    let ghost old_scale = scale as nat;
                    out = out + ((b - 128) as u64) * scale;
                    scale = scale * 128;
                    i += 1;
                    proof {
                        match rest {
                            Decoded::Value { value, consumed } => {
                                assert(low + old_scale * ((b - 128) as nat + 128 * value) == (low
                                    + (b - 128) as nat * old_scale) + (old_scale * 128) * value)
                                    by (nonlinear_arith);
                            },
                            _ => {},
                        }
                    }
                },
            }
        }
        Err(
            KlickhouseError::ProtocolError(
                "variable-length integer is longer than 9 bytes".to_owned(),
            ),
        )
    }

    /// Decodes the length-prefixed string at the head of the unread bytes and
    /// says how many bytes it takes, prefix included; nothing is consumed.
    pub fn peek_string(&self) -> (r: Result<(Vec<u8>, usize), KlickhouseError>)
        ensures
            match string_decode(self.unread()) {
                Decoded::Value { value, consumed } => (r matches Ok(p) && p.0@ == value && p.1
                    == consumed) && consumed <= self.unread().len(),
                Decoded::Failed(kind) => r matches Err(e) && e.is_plain(kind),
            },
    {
        let (len, prefix) = self.peek_var_uint()?;
        if len > MAX_STRING_SIZE as u64 {
            return Err(KlickhouseError::ProtocolError("string too large".to_owned()));
        }
        if len > (self.remaining() - prefix) as u64 {
            return Err(end_of_input());
        }
        let out = self.peek_bytes(prefix, len as usize);
        Ok((out, prefix + len as usize))
    }

    /// Consumes `n` unread bytes.
    pub fn advance(&mut self, n: usize)
        requires
            n <= old(self).unread().len(),
        ensures
            final(self).unread() == old(self).unread().skip(n as int),
    {
        if n > 0 {
            let len = self.data.len();
            assert(self.unread().len() == len - self.pos);
            self.pos = self.pos + n;
        }
        assert(self.unread() =~= old(self).unread().skip(n as int));
    }

    /// Reads one byte.
    pub fn read_u8(&mut self) -> (r: Result<u8, KlickhouseError>)
        ensures
            old(self).unread().len() >= 1 ==> r == Ok::<u8, KlickhouseError>(old(self).unread()[0])
                && final(self).unread() == old(self).unread().skip(1),
            old(self).unread().len() < 1 ==> (r matches Err(e) && e.is_plain(ErrorKind::Io))
                && final(self).unread() == old(self).unread(),
    {
        match self.peek(0) {
            Some(b) => {
                self.advance(1);
                Ok(b)
            },
            None => Err(end_of_input()),
        }
    }

    /// Reads exactly `n` bytes.
    pub fn read_exact(&mut self, n: usize) -> (r: Result<Vec<u8>, KlickhouseError>)
        ensures
            n <= old(self).unread().len() ==> (r matches Ok(v) && v@ == old(self).unread().take(
                n as int,
            )) && final(self).unread() == old(self).unread().skip(n as int),
            n > old(self).unread().len() ==> (r matches Err(e) && e.is_plain(ErrorKind::Io))
                && final(self).unread() == old(self).unread(),
    {
        if n > self.remaining() {
            return Err(end_of_input());
        }
        let out = self.peek_bytes(0, n);
        self.advance(n);
        assert(old(self).unread().subrange(0, n as int) =~= old(self).unread().take(n as int));
        Ok(out)
    }
}

/// A copy of `data[start..end]`.
pub fn copy_range(data: &[u8], start: usize, end: usize) -> (out: Vec<u8>)
    requires
        start <= end <= data@.len(),
    ensures
        out@ == data@.subrange(start as int, end as int),
{
    let mut out: Vec<u8> = Vec::new();
    let mut i: usize = start;
    while i < end
        invariant
            start <= i <= end <= data@.len(),
            out@ == data@.subrange(start as int, i as int),
        decreases end - i,
    {
        out.push(data[i]);
        i += 1;
        assert(out@ =~= data@.subrange(start as int, i as int));
    }
    out
}

/// Appends `bytes` to `out`.
pub fn append_bytes(out: &mut Vec<u8>, bytes: &[u8])
    ensures
        final(out)@ == old(out)@ + bytes@,
{
    out.extend_from_slice(bytes);
    assert(out@ =~= old(out)@ + bytes@);
}

/// The error of a read that found too few bytes.
pub fn end_of_input() -> (e: KlickhouseError)
    ensures
        e.says(ErrorKind::Io, "failed to fill whole buffer"@),
{
    KlickhouseError::Io("failed to fill whole buffer".to_owned())
}

/// `String::from_utf8`: succeeds exactly on well-formed UTF-8 and then holds
/// the characters that the bytes encode; the error is handed on as its text.
#[verifier::external_body]
pub(crate) fn string_from_utf8(bytes: Vec<u8>) -> (r: Result<String, String>)
    ensures
        r is Ok <==> valid_utf8(bytes@),
        r matches Ok(s) ==> s@ == decode_utf8(bytes@),
{
    match String::from_utf8(bytes) {
        Ok(s) => Ok(s),
        Err(e) => Err(format!("{e}")),
    }
}

/// Reading the wire primitives from a source of bytes.
pub trait ClickhouseRead {
    /// The bytes that this source will still deliver.
    spec fn pending(&self) -> Seq<u8>;

    /// Reads an unsigned varint. An encoding that has not ended after nine
    /// bytes is a protocol error; too few bytes are an I/O error. A failed
    /// read consumes nothing.
    fn read_var_uint(&mut self) -> (r: Result<u64, KlickhouseError>)
        ensures
            match var_uint_decode(old(self).pending()) {
                Decoded::Value { value, consumed } => r == Ok::<u64, KlickhouseError>(value as u64)
                    && value <= 0x7fff_ffff_ffff_ffff && consumed <= old(self).pending().len()
                    && final(self).pending() == old(self).pending().skip(consumed as int),
                Decoded::Failed(kind) => (r matches Err(e) && e.is_plain(kind))
                    && final(self).pending() == old(self).pending(),
            },
    ;

    /// Reads a length-prefixed byte string. A declared length above
    /// `MAX_STRING_SIZE` is a protocol error, raised before anything is
    /// allocated for the payload. A failed read consumes nothing.
    fn read_string(&mut self) -> (r: Result<Vec<u8>, KlickhouseError>)
        ensures
            match string_decode(old(self).pending()) {
                Decoded::Value { value, consumed } => (r matches Ok(v) && v@ == value) && consumed
                    <= old(self).pending().len()
                        && final(self).pending() == old(self).pending().skip(consumed as int),
                Decoded::Failed(kind) => (r matches Err(e) && e.is_plain(kind))
                    && final(self).pending() == old(self).pending(),
            },
    ;

    /// Reads a length-prefixed string and decodes it as UTF-8; bytes that are
    /// not UTF-8 are an error, never replaced. A failed read consumes nothing.
    fn read_utf8_string(&mut self) -> (r: Result<String, KlickhouseError>)
        ensures
            match string_decode(old(self).pending()) {
                Decoded::Value { value, consumed } => if valid_utf8(value) {
                    (r matches Ok(s) && s@ == decode_utf8(value))
                        && final(self).pending() == old(self).pending().skip(consumed as int)
                } else {
                    (r matches Err(e) && e.is_plain(ErrorKind::Utf8)) && final(self).pending()
                        == old(self).pending()
                },
                Decoded::Failed(kind) => (r matches Err(e) && e.is_plain(kind))
                    && final(self).pending() == old(self).pending(),
            },
    ;
}

/// What a prefix of continuation bytes contributes to the varint behind it.
pub open spec fn var_uint_resume(rest: Decoded<nat>, low: nat, scale: nat, taken: nat) -> Decoded<
    nat,
> {
    match rest {
        Decoded::Value { value, consumed } => Decoded::Value {
            value: low + scale * value,
            consumed: consumed + taken,
        },
        other => other,
    }
}

impl ClickhouseRead for ByteReader {
    open spec fn pending(&self) -> Seq<u8> {
        self.unread()
    }

    fn read_var_uint(&mut self) -> (r: Result<u64, KlickhouseError>) {
        let (value, consumed) = self.peek_var_uint()?;
        self.advance(consumed);
        Ok(value)
    }

    fn read_string(&mut self) -> (r: Result<Vec<u8>, KlickhouseError>) {
        let (value, consumed) = self.peek_string()?;
        self.advance(consumed);
        Ok(value)
    }

    fn read_utf8_string(&mut self) -> (r: Result<String, KlickhouseError>) {
        let (value, consumed) = self.peek_string()?;
        match string_from_utf8(value) {
            Ok(s) => {
                self.advance(consumed);
                Ok(s)
            },
            Err(text) => Err(KlickhouseError::Utf8(text)),
        }
    }
}

/// Writing the wire primitives to a sink of bytes.
pub trait ClickhouseWrite {
    /// The bytes written so far.
    spec fn written(&self) -> Seq<u8>;

    /// Appends the varint encoding of `value`.
    fn write_var_uint(&mut self, value: u64) -> (r: Result<(), KlickhouseError>)
        ensures
            r is Ok ==> final(self).written() == old(self).written() + var_uint_bytes(value),
    ;

    /// Appends the length of `value` as a varint, then `value`.
    fn write_string(&mut self, value: &[u8]) -> (r: Result<(), KlickhouseError>)
        ensures
            r is Ok ==> final(self).written() == old(self).written() + string_bytes(value@),
    ;
}

impl ClickhouseWrite for Vec<u8> {
    open spec fn written(&self) -> Seq<u8> {
        self@
    }

    fn write_var_uint(&mut self, value: u64) -> (r: Result<(), KlickhouseError>)
        ensures
            r is Ok,
    {
        let mut v: u64 = value;
        let mut i: usize = 0;
        assert(self@ + var_uint_bytes_within(v as nat, 9) =~= old(self)@ + var_uint_bytes(value));
        while i < 9
            invariant
                i <= 9,
                self@ + var_uint_bytes_within(v as nat, (9 - i) as nat) == old(self)@
                    + var_uint_bytes(value),
            decreases 9 - i,
        {
            let ghost before = self@;
            if v < 128 {
                self.push(v as u8);
                assert(self@ =~= before + var_uint_bytes_within(v as nat, (9 - i) as nat));
                return Ok(());
            }
            self.push((v % 128 + 128) as u8);
            assert(self@ + var_uint_bytes_within((v / 128) as nat, (9 - i - 1) as nat) =~= before
                + var_uint_bytes_within(v as nat, (9 - i) as nat));
            v = v / 128;
            i += 1;
        }
        assert(self@ + var_uint_bytes_within(v as nat, 0) =~= self@);
        Ok(())
    }

    fn write_string(&mut self, value: &[u8]) -> (r: Result<(), KlickhouseError>)
        ensures
            r is Ok,
    {
        let _ = self.write_var_uint(value.len() as u64);
        append_bytes(self, value);
        assert(self@ =~= old(self)@ + string_bytes(value@));
        Ok(())
    }
}

} // verus!

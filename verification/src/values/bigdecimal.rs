//! Conversions between column values and arbitrary-precision decimals.
//!
//! A decimal is held here by its parts: sign, magnitude of the unscaled
//! integer, and scale. The arithmetic is `bigdecimal`'s.

use crate::errors::{ErrorKind, KlickhouseError};
use crate::types::{Type, TypeModel};
use crate::values::{clone_bytes, u256, Value, ValueModel};
use vstd::prelude::*;

verus! {

/// An arbitrary-precision decimal: `unscaled * 10^-scale`, the unscaled
/// integer given by its sign and the big-endian bytes of its magnitude.
#[derive(Debug, Clone, PartialEq, Eq)]
pub struct DecimalParts {
    pub negative: bool,
    pub magnitude: Vec<u8>,
    pub scale: i64,
}

/// The number that big-endian bytes spell.
pub open spec fn be_value(bytes: Seq<u8>) -> nat
    decreases bytes.len(),
{
    if bytes.len() == 0 {
        0
    } else {
        be_value(bytes.drop_last()) * 256 + bytes.last() as nat
    }
}

/// The big-endian bytes of `n`, without leading zeros.
pub open spec fn be_digits(n: nat) -> Seq<u8>
    decreases n,
{
    if n == 0 {
        Seq::empty()
    } else {
        be_digits(n / 256).push((n % 256) as u8)
    }
}

/// Big-endian bytes spell the number they were made of.
pub proof fn lemma_be_digits_value(n: nat)
    ensures
        be_value(be_digits(n)) == n,
    decreases n,
{
    if n > 0 {
        lemma_be_digits_value(n / 256);
        assert(be_digits(n).drop_last() =~= be_digits(n / 256));
    }
}

impl DecimalParts {
    /// The unscaled integer.
    pub open spec fn unscaled(&self) -> int {
        if self.negative {
            -(be_value(self.magnitude@) as int)
        } else {
            be_value(self.magnitude@) as int
        }
    }
}

/// Appends the big-endian bytes of `n`, without leading zeros.
fn push_be_digits(out: &mut Vec<u8>, n: u128)
    ensures
        final(out)@ == old(out)@ + be_digits(n as nat),
    decreases n,
{
    if n == 0 {
        assert(out@ =~= old(out)@ + be_digits(n as nat));
    } else {
        push_be_digits(out, n / 256);
        out.push((n % 256) as u8);
        assert(out@ =~= old(out)@ + be_digits(n as nat));
    }
}

/// The decimal `unscaled * 10^-scale`.
pub fn decimal_of(unscaled: i128, scale: i64) -> (r: DecimalParts)
    ensures
        r.unscaled() == unscaled,
        r.scale == scale,
        r.negative == (unscaled < 0),
        r.magnitude@ == be_digits(
            (if unscaled < 0 {
                -unscaled
            } else {
                unscaled as int
            }) as nat,
        ),
{
    let negative = unscaled < 0;
    let magnitude: u128 = if negative {
        if unscaled == i128::MIN {
            0x8000_0000_0000_0000_0000_0000_0000_0000
        } else {
            (-unscaled) as u128
        }
    } else {
        unscaled as u128
    };
    let mut bytes: Vec<u8> = Vec::new();
    push_be_digits(&mut bytes, magnitude);
    proof {
        lemma_be_digits_value(magnitude as nat);
        assert(bytes@ =~= be_digits(magnitude as nat));
    }
    DecimalParts { negative, magnitude: bytes, scale }
}

/// The decimal of an unsigned integer.
pub fn decimal_of_unsigned(value: u128) -> (r: DecimalParts)
    ensures
        r.unscaled() == value,
        r.scale == 0,
        !r.negative,
        r.magnitude@ == be_digits(value as nat),
{
    let mut bytes: Vec<u8> = Vec::new();
    push_be_digits(&mut bytes, value);
    proof {
        lemma_be_digits_value(value as nat);
        assert(bytes@ =~= be_digits(value as nat));
    }
    DecimalParts { negative: false, magnitude: bytes, scale: 0 }
}

/// The decimal that a column value holds: the unscaled integer and the
/// scale, or nothing for a value that is no number.
pub open spec fn spec_from_sql(v: ValueModel) -> Option<(int, int)> {
    match v {
        ValueModel::Int8(x) => Some((x as int, 0)),
        ValueModel::Int16(x) => Some((x as int, 0)),
        ValueModel::Int32(x) => Some((x as int, 0)),
        ValueModel::Int64(x) => Some((x as int, 0)),
        ValueModel::Int128(x) => Some((x as int, 0)),
        ValueModel::UInt8(x) => Some((x as int, 0)),
        ValueModel::UInt16(x) => Some((x as int, 0)),
        ValueModel::UInt32(x) => Some((x as int, 0)),
        ValueModel::UInt64(x) => Some((x as int, 0)),
        ValueModel::UInt128(x) => Some((x as int, 0)),
        ValueModel::UInt256(bytes) => Some((be_value(bytes) as int, 0)),
        ValueModel::Decimal32(scale, x) => Some((x as int, (scale as i64) as int)),
        ValueModel::Decimal64(scale, x) => Some((x as int, (scale as i64) as int)),
        ValueModel::Decimal128(scale, x) => Some((x as int, (scale as i64) as int)),
        _ => None,
    }
}

/// The decimal that a column value holds. Integers have scale 0, decimals
/// the scale of the value; any other value is an unexpected-type error that
/// names `type_`.
pub fn from_sql(type_: &Type, value: Value) -> (r: Result<DecimalParts, KlickhouseError>)
    ensures
        match spec_from_sql(value@) {
            Some((unscaled, scale)) => r matches Ok(d) && d.unscaled() == unscaled && d.scale
                == scale,
            None => r matches Err(e) && (e matches KlickhouseError::UnexpectedType(t) && t@
                == type_@),
        },
{
    match value {
        Value::Int8(i) => Ok(decimal_of(i as i128, 0)),
        Value::Int16(i) => Ok(decimal_of(i as i128, 0)),
        Value::Int32(i) => Ok(decimal_of(i as i128, 0)),
        Value::Int64(i) => Ok(decimal_of(i as i128, 0)),
        Value::Int128(i) => Ok(decimal_of(i, 0)),
        Value::UInt8(i) => Ok(decimal_of_unsigned(i as u128)),
        Value::UInt16(i) => Ok(decimal_of_unsigned(i as u128)),
        Value::UInt32(i) => Ok(decimal_of_unsigned(i as u128)),
        Value::UInt64(i) => Ok(decimal_of_unsigned(i as u128)),
        Value::UInt128(i) => Ok(decimal_of_unsigned(i)),
        Value::UInt256(i) => {
            let mut bytes: Vec<u8> = Vec::new();
            let mut k: usize = 0;
            while k < 32
                invariant
                    k <= 32,
                    bytes@ == i.0@.take(k as int),
                decreases 32 - k,
            {
                bytes.push(i.0[k]);
                k += 1;
                assert(bytes@ =~= i.0@.take(k as int));
            }
            assert(i.0@.take(32) =~= i.0@);
            Ok(DecimalParts { negative: false, magnitude: bytes, scale: 0 })
        },
        Value::Decimal32(precision, value) => Ok(
            decimal_of(value as i128, #[verifier::truncate] (precision as i64)),
        ),
        Value::Decimal64(precision, value) => Ok(
            decimal_of(value as i128, #[verifier::truncate] (precision as i64)),
        ),
        Value::Decimal128(precision, value) => Ok(
            decimal_of(value, #[verifier::truncate] (precision as i64)),
        ),
        _ => Err(KlickhouseError::UnexpectedType(type_.clone())),
    }
}

/// The largest scale, either way, for which the conversions of `bigdecimal`
/// are asked for: they raise ten to the power of the scale, and a power of
/// ten of a million digits is one that every machine holds.
pub const MAX_DECIMAL_SCALE: i64 = 1_000_000;

/// Whether `scale` is one for which the conversions are asked for.
pub open spec fn scale_in_range(scale: i64) -> bool {
    -MAX_DECIMAL_SCALE <= scale <= MAX_DECIMAL_SCALE
}

/// Ten to the power of `n`.
pub open spec fn pow10(n: nat) -> nat
    decreases n,
{
    if n == 0 {
        1
    } else {
        10 * pow10((n - 1) as nat)
    }
}

/// The integer part of the decimal with these parts: the decimal without
/// its fraction, that is rounded toward zero.
pub open spec fn integer_part(negative: bool, magnitude: Seq<u8>, scale: i64) -> int {
    let unscaled = be_value(magnitude);
    let whole = if scale >= 0 {
        unscaled / pow10(scale as nat)
    } else {
        unscaled * pow10((-scale) as nat)
    };
    if negative {
        -(whole as int)
    } else {
        whole as int
    }
}

/// What `bigdecimal`'s `to_i64` makes of the decimal with these parts: its
/// integer part, where that is an `i64`.
pub open spec fn decimal_i64(negative: bool, magnitude: Seq<u8>, scale: i64) -> Option<i64> {
    let v = integer_part(negative, magnitude, scale);
    if i64::MIN <= v <= i64::MAX {
        Some(v as i64)
    } else {
        None
    }
}

/// What `bigdecimal`'s `to_i128` makes of the decimal with these parts: its
/// integer part, where that is an `i128`.
pub open spec fn decimal_i128(negative: bool, magnitude: Seq<u8>, scale: i64) -> Option<i128> {
    let v = integer_part(negative, magnitude, scale);
    if i128::MIN <= v <= i128::MAX {
        Some(v as i128)
    } else {
        None
    }
}

/// What `bigdecimal`'s `to_u64` makes of the decimal with these parts:
/// nothing for a decimal below zero, even where its integer part is zero;
/// else its integer part, where that is a `u64`.
pub open spec fn decimal_u64(negative: bool, magnitude: Seq<u8>, scale: i64) -> Option<u64> {
    let v = integer_part(negative, magnitude, scale);
    if negative && be_value(magnitude) != 0 {
        None
    } else if 0 <= v <= u64::MAX {
        Some(v as u64)
    } else {
        None
    }
}

/// What `bigdecimal`'s `to_u128` makes of the decimal with these parts:
/// nothing for a decimal below zero, even where its integer part is zero;
/// else its integer part, where that is a `u128`.
pub open spec fn decimal_u128(negative: bool, magnitude: Seq<u8>, scale: i64) -> Option<u128> {
    let v = integer_part(negative, magnitude, scale);
    if negative && be_value(magnitude) != 0 {
        None
    } else if 0 <= v <= u128::MAX {
        Some(v as u128)
    } else {
        None
    }
}

/// What `bigdecimal`'s `to_bigint` makes of the decimal with these parts:
/// its integer part, as whether it is below zero and the big-endian bytes
/// of its magnitude, without leading zeros; zero is one zero byte.
pub open spec fn decimal_integer(negative: bool, magnitude: Seq<u8>, scale: i64) -> Option<
    (bool, Seq<u8>),
> {
    let v = integer_part(negative, magnitude, scale);
    if v == 0 {
        Some((false, seq![0u8]))
    } else if v < 0 {
        Some((true, be_digits((-v) as nat)))
    } else {
        Some((false, be_digits(v as nat)))
    }
}

/// Whether `bigdecimal` finds the decimal with these parts equal to the
/// integer with that sign and magnitude.
pub uninterp spec fn decimal_is(
    negative: bool,
    magnitude: Seq<u8>,
    scale: i64,
    integer_negative: bool,
    integer_magnitude: Seq<u8>,
) -> bool;

/// `BigDecimal::to_i64`: the integer part of the decimal, rounded toward zero, where the
/// target holds it. The call raises ten to the power of the scale, so the
/// scale must be in range.
#[verifier::external_body]
fn to_i64(d: &DecimalParts) -> (r: Option<i64>)
    requires
        scale_in_range(d.scale),
    ensures
        r == decimal_i64(d.negative, d.magnitude@, d.scale),
{
    let sign = if d.negative {
        bigdecimal::num_bigint::Sign::Minus
    } else {
        bigdecimal::num_bigint::Sign::Plus
    };
    let digits = bigdecimal::num_bigint::BigInt::from_bytes_be(sign, &d.magnitude);
    bigdecimal::ToPrimitive::to_i64(&bigdecimal::BigDecimal::new(digits, d.scale))
}

/// `BigDecimal::to_i128`: the integer part of the decimal, rounded toward zero, where the
/// target holds it. The call raises ten to the power of the scale, so the
/// scale must be in range.
#[verifier::external_body]
fn to_i128(d: &DecimalParts) -> (r: Option<i128>)
    requires
        scale_in_range(d.scale),
    ensures
        r == decimal_i128(d.negative, d.magnitude@, d.scale),
{
    let sign = if d.negative {
        bigdecimal::num_bigint::Sign::Minus
    } else {
        bigdecimal::num_bigint::Sign::Plus
    };
    let digits = bigdecimal::num_bigint::BigInt::from_bytes_be(sign, &d.magnitude);
    bigdecimal::ToPrimitive::to_i128(&bigdecimal::BigDecimal::new(digits, d.scale))
}

/// `BigDecimal::to_u64`: nothing for a decimal below zero; else the integer part of the
/// decimal, where the target holds it. The call raises ten to the power of
/// the scale, so the scale must be in range.
#[verifier::external_body]
fn to_u64(d: &DecimalParts) -> (r: Option<u64>)
    requires
        scale_in_range(d.scale),
    ensures
        r == decimal_u64(d.negative, d.magnitude@, d.scale),
{
    let sign = if d.negative {
        bigdecimal::num_bigint::Sign::Minus
    } else {
        bigdecimal::num_bigint::Sign::Plus
    };
    let digits = bigdecimal::num_bigint::BigInt::from_bytes_be(sign, &d.magnitude);
    bigdecimal::ToPrimitive::to_u64(&bigdecimal::BigDecimal::new(digits, d.scale))
}

/// `BigDecimal::to_u128`: nothing for a decimal below zero; else the integer part of the
/// decimal, where the target holds it. The call raises ten to the power of
/// the scale, so the scale must be in range.
#[verifier::external_body]
fn to_u128(d: &DecimalParts) -> (r: Option<u128>)
    requires
        scale_in_range(d.scale),
    ensures
        r == decimal_u128(d.negative, d.magnitude@, d.scale),
{
    let sign = if d.negative {
        bigdecimal::num_bigint::Sign::Minus
    } else {
        bigdecimal::num_bigint::Sign::Plus
    };
    let digits = bigdecimal::num_bigint::BigInt::from_bytes_be(sign, &d.magnitude);
    bigdecimal::ToPrimitive::to_u128(&bigdecimal::BigDecimal::new(digits, d.scale))
}

/// `BigDecimal::to_bigint`: the integer part of the decimal, rounded toward
/// zero, by sign and big-endian magnitude as `BigInt::to_bytes_be` gives
/// them. The call raises ten to the power of the scale, so the scale must
/// be in range.
#[verifier::external_body]
fn to_bigint(d: &DecimalParts) -> (r: Option<(bool, Vec<u8>)>)
    requires
        scale_in_range(d.scale),
    ensures
        match r {
            Some(p) => decimal_integer(d.negative, d.magnitude@, d.scale) == Some((p.0, p.1@)),
            None => decimal_integer(d.negative, d.magnitude@, d.scale) is None,
        },
{
    let sign = if d.negative {
        bigdecimal::num_bigint::Sign::Minus
    } else {
        bigdecimal::num_bigint::Sign::Plus
    };
    let digits = bigdecimal::num_bigint::BigInt::from_bytes_be(sign, &d.magnitude);
    match bigdecimal::num_bigint::ToBigInt::to_bigint(&bigdecimal::BigDecimal::new(digits, d.scale)) {
        Some(i) => {
            let (sign, bytes) = i.to_bytes_be();
            Some((sign == bigdecimal::num_bigint::Sign::Minus, bytes))
        },
        None => None,
    }
}

/// `BigDecimal::eq` against the decimal made of an integer: the result is
/// a function of the two.
#[verifier::external_body]
fn equals_integer(d: &DecimalParts, negative: bool, magnitude: &Vec<u8>) -> (r: bool)
    requires
        scale_in_range(d.scale),
    ensures
        r == decimal_is(d.negative, d.magnitude@, d.scale, negative, magnitude@),
{
    let sign = if d.negative {
        bigdecimal::num_bigint::Sign::Minus
    } else {
        bigdecimal::num_bigint::Sign::Plus
    };
    let digits = bigdecimal::num_bigint::BigInt::from_bytes_be(sign, &d.magnitude);
    let other_sign = if negative {
        bigdecimal::num_bigint::Sign::Minus
    } else {
        bigdecimal::num_bigint::Sign::Plus
    };
    let other = bigdecimal::num_bigint::BigInt::from_bytes_be(other_sign, magnitude);
    bigdecimal::BigDecimal::from(other) == bigdecimal::BigDecimal::new(digits, d.scale)
}

/// What `bigdecimal` says of a decimal: its scale, the integers it
/// converts to, its integer part, and whether it equals its integer part.
#[derive(Debug, Clone, PartialEq, Eq)]
pub struct Conversions {
    pub scale: i64,
    pub as_i64: Option<i64>,
    pub as_i128: Option<i128>,
    pub as_u64: Option<u64>,
    pub as_u128: Option<u128>,
    /// The big-endian magnitude of the integer part.
    pub integer: Option<Vec<u8>>,
    pub is_integer: bool,
}

/// What `bigdecimal` says of the decimal `d`.
pub open spec fn conversions_of(d: DecimalParts, c: Conversions) -> bool {
    &&& c.scale == d.scale
    &&& c.as_i64 == decimal_i64(d.negative, d.magnitude@, d.scale)
    &&& c.as_i128 == decimal_i128(d.negative, d.magnitude@, d.scale)
    &&& c.as_u64 == decimal_u64(d.negative, d.magnitude@, d.scale)
    &&& c.as_u128 == decimal_u128(d.negative, d.magnitude@, d.scale)
    &&& match decimal_integer(d.negative, d.magnitude@, d.scale) {
        Some((negative, magnitude)) => c.integer matches Some(m) && m@ == magnitude
            && c.is_integer == decimal_is(
            d.negative,
            d.magnitude@,
            d.scale,
            negative,
            magnitude,
        ),
        None => c.integer is None && !c.is_integer,
    }
}

/// Asks `bigdecimal` what it says of the decimal `d`; nothing for a decimal
/// whose scale is out of range.
pub fn convert(d: &DecimalParts) -> (r: Option<Conversions>)
    ensures
        match r {
            Some(c) => scale_in_range(d.scale) && conversions_of(*d, c),
            None => !scale_in_range(d.scale),
        },
{
    if d.scale < -MAX_DECIMAL_SCALE || d.scale > MAX_DECIMAL_SCALE {
        return None;
    }
    let (integer, is_integer) = match to_bigint(d) {
        Some((negative, magnitude)) => {
            let same = equals_integer(d, negative, &magnitude);
            (Some(magnitude), same)
        },
        None => (None, false),
    };
    Some(
        Conversions {
            scale: d.scale,
            as_i64: to_i64(d),
            as_i128: to_i128(d),
            as_u64: to_u64(d),
            as_u128: to_u128(d),
            integer,
            is_integer,
        },
    )
}

/// `slice` at the end of 32 bytes, zeros in front of it.
pub open spec fn spec_pad_with_zeros(slice: Seq<u8>) -> Option<Seq<u8>> {
    if slice.len() > 32 {
        None
    } else {
        Some(Seq::new(32, |i: int| 0u8).take(32 - slice.len()) + slice)
    }
}

/// Pads `slice` with zeros in front, to `length` bytes, which must be 32. A
/// slice that is longer is an error.
pub fn pad_with_zeros(slice: &[u8], length: usize) -> (r: Result<[u8; 32], &'static str>)
    requires
        length == 32,
    ensures
        match spec_pad_with_zeros(slice@) {
            Some(bytes) => r matches Ok(array) && array@ == bytes,
            None => r is Err,
        },
{
    if slice.len() > length {
        return Err("slice length is greater than the required length");
    }
    let mut array = [0u8; 32];
    let start = length - slice.len();
    let mut i: usize = 0;
    while i < slice.len()
        invariant
            i <= slice@.len(),
            start == 32 - slice@.len(),
            array@.len() == 32,
            forall|k: int| 0 <= k < start ==> array@[k] == 0,
            forall|k: int| 0 <= k < i ==> array@[start + k] == slice@[k],
        decreases slice@.len() - i,
    {
        array[start + i] = slice[i];
        i += 1;
    }
    assert(array@ =~= spec_pad_with_zeros(slice@)->0);
    Ok(array)
}

/// The column value of a decimal, by the type that is asked for.
///
/// Without a type, a decimal that equals its integer part becomes a
/// `Decimal128` of its scale. For a decimal type whose scale is not below
/// that of the decimal, and for an integer type, the value is the integer
/// that `bigdecimal` converts the decimal to, where it is in range.
pub open spec fn spec_to_sql(hint: Option<TypeModel>, c: Conversions) -> Option<ValueModel> {
    match hint {
        None => if c.integer is Some && c.is_integer {
            match c.as_i128 {
                Some(v) => Some(ValueModel::Decimal128((c.scale as usize) as nat, v)),
                None => None,
            }
        } else {
            None
        },
        Some(TypeModel::Decimal32(scale)) => if (scale as usize) as i64 >= c.scale {
            match c.as_i64 {
                Some(v) => if i32::MIN <= v <= i32::MAX {
                    Some(ValueModel::Decimal32(scale, v as i32))
                } else {
                    None
                },
                None => None,
            }
        } else {
            None
        },
        Some(TypeModel::Decimal64(scale)) => if (scale as usize) as i64 >= c.scale {
            match c.as_i64 {
                Some(v) => Some(ValueModel::Decimal64(scale, v)),
                None => None,
            }
        } else {
            None
        },
        Some(TypeModel::Decimal128(scale)) => if (scale as usize) as i64 >= c.scale {
            match c.as_i128 {
                Some(v) => Some(ValueModel::Decimal128(scale, v)),
                None => None,
            }
        } else {
            None
        },
        Some(TypeModel::UInt8) => match c.as_u64 {
            Some(v) => if v <= u8::MAX {
                Some(ValueModel::UInt8(v as u8))
            } else {
                None
            },
            None => None,
        },
        Some(TypeModel::Int8) => match c.as_i64 {
            Some(v) => if i8::MIN <= v <= i8::MAX {
                Some(ValueModel::Int8(v as i8))
            } else {
                None
            },
            None => None,
        },
        Some(TypeModel::UInt16) => match c.as_u64 {
            Some(v) => if v <= u16::MAX {
                Some(ValueModel::UInt16(v as u16))
            } else {
                None
            },
            None => None,
        },
        Some(TypeModel::Int16) => match c.as_i64 {
            Some(v) => if i16::MIN <= v <= i16::MAX {
                Some(ValueModel::Int16(v as i16))
            } else {
                None
            },
            None => None,
        },
        Some(TypeModel::UInt32) => match c.as_u64 {
            Some(v) => if v <= u32::MAX {
                Some(ValueModel::UInt32(v as u32))
            } else {
                None
            },
            None => None,
        },
        Some(TypeModel::Int32) => match c.as_i64 {
            Some(v) => if i32::MIN <= v <= i32::MAX {
                Some(ValueModel::Int32(v as i32))
            } else {
                None
            },
            None => None,
        },
        Some(TypeModel::UInt64) => match c.as_u64 {
            Some(v) => Some(ValueModel::UInt64(v)),
            None => None,
        },
        Some(TypeModel::Int64) => match c.as_i64 {
            Some(v) => Some(ValueModel::Int64(v)),
            None => None,
        },
        Some(TypeModel::UInt128) => match c.as_u128 {
            Some(v) => Some(ValueModel::UInt128(v)),
            None => None,
        },
        Some(TypeModel::Int128) => match c.as_i128 {
            Some(v) => Some(ValueModel::Int128(v)),
            None => None,
        },
        Some(TypeModel::UInt256) => match c.integer {
            Some(magnitude) => match spec_pad_with_zeros(magnitude@) {
                Some(bytes) => Some(ValueModel::UInt256(bytes)),
                None => None,
            },
            None => None,
        },
        Some(_) => None,
    }
}

/// The error of a decimal that has no value of the type asked for.
fn out_of_range(text: &str) -> (e: KlickhouseError)
    ensures
        e.says(ErrorKind::SerializeError, text@),
{
    KlickhouseError::SerializeError(text.to_owned())
}

/// The column value for what `bigdecimal` says of a decimal, by the type
/// that is asked for; a decimal that has no value of that type is a
/// serialize error.
pub fn to_sql_with(c: &Conversions, type_hint: Option<&Type>) -> (r: Result<
    Value,
    KlickhouseError,
>)
    ensures
        match spec_to_sql(
            match type_hint {
                Some(t) => Some(t@),
                None => None,
            },
            *c,
        ) {
            Some(v) => r matches Ok(value) && value@ == v,
            None => r matches Err(e) && e.kind() == ErrorKind::SerializeError,
        },
{
    match type_hint {
        None => {
            if c.integer.is_none() || !c.is_integer {
                return Err(out_of_range("Decimal128 out of bounds for rust_decimal"));
            }
            match c.as_i128 {
                Some(v) => Ok(Value::Decimal128(#[verifier::truncate] (c.scale as usize), v)),
                None => Err(out_of_range("Decimal128 out of bounds for rust_decimal")),
            }
        },
        Some(Type::Decimal32(scale)) => {
            if #[verifier::truncate] (*scale as i64) >= c.scale {
                match c.as_i64 {
                    Some(v) => {
                        if v >= i32::MIN as i64 && v <= i32::MAX as i64 {
                            return Ok(Value::Decimal32(*scale, v as i32));
                        }
                    },
                    None => {},
                }
            }
            Err(out_of_range("Decimal32 out of bounds for rust_decimal"))
        },
        Some(Type::Decimal64(scale)) => {
            if #[verifier::truncate] (*scale as i64) >= c.scale {
                match c.as_i64 {
                    Some(v) => {
                        return Ok(Value::Decimal64(*scale, v));
                    },
                    None => {},
                }
            }
            Err(out_of_range("Decimal64 out of bounds for rust_decimal"))
        },
        Some(Type::Decimal128(scale)) => {
            if #[verifier::truncate] (*scale as i64) >= c.scale {
                match c.as_i128 {
                    Some(v) => {
                        return Ok(Value::Decimal128(*scale, v));
                    },
                    None => {},
                }
            }
            Err(out_of_range("Decimal128 out of bounds for rust_decimal"))
        },
        Some(Type::UInt8) => match c.as_u64 {
            Some(v) if v <= u8::MAX as u64 => Ok(Value::UInt8(v as u8)),
            _ => Err(out_of_range("UInt8 out of bounds for rust_decimal")),
        },
        Some(Type::Int8) => match c.as_i64 {
            Some(v) if v >= i8::MIN as i64 && v <= i8::MAX as i64 => Ok(Value::Int8(v as i8)),
            _ => Err(out_of_range("Int8 out of bounds for rust_decimal")),
        },
        Some(Type::UInt16) => match c.as_u64 {
            Some(v) if v <= u16::MAX as u64 => Ok(Value::UInt16(v as u16)),
            _ => Err(out_of_range("UInt16 out of bounds for rust_decimal")),
        },
        Some(Type::Int16) => match c.as_i64 {
            Some(v) if v >= i16::MIN as i64 && v <= i16::MAX as i64 => Ok(Value::Int16(v as i16)),
            _ => Err(out_of_range("Int16 out of bounds for rust_decimal")),
        },
        Some(Type::UInt32) => match c.as_u64 {
            Some(v) if v <= u32::MAX as u64 => Ok(Value::UInt32(v as u32)),
            _ => Err(out_of_range("UInt32 out of bounds for rust_decimal")),
        },
        Some(Type::Int32) => match c.as_i64 {
            Some(v) if v >= i32::MIN as i64 && v <= i32::MAX as i64 => Ok(Value::Int32(v as i32)),
            _ => Err(out_of_range("Int32 out of bounds for rust_decimal")),
        },
        Some(Type::UInt64) => match c.as_u64 {
            Some(v) => Ok(Value::UInt64(v)),
            None => Err(out_of_range("UInt64 out of bounds for rust_decimal")),
        },
        Some(Type::Int64) => match c.as_i64 {
            Some(v) => Ok(Value::Int64(v)),
            None => Err(out_of_range("Int64 out of bounds for rust_decimal")),
        },
        Some(Type::UInt128) => match c.as_u128 {
            Some(v) => Ok(Value::UInt128(v)),
            None => Err(out_of_range("UInt128 out of bounds for rust_decimal")),
        },
        Some(Type::Int128) => match c.as_i128 {
            Some(v) => Ok(Value::Int128(v)),
            None => Err(out_of_range("Int128 out of bounds for rust_decimal")),
        },
        Some(Type::UInt256) => {
            let magnitude = match &c.integer {
                Some(m) => m,
                None => {
                    return Err(out_of_range("UInt256 out of bounds for rust_decimal"));
                },
            };
            match pad_with_zeros(magnitude.as_slice(), 32) {
                Ok(bytes) => Ok(Value::UInt256(u256(bytes))),
                Err(_) => Err(out_of_range("UInt256 out of bounds for rust_decimal")),
            }
        },
        Some(_) => Err(out_of_range("unexpected type")),
    }
}

/// The column value of the decimal `d`, by the type that is asked for: what
/// [`to_sql_with`] makes of what `bigdecimal` says of `d`. A decimal whose
/// scale is out of range is a serialize error.
pub fn to_sql(d: &DecimalParts, type_hint: Option<&Type>) -> (r: Result<Value, KlickhouseError>)
    ensures
        !scale_in_range(d.scale) ==> (r matches Err(e) && e.says(
            ErrorKind::SerializeError,
            "the scale of the decimal is out of range"@,
        )),
        scale_in_range(d.scale) ==> exists|c: Conversions|
            conversions_of(*d, c) && (match spec_to_sql(
                match type_hint {
                    Some(t) => Some(t@),
                    None => None,
                },
                c,
            ) {
                Some(v) => r matches Ok(value) && value@ == v,
                None => r matches Err(e) && e.kind() == ErrorKind::SerializeError,
            }),
{
    match convert(d) {
        Some(c) => to_sql_with(&c, type_hint),
        None => Err(out_of_range("the scale of the decimal is out of range")),
    }
}

} // verus!

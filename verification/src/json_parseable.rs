//! Reading a query field's JSON value as the value type of a rule.

use vstd::prelude::*;
use crate::values::{F32Key, F64Key, Timestamp};
use crate::json::JsonScalar;
use crate::datetime::{as_timestamp, fixed_datetime_parsed, parse_fixed_datetime};

verus! {

/// Why a JSON value could not be read as a rule's value type.
#[derive(Clone, Copy, Debug, PartialEq, Eq)]
pub enum ConversionError {
    NotI64,
    NotU64,
    NotF64,
    NotBool,
    NotString,
    /// The integer does not fit the rule's integer type.
    OutOfRange,
    /// The string is not a date-time in `QUERY_DATETIME_FORMAT`.
    DateTimeFormat,
}

/// The format of date-times in queries: day, month, year, `T`, time and the
/// UTC offset as `+hh:mm`.
pub open spec fn query_datetime_format() -> Seq<char> {
    seq!['%', 'd', '.', '%', 'm', '.', '%', 'Y', 'T', '%', 'H', ':', '%', 'M', ':', '%', 'S', '%', ':', 'z']
}

/// A value type that a query field can be read as.
pub trait JsonParseable: Sized {
    spec fn parse_spec(json: JsonScalar) -> Result<Self, ConversionError>;

    fn parse(json: &JsonScalar) -> (r: Result<Self, ConversionError>)
        ensures
            r == Self::parse_spec(*json),
    ;
}

impl JsonParseable for i64 {
    open spec fn parse_spec(json: JsonScalar) -> Result<Self, ConversionError> {
        match json.spec_as_i64() {
            Some(v) => Ok(v),
            None => Err(ConversionError::NotI64),
        }
    }

    fn parse(json: &JsonScalar) -> (r: Result<Self, ConversionError>) {
        match json.as_i64() {
            Some(v) => Ok(v),
            None => Err(ConversionError::NotI64),
        }
    }
}

impl JsonParseable for u64 {
    open spec fn parse_spec(json: JsonScalar) -> Result<Self, ConversionError> {
        match json.spec_as_u64() {
            Some(v) => Ok(v),
            None => Err(ConversionError::NotU64),
        }
    }

    fn parse(json: &JsonScalar) -> (r: Result<Self, ConversionError>) {
        match json.as_u64() {
            Some(v) => Ok(v),
            None => Err(ConversionError::NotU64),
        }
    }
}

impl JsonParseable for u8 {
    /// The u64 reading, when it fits a `u8`.
    open spec fn parse_spec(json: JsonScalar) -> Result<Self, ConversionError> {
        match json.spec_as_u64() {
            Some(v) => if v <= 255 {
                Ok(v as u8)
            } else {
                Err(ConversionError::OutOfRange)
            },
            None => Err(ConversionError::NotU64),
        }
    }

    fn parse(json: &JsonScalar) -> (r: Result<Self, ConversionError>) {
        match json.as_u64() {
            Some(v) => if v <= 255 {
                Ok(v as u8)
            } else {
                Err(ConversionError::OutOfRange)
            },
            None => Err(ConversionError::NotU64),
        }
    }
}

impl JsonParseable for u16 {
    /// The u64 reading, when it fits a `u16`.
    open spec fn parse_spec(json: JsonScalar) -> Result<Self, ConversionError> {
        match json.spec_as_u64() {
            Some(v) => if v <= 65535 {
                Ok(v as u16)
            } else {
                Err(ConversionError::OutOfRange)
            },
            None => Err(ConversionError::NotU64),
        }
    }

    fn parse(json: &JsonScalar) -> (r: Result<Self, ConversionError>) {
        match json.as_u64() {
            Some(v) => if v <= 65535 {
                Ok(v as u16)
            } else {
                Err(ConversionError::OutOfRange)
            },
            None => Err(ConversionError::NotU64),
        }
    }
}

impl JsonParseable for u32 {
    /// The u64 reading, when it fits a `u32`.
    open spec fn parse_spec(json: JsonScalar) -> Result<Self, ConversionError> {
        match json.spec_as_u64() {
            Some(v) => if v <= 4294967295 {
                Ok(v as u32)
            } else {
                Err(ConversionError::OutOfRange)
            },
            None => Err(ConversionError::NotU64),
        }
    }

    fn parse(json: &JsonScalar) -> (r: Result<Self, ConversionError>) {
        match json.as_u64() {
            Some(v) => if v <= 4294967295 {
                Ok(v as u32)
            } else {
                Err(ConversionError::OutOfRange)
            },
            None => Err(ConversionError::NotU64),
        }
    }
}

impl JsonParseable for i8 {
    /// The i64 reading, when it fits a `i8`.
    open spec fn parse_spec(json: JsonScalar) -> Result<Self, ConversionError> {
        match json.spec_as_i64() {
            Some(v) => if -128 <= v && v <= 127 {
                Ok(v as i8)
            } else {
                Err(ConversionError::OutOfRange)
            },
            None => Err(ConversionError::NotI64),
        }
    }

    fn parse(json: &JsonScalar) -> (r: Result<Self, ConversionError>) {
        match json.as_i64() {
            Some(v) => if -128 <= v && v <= 127 {
                Ok(v as i8)
            } else {
                Err(ConversionError::OutOfRange)
            },
            None => Err(ConversionError::NotI64),
        }
    }
}

impl JsonParseable for i16 {
    /// The i64 reading, when it fits a `i16`.
    open spec fn parse_spec(json: JsonScalar) -> Result<Self, ConversionError> {
        match json.spec_as_i64() {
            Some(v) => if -32768 <= v && v <= 32767 {
                Ok(v as i16)
            } else {
                Err(ConversionError::OutOfRange)
            },
            None => Err(ConversionError::NotI64),
        }
    }

    fn parse(json: &JsonScalar) -> (r: Result<Self, ConversionError>) {
        match json.as_i64() {
            Some(v) => if -32768 <= v && v <= 32767 {
                Ok(v as i16)
            } else {
                Err(ConversionError::OutOfRange)
            },
            None => Err(ConversionError::NotI64),
        }
    }
}

impl JsonParseable for i32 {
    /// The i64 reading, when it fits a `i32`.
    open spec fn parse_spec(json: JsonScalar) -> Result<Self, ConversionError> {
        match json.spec_as_i64() {
            Some(v) => if -2147483648 <= v && v <= 2147483647 {
                Ok(v as i32)
            } else {
                Err(ConversionError::OutOfRange)
            },
            None => Err(ConversionError::NotI64),
        }
    }

    fn parse(json: &JsonScalar) -> (r: Result<Self, ConversionError>) {
        match json.as_i64() {
            Some(v) => if -2147483648 <= v && v <= 2147483647 {
                Ok(v as i32)
            } else {
                Err(ConversionError::OutOfRange)
            },
            None => Err(ConversionError::NotI64),
        }
    }
}

impl JsonParseable for F64Key {
    open spec fn parse_spec(json: JsonScalar) -> Result<Self, ConversionError> {
        match json.spec_as_f64() {
            Some(f) => Ok(F64Key(f.as_f64)),
            None => Err(ConversionError::NotF64),
        }
    }

    fn parse(json: &JsonScalar) -> (r: Result<Self, ConversionError>) {
        match json.as_f64() {
            Some(f) => Ok(F64Key(f.as_f64)),
            None => Err(ConversionError::NotF64),
        }
    }
}

impl JsonParseable for F32Key {
    /// The f64 reading, rounded to `f32`.
    open spec fn parse_spec(json: JsonScalar) -> Result<Self, ConversionError> {
        match json.spec_as_f64() {
            Some(f) => Ok(F32Key(f.as_f32)),
            None => Err(ConversionError::NotF64),
        }
    }

    fn parse(json: &JsonScalar) -> (r: Result<Self, ConversionError>) {
        match json.as_f64() {
            Some(f) => Ok(F32Key(f.as_f32)),
            None => Err(ConversionError::NotF64),
        }
    }
}

impl JsonParseable for bool {
    open spec fn parse_spec(json: JsonScalar) -> Result<Self, ConversionError> {
        match json.spec_as_bool() {
            Some(b) => Ok(b),
            None => Err(ConversionError::NotBool),
        }
    }

    fn parse(json: &JsonScalar) -> (r: Result<Self, ConversionError>) {
        match json.as_bool() {
            Some(b) => Ok(b),
            None => Err(ConversionError::NotBool),
        }
    }
}

impl JsonParseable for String {
    open spec fn parse_spec(json: JsonScalar) -> Result<Self, ConversionError> {
        match json {
            JsonScalar::Str(s) => Ok(s),
            _ => Err(ConversionError::NotString),
        }
    }

    fn parse(json: &JsonScalar) -> (r: Result<Self, ConversionError>) {
        match json {
            JsonScalar::Str(s) => Ok(s.clone()),
            _ => Err(ConversionError::NotString),
        }
    }
}

impl JsonParseable for Timestamp {
    /// A string holding a date-time in the query format, taken as the
    /// instant it denotes.
    open spec fn parse_spec(json: JsonScalar) -> Result<Self, ConversionError> {
        match json {
            JsonScalar::Str(s) => match as_timestamp(fixed_datetime_parsed(s@, query_datetime_format())) {
                Some(t) => Ok(t),
                None => Err(ConversionError::DateTimeFormat),
            },
            _ => Err(ConversionError::NotString),
        }
    }

    fn parse(json: &JsonScalar) -> (r: Result<Self, ConversionError>) {
        match json {
            JsonScalar::Str(s) => {
                let format = "%d.%m.%YT%H:%M:%S%:z";
                proof {
                    reveal_strlit("%d.%m.%YT%H:%M:%S%:z");
                }
                assert(format@ =~= query_datetime_format());
                match parse_fixed_datetime(s.as_str(), format) {
                    Some(t) => Ok(t),
                    None => Err(ConversionError::DateTimeFormat),
                }
            },
            _ => Err(ConversionError::NotString),
        }
    }
}

/// A query integer is read as an unsigned integer type exactly when the
/// type holds it: then as itself, and as `OutOfRange` when it is too big;
/// whether the JSON reader gave it as signed or unsigned does not matter, and
/// a negative one is no unsigned integer.
pub proof fn law_unsigned_reading(v: u64, w: i64)
    ensures
        u64::parse_spec(JsonScalar::U64(v)) == Ok::<u64, ConversionError>(v),
        v <= u32::MAX ==> u32::parse_spec(JsonScalar::U64(v)) == Ok::<u32, ConversionError>(v as u32),
        v > u32::MAX ==> u32::parse_spec(JsonScalar::U64(v)) == Err::<u32, ConversionError>(
            ConversionError::OutOfRange,
        ),
        v <= u16::MAX ==> u16::parse_spec(JsonScalar::U64(v)) == Ok::<u16, ConversionError>(v as u16),
        v > u16::MAX ==> u16::parse_spec(JsonScalar::U64(v)) == Err::<u16, ConversionError>(
            ConversionError::OutOfRange,
        ),
        v <= u8::MAX ==> u8::parse_spec(JsonScalar::U64(v)) == Ok::<u8, ConversionError>(v as u8),
        v > u8::MAX ==> u8::parse_spec(JsonScalar::U64(v)) == Err::<u8, ConversionError>(
            ConversionError::OutOfRange,
        ),
        w >= 0 ==> u64::parse_spec(JsonScalar::I64(w)) == u64::parse_spec(JsonScalar::U64(w as u64))
            && u32::parse_spec(JsonScalar::I64(w)) == u32::parse_spec(JsonScalar::U64(w as u64))
            && u16::parse_spec(JsonScalar::I64(w)) == u16::parse_spec(JsonScalar::U64(w as u64))
            && u8::parse_spec(JsonScalar::I64(w)) == u8::parse_spec(JsonScalar::U64(w as u64)),
        w < 0 ==> u64::parse_spec(JsonScalar::I64(w)) == Err::<u64, ConversionError>(ConversionError::NotU64)
            && u32::parse_spec(JsonScalar::I64(w)) == Err::<u32, ConversionError>(ConversionError::NotU64)
            && u16::parse_spec(JsonScalar::I64(w)) == Err::<u16, ConversionError>(ConversionError::NotU64)
            && u8::parse_spec(JsonScalar::I64(w)) == Err::<u8, ConversionError>(ConversionError::NotU64),
{
}

/// A query integer is read as a signed integer type exactly when the type
/// holds it: then as itself, and as `OutOfRange` outside the type's range;
/// an unsigned JSON number is read as the same signed one when it fits `i64`.
pub proof fn law_signed_reading(w: i64, v: u64)
    ensures
        i64::parse_spec(JsonScalar::I64(w)) == Ok::<i64, ConversionError>(w),
        i32::MIN <= w <= i32::MAX ==> i32::parse_spec(JsonScalar::I64(w)) == Ok::<i32, ConversionError>(w as i32),
        !(i32::MIN <= w <= i32::MAX) ==> i32::parse_spec(JsonScalar::I64(w)) == Err::<i32, ConversionError>(
            ConversionError::OutOfRange,
        ),
        i16::MIN <= w <= i16::MAX ==> i16::parse_spec(JsonScalar::I64(w)) == Ok::<i16, ConversionError>(w as i16),
        !(i16::MIN <= w <= i16::MAX) ==> i16::parse_spec(JsonScalar::I64(w)) == Err::<i16, ConversionError>(
            ConversionError::OutOfRange,
        ),
        i8::MIN <= w <= i8::MAX ==> i8::parse_spec(JsonScalar::I64(w)) == Ok::<i8, ConversionError>(w as i8),
        !(i8::MIN <= w <= i8::MAX) ==> i8::parse_spec(JsonScalar::I64(w)) == Err::<i8, ConversionError>(
            ConversionError::OutOfRange,
        ),
        v <= i64::MAX ==> i64::parse_spec(JsonScalar::U64(v)) == i64::parse_spec(JsonScalar::I64(v as i64))
            && i32::parse_spec(JsonScalar::U64(v)) == i32::parse_spec(JsonScalar::I64(v as i64))
            && i16::parse_spec(JsonScalar::U64(v)) == i16::parse_spec(JsonScalar::I64(v as i64))
            && i8::parse_spec(JsonScalar::U64(v)) == i8::parse_spec(JsonScalar::I64(v as i64)),
        v > i64::MAX ==> i64::parse_spec(JsonScalar::U64(v)) == Err::<i64, ConversionError>(ConversionError::NotI64)
            && i8::parse_spec(JsonScalar::U64(v)) == Err::<i8, ConversionError>(ConversionError::NotI64),
{
}

} // verus!

//! A query: the JSON object whose fields the rules of a decision table read.
//!
//! Rules only read the scalar found under a field name, so an object is held
//! as its fields, and a nested array or object is held without its contents.

use vstd::prelude::*;
use crate::values::FloatKey;

verus! {

/// What stands for a JSON floating-point number: its key as an `f64`, and
/// the key of that `f64` rounded to an `f32`.
#[derive(Clone, Copy, Debug, PartialEq, Eq)]
pub struct FloatReadings {
    pub as_f64: FloatKey,
    pub as_f32: FloatKey,
}

/// The value of one field of a JSON object. Integers are held as the JSON
/// reader returns them: non-negative ones may come as `U64`, others as `I64`.
#[derive(Clone, Debug)]
pub enum JsonScalar {
    Null,
    Bool(bool),
    I64(i64),
    U64(u64),
    F64(FloatReadings),
    Str(String),
    Array,
    Object,
}

/// A field of a JSON object.
#[derive(Clone, Debug)]
pub struct JsonField {
    pub name: String,
    pub value: JsonScalar,
}

/// A JSON document: an object with its fields, or any other value.
#[derive(Clone, Debug)]
pub enum JsonValue {
    Object(Vec<JsonField>),
    Scalar(JsonScalar),
}

/// The value of the first field named `key`.
pub open spec fn first_field(fields: Seq<JsonField>, key: Seq<char>) -> Option<JsonScalar>
    decreases fields.len(),
{
    if fields.len() == 0 {
        None
    } else if fields[0].name@ == key {
        Some(fields[0].value)
    } else {
        first_field(fields.drop_first(), key)
    }
}

impl JsonValue {
    /// The value under `key`: none when the document is not an object or has
    /// no such field.
    pub open spec fn field(self, key: Seq<char>) -> Option<JsonScalar> {
        match self {
            JsonValue::Object(fields) => first_field(fields@, key),
            JsonValue::Scalar(_) => None,
        }
    }

    pub fn get(&self, key: &str) -> (r: Option<&JsonScalar>)
        ensures
            match self.field(key@) {
                Some(v) => r matches Some(x) && *x == v,
                None => r is None,
            },
    {
        match self {
            JsonValue::Object(fields) => {
                let mut i: usize = 0;
                assert(fields@.skip(0) =~= fields@);
                while i < fields.len()
                    invariant
                        i <= fields.len(),
                        self.field(key@) == first_field(fields@, key@),
                        first_field(fields@, key@) == first_field(fields@.skip(i as int), key@),
                    decreases fields.len() - i,
                {
                    assert(fields@.skip(i as int).drop_first() =~= fields@.skip(i + 1));
                    assert(fields@.skip(i as int)[0] == fields@[i as int]);
                    if crate::text::chars_equal(&crate::text::chars_of(fields[i].name.as_str()), key) {
                        return Some(&fields[i].value);
                    }
                    i = i + 1;
                }
                None
            },
            JsonValue::Scalar(_) => None,
        }
    }
}

impl JsonScalar {
    pub open spec fn spec_as_i64(self) -> Option<i64> {
        match self {
            JsonScalar::I64(i) => Some(i),
            JsonScalar::U64(u) => if u <= i64::MAX {
                Some(u as i64)
            } else {
                None
            },
            _ => None,
        }
    }

    pub open spec fn spec_as_u64(self) -> Option<u64> {
        match self {
            JsonScalar::I64(i) => if i >= 0 {
                Some(i as u64)
            } else {
                None
            },
            JsonScalar::U64(u) => Some(u),
            _ => None,
        }
    }

    pub open spec fn spec_as_f64(self) -> Option<FloatReadings> {
        match self {
            JsonScalar::F64(f) => Some(f),
            _ => None,
        }
    }

    pub open spec fn spec_as_bool(self) -> Option<bool> {
        match self {
            JsonScalar::Bool(b) => Some(b),
            _ => None,
        }
    }

    /// A signed integer: an `I64`, or a `U64` that fits.
    pub fn as_i64(&self) -> (r: Option<i64>)
        ensures
            r == self.spec_as_i64(),
    {
        match self {
            JsonScalar::I64(i) => Some(*i),
            JsonScalar::U64(u) => if *u <= i64::MAX as u64 {
                Some(*u as i64)
            } else {
                None
            },
            _ => None,
        }
    }

    /// An unsigned integer: a `U64`, or an `I64` that is not negative.
    pub fn as_u64(&self) -> (r: Option<u64>)
        ensures
            r == self.spec_as_u64(),
    {
        match self {
            JsonScalar::I64(i) => if *i >= 0 {
                Some(*i as u64)
            } else {
                None
            },
            JsonScalar::U64(u) => Some(*u),
            _ => None,
        }
    }

    /// A floating-point number; integers do not count.
    pub fn as_f64(&self) -> (r: Option<FloatReadings>)
        ensures
            r == self.spec_as_f64(),
    {
        match self {
            JsonScalar::F64(f) => Some(*f),
            _ => None,
        }
    }

    pub fn as_bool(&self) -> (r: Option<bool>)
        ensures
            r == self.spec_as_bool(),
    {
        match self {
            JsonScalar::Bool(b) => Some(*b),
            _ => None,
        }
    }

    pub fn as_str(&self) -> (r: Option<&str>)
        ensures
            match *self {
                JsonScalar::Str(s) => r matches Some(t) && t@ == s@,
                _ => r is None,
            },
    {
        match self {
            JsonScalar::Str(s) => Some(s.as_str()),
            _ => None,
        }
    }
}

} // verus!

//! A decision table read from the first worksheet of a workbook: row 0
//! names the query fields, row 1 the value types, row 2 the conditions, and
//! each row from 3 on is a variant; the last column, `out`, holds results.

use vstd::prelude::*;
use crate::datetime::{as_timestamp, fixed_from_local, from_local_datetime, naive_datetime_parsed, parse_naive_datetime};
use crate::decession_table::{
    DecimalType,
    DecisionTableSource,
    IntegerData,
    NumberType,
    RuleData,
    StringData,
    TimeZoneOffset,
    ValueCondition,
    ValueType,
    seq_result,
    strings_view,
};
use crate::error::DtError;
use crate::text::{chars_of, integer_in, parse_integer};
use crate::values::{F32Key, F64Key, FloatKey, RuleValue, Timestamp};

verus! {

/// The errors a spreadsheet cell can hold.
#[derive(Clone, Copy, Debug, PartialEq, Eq, Structural)]
pub enum CellErrorKind {
    Div0,
    NA,
    Name,
    Null,
    Num,
    Ref,
    Value,
    GettingData,
}

/// What stands for a floating-point cell value: its key, the key of it
/// rounded to `f32`, whether it has no fractional part (false for NaN and
/// the infinities), whether rounding it to `f32` and back gives it again,
/// and it cast to `i64` and to `u64` (truncated towards zero, saturating,
/// NaN giving 0).
#[derive(Clone, Copy, Debug, PartialEq, Eq)]
pub struct FloatFacts {
    pub key: FloatKey,
    pub key32: FloatKey,
    pub is_integral: bool,
    pub fits_f32: bool,
    pub as_i64: i64,
    pub as_u64: u64,
}

/// The value of a cell. Where a cell's value is read as a floating-point
/// number, what that reading gives is held beside it: for an integer, the
/// keys of it as `f32` and `f64`; for a string, the keys of it parsed as
/// `f32` and `f64`, and the facts of it parsed as `f64` after the sheet's
/// decimal separator is replaced by `.`; for a date-time, the local
/// date-time that it denotes, if any.
#[derive(Clone, Debug)]
pub enum CellValue {
    Int { value: i64, as_f32: FloatKey, as_f64: FloatKey },
    Float(FloatFacts),
    String {
        text: String,
        parsed_f32: Option<FloatKey>,
        parsed_f64: Option<FloatKey>,
        decimal: Option<FloatFacts>,
    },
    Bool(bool),
    DateTime { serial: FloatKey, local: Option<Timestamp> },
    Duration(FloatKey),
    DateTimeIso { text: String, local: Option<Timestamp> },
    DurationIso(String),
    Error(CellErrorKind),
    Empty,
}

/// A cell: its value and how it displays.
#[derive(Clone, Debug)]
pub struct Cell {
    pub value: CellValue,
    pub display: String,
}

/// Cell values are equal when they are of one kind and hold equal values;
/// floating-point values compare as numbers.
pub open spec fn cell_value_eq(a: CellValue, b: CellValue) -> bool {
    match (a, b) {
        (CellValue::Int { value: x, .. }, CellValue::Int { value: y, .. }) => x == y,
        (CellValue::Float(x), CellValue::Float(y)) => x.key.spec_same(y.key),
        (CellValue::String { text: x, .. }, CellValue::String { text: y, .. }) => x@ == y@,
        (CellValue::Bool(x), CellValue::Bool(y)) => x == y,
        (CellValue::DateTime { serial: x, .. }, CellValue::DateTime { serial: y, .. }) => x.spec_same(y),
        (CellValue::Duration(x), CellValue::Duration(y)) => x.spec_same(y),
        (CellValue::DateTimeIso { text: x, .. }, CellValue::DateTimeIso { text: y, .. }) => x@ == y@,
        (CellValue::DurationIso(x), CellValue::DurationIso(y)) => x@ == y@,
        (CellValue::Error(x), CellValue::Error(y)) => x == y,
        (CellValue::Empty, CellValue::Empty) => true,
        _ => false,
    }
}

pub fn cell_values_equal(a: &CellValue, b: &CellValue) -> (r: bool)
    ensures
        r == cell_value_eq(*a, *b),
{
    match (a, b) {
        (CellValue::Int { value: x, .. }, CellValue::Int { value: y, .. }) => *x == *y,
        (CellValue::Float(x), CellValue::Float(y)) => x.key.same(&y.key),
        (CellValue::String { text: x, .. }, CellValue::String { text: y, .. }) => *x == *y,
        (CellValue::Bool(x), CellValue::Bool(y)) => *x == *y,
        (CellValue::DateTime { serial: x, .. }, CellValue::DateTime { serial: y, .. }) => x.same(y),
        (CellValue::Duration(x), CellValue::Duration(y)) => x.same(y),
        (CellValue::DateTimeIso { text: x, .. }, CellValue::DateTimeIso { text: y, .. }) => *x == *y,
        (CellValue::DurationIso(x), CellValue::DurationIso(y)) => *x == *y,
        (CellValue::Error(x), CellValue::Error(y)) => *x == *y,
        (CellValue::Empty, CellValue::Empty) => true,
        _ => false,
    }
}

/// A worksheet: rows of cells, all of one width; a sheet with no rows has no
/// columns, and one with rows has some.
pub struct Sheet {
    width: usize,
    rows: Vec<Vec<Cell>>,
}

impl Sheet {
    #[verifier::type_invariant]
    spec fn rectangular(self) -> bool {
        &&& forall|r: int| 0 <= r < self.rows@.len() ==> (#[trigger] self.rows@[r])@.len() == self.width
        &&& (self.rows@.len() == 0) == (self.width == 0)
    }

    pub closed spec fn spec_width(self) -> usize {
        self.width
    }

    pub closed spec fn spec_height(self) -> nat {
        self.rows@.len()
    }

    pub closed spec fn cell(self, row: int, col: int) -> Cell {
        self.rows@[row]@[col]
    }

    /// The sheet of these rows, when they all have `width` cells and there
    /// are columns exactly when there are rows.
    pub fn new(width: usize, rows: Vec<Vec<Cell>>) -> (r: Option<Sheet>)
        ensures
            match r {
                Some(s) => {
                    &&& s.spec_width() == width
                    &&& s.spec_height() == rows@.len()
                    &&& forall|i: int, j: int|
                        0 <= i < rows@.len() && 0 <= j < width ==> #[trigger] s.cell(i, j)
                            == rows@[i]@[j]
                },
                None => !((forall|i: int| 0 <= i < rows@.len() ==> (#[trigger] rows@[i])@.len()
                    == width) && (rows@.len() == 0) == (width == 0)),
            },
    {
        if (rows.len() == 0) != (width == 0) {
            return None;
        }
        let mut i: usize = 0;
        while i < rows.len()
            invariant
                i <= rows@.len(),
                forall|k: int| 0 <= k < i ==> (#[trigger] rows@[k])@.len() == width,
            decreases rows@.len() - i,
        {
            if rows[i].len() != width {
                return None;
            }
            i = i + 1;
        }
        Some(Sheet { width, rows })
    }

    pub fn width(&self) -> (r: usize)
        ensures
            r == self.spec_width(),
    {
        self.width
    }

    pub fn height(&self) -> (r: usize)
        ensures
            r == self.spec_height(),
            r > 0 ==> self.spec_width() > 0,
    {
        proof {
            use_type_invariant(self);
        }
        self.rows.len()
    }

    /// The cell at `row`, `col`, when both are within the sheet.
    pub fn get(&self, row: usize, col: usize) -> (r: Option<&Cell>)
        ensures
            match r {
                Some(c) => row < self.spec_height() && col < self.spec_width() && *c == self.cell(
                    row as int,
                    col as int,
                ),
                None => !(row < self.spec_height() && col < self.spec_width()),
            },
    {
        proof {
            use_type_invariant(self);
        }
        if row < self.rows.len() && col < self.width {
            Some(&self.rows[row][col])
        } else {
            None
        }
    }
}

/// How the cells of a workbook are to be read: the decimal separator of
/// numbers written as text, the cell value that stands for "any value", and
/// the format of date-times written as text.
pub struct ParsePreferences {
    decimal_separator: char,
    wildcard: CellValue,
    date_time_format: String,
}

impl ParsePreferences {
    pub closed spec fn spec_decimal_separator(self) -> char {
        self.decimal_separator
    }

    pub closed spec fn spec_wildcard(self) -> CellValue {
        self.wildcard
    }

    pub closed spec fn spec_date_time_format(self) -> String {
        self.date_time_format
    }

    pub fn new(decimal_separator: char, wildcard: CellValue, date_time_format: String) -> (r: Self)
        ensures
            r.spec_decimal_separator() == decimal_separator,
            r.spec_wildcard() == wildcard,
            r.spec_date_time_format() == date_time_format,
    {
        ParsePreferences { decimal_separator, wildcard, date_time_format }
    }

    pub fn decimal_separator(&self) -> (r: char)
        ensures
            r == self.spec_decimal_separator(),
    {
        self.decimal_separator
    }
}

/// Reads a cell as a value of a column's type.
pub trait CellReader {
    type Out;

    spec fn spec_read(&self, cell: Cell, row: usize, col: usize) -> Result<Self::Out, DtError>;

    fn read(&self, cell: &Cell, row: usize, col: usize) -> (r: Result<Self::Out, DtError>)
        ensures
            r == self.spec_read(*cell, row, col),
    ;
}

/// `v` clamped to `min..=max`: a floating-point number cast to a narrower
/// integer type saturates, and its `i64` cast saturates no less.
pub open spec fn clamped(v: i64, min: int, max: int) -> int {
    if v < min {
        min
    } else if v > max {
        max
    } else {
        v as int
    }
}

/// Reads `u8` cells: text as `str::parse::<u8>` reads it, an integer cast
/// with `as u8`, a floating-point number cast with `as u8`.
pub struct U8Reader {}

impl CellReader for U8Reader {
    type Out = u8;

    open spec fn spec_read(&self, cell: Cell, row: usize, col: usize) -> Result<u8, DtError> {
        match cell.value {
            CellValue::String { text, .. } => match integer_in(text@, false, 0, 255) {
                Some(v) => Ok(v as u8),
                None => Err(DtError::CellParse { row, col, found: cell.display }),
            },
            CellValue::Int { value, .. } => Ok(value as u8),
            CellValue::Float(f) => Ok(clamped(f.as_i64, 0, 255) as u8),
            _ => Err(DtError::InvalidCellType { row, col, found: cell.display }),
        }
    }

    fn read(&self, cell: &Cell, row: usize, col: usize) -> (r: Result<u8, DtError>) {
        match &cell.value {
            CellValue::String { text, .. } => {
                let chars = chars_of(text.as_str());
                match parse_integer(&chars, false, 0, 255) {
                    Some(v) => Ok(v as u8),
                    None => Err(DtError::CellParse { row, col, found: cell.display.clone() }),
                }
            },
            CellValue::Int { value, .. } => Ok(*value as u8),
            CellValue::Float(f) => Ok(if f.as_i64 < 0 {
                0
            } else if f.as_i64 > 255 {
                255
            } else {
                f.as_i64 as u8
            }),
            _ => Err(DtError::InvalidCellType { row, col, found: cell.display.clone() }),
        }
    }
}

/// Reads `u16` cells: text as `str::parse::<u16>` reads it, an integer cast
/// with `as u16`, a floating-point number cast with `as u16`.
pub struct U16Reader {}

impl CellReader for U16Reader {
    type Out = u16;

    open spec fn spec_read(&self, cell: Cell, row: usize, col: usize) -> Result<u16, DtError> {
        match cell.value {
            CellValue::String { text, .. } => match integer_in(text@, false, 0, 65535) {
                Some(v) => Ok(v as u16),
                None => Err(DtError::CellParse { row, col, found: cell.display }),
            },
            CellValue::Int { value, .. } => Ok(value as u16),
            CellValue::Float(f) => Ok(clamped(f.as_i64, 0, 65535) as u16),
            _ => Err(DtError::InvalidCellType { row, col, found: cell.display }),
        }
    }

    fn read(&self, cell: &Cell, row: usize, col: usize) -> (r: Result<u16, DtError>) {
        match &cell.value {
            CellValue::String { text, .. } => {
                let chars = chars_of(text.as_str());
                match parse_integer(&chars, false, 0, 65535) {
                    Some(v) => Ok(v as u16),
                    None => Err(DtError::CellParse { row, col, found: cell.display.clone() }),
                }
            },
            CellValue::Int { value, .. } => Ok(*value as u16),
            CellValue::Float(f) => Ok(if f.as_i64 < 0 {
                0
            } else if f.as_i64 > 65535 {
                65535
            } else {
                f.as_i64 as u16
            }),
            _ => Err(DtError::InvalidCellType { row, col, found: cell.display.clone() }),
        }
    }
}

/// Reads `u32` cells: text as `str::parse::<u32>` reads it, an integer cast
/// with `as u32`, a floating-point number cast with `as u32`.
pub struct U32Reader {}

impl CellReader for U32Reader {
    type Out = u32;

    open spec fn spec_read(&self, cell: Cell, row: usize, col: usize) -> Result<u32, DtError> {
        match cell.value {
            CellValue::String { text, .. } => match integer_in(text@, false, 0, 4294967295) {
                Some(v) => Ok(v as u32),
                None => Err(DtError::CellParse { row, col, found: cell.display }),
            },
            CellValue::Int { value, .. } => Ok(value as u32),
            CellValue::Float(f) => Ok(clamped(f.as_i64, 0, 4294967295) as u32),
            _ => Err(DtError::InvalidCellType { row, col, found: cell.display }),
        }
    }

    fn read(&self, cell: &Cell, row: usize, col: usize) -> (r: Result<u32, DtError>) {
        match &cell.value {
            CellValue::String { text, .. } => {
                let chars = chars_of(text.as_str());
                match parse_integer(&chars, false, 0, 4294967295) {
                    Some(v) => Ok(v as u32),
                    None => Err(DtError::CellParse { row, col, found: cell.display.clone() }),
                }
            },
            CellValue::Int { value, .. } => Ok(*value as u32),
            CellValue::Float(f) => Ok(if f.as_i64 < 0 {
                0
            } else if f.as_i64 > 4294967295 {
                4294967295
            } else {
                f.as_i64 as u32
            }),
            _ => Err(DtError::InvalidCellType { row, col, found: cell.display.clone() }),
        }
    }
}

/// Reads `u64` cells: text as `str::parse::<u64>` reads it, an integer cast
/// with `as u64`, a floating-point number cast with `as u64`.
pub struct U64Reader {}

impl CellReader for U64Reader {
    type Out = u64;

    open spec fn spec_read(&self, cell: Cell, row: usize, col: usize) -> Result<u64, DtError> {
        match cell.value {
            CellValue::String { text, .. } => match integer_in(text@, false, 0, 18446744073709551615) {
                Some(v) => Ok(v as u64),
                None => Err(DtError::CellParse { row, col, found: cell.display }),
            },
            CellValue::Int { value, .. } => Ok(value as u64),
            CellValue::Float(f) => Ok(f.as_u64),
            _ => Err(DtError::InvalidCellType { row, col, found: cell.display }),
        }
    }

    fn read(&self, cell: &Cell, row: usize, col: usize) -> (r: Result<u64, DtError>) {
        match &cell.value {
            CellValue::String { text, .. } => {
                let chars = chars_of(text.as_str());
                match parse_integer(&chars, false, 0, 18446744073709551615) {
                    Some(v) => Ok(v as u64),
                    None => Err(DtError::CellParse { row, col, found: cell.display.clone() }),
                }
            },
            CellValue::Int { value, .. } => Ok(*value as u64),
            CellValue::Float(f) => Ok(f.as_u64),
            _ => Err(DtError::InvalidCellType { row, col, found: cell.display.clone() }),
        }
    }
}

/// Reads `i8` cells: text as `str::parse::<i8>` reads it, an integer cast
/// with `as i8`, a floating-point number cast with `as i8`.
pub struct I8Reader {}

impl CellReader for I8Reader {
    type Out = i8;

    open spec fn spec_read(&self, cell: Cell, row: usize, col: usize) -> Result<i8, DtError> {
        match cell.value {
            CellValue::String { text, .. } => match integer_in(text@, true, -128, 127) {
                Some(v) => Ok(v as i8),
                None => Err(DtError::CellParse { row, col, found: cell.display }),
            },
            CellValue::Int { value, .. } => Ok(value as i8),
            CellValue::Float(f) => Ok(clamped(f.as_i64, -128, 127) as i8),
            _ => Err(DtError::InvalidCellType { row, col, found: cell.display }),
        }
    }

    fn read(&self, cell: &Cell, row: usize, col: usize) -> (r: Result<i8, DtError>) {
        match &cell.value {
            CellValue::String { text, .. } => {
                let chars = chars_of(text.as_str());
                match parse_integer(&chars, true, -128, 127) {
                    Some(v) => Ok(v as i8),
                    None => Err(DtError::CellParse { row, col, found: cell.display.clone() }),
                }
            },
            CellValue::Int { value, .. } => Ok(*value as i8),
            CellValue::Float(f) => Ok(if f.as_i64 < -128 {
                -128
            } else if f.as_i64 > 127 {
                127
            } else {
                f.as_i64 as i8
            }),
            _ => Err(DtError::InvalidCellType { row, col, found: cell.display.clone() }),
        }
    }
}

/// Reads `i16` cells: text as `str::parse::<i16>` reads it, an integer cast
/// with `as i16`, a floating-point number cast with `as i16`.
pub struct I16Reader {}

impl CellReader for I16Reader {
    type Out = i16;

    open spec fn spec_read(&self, cell: Cell, row: usize, col: usize) -> Result<i16, DtError> {
        match cell.value {
            CellValue::String { text, .. } => match integer_in(text@, true, -32768, 32767) {
                Some(v) => Ok(v as i16),
                None => Err(DtError::CellParse { row, col, found: cell.display }),
            },
            CellValue::Int { value, .. } => Ok(value as i16),
            CellValue::Float(f) => Ok(clamped(f.as_i64, -32768, 32767) as i16),
            _ => Err(DtError::InvalidCellType { row, col, found: cell.display }),
        }
    }

    fn read(&self, cell: &Cell, row: usize, col: usize) -> (r: Result<i16, DtError>) {
        match &cell.value {
            CellValue::String { text, .. } => {
                let chars = chars_of(text.as_str());
                match parse_integer(&chars, true, -32768, 32767) {
                    Some(v) => Ok(v as i16),
                    None => Err(DtError::CellParse { row, col, found: cell.display.clone() }),
                }
            },
            CellValue::Int { value, .. } => Ok(*value as i16),
            CellValue::Float(f) => Ok(if f.as_i64 < -32768 {
                -32768
            } else if f.as_i64 > 32767 {
                32767
            } else {
                f.as_i64 as i16
            }),
            _ => Err(DtError::InvalidCellType { row, col, found: cell.display.clone() }),
        }
    }
}

/// Reads `i32` cells: text as `str::parse::<i32>` reads it, an integer cast
/// with `as i32`, a floating-point number cast with `as i32`.
pub struct I32Reader {}

impl CellReader for I32Reader {
    type Out = i32;

    open spec fn spec_read(&self, cell: Cell, row: usize, col: usize) -> Result<i32, DtError> {
        match cell.value {
            CellValue::String { text, .. } => match integer_in(text@, true, -2147483648, 2147483647) {
                Some(v) => Ok(v as i32),
                None => Err(DtError::CellParse { row, col, found: cell.display }),
            },
            CellValue::Int { value, .. } => Ok(value as i32),
            CellValue::Float(f) => Ok(clamped(f.as_i64, -2147483648, 2147483647) as i32),
            _ => Err(DtError::InvalidCellType { row, col, found: cell.display }),
        }
    }

    fn read(&self, cell: &Cell, row: usize, col: usize) -> (r: Result<i32, DtError>) {
        match &cell.value {
            CellValue::String { text, .. } => {
                let chars = chars_of(text.as_str());
                match parse_integer(&chars, true, -2147483648, 2147483647) {
                    Some(v) => Ok(v as i32),
                    None => Err(DtError::CellParse { row, col, found: cell.display.clone() }),
                }
            },
            CellValue::Int { value, .. } => Ok(*value as i32),
            CellValue::Float(f) => Ok(if f.as_i64 < -2147483648 {
                -2147483648
            } else if f.as_i64 > 2147483647 {
                2147483647
            } else {
                f.as_i64 as i32
            }),
            _ => Err(DtError::InvalidCellType { row, col, found: cell.display.clone() }),
        }
    }
}

/// Reads `i64` cells: text as `str::parse::<i64>` reads it, an integer cast
/// with `as i64`, a floating-point number cast with `as i64`.
pub struct I64Reader {}

impl CellReader for I64Reader {
    type Out = i64;

    open spec fn spec_read(&self, cell: Cell, row: usize, col: usize) -> Result<i64, DtError> {
        match cell.value {
            CellValue::String { text, .. } => match integer_in(text@, true, -9223372036854775808, 9223372036854775807) {
                Some(v) => Ok(v as i64),
                None => Err(DtError::CellParse { row, col, found: cell.display }),
            },
            CellValue::Int { value, .. } => Ok(value as i64),
            CellValue::Float(f) => Ok(f.as_i64),
            _ => Err(DtError::InvalidCellType { row, col, found: cell.display }),
        }
    }

    fn read(&self, cell: &Cell, row: usize, col: usize) -> (r: Result<i64, DtError>) {
        match &cell.value {
            CellValue::String { text, .. } => {
                let chars = chars_of(text.as_str());
                match parse_integer(&chars, true, -9223372036854775808, 9223372036854775807) {
                    Some(v) => Ok(v as i64),
                    None => Err(DtError::CellParse { row, col, found: cell.display.clone() }),
                }
            },
            CellValue::Int { value, .. } => Ok(*value as i64),
            CellValue::Float(f) => Ok(f.as_i64),
            _ => Err(DtError::InvalidCellType { row, col, found: cell.display.clone() }),
        }
    }
}

/// Reads `f32` cells: text parsed, integers and floating-point numbers cast.
pub struct F32Reader {}

impl CellReader for F32Reader {
    type Out = F32Key;

    open spec fn spec_read(&self, cell: Cell, row: usize, col: usize) -> Result<F32Key, DtError> {
        match cell.value {
            CellValue::String { parsed_f32, .. } => match parsed_f32 {
                Some(k) => Ok(F32Key(k)),
                None => Err(DtError::CellParse { row, col, found: cell.display }),
            },
            CellValue::Int { as_f32, .. } => Ok(F32Key(as_f32)),
            CellValue::Float(f) => Ok(F32Key(f.key32)),
            _ => Err(DtError::InvalidCellType { row, col, found: cell.display }),
        }
    }

    fn read(&self, cell: &Cell, row: usize, col: usize) -> (r: Result<F32Key, DtError>) {
        match &cell.value {
            CellValue::String { parsed_f32, .. } => match parsed_f32 {
                Some(k) => Ok(F32Key(*k)),
                None => Err(DtError::CellParse { row, col, found: cell.display.clone() }),
            },
            CellValue::Int { as_f32, .. } => Ok(F32Key(*as_f32)),
            CellValue::Float(f) => Ok(F32Key(f.key32)),
            _ => Err(DtError::InvalidCellType { row, col, found: cell.display.clone() }),
        }
    }
}

/// Reads `f64` cells: text parsed, integers and floating-point numbers cast.
pub struct F64Reader {}

impl CellReader for F64Reader {
    type Out = F64Key;

    open spec fn spec_read(&self, cell: Cell, row: usize, col: usize) -> Result<F64Key, DtError> {
        match cell.value {
            CellValue::String { parsed_f64, .. } => match parsed_f64 {
                Some(k) => Ok(F64Key(k)),
                None => Err(DtError::CellParse { row, col, found: cell.display }),
            },
            CellValue::Int { as_f64, .. } => Ok(F64Key(as_f64)),
            CellValue::Float(f) => Ok(F64Key(f.key)),
            _ => Err(DtError::InvalidCellType { row, col, found: cell.display }),
        }
    }

    fn read(&self, cell: &Cell, row: usize, col: usize) -> (r: Result<F64Key, DtError>) {
        match &cell.value {
            CellValue::String { parsed_f64, .. } => match parsed_f64 {
                Some(k) => Ok(F64Key(*k)),
                None => Err(DtError::CellParse { row, col, found: cell.display.clone() }),
            },
            CellValue::Int { as_f64, .. } => Ok(F64Key(*as_f64)),
            CellValue::Float(f) => Ok(F64Key(f.key)),
            _ => Err(DtError::InvalidCellType { row, col, found: cell.display.clone() }),
        }
    }
}

/// Reads string cells.
pub struct StringReader {}

impl CellReader for StringReader {
    type Out = String;

    open spec fn spec_read(&self, cell: Cell, row: usize, col: usize) -> Result<String, DtError> {
        match cell.value {
            CellValue::String { text, .. } => Ok(text),
            _ => Err(DtError::InvalidCellType { row, col, found: cell.display }),
        }
    }

    fn read(&self, cell: &Cell, row: usize, col: usize) -> (r: Result<String, DtError>) {
        match &cell.value {
            CellValue::String { text, .. } => Ok(text.clone()),
            _ => Err(DtError::InvalidCellType { row, col, found: cell.display.clone() }),
        }
    }
}

/// Reads boolean cells: booleans, and the texts `true` and `false`, as
/// `bool::from_str` reads them.
pub struct BoolReader {}

pub open spec fn bool_text(s: Seq<char>) -> Option<bool> {
    if s == seq!['t', 'r', 'u', 'e'] {
        Some(true)
    } else if s == seq!['f', 'a', 'l', 's', 'e'] {
        Some(false)
    } else {
        None
    }
}

impl CellReader for BoolReader {
    type Out = bool;

    open spec fn spec_read(&self, cell: Cell, row: usize, col: usize) -> Result<bool, DtError> {
        match cell.value {
            CellValue::String { text, .. } => match bool_text(text@) {
                Some(b) => Ok(b),
                None => Err(DtError::CellParse { row, col, found: cell.display }),
            },
            CellValue::Bool(b) => Ok(b),
            _ => Err(DtError::InvalidCellType { row, col, found: cell.display }),
        }
    }

    fn read(&self, cell: &Cell, row: usize, col: usize) -> (r: Result<bool, DtError>) {
        match &cell.value {
            CellValue::String { text, .. } => {
                let chars = chars_of(text.as_str());
                proof {
                    reveal_strlit("true");
                    reveal_strlit("false");
                    assert("true"@ =~= seq!['t', 'r', 'u', 'e']);
                    assert("false"@ =~= seq!['f', 'a', 'l', 's', 'e']);
                }
                if crate::text::chars_equal(&chars, "true") {
                    Ok(true)
                } else if crate::text::chars_equal(&chars, "false") {
                    Ok(false)
                } else {
                    Err(DtError::CellParse { row, col, found: cell.display.clone() })
                }
            },
            CellValue::Bool(b) => Ok(*b),
            _ => Err(DtError::InvalidCellType { row, col, found: cell.display.clone() }),
        }
    }
}

/// Reads date-time cells in a column's time zone: text in the sheet's
/// date-time format, and date-time cells, are local times in that zone.
pub struct DateTimeReader {
    pub zone: TimeZoneOffset,
    pub format: String,
}

impl CellReader for DateTimeReader {
    type Out = Timestamp;

    /// The instant is the local time less the zone's offset
    /// (`fixed_from_local`); where it falls outside chrono's range the cell
    /// gives `DateTimeOutOfRange`.
    open spec fn spec_read(&self, cell: Cell, row: usize, col: usize) -> Result<Timestamp, DtError> {
        let local = match cell.value {
            CellValue::String { text, .. } => match as_timestamp(naive_datetime_parsed(text@, self.format@)) {
                Some(t) => Ok(t),
                None => Err(DtError::CellParse { row, col, found: cell.display }),
            },
            CellValue::DateTime { local, .. } => match local {
                Some(t) => Ok(t),
                None => Err(DtError::CellParse { row, col, found: cell.display }),
            },
            CellValue::DateTimeIso { local, .. } => match local {
                Some(t) => Ok(t),
                None => Err(DtError::CellParse { row, col, found: cell.display }),
            },
            _ => Err(DtError::InvalidCellType { row, col, found: cell.display }),
        };
        match local {
            Ok(t) => match as_timestamp(fixed_from_local(t.secs, t.nanos, self.zone.spec_secs())) {
                Some(u) => Ok(u),
                None => Err(DtError::DateTimeOutOfRange { row, col }),
            },
            Err(e) => Err(e),
        }
    }

    fn read(&self, cell: &Cell, row: usize, col: usize) -> (r: Result<Timestamp, DtError>) {
        let local = match &cell.value {
            CellValue::String { text, .. } => match parse_naive_datetime(text.as_str(), self.format.as_str()) {
                Some(t) => t,
                None => {
                    return Err(DtError::CellParse { row, col, found: cell.display.clone() });
                },
            },
            CellValue::DateTime { local, .. } => match local {
                Some(t) => *t,
                None => {
                    return Err(DtError::CellParse { row, col, found: cell.display.clone() });
                },
            },
            CellValue::DateTimeIso { local, .. } => match local {
                Some(t) => *t,
                None => {
                    return Err(DtError::CellParse { row, col, found: cell.display.clone() });
                },
            },
            _ => {
                return Err(DtError::InvalidCellType { row, col, found: cell.display.clone() });
            },
        };
        self.place(local, row, col)
    }
}

impl DateTimeReader {
    /// The instant of the local time `local` in the reader's zone.
    pub fn place(&self, local: Timestamp, row: usize, col: usize) -> (r: Result<Timestamp, DtError>)
        ensures
            r == match as_timestamp(fixed_from_local(local.secs, local.nanos, self.zone.spec_secs())) {
                Some(u) => Ok::<Timestamp, DtError>(u),
                None => Err(DtError::DateTimeOutOfRange { row, col }),
            },
    {
        let offset = self.zone.secs();
        match from_local_datetime(local, offset) {
            Some(u) => Ok(u),
            None => Err(DtError::DateTimeOutOfRange { row, col }),
        }
    }
}

/// The first row of variants.
pub const DATA_ROWS_START: usize = 3;

/// The cells of column `col` in rows `DATA_ROWS_START..rows`, read by `reader`;
/// a cell equal to `wildcard` reads as `None`; or the error of the first cell
/// that cannot be read.
pub open spec fn column_cells<R: CellReader>(
    sheet: Sheet,
    wildcard: CellValue,
    col: usize,
    reader: R,
    rows: int,
) -> Result<Seq<Option<R::Out>>, DtError>
    decreases rows,
{
    if rows <= DATA_ROWS_START {
        Ok(Seq::empty())
    } else {
        match column_cells(sheet, wildcard, col, reader, rows - 1) {
            Err(e) => Err(e),
            Ok(s) => {
                let cell = sheet.cell(rows - 1, col as int);
                if cell_value_eq(cell.value, wildcard) {
                    Ok(s.push(None))
                } else {
                    match reader.spec_read(cell, (rows - 1) as usize, col) {
                        Ok(v) => Ok(s.push(Some(v))),
                        Err(e) => Err(e),
                    }
                }
            },
        }
    }
}

proof fn lemma_column_cells_error<R: CellReader>(
    sheet: Sheet,
    wildcard: CellValue,
    col: usize,
    reader: R,
    i: int,
    k: int,
    e: DtError,
)
    requires
        i <= k,
        column_cells(sheet, wildcard, col, reader, i) == Err::<Seq<Option<R::Out>>, DtError>(e),
    ensures
        column_cells(sheet, wildcard, col, reader, k) == Err::<Seq<Option<R::Out>>, DtError>(e),
    decreases k - i,
{
    if i < k {
        lemma_column_cells_error(sheet, wildcard, col, reader, i, k - 1, e);
    }
}

/// The cells of column `col` from the first variant row on, read by `reader`.
pub fn read_column<R: CellReader>(
    sheet: &Sheet,
    wildcard: &CellValue,
    col: usize,
    reader: &R,
) -> (r: Result<Vec<Option<R::Out>>, DtError>)
    requires
        col < sheet.spec_width(),
    ensures
        seq_result(r) == column_cells(*sheet, *wildcard, col, *reader, sheet.spec_height() as int),
{
    let height = sheet.height();
    let mut results: Vec<Option<R::Out>> = Vec::new();
    let mut row: usize = DATA_ROWS_START;
    if height <= DATA_ROWS_START {
        return Ok(results);
    }
    while row < height
        invariant
            DATA_ROWS_START <= row <= height == sheet.spec_height(),
            col < sheet.spec_width(),
            column_cells(*sheet, *wildcard, col, *reader, row as int) == Ok::<
                Seq<Option<R::Out>>,
                DtError,
            >(results@),
        decreases height - row,
    {
        match sheet.get(row, col) {
            Some(cell) => {
                if cell_values_equal(&cell.value, wildcard) {
                    results.push(None);
                } else {
                    match reader.read(cell, row, col) {
                        Ok(v) => results.push(Some(v)),
                        Err(e) => {
                            proof {
                                lemma_column_cells_error(*sheet, *wildcard, col, *reader, row + 1, height as int, e);
                            }
                            return Err(e);
                        },
                    }
                }
            },
            None => {
                return Err(DtError::MissingCell { row, col });
            },
        }
        row = row + 1;
    }
    Ok(results)
}

/// The length in bytes, and whether any character is outside ASCII, of the
/// strings in column `col`, rows `DATA_ROWS_START..rows`; or the place of the
/// first cell that is not a string.
pub open spec fn string_stats(sheet: Sheet, col: usize, rows: int) -> Result<(nat, bool), DtError>
    decreases rows,
{
    if rows <= DATA_ROWS_START {
        Ok((0, false))
    } else {
        match string_stats(sheet, col, rows - 1) {
            Err(e) => Err(e),
            Ok((max_length, contains_utf)) => match sheet.cell(rows - 1, col as int).value {
                CellValue::String { text, .. } => {
                    let len = (vstd::utf8::encode_utf8(text@).len() as usize) as nat;
                    Ok(
                        (
                            if len > max_length {
                                len
                            } else {
                                max_length
                            },
                            contains_utf || exists|i: int|
                                0 <= i < text@.len() && (#[trigger] text@[i]) as u32 > 127,
                        ),
                    )
                },
                _ => Err(
                    DtError::InvalidCellType {
                        row: (rows - 1) as usize,
                        col,
                        found: sheet.cell(rows - 1, col as int).display,
                    },
                ),
            },
        }
    }
}

proof fn lemma_string_stats_error(sheet: Sheet, col: usize, i: int, k: int, e: DtError)
    requires
        i <= k,
        string_stats(sheet, col, i) == Err::<(nat, bool), DtError>(e),
    ensures
        string_stats(sheet, col, k) == Err::<(nat, bool), DtError>(e),
    decreases k - i,
{
    if i < k {
        lemma_string_stats_error(sheet, col, i, k - 1, e);
    }
}

/// Whether a character of `s` is outside ASCII.
fn has_non_ascii(s: &str) -> (r: bool)
    ensures
        r == exists|i: int| 0 <= i < s@.len() && (#[trigger] s@[i]) as u32 > 127,
{
    let chars = chars_of(s);
    let mut k: usize = 0;
    while k < chars.len()
        invariant
            k <= chars@.len(),
            chars@ == s@,
            forall|i: int| 0 <= i < k ==> (#[trigger] s@[i]) as u32 <= 127,
        decreases chars@.len() - k,
    {
        if chars[k] as u32 > 127 {
            return true;
        }
        k = k + 1;
    }
    false
}

/// The string statistics of column `col`.
pub open spec fn string_data_of(sheet: Sheet, col: usize) -> Result<StringData, DtError> {
    if col >= sheet.spec_width() {
        Err(DtError::ColumnOutOfRange { col, width: sheet.spec_width() })
    } else {
        match string_stats(sheet, col, sheet.spec_height() as int) {
            Ok((max_length, contains_utf)) => Ok(StringData::spec_new(max_length as usize, contains_utf)),
            Err(e) => Err(e),
        }
    }
}

/// The facts a column of numbers gathers: whether any has a fractional
/// part, whether any such needs an `f64`, whether any is negative, and the
/// largest integer (at least 0).
#[derive(Clone, Copy, Debug)]
pub struct NumberStats {
    pub contains_decimal: bool,
    pub contains_f64: bool,
    pub contains_negative: bool,
    pub max_value: i128,
}

pub open spec fn stats_int(st: NumberStats, v: i64) -> NumberStats {
    NumberStats {
        contains_negative: st.contains_negative || v < 0,
        max_value: if (v as i128) > st.max_value {
            v as i128
        } else {
            st.max_value
        },
        ..st
    }
}

pub open spec fn stats_float(st: NumberStats, f: FloatFacts) -> NumberStats {
    if !f.is_integral {
        NumberStats {
            contains_decimal: true,
            contains_f64: st.contains_f64 || !f.fits_f32,
            ..st
        }
    } else {
        stats_int(st, f.as_i64)
    }
}

/// Text reads as an `i64` when it is one, after the decimal separator is
/// replaced by `.`; else as the floating-point number it writes, if any.
pub open spec fn stats_text(
    st: NumberStats,
    text: Seq<char>,
    decimal: Option<FloatFacts>,
    separator: char,
) -> NumberStats {
    let t = if separator != '.' {
        crate::text::replaced(text, separator, '.')
    } else {
        text
    };
    match integer_in(t, true, i64::MIN as int, i64::MAX as int) {
        Some(v) => stats_int(st, v as i64),
        None => match decimal {
            Some(f) => stats_float(st, f),
            None => st,
        },
    }
}

pub open spec fn initial_stats() -> NumberStats {
    NumberStats { contains_decimal: false, contains_f64: false, contains_negative: false, max_value: 0 }
}

/// The number statistics of column `col`, rows `DATA_ROWS_START..rows`; or
/// the place of the first cell that is not a number or text.
pub open spec fn number_stats(sheet: Sheet, col: usize, separator: char, rows: int) -> Result<
    NumberStats,
    DtError,
>
    decreases rows,
{
    if rows <= DATA_ROWS_START {
        Ok(initial_stats())
    } else {
        match number_stats(sheet, col, separator, rows - 1) {
            Err(e) => Err(e),
            Ok(st) => match sheet.cell(rows - 1, col as int).value {
                CellValue::Int { value, .. } => Ok(stats_int(st, value)),
                CellValue::Float(f) => Ok(stats_float(st, f)),
                CellValue::String { text, decimal, .. } => Ok(stats_text(st, text@, decimal, separator)),
                _ => Err(
                    DtError::InvalidCellType {
                        row: (rows - 1) as usize,
                        col,
                        found: sheet.cell(rows - 1, col as int).display,
                    },
                ),
            },
        }
    }
}

proof fn lemma_number_stats_error(sheet: Sheet, col: usize, separator: char, i: int, k: int, e: DtError)
    requires
        i <= k,
        number_stats(sheet, col, separator, i) == Err::<NumberStats, DtError>(e),
    ensures
        number_stats(sheet, col, separator, k) == Err::<NumberStats, DtError>(e),
    decreases k - i,
{
    if i < k {
        lemma_number_stats_error(sheet, col, separator, i, k - 1, e);
    }
}

/// Numbers with a fractional part make a decimal column, `f64` when one
/// of them does not fit an `f32`; otherwise the column holds integers.
pub open spec fn number_type_of(sheet: Sheet, col: usize, separator: char) -> Result<NumberType, DtError> {
    if col >= sheet.spec_width() {
        Err(DtError::ColumnOutOfRange { col, width: sheet.spec_width() })
    } else {
        match number_stats(sheet, col, separator, sheet.spec_height() as int) {
            Ok(st) => Ok(
                if st.contains_decimal {
                    if st.contains_f64 {
                        NumberType::Decimal(DecimalType::F64)
                    } else {
                        NumberType::Decimal(DecimalType::F32)
                    }
                } else {
                    NumberType::Integer(IntegerData::spec_new(st.contains_negative, st.max_value))
                },
            ),
            Err(e) => Err(e),
        }
    }
}

fn check_int(st: NumberStats, v: i64) -> (r: NumberStats)
    ensures
        r == stats_int(st, v),
{
    NumberStats {
        contains_negative: st.contains_negative || v < 0,
        max_value: if (v as i128) > st.max_value {
            v as i128
        } else {
            st.max_value
        },
        ..st
    }
}

fn check_float(st: NumberStats, f: &FloatFacts) -> (r: NumberStats)
    ensures
        r == stats_float(st, *f),
{
    if !f.is_integral {
        NumberStats { contains_decimal: true, contains_f64: st.contains_f64 || !f.fits_f32, ..st }
    } else {
        check_int(st, f.as_i64)
    }
}

fn check_string(st: NumberStats, text: &String, decimal: &Option<FloatFacts>, separator: char) -> (r:
    NumberStats)
    ensures
        r == stats_text(st, text@, *decimal, separator),
{
    let chars = chars_of(text.as_str());
    let t = if separator != '.' {
        crate::text::replace_char(&chars, separator, '.')
    } else {
        chars
    };
    match parse_integer(&t, true, i64::MIN as i128, i64::MAX as i128) {
        Some(v) => check_int(st, v as i64),
        None => match decimal {
            Some(f) => check_float(st, f),
            None => st,
        },
    }
}

/// A decision table read from a worksheet.
pub struct XlsxDTDataSource {
    file_path: String,
    parse_preferences: ParsePreferences,
    opened_sheet: Option<Sheet>,
    rules_data: Option<Vec<RuleData>>,
}

impl XlsxDTDataSource {
    pub closed spec fn spec_file_path(self) -> Seq<char> {
        self.file_path@
    }

    pub closed spec fn preferences(self) -> ParsePreferences {
        self.parse_preferences
    }

    pub closed spec fn sheet(self) -> Option<Sheet> {
        self.opened_sheet
    }

    pub closed spec fn rules(self) -> Option<Seq<RuleData>> {
        match self.rules_data {
            Some(v) => Some(v@),
            None => None,
        }
    }

    pub fn new(file_path: String, parse_preferences: ParsePreferences) -> (r: Self)
        ensures
            r.spec_file_path() == file_path@,
            r.preferences() == parse_preferences,
            r.sheet() is None,
            r.rules() is None,
    {
        XlsxDTDataSource { file_path, parse_preferences, opened_sheet: None, rules_data: None }
    }

    /// The path of the workbook to read.
    pub fn file_path(&self) -> (r: &str)
        ensures
            r@ == self.spec_file_path(),
    {
        self.file_path.as_str()
    }

    pub fn parse_preferences(&self) -> (r: &ParsePreferences)
        ensures
            *r == self.preferences(),
    {
        &self.parse_preferences
    }

    fn look_for_string_data(&self, sheet: &Sheet, col_num: usize) -> (r: Result<StringData, DtError>)
        ensures
            r == string_data_of(*sheet, col_num),
    {
        let height = sheet.height();
        let width = sheet.width();
        if col_num >= width {
            return Err(DtError::ColumnOutOfRange { col: col_num, width });
        }
        let mut max_length: usize = 0;
        let mut contains_utf = false;
        let mut row: usize = DATA_ROWS_START;
        if height <= DATA_ROWS_START {
            return Ok(StringData::new(max_length, contains_utf));
        }
        while row < height
            invariant
                DATA_ROWS_START <= row <= height == sheet.spec_height(),
                col_num < sheet.spec_width(),
                string_stats(*sheet, col_num, row as int) == Ok::<(nat, bool), DtError>(
                    (max_length as nat, contains_utf),
                ),
            decreases height - row,
        {
            match sheet.get(row, col_num) {
                Some(cell) => {
                    match &cell.value {
                        CellValue::String { text, .. } => {
                            let len = text.as_str().len();
                            if len > max_length {
                                max_length = len;
                            }
                            if has_non_ascii(text.as_str()) {
                                contains_utf = true;
                            }
                        },
                        _ => {
                            proof {
                                lemma_string_stats_error(
                                    *sheet,
                                    col_num,
                                    row + 1,
                                    height as int,
                                    DtError::InvalidCellType { row, col: col_num, found: cell.display },
                                );
                            }
                            return Err(DtError::InvalidCellType { row, col: col_num, found: cell.display.clone() });
                        },
                    }
                },
                None => {
                    return Err(DtError::MissingCell { row, col: col_num });
                },
            }
            row = row + 1;
        }
        Ok(StringData::new(max_length, contains_utf))
    }

    fn look_for_number_type(&self, sheet: &Sheet, col_num: usize) -> (r: Result<NumberType, DtError>)
        ensures
            r == number_type_of(*sheet, col_num, self.preferences().spec_decimal_separator()),
    {
        let separator = self.parse_preferences.decimal_separator();
        let height = sheet.height();
        let width = sheet.width();
        if col_num >= width {
            return Err(DtError::ColumnOutOfRange { col: col_num, width });
        }
        let mut statistics = NumberStats {
            contains_decimal: false,
            contains_f64: false,
            contains_negative: false,
            max_value: 0,
        };
        let mut row: usize = DATA_ROWS_START;
        if height > DATA_ROWS_START {
            while row < height
                invariant
                    DATA_ROWS_START <= row <= height == sheet.spec_height(),
                    col_num < sheet.spec_width(),
                    separator == self.preferences().spec_decimal_separator(),
                    number_stats(*sheet, col_num, separator, row as int) == Ok::<NumberStats, DtError>(
                        statistics,
                    ),
                decreases height - row,
            {
                match sheet.get(row, col_num) {
                    Some(cell) => {
                        match &cell.value {
                            CellValue::Int { value, .. } => {
                                statistics = check_int(statistics, *value);
                            },
                            CellValue::Float(f) => {
                                statistics = check_float(statistics, f);
                            },
                            CellValue::String { text, decimal, .. } => {
                                statistics = check_string(statistics, text, decimal, separator);
                            },
                            _ => {
                                proof {
                                    lemma_number_stats_error(
                                        *sheet,
                                        col_num,
                                        separator,
                                        row + 1,
                                        height as int,
                                        DtError::InvalidCellType { row, col: col_num, found: cell.display },
                                    );
                                }
                                return Err(DtError::InvalidCellType { row, col: col_num, found: cell.display.clone() });
                            },
                        }
                    },
                    None => {
                        return Err(DtError::MissingCell { row, col: col_num });
                    },
                }
                row = row + 1;
            }
        }
        let res = if statistics.contains_decimal {
            if statistics.contains_f64 {
                NumberType::Decimal(DecimalType::F64)
            } else {
                NumberType::Decimal(DecimalType::F32)
            }
        } else {
            NumberType::Integer(IntegerData::new(statistics.contains_negative, statistics.max_value))
        };
        Ok(res)
    }
}

/// The row of field names, of value types, and of conditions.
pub const FIELD_NAME_ROW: usize = 0;

pub const FIELD_TYPE_ROW: usize = 1;

pub const FIELD_CONDITION_ROW: usize = 2;

pub open spec fn condition_text(t: Seq<char>) -> Option<ValueCondition> {
    if t == seq!['<'] {
        Some(ValueCondition::LessThan)
    } else if t == seq!['>'] {
        Some(ValueCondition::GreaterThan)
    } else if t == seq!['<', '='] {
        Some(ValueCondition::LessOrEqual)
    } else if t == seq!['>', '='] {
        Some(ValueCondition::GreaterOrEqual)
    } else if t == seq!['='] {
        Some(ValueCondition::Equal)
    } else {
        None
    }
}

/// The condition that the condition row names for column `col`.
pub open spec fn condition_of(sheet: Sheet, col: usize) -> Result<ValueCondition, DtError> {
    if FIELD_CONDITION_ROW < sheet.spec_height() && col < sheet.spec_width() {
        match sheet.cell(FIELD_CONDITION_ROW as int, col as int).value {
            CellValue::String { text, .. } => match condition_text(text@) {
                Some(c) => Ok(c),
                None => Err(
                    DtError::InvalidCondition {
                        col,
                        found: sheet.cell(FIELD_CONDITION_ROW as int, col as int).display,
                    },
                ),
            },
            _ => Err(
                DtError::InvalidCondition {
                    col,
                    found: sheet.cell(FIELD_CONDITION_ROW as int, col as int).display,
                },
            ),
        }
    } else {
        Err(DtError::MissingCell { row: FIELD_CONDITION_ROW, col })
    }
}

/// The hours and minutes of a time zone written `hours:minutes`; without a
/// colon the whole is the hours and the minutes are empty.
pub open spec fn zone_parts(s: Seq<char>) -> (Seq<char>, Seq<char>) {
    match crate::text::first_index_of(s, ':') {
        Some(k) => (s.take(k), s.skip(k + 1)),
        None => (s, Seq::empty()),
    }
}

pub open spec fn zone_numbers(s: Seq<char>) -> Option<(int, int)> {
    match (
        integer_in(zone_parts(s).0, true, i32::MIN as int, i32::MAX as int),
        integer_in(zone_parts(s).1, true, i32::MIN as int, i32::MAX as int),
    ) {
        (Some(h), Some(m)) => Some((h, m)),
        _ => None,
    }
}

/// Computing the offset `hours * 3600 + minutes * 60` in `i32` does not overflow.
pub open spec fn zone_fits(s: Seq<char>) -> bool {
    match zone_numbers(s) {
        Some((h, m)) => i32::MIN <= h * 3600 <= i32::MAX && i32::MIN <= m * 60 <= i32::MAX
            && i32::MIN <= h * 3600 + m * 60 <= i32::MAX,
        None => true,
    }
}

/// The offset a time zone writes, in seconds east of UTC, when it is
/// strictly within a day.
pub open spec fn zone_of(s: Seq<char>) -> Option<int> {
    match zone_numbers(s) {
        Some((h, m)) => if -86_400 < h * 3600 + m * 60 < 86_400 {
            Some(h * 3600 + m * 60)
        } else {
            None
        },
        None => None,
    }
}

/// `DateTime`.
pub open spec fn datetime_prefix() -> Seq<char> {
    seq!['D', 'a', 't', 'e', 'T', 'i', 'm', 'e']
}

/// The text between `DateTime(` and the closing `)`, if the type is written so.
pub open spec fn datetime_zone_text(t: Seq<char>) -> Option<Seq<char>> {
    if t.len() > 8 && t[8] == '(' && t.last() == ')' {
        Some(t.subrange(9, t.len() - 1))
    } else {
        None
    }
}

/// The time zone in a `DateTime(..)` type can be computed without overflow.
pub open spec fn type_zone_fits(t: Seq<char>) -> bool {
    t.len() >= 8 && t.take(8) == datetime_prefix() ==> match datetime_zone_text(t) {
        Some(z) => zone_fits(z),
        None => true,
    }
}

/// The value type that the type row names for column `col`: `DateTime(zone)`,
/// `String`, `Number` or `Boolean`; strings and numbers with the statistics
/// of their column.
pub open spec fn value_type_of(sheet: Sheet, separator: char, col: usize) -> Result<ValueType, DtError> {
    if FIELD_TYPE_ROW < sheet.spec_height() && col < sheet.spec_width() {
        match sheet.cell(FIELD_TYPE_ROW as int, col as int).value {
            CellValue::String { text, .. } => {
                let t = text@;
                if t.len() >= 8 && t.take(8) == datetime_prefix() {
                    match datetime_zone_text(t) {
                        Some(z) => match zone_of(z) {
                            Some(secs) => Ok(ValueType::DateTime(TimeZoneOffset::spec_of(secs as i32))),
                            None => Err(
                                DtError::InvalidTimeZone {
                                    col,
                                    found: sheet.cell(FIELD_TYPE_ROW as int, col as int).display,
                                },
                            ),
                        },
                        None => Err(
                            DtError::InvalidTimeZone {
                                col,
                                found: sheet.cell(FIELD_TYPE_ROW as int, col as int).display,
                            },
                        ),
                    }
                } else if t == seq!['S', 't', 'r', 'i', 'n', 'g'] {
                    match string_data_of(sheet, col) {
                        Ok(d) => Ok(ValueType::String(d)),
                        Err(e) => Err(e),
                    }
                } else if t == seq!['N', 'u', 'm', 'b', 'e', 'r'] {
                    match number_type_of(sheet, col, separator) {
                        Ok(n) => Ok(ValueType::Number(n)),
                        Err(e) => Err(e),
                    }
                } else if t == seq!['B', 'o', 'o', 'l', 'e', 'a', 'n'] {
                    Ok(ValueType::Boolean)
                } else {
                    Err(
                        DtError::InvalidValueType {
                            col,
                            found: sheet.cell(FIELD_TYPE_ROW as int, col as int).display,
                        },
                    )
                }
            },
            _ => Err(
                DtError::InvalidValueType {
                    col,
                    found: sheet.cell(FIELD_TYPE_ROW as int, col as int).display,
                },
            ),
        }
    } else {
        Err(DtError::MissingCell { row: FIELD_TYPE_ROW, col })
    }
}

/// The hours and minutes that a time zone writes, each an `i32`.
fn read_zone_numbers(s: &Vec<char>) -> (r: Option<(i128, i128)>)
    ensures
        match r {
            Some((h, m)) => zone_numbers(s@) == Some((h as int, m as int)) && i32::MIN <= h <= i32::MAX
                && i32::MIN <= m <= i32::MAX,
            None => zone_numbers(s@) is None,
        },
{
    let n = s.len();
    let (hours_str, minutes_str) = match crate::text::find_char(s, ':') {
        Some(k) => {
            let h = crate::text::sub_chars(s, 0, k);
            let m = crate::text::sub_chars(s, k + 1, n);
            assert(h@ =~= s@.take(k as int));
            assert(m@ =~= s@.skip(k + 1));
            (h, m)
        },
        None => {
            let h = crate::text::sub_chars(s, 0, n);
            assert(h@ =~= s@);
            (h, Vec::new())
        },
    };
    assert(hours_str@ == zone_parts(s@).0);
    assert(minutes_str@ =~= zone_parts(s@).1);
    let hours = parse_integer(&hours_str, true, i32::MIN as i128, i32::MAX as i128);
    let minutes = parse_integer(&minutes_str, true, i32::MIN as i128, i32::MAX as i128);
    match (hours, minutes) {
        (Some(h), Some(m)) => Some((h, m)),
        _ => None,
    }
}

/// Whether the offset of a time zone can be computed in `i32`.
fn zone_text_fits(s: &Vec<char>) -> (r: bool)
    ensures
        r == zone_fits(s@),
{
    match read_zone_numbers(s) {
        None => true,
        Some((h, m)) => {
            let a = h * 3600;
            let b = m * 60;
            let lo = i32::MIN as i128;
            let hi = i32::MAX as i128;
            lo <= a && a <= hi && lo <= b && b <= hi && lo <= a + b && a + b <= hi
        },
    }
}

/// Whether the time zone of a `DateTime(..)` type, if the text is one, can
/// be computed in `i32`.
fn type_text_fits(t: &Vec<char>) -> (r: bool)
    ensures
        r == type_zone_fits(t@),
{
    proof {
        reveal_strlit("DateTime");
        assert("DateTime"@ =~= datetime_prefix());
    }
    let n = t.len();
    if n < 8 {
        return true;
    }
    let head = crate::text::sub_chars(t, 0, 8);
    assert(head@ =~= t@.take(8));
    if !crate::text::chars_equal(&head, "DateTime") {
        return true;
    }
    if n > 8 && t[8] == '(' && t[n - 1] == ')' {
        let zone_text = crate::text::sub_chars(t, 9, n - 1);
        assert(zone_text@ =~= t@.subrange(9, n - 1));
        zone_text_fits(&zone_text)
    } else {
        true
    }
}

/// The time zone `hours:minutes` (or `hours`), in seconds east of UTC.
fn parse_time_zone(s: &Vec<char>) -> (r: Option<TimeZoneOffset>)
    requires
        zone_fits(s@),
    ensures
        match zone_of(s@) {
            Some(secs) => r matches Some(o) && o.spec_secs() == secs,
            None => r is None,
        },
{
    let (hours, minutes) = match read_zone_numbers(s) {
        Some((h, m)) => (h as i32, m as i32),
        None => {
            return None;
        },
    };
    TimeZoneOffset::east_opt(hours * 3600 + minutes * 60)
}

impl XlsxDTDataSource {
    fn parse_value_condition(&self, sheet: &Sheet, col_num: usize) -> (r: Result<ValueCondition, DtError>)
        ensures
            r == condition_of(*sheet, col_num),
    {
        match sheet.get(FIELD_CONDITION_ROW, col_num) {
            None => Err(DtError::MissingCell { row: FIELD_CONDITION_ROW, col: col_num }),
            Some(cell) => match &cell.value {
                CellValue::String { text, .. } => {
                    let t = chars_of(text.as_str());
                    proof {
                        reveal_strlit("<");
                        reveal_strlit(">");
                        reveal_strlit("<=");
                        reveal_strlit(">=");
                        reveal_strlit("=");
                        assert("<"@ =~= seq!['<']);
                        assert(">"@ =~= seq!['>']);
                        assert("<="@ =~= seq!['<', '=']);
                        assert(">="@ =~= seq!['>', '=']);
                        assert("="@ =~= seq!['=']);
                    }
                    if crate::text::chars_equal(&t, "<") {
                        Ok(ValueCondition::LessThan)
                    } else if crate::text::chars_equal(&t, ">") {
                        Ok(ValueCondition::GreaterThan)
                    } else if crate::text::chars_equal(&t, "<=") {
                        Ok(ValueCondition::LessOrEqual)
                    } else if crate::text::chars_equal(&t, ">=") {
                        Ok(ValueCondition::GreaterOrEqual)
                    } else if crate::text::chars_equal(&t, "=") {
                        Ok(ValueCondition::Equal)
                    } else {
                        Err(DtError::InvalidCondition { col: col_num, found: cell.display.clone() })
                    }
                },
                _ => Err(DtError::InvalidCondition { col: col_num, found: cell.display.clone() }),
            },
        }
    }

    fn parse_value_type(&self, sheet: &Sheet, col_num: usize) -> (r: Result<ValueType, DtError>)
        requires
            FIELD_TYPE_ROW < sheet.spec_height() && col_num < sheet.spec_width() ==> match sheet.cell(
                FIELD_TYPE_ROW as int,
                col_num as int,
            ).value {
                CellValue::String { text, .. } => type_zone_fits(text@),
                _ => true,
            },
        ensures
            r == value_type_of(*sheet, self.preferences().spec_decimal_separator(), col_num),
    {
        let cell = match sheet.get(FIELD_TYPE_ROW, col_num) {
            None => {
                return Err(DtError::MissingCell { row: FIELD_TYPE_ROW, col: col_num });
            },
            Some(cell) => cell,
        };
        let text = match &cell.value {
            CellValue::String { text, .. } => text,
            _ => {
                return Err(DtError::InvalidValueType { col: col_num, found: cell.display.clone() });
            },
        };
        let t = chars_of(text.as_str());
        proof {
            reveal_strlit("DateTime");
            reveal_strlit("String");
            reveal_strlit("Number");
            reveal_strlit("Boolean");
            assert("DateTime"@ =~= datetime_prefix());
            assert("String"@ =~= seq!['S', 't', 'r', 'i', 'n', 'g']);
            assert("Number"@ =~= seq!['N', 'u', 'm', 'b', 'e', 'r']);
            assert("Boolean"@ =~= seq!['B', 'o', 'o', 'l', 'e', 'a', 'n']);
        }
        let n = t.len();
        let is_datetime = if n >= 8 {
            let head = crate::text::sub_chars(&t, 0, 8);
            assert(head@ =~= t@.take(8));
            crate::text::chars_equal(&head, "DateTime")
        } else {
            false
        };
        if is_datetime {
            if n > 8 && t[8] == '(' && t[n - 1] == ')' {
                let zone_text = crate::text::sub_chars(&t, 9, n - 1);
                let offset = match parse_time_zone(&zone_text) {
                    Some(o) => o,
                    None => {
                        return Err(DtError::InvalidTimeZone { col: col_num, found: cell.display.clone() });
                    },
                };
                proof {
                    assert(offset == TimeZoneOffset::spec_of(offset.spec_secs())) by {
                        TimeZoneOffset::lemma_of_secs(offset);
                    }
                }
                Ok(ValueType::DateTime(offset))
            } else {
                Err(DtError::InvalidTimeZone { col: col_num, found: cell.display.clone() })
            }
        } else if crate::text::chars_equal(&t, "String") {
            Ok(ValueType::String(self.look_for_string_data(sheet, col_num)?))
        } else if crate::text::chars_equal(&t, "Number") {
            Ok(ValueType::Number(self.look_for_number_type(sheet, col_num)?))
        } else if crate::text::chars_equal(&t, "Boolean") {
            Ok(ValueType::Boolean)
        } else {
            Err(DtError::InvalidValueType { col: col_num, found: cell.display.clone() })
        }
    }
}

/// The text in the field name row of column `col`.
pub open spec fn field_name_of(sheet: Sheet, col: usize) -> Result<String, DtError> {
    if FIELD_NAME_ROW < sheet.spec_height() && col < sheet.spec_width() {
        match sheet.cell(FIELD_NAME_ROW as int, col as int).value {
            CellValue::String { text, .. } => Ok(text),
            _ => Err(DtError::NoFieldName { col }),
        }
    } else {
        Err(DtError::NoFieldName { col })
    }
}

/// The rule that column `col` defines: its field name, condition and
/// value type, each read in that order; or the first error.
pub open spec fn column_rule(sheet: Sheet, separator: char, col: usize) -> Result<
    (String, ValueCondition, ValueType),
    DtError,
> {
    match field_name_of(sheet, col) {
        Err(e) => Err(e),
        Ok(name) => match value_type_of(sheet, separator, col) {
            Err(e) => Err(e),
            Ok(t) => match condition_of(sheet, col) {
                Err(e) => Err(e),
                Ok(c) => Ok((name, c, t)),
            },
        },
    }
}

/// The rules of columns `0..k`, or the error of the first column that
/// defines none.
pub open spec fn column_rules(sheet: Sheet, separator: char, k: nat) -> Result<
    Seq<(String, ValueCondition, ValueType)>,
    DtError,
>
    decreases k,
{
    if k == 0 {
        Ok(Seq::empty())
    } else {
        match column_rules(sheet, separator, (k - 1) as nat) {
            Err(e) => Err(e),
            Ok(s) => match column_rule(sheet, separator, (k - 1) as usize) {
                Ok(r) => Ok(s.push(r)),
                Err(e) => Err(e),
            },
        }
    }
}

proof fn lemma_column_rules_error(sheet: Sheet, separator: char, i: nat, k: nat, e: DtError)
    requires
        i <= k,
        column_rules(sheet, separator, i) == Err::<Seq<(String, ValueCondition, ValueType)>, DtError>(e),
    ensures
        column_rules(sheet, separator, k) == Err::<Seq<(String, ValueCondition, ValueType)>, DtError>(e),
    decreases k - i,
{
    if i < k {
        lemma_column_rules_error(sheet, separator, i, (k - 1) as nat, e);
    }
}

/// The time zone in the type row of column `col`, if it has one, can be
/// computed in `i32`.
pub open spec fn type_cell_fits(sheet: Sheet, col: usize) -> bool {
    FIELD_TYPE_ROW < sheet.spec_height() && col < sheet.spec_width() ==> match sheet.cell(
        FIELD_TYPE_ROW as int,
        col as int,
    ).value {
        CellValue::String { text, .. } => type_zone_fits(text@),
        _ => true,
    }
}

/// Reading columns `0..k` in turn computes every time zone it comes to
/// without overflow.
#[verifier::opaque]
pub open spec fn zones_fit(sheet: Sheet, separator: char, k: nat) -> bool {
    forall|i: usize|
        i < k && column_rules(sheet, separator, i as nat) is Ok && field_name_of(sheet, i) is Ok
            ==> #[trigger] type_cell_fits(sheet, i)
}

/// `out`.
pub open spec fn out_name() -> Seq<char> {
    seq!['o', 'u', 't']
}

/// The rules that a worksheet defines: it needs a row of variants after the
/// three header rows, and its last column, named `out`, holds the results;
/// every column before it defines a rule.
pub open spec fn sheet_rules(sheet: Sheet, separator: char) -> Result<
    Seq<(String, ValueCondition, ValueType)>,
    DtError,
> {
    if sheet.spec_height() < DATA_ROWS_START + 1 {
        Err(DtError::TooFewRows)
    } else if sheet.cell(FIELD_NAME_ROW as int, sheet.spec_width() - 1).display@ != out_name() {
        Err(DtError::OutColumnMissing)
    } else {
        column_rules(sheet, separator, (sheet.spec_width() - 1) as nat)
    }
}

/// Reading the rules of a worksheet computes every time zone it comes to
/// without overflow.
pub open spec fn init_computable(sheet: Sheet, separator: char) -> bool {
    sheet.spec_height() >= DATA_ROWS_START + 1 && sheet.cell(
        FIELD_NAME_ROW as int,
        sheet.spec_width() - 1,
    ).display@ == out_name() ==> zones_fit(sheet, separator, (sheet.spec_width() - 1) as nat)
}

/// The rule data are these field names, conditions and value types.
pub open spec fn rules_match(v: Seq<RuleData>, ts: Seq<(String, ValueCondition, ValueType)>) -> bool {
    &&& v.len() == ts.len()
    &&& forall|j: int|
        #![trigger v[j]]
        0 <= j < v.len() ==> v[j].spec_field_name() == ts[j].0 && v[j].spec_condition() == ts[j].1
            && v[j].spec_field_type() == ts[j].2
}

fn read_field_name(sheet: &Sheet, col: usize) -> (r: Result<String, DtError>)
    ensures
        r == field_name_of(*sheet, col),
{
    match sheet.get(FIELD_NAME_ROW, col) {
        Some(cell) => match &cell.value {
            CellValue::String { text, .. } => Ok(text.clone()),
            _ => Err(DtError::NoFieldName { col }),
        },
        None => Err(DtError::NoFieldName { col }),
    }
}

impl XlsxDTDataSource {
    /// The rules of columns `0..count`.
    fn read_rules(&self, sheet: &Sheet, count: usize) -> (r: Result<Vec<RuleData>, DtError>)
        requires
            count <= sheet.spec_width(),
            zones_fit(*sheet, self.preferences().spec_decimal_separator(), count as nat),
        ensures
            match column_rules(*sheet, self.preferences().spec_decimal_separator(), count as nat) {
                Ok(ts) => r matches Ok(v) && rules_match(v@, ts),
                Err(e) => r == Err::<Vec<RuleData>, DtError>(e),
            },
    {
        let ghost sep = self.preferences().spec_decimal_separator();
        let mut rules: Vec<RuleData> = Vec::new();
        let mut i: usize = 0;
        while i < count
            invariant
                i <= count <= sheet.spec_width(),
                sep == self.preferences().spec_decimal_separator(),
                zones_fit(*sheet, sep, count as nat),
                column_rules(*sheet, sep, i as nat) matches Ok(ts) && rules_match(rules@, ts),
            decreases count - i,
        {
            let ghost ts = column_rules(*sheet, sep, i as nat)->Ok_0;
            let field_name = match read_field_name(sheet, i) {
                Ok(n) => n,
                Err(e) => {
                    proof {
                        lemma_column_rules_error(*sheet, sep, (i + 1) as nat, count as nat, e);
                    }
                    return Err(e);
                },
            };
            assert(type_cell_fits(*sheet, i)) by {
                reveal(zones_fit);
            }
            let field_type = match self.parse_value_type(sheet, i) {
                Ok(t) => t,
                Err(e) => {
                    proof {
                        lemma_column_rules_error(*sheet, sep, (i + 1) as nat, count as nat, e);
                    }
                    return Err(e);
                },
            };
            let condition = match self.parse_value_condition(sheet, i) {
                Ok(c) => c,
                Err(e) => {
                    proof {
                        lemma_column_rules_error(*sheet, sep, (i + 1) as nat, count as nat, e);
                    }
                    return Err(e);
                },
            };
            let ghost entry = (field_name, condition, field_type);
            let rd = RuleData::new(field_name, condition, field_type);
            rules.push(rd);
            proof {
                assert(column_rules(*sheet, sep, (i + 1) as nat) == Ok::<
                    Seq<(String, ValueCondition, ValueType)>,
                    DtError,
                >(ts.push(entry)));
                assert(rules_match(rules@, ts.push(entry)));
            }
            i = i + 1;
        }
        Ok(rules)
    }

    /// The rules that a worksheet defines.
    fn rules_of_sheet(&self, sheet: &Sheet) -> (r: Result<Vec<RuleData>, DtError>)
        requires
            init_computable(*sheet, self.preferences().spec_decimal_separator()),
        ensures
            match sheet_rules(*sheet, self.preferences().spec_decimal_separator()) {
                Ok(ts) => r matches Ok(v) && rules_match(v@, ts),
                Err(e) => r == Err::<Vec<RuleData>, DtError>(e),
            },
    {
        let height = sheet.height();
        if height < DATA_ROWS_START + 1 {
            return Err(DtError::TooFewRows);
        }
        let width = sheet.width();
        let last = match sheet.get(FIELD_NAME_ROW, width - 1) {
            Some(c) => c,
            None => {
                return Err(DtError::OutColumnMissing);
            },
        };
        let name = chars_of(last.display.as_str());
        proof {
            reveal_strlit("out");
            assert("out"@ =~= out_name());
        }
        if !crate::text::chars_equal(&name, "out") {
            return Err(DtError::OutColumnMissing);
        }
        self.read_rules(sheet, width - 1)
    }

    /// Opens `sheet` as the source's worksheet and reads the rules it
    /// defines; the rules are kept only when all of them could be read.
    pub fn init_from_sheet(&mut self, sheet: Sheet) -> (r: Result<(), DtError>)
        requires
            init_computable(sheet, old(self).preferences().spec_decimal_separator()),
        ensures
            final(self).sheet() == Some(sheet),
            final(self).spec_file_path() == old(self).spec_file_path(),
            final(self).preferences() == old(self).preferences(),
            match sheet_rules(sheet, old(self).preferences().spec_decimal_separator()) {
                Ok(ts) => {
                    &&& r is Ok
                    &&& final(self).rules() matches Some(v) && rules_match(v, ts)
                    &&& final(self).spec_rules_count() == Ok::<usize, DtError>(
                        (sheet.spec_width() - 1) as usize,
                    )
                    &&& final(self).spec_variants_count() == Ok::<usize, DtError>(
                        (sheet.spec_height() - DATA_ROWS_START) as usize,
                    )
                    &&& final(self).spec_result_datas() == Ok::<Seq<Seq<char>>, DtError>(
                        result_texts(sheet),
                    )
                    &&& forall|i: usize|
                        i < ts.len() ==> ((#[trigger] final(self).spec_rule_data(i)) matches Ok(rd)
                            && rd.spec_field_name() == ts[i as int].0 && rd.spec_condition()
                            == ts[i as int].1 && rd.spec_field_type() == ts[i as int].2)
                },
                Err(e) => {
                    &&& r == Err::<(), DtError>(e)
                    &&& final(self).rules() == old(self).rules()
                    &&& final(self).spec_rules_count() == old(self).spec_rules_count()
                    &&& forall|i: usize| #[trigger] final(self).spec_rule_data(i) == old(self).spec_rule_data(i)
                },
            },
    {
        proof {
            use_type_invariant(&sheet);
        }
        let outcome = self.rules_of_sheet(&sheet);
        self.opened_sheet = Some(sheet);
        match outcome {
            Ok(rules) => {
                self.rules_data = Some(rules);
                proof {
                    law_source_reads_back_its_sheet(*self, sheet);
                }
                Ok(())
            },
            Err(e) => Err(e),
        }
    }
}

proof fn lemma_zones_fit_after_error(sheet: Sheet, separator: char, i: nat, k: nat, e: DtError)
    requires
        i < k,
        zones_fit(sheet, separator, i),
        field_name_of(sheet, i as usize) is Err || type_cell_fits(sheet, i as usize),
        column_rules(sheet, separator, (i + 1) as nat) == Err::<Seq<(String, ValueCondition, ValueType)>, DtError>(e),
    ensures
        zones_fit(sheet, separator, k),
{
    reveal(zones_fit);
    assert forall|j: usize|
        j < k && column_rules(sheet, separator, j as nat) is Ok && field_name_of(sheet, j) is Ok implies #[trigger] type_cell_fits(
        sheet,
        j,
    ) by {
        if j > i {
            lemma_column_rules_error(sheet, separator, (i + 1) as nat, j as nat, e);
        }
    }
}

proof fn lemma_zones_fail(sheet: Sheet, separator: char, i: usize, k: nat)
    requires
        i < k,
        column_rules(sheet, separator, i as nat) is Ok,
        field_name_of(sheet, i) is Ok,
        !type_cell_fits(sheet, i),
    ensures
        !zones_fit(sheet, separator, k),
{
    reveal(zones_fit);
}

/// Whether the time zone in the type row of column `col` can be computed.
fn type_cell_fits_at(sheet: &Sheet, col: usize) -> (r: bool)
    ensures
        r == type_cell_fits(*sheet, col),
{
    match sheet.get(FIELD_TYPE_ROW, col) {
        Some(cell) => match &cell.value {
            CellValue::String { text, .. } => type_text_fits(&chars_of(text.as_str())),
            _ => true,
        },
        None => true,
    }
}

proof fn lemma_zones_fit_step(sheet: Sheet, separator: char, i: nat)
    requires
        zones_fit(sheet, separator, i),
        type_cell_fits(sheet, i as usize),
        i <= usize::MAX,
    ensures
        zones_fit(sheet, separator, i + 1),
{
    reveal(zones_fit);
    assert forall|j: usize|
        j < i + 1 && column_rules(sheet, separator, j as nat) is Ok && field_name_of(sheet, j) is Ok implies #[trigger] type_cell_fits(
        sheet,
        j,
    ) by {
        if j < i {
            assert(type_cell_fits(sheet, j));
        }
    }
}

impl XlsxDTDataSource {
    /// Reads the rule of column `col` after those before it, and says
    /// whether it defines one.
    fn read_column_rule(&self, sheet: &Sheet, col: usize) -> (r: Result<(), DtError>)
        requires
            column_rules(*sheet, self.preferences().spec_decimal_separator(), col as nat) is Ok,
            field_name_of(*sheet, col) is Ok ==> type_cell_fits(*sheet, col),
        ensures
            match r {
                Ok(()) => column_rules(*sheet, self.preferences().spec_decimal_separator(), (col + 1) as nat) is Ok,
                Err(e) => column_rules(*sheet, self.preferences().spec_decimal_separator(), (col + 1) as nat)
                    == Err::<Seq<(String, ValueCondition, ValueType)>, DtError>(e),
            },
    {
        match read_field_name(sheet, col) {
            Ok(_) => {},
            Err(e) => {
                return Err(e);
            },
        }
        match self.parse_value_type(sheet, col) {
            Ok(_) => {},
            Err(e) => {
                return Err(e);
            },
        }
        match self.parse_value_condition(sheet, col) {
            Ok(_) => Ok(()),
            Err(e) => Err(e),
        }
    }

    /// Whether reading the rules of `sheet` computes every time zone it
    /// comes to without overflow.
    pub fn rules_computable(&self, sheet: &Sheet) -> (r: bool)
        ensures
            r == init_computable(*sheet, self.preferences().spec_decimal_separator()),
    {
        let ghost sep = self.preferences().spec_decimal_separator();
        let height = sheet.height();
        if height < DATA_ROWS_START + 1 {
            return true;
        }
        let width = sheet.width();
        let last = match sheet.get(FIELD_NAME_ROW, width - 1) {
            Some(c) => c,
            None => {
                return true;
            },
        };
        let name = chars_of(last.display.as_str());
        proof {
            reveal_strlit("out");
            assert("out"@ =~= out_name());
        }
        if !crate::text::chars_equal(&name, "out") {
            return true;
        }
        let count = width - 1;
        let mut i: usize = 0;
        assert(zones_fit(*sheet, sep, 0)) by {
            reveal(zones_fit);
        }
        while i < count
            invariant
                i <= count == sheet.spec_width() - 1,
                sheet.spec_height() >= DATA_ROWS_START + 1,
                sheet.cell(FIELD_NAME_ROW as int, sheet.spec_width() - 1).display@ == out_name(),
                sep == self.preferences().spec_decimal_separator(),
                zones_fit(*sheet, sep, i as nat),
                column_rules(*sheet, sep, i as nat) is Ok,
            decreases count - i,
        {
            let named = read_field_name(sheet, i).is_ok();
            if named && !type_cell_fits_at(sheet, i) {
                proof {
                    lemma_zones_fail(*sheet, sep, i, count as nat);
                }
                return false;
            }
            proof {
                if named {
                    lemma_zones_fit_step(*sheet, sep, i as nat);
                }
            }
            match self.read_column_rule(sheet, i) {
                Ok(()) => {},
                Err(e) => {
                    proof {
                        lemma_zones_fit_after_error(*sheet, sep, i as nat, count as nat, e);
                    }
                    return true;
                },
            }
            i = i + 1;
        }
        true
    }
}

/// The display texts of the last column, from the first variant row on.
pub open spec fn result_texts(sheet: Sheet) -> Seq<Seq<char>> {
    Seq::new(
        (sheet.spec_height() - DATA_ROWS_START) as nat,
        |k: int| sheet.cell(k + DATA_ROWS_START, sheet.spec_width() - 1).display@,
    )
}

impl XlsxDTDataSource {
    /// The cells of column `col` of the opened worksheet, read by `reader`.
    pub open spec fn column_values<R: CellReader>(self, col: usize, reader: R) -> Result<
        Seq<Option<R::Out>>,
        DtError,
    > {
        match self.sheet() {
            None => Err(DtError::NotInitialized),
            Some(sheet) => if col >= sheet.spec_width() {
                Err(DtError::ColumnOutOfRange { col, width: sheet.spec_width() })
            } else {
                column_cells(sheet, self.preferences().spec_wildcard(), col, reader, sheet.spec_height() as int)
            },
        }
    }

    fn values_of<R: CellReader>(&self, col: usize, reader: &R) -> (r: Result<Vec<Option<R::Out>>, DtError>)
        ensures
            seq_result(r) == self.column_values(col, *reader),
    {
        match &self.opened_sheet {
            None => Err(DtError::NotInitialized),
            Some(sheet) => {
                let width = sheet.width();
                if col >= width {
                    Err(DtError::ColumnOutOfRange { col, width })
                } else {
                    read_column(sheet, &self.parse_preferences.wildcard, col, reader)
                }
            },
        }
    }
}

impl DecisionTableSource for XlsxDTDataSource {
    /// A worksheet, once opened, has at least the three header rows.
    open spec fn spec_ready(&self) -> bool {
        match self.sheet() {
            Some(sheet) => sheet.spec_height() >= DATA_ROWS_START,
            None => true,
        }
    }

    /// A column of an opened worksheet is read from its fourth row on, which
    /// needs the three header rows.
    open spec fn spec_values_ready(&self, rule_num: usize) -> bool {
        match self.sheet() {
            Some(sheet) => rule_num < sheet.spec_width() ==> sheet.spec_height() >= DATA_ROWS_START,
            None => true,
        }
    }

    open spec fn spec_rules_count(&self) -> Result<usize, DtError> {
        match self.rules() {
            Some(v) => Ok(v.len() as usize),
            None => Err(DtError::NotInitialized),
        }
    }

    open spec fn spec_variants_count(&self) -> Result<usize, DtError> {
        match self.sheet() {
            Some(sheet) => Ok((sheet.spec_height() - DATA_ROWS_START) as usize),
            None => Err(DtError::NotInitialized),
        }
    }

    open spec fn spec_rule_data(&self, rule_num: usize) -> Result<RuleData, DtError> {
        match self.rules() {
            None => Err(DtError::NotInitialized),
            Some(v) => if rule_num < v.len() {
                Ok(v[rule_num as int])
            } else {
                Err(DtError::NoRuleData { rule: rule_num })
            },
        }
    }

    open spec fn spec_result_datas(&self) -> Result<Seq<Seq<char>>, DtError> {
        match self.sheet() {
            None => Err(DtError::NotInitialized),
            Some(sheet) => Ok(result_texts(sheet)),
        }
    }

    open spec fn spec_u8_values(&self, rule_num: usize) -> Result<Seq<Option<u8>>, DtError> {
        self.column_values(rule_num, U8Reader {})
    }

    open spec fn spec_u16_values(&self, rule_num: usize) -> Result<Seq<Option<u16>>, DtError> {
        self.column_values(rule_num, U16Reader {})
    }

    open spec fn spec_u32_values(&self, rule_num: usize) -> Result<Seq<Option<u32>>, DtError> {
        self.column_values(rule_num, U32Reader {})
    }

    open spec fn spec_u64_values(&self, rule_num: usize) -> Result<Seq<Option<u64>>, DtError> {
        self.column_values(rule_num, U64Reader {})
    }

    open spec fn spec_i8_values(&self, rule_num: usize) -> Result<Seq<Option<i8>>, DtError> {
        self.column_values(rule_num, I8Reader {})
    }

    open spec fn spec_i16_values(&self, rule_num: usize) -> Result<Seq<Option<i16>>, DtError> {
        self.column_values(rule_num, I16Reader {})
    }

    open spec fn spec_i32_values(&self, rule_num: usize) -> Result<Seq<Option<i32>>, DtError> {
        self.column_values(rule_num, I32Reader {})
    }

    open spec fn spec_i64_values(&self, rule_num: usize) -> Result<Seq<Option<i64>>, DtError> {
        self.column_values(rule_num, I64Reader {})
    }

    open spec fn spec_f32_values(&self, rule_num: usize) -> Result<Seq<Option<F32Key>>, DtError> {
        self.column_values(rule_num, F32Reader {})
    }

    open spec fn spec_f64_values(&self, rule_num: usize) -> Result<Seq<Option<F64Key>>, DtError> {
        self.column_values(rule_num, F64Reader {})
    }

    open spec fn spec_string_values(&self, rule_num: usize) -> Result<Seq<Option<String>>, DtError> {
        self.column_values(rule_num, StringReader {})
    }

    open spec fn spec_bool_values(&self, rule_num: usize) -> Result<Seq<Option<bool>>, DtError> {
        self.column_values(rule_num, BoolReader {})
    }

    /// Date-time values are read in the time zone of the rule's type.
    open spec fn spec_date_time_values(&self, rule_num: usize) -> Result<Seq<Option<Timestamp>>, DtError> {
        match self.spec_rule_data(rule_num) {
            Err(e) => Err(e),
            Ok(rd) => match rd.spec_field_type() {
                ValueType::DateTime(zone) => self.column_values(
                    rule_num,
                    DateTimeReader { zone, format: self.preferences().spec_date_time_format() },
                ),
                _ => Err(DtError::InvalidRuleType),
            },
        }
    }

    fn get_rules_count(&self) -> (r: Result<usize, DtError>) {
        match &self.rules_data {
            Some(v) => Ok(v.len()),
            None => Err(DtError::NotInitialized),
        }
    }

    fn get_variants_count(&self) -> (r: Result<usize, DtError>) {
        match &self.opened_sheet {
            Some(sheet) => Ok(sheet.height() - DATA_ROWS_START),
            None => Err(DtError::NotInitialized),
        }
    }

    fn get_rule_data(&self, rule_num: usize) -> (r: Result<&RuleData, DtError>) {
        match &self.rules_data {
            None => Err(DtError::NotInitialized),
            Some(v) => if rule_num < v.len() {
                Ok(&v[rule_num])
            } else {
                Err(DtError::NoRuleData { rule: rule_num })
            },
        }
    }

    fn get_result_datas(&self) -> (r: Result<Vec<String>, DtError>) {
        let sheet = match &self.opened_sheet {
            None => {
                return Err(DtError::NotInitialized);
            },
            Some(s) => s,
        };
        let height = sheet.height();
        let last_col = sheet.width() - 1;
        let mut res: Vec<String> = Vec::new();
        let mut row: usize = DATA_ROWS_START;
        while row < height
            invariant
                DATA_ROWS_START <= row <= height == sheet.spec_height(),
                last_col == sheet.spec_width() - 1,
                res@.len() == row - DATA_ROWS_START,
                forall|k: int|
                    0 <= k < res@.len() ==> (#[trigger] res@[k])@ == sheet.cell(
                        k + DATA_ROWS_START,
                        last_col as int,
                    ).display@,
            decreases height - row,
        {
            match sheet.get(row, last_col) {
                Some(cell) => {
                    res.push(cell.display.clone());
                },
                None => {
                    return Err(DtError::MissingCell { row, col: last_col });
                },
            }
            row = row + 1;
        }
        assert(strings_view(res@) =~= result_texts(*sheet));
        Ok(res)
    }

    fn get_u8_rule_values(&self, rule_num: usize) -> (r: Result<Vec<Option<u8>>, DtError>) {
        self.values_of(rule_num, &U8Reader {})
    }

    fn get_u16_rule_values(&self, rule_num: usize) -> (r: Result<Vec<Option<u16>>, DtError>) {
        self.values_of(rule_num, &U16Reader {})
    }

    fn get_u32_rule_values(&self, rule_num: usize) -> (r: Result<Vec<Option<u32>>, DtError>) {
        self.values_of(rule_num, &U32Reader {})
    }

    fn get_u64_rule_values(&self, rule_num: usize) -> (r: Result<Vec<Option<u64>>, DtError>) {
        self.values_of(rule_num, &U64Reader {})
    }

    fn get_i8_rule_values(&self, rule_num: usize) -> (r: Result<Vec<Option<i8>>, DtError>) {
        self.values_of(rule_num, &I8Reader {})
    }

    fn get_i16_rule_values(&self, rule_num: usize) -> (r: Result<Vec<Option<i16>>, DtError>) {
        self.values_of(rule_num, &I16Reader {})
    }

    fn get_i32_rule_values(&self, rule_num: usize) -> (r: Result<Vec<Option<i32>>, DtError>) {
        self.values_of(rule_num, &I32Reader {})
    }

    fn get_i64_rule_values(&self, rule_num: usize) -> (r: Result<Vec<Option<i64>>, DtError>) {
        self.values_of(rule_num, &I64Reader {})
    }

    fn get_f32_rule_values(&self, rule_num: usize) -> (r: Result<Vec<Option<F32Key>>, DtError>) {
        self.values_of(rule_num, &F32Reader {})
    }

    fn get_f64_rule_values(&self, rule_num: usize) -> (r: Result<Vec<Option<F64Key>>, DtError>) {
        self.values_of(rule_num, &F64Reader {})
    }

    fn get_string_rule_values(&self, rule_num: usize) -> (r: Result<Vec<Option<String>>, DtError>) {
        self.values_of(rule_num, &StringReader {})
    }

    fn get_bool_rule_values(&self, rule_num: usize) -> (r: Result<Vec<Option<bool>>, DtError>) {
        self.values_of(rule_num, &BoolReader {})
    }

    fn get_date_time_rule_values(&self, rule_num: usize) -> (r: Result<Vec<Option<Timestamp>>, DtError>) {
        let rule_data = match self.get_rule_data(rule_num) {
            Ok(d) => d,
            Err(e) => {
                return Err(e);
            },
        };
        let zone = match rule_data.field_type() {
            ValueType::DateTime(z) => *z,
            _ => {
                return Err(DtError::InvalidRuleType);
            },
        };
        let reader = DateTimeReader { zone, format: self.parse_preferences.date_time_format.clone() };
        self.values_of(rule_num, &reader)
    }
}

impl XlsxDTDataSource {
    /// Whether the source can be read: a worksheet, once opened, has the
    /// three header rows.
    pub fn is_ready(&self) -> (r: bool)
        ensures
            r == self.spec_ready(),
    {
        match &self.opened_sheet {
            Some(sheet) => sheet.height() >= DATA_ROWS_START,
            None => true,
        }
    }
}

/// What a source reads back of a worksheet whose rules it has read: one
/// rule per column before `out`, each with that column's name, condition and
/// type, one variant per row after the header rows, and the `out` column's
/// texts as results.
pub proof fn law_source_reads_back_its_sheet(src: XlsxDTDataSource, sheet: Sheet)
    requires
        src.sheet() == Some(sheet),
        sheet_rules(sheet, src.preferences().spec_decimal_separator()) is Ok,
        src.rules() matches Some(v) && rules_match(
            v,
            sheet_rules(sheet, src.preferences().spec_decimal_separator())->Ok_0,
        ),
    ensures
        ({
            let ts = sheet_rules(sheet, src.preferences().spec_decimal_separator())->Ok_0;
            &&& ts.len() == (sheet.spec_width() - 1) as nat
            &&& src.spec_rules_count() == Ok::<usize, DtError>(ts.len() as usize)
            &&& src.spec_variants_count() == Ok::<usize, DtError>(
                (sheet.spec_height() - DATA_ROWS_START) as usize,
            )
            &&& src.spec_result_datas() == Ok::<Seq<Seq<char>>, DtError>(result_texts(sheet))
            &&& forall|i: usize|
                i < ts.len() ==> ((#[trigger] src.spec_rule_data(i)) matches Ok(rd) && rd.spec_field_name()
                    == ts[i as int].0 && rd.spec_condition() == ts[i as int].1 && rd.spec_field_type()
                    == ts[i as int].2)
        }),
{
    let sep = src.preferences().spec_decimal_separator();
    lemma_column_rules_len(sheet, sep, (sheet.spec_width() - 1) as nat);
    let ts = sheet_rules(sheet, sep)->Ok_0;
    let v = src.rules()->Some_0;
    assert forall|i: usize| i < ts.len() implies ((#[trigger] src.spec_rule_data(i)) matches Ok(rd)
        && rd.spec_field_name() == ts[i as int].0 && rd.spec_condition() == ts[i as int].1
        && rd.spec_field_type() == ts[i as int].2) by {
        assert(v[i as int] == v[i as int]);
    }
}

/// The rules of columns `0..k`, when all of them are read, are `k`.
proof fn lemma_column_rules_len(sheet: Sheet, separator: char, k: nat)
    requires
        column_rules(sheet, separator, k) is Ok,
    ensures
        column_rules(sheet, separator, k)->Ok_0.len() == k,
    decreases k,
{
    if k > 0 {
        lemma_column_rules_len(sheet, separator, (k - 1) as nat);
    }
}

/// A `u8` column reads a number cell as the number when `u8` holds it:
/// an integer cell in range keeps its value, a floating-point cell is cast
/// with `as u8` (truncated, and saturating at `u8`'s bounds), and text is
/// read exactly when it writes an integer in range, as that integer.
pub proof fn law_u8_cells_keep_their_values(c: Cell, row: usize, col: usize)
    ensures
        match c.value {
            CellValue::Int { value, .. } => u8::MIN <= value <= u8::MAX ==> U8Reader {  }.spec_read(c, row, col)
                == Ok::<u8, DtError>(value as u8),
            CellValue::Float(f) => U8Reader {  }.spec_read(c, row, col) == Ok::<u8, DtError>(
                if f.as_i64 < u8::MIN {
                    u8::MIN
                } else if f.as_i64 > u8::MAX {
                    u8::MAX
                } else {
                    f.as_i64 as u8
                },
            ),
            CellValue::String { text, .. } => match crate::text::decimal_value(text@, false) {
                Some(v) => if u8::MIN <= v <= u8::MAX {
                    U8Reader {  }.spec_read(c, row, col) == Ok::<u8, DtError>(v as u8)
                } else {
                    U8Reader {  }.spec_read(c, row, col) is Err
                },
                None => U8Reader {  }.spec_read(c, row, col) is Err,
            },
            _ => U8Reader {  }.spec_read(c, row, col) is Err,
        },
{
}

/// A `u16` column reads a number cell as the number when `u16` holds it:
/// an integer cell in range keeps its value, a floating-point cell is cast
/// with `as u16` (truncated, and saturating at `u16`'s bounds), and text is
/// read exactly when it writes an integer in range, as that integer.
pub proof fn law_u16_cells_keep_their_values(c: Cell, row: usize, col: usize)
    ensures
        match c.value {
            CellValue::Int { value, .. } => u16::MIN <= value <= u16::MAX ==> U16Reader {  }.spec_read(c, row, col)
                == Ok::<u16, DtError>(value as u16),
            CellValue::Float(f) => U16Reader {  }.spec_read(c, row, col) == Ok::<u16, DtError>(
                if f.as_i64 < u16::MIN {
                    u16::MIN
                } else if f.as_i64 > u16::MAX {
                    u16::MAX
                } else {
                    f.as_i64 as u16
                },
            ),
            CellValue::String { text, .. } => match crate::text::decimal_value(text@, false) {
                Some(v) => if u16::MIN <= v <= u16::MAX {
                    U16Reader {  }.spec_read(c, row, col) == Ok::<u16, DtError>(v as u16)
                } else {
                    U16Reader {  }.spec_read(c, row, col) is Err
                },
                None => U16Reader {  }.spec_read(c, row, col) is Err,
            },
            _ => U16Reader {  }.spec_read(c, row, col) is Err,
        },
{
}

/// A `u32` column reads a number cell as the number when `u32` holds it:
/// an integer cell in range keeps its value, a floating-point cell is cast
/// with `as u32` (truncated, and saturating at `u32`'s bounds), and text is
/// read exactly when it writes an integer in range, as that integer.
pub proof fn law_u32_cells_keep_their_values(c: Cell, row: usize, col: usize)
    ensures
        match c.value {
            CellValue::Int { value, .. } => u32::MIN <= value <= u32::MAX ==> U32Reader {  }.spec_read(c, row, col)
                == Ok::<u32, DtError>(value as u32),
            CellValue::Float(f) => U32Reader {  }.spec_read(c, row, col) == Ok::<u32, DtError>(
                if f.as_i64 < u32::MIN {
                    u32::MIN
                } else if f.as_i64 > u32::MAX {
                    u32::MAX
                } else {
                    f.as_i64 as u32
                },
            ),
            CellValue::String { text, .. } => match crate::text::decimal_value(text@, false) {
                Some(v) => if u32::MIN <= v <= u32::MAX {
                    U32Reader {  }.spec_read(c, row, col) == Ok::<u32, DtError>(v as u32)
                } else {
                    U32Reader {  }.spec_read(c, row, col) is Err
                },
                None => U32Reader {  }.spec_read(c, row, col) is Err,
            },
            _ => U32Reader {  }.spec_read(c, row, col) is Err,
        },
{
}

/// A `u64` column reads a number cell as the number when `u64` holds it:
/// an integer cell in range keeps its value, a floating-point cell is cast
/// with `as u64` (truncated, and saturating at `u64`'s bounds), and text is
/// read exactly when it writes an integer in range, as that integer.
pub proof fn law_u64_cells_keep_their_values(c: Cell, row: usize, col: usize)
    ensures
        match c.value {
            CellValue::Int { value, .. } => u64::MIN <= value <= u64::MAX ==> U64Reader {  }.spec_read(c, row, col)
                == Ok::<u64, DtError>(value as u64),
            CellValue::Float(f) => U64Reader {  }.spec_read(c, row, col) == Ok::<u64, DtError>(f.as_u64),
            CellValue::String { text, .. } => match crate::text::decimal_value(text@, false) {
                Some(v) => if u64::MIN <= v <= u64::MAX {
                    U64Reader {  }.spec_read(c, row, col) == Ok::<u64, DtError>(v as u64)
                } else {
                    U64Reader {  }.spec_read(c, row, col) is Err
                },
                None => U64Reader {  }.spec_read(c, row, col) is Err,
            },
            _ => U64Reader {  }.spec_read(c, row, col) is Err,
        },
{
}

/// A `i8` column reads a number cell as the number when `i8` holds it:
/// an integer cell in range keeps its value, a floating-point cell is cast
/// with `as i8` (truncated, and saturating at `i8`'s bounds), and text is
/// read exactly when it writes an integer in range, as that integer.
pub proof fn law_i8_cells_keep_their_values(c: Cell, row: usize, col: usize)
    ensures
        match c.value {
            CellValue::Int { value, .. } => i8::MIN <= value <= i8::MAX ==> I8Reader {  }.spec_read(c, row, col)
                == Ok::<i8, DtError>(value as i8),
            CellValue::Float(f) => I8Reader {  }.spec_read(c, row, col) == Ok::<i8, DtError>(
                if f.as_i64 < i8::MIN {
                    i8::MIN
                } else if f.as_i64 > i8::MAX {
                    i8::MAX
                } else {
                    f.as_i64 as i8
                },
            ),
            CellValue::String { text, .. } => match crate::text::decimal_value(text@, true) {
                Some(v) => if i8::MIN <= v <= i8::MAX {
                    I8Reader {  }.spec_read(c, row, col) == Ok::<i8, DtError>(v as i8)
                } else {
                    I8Reader {  }.spec_read(c, row, col) is Err
                },
                None => I8Reader {  }.spec_read(c, row, col) is Err,
            },
            _ => I8Reader {  }.spec_read(c, row, col) is Err,
        },
{
}

/// A `i16` column reads a number cell as the number when `i16` holds it:
/// an integer cell in range keeps its value, a floating-point cell is cast
/// with `as i16` (truncated, and saturating at `i16`'s bounds), and text is
/// read exactly when it writes an integer in range, as that integer.
pub proof fn law_i16_cells_keep_their_values(c: Cell, row: usize, col: usize)
    ensures
        match c.value {
            CellValue::Int { value, .. } => i16::MIN <= value <= i16::MAX ==> I16Reader {  }.spec_read(c, row, col)
                == Ok::<i16, DtError>(value as i16),
            CellValue::Float(f) => I16Reader {  }.spec_read(c, row, col) == Ok::<i16, DtError>(
                if f.as_i64 < i16::MIN {
                    i16::MIN
                } else if f.as_i64 > i16::MAX {
                    i16::MAX
                } else {
                    f.as_i64 as i16
                },
            ),
            CellValue::String { text, .. } => match crate::text::decimal_value(text@, true) {
                Some(v) => if i16::MIN <= v <= i16::MAX {
                    I16Reader {  }.spec_read(c, row, col) == Ok::<i16, DtError>(v as i16)
                } else {
                    I16Reader {  }.spec_read(c, row, col) is Err
                },
                None => I16Reader {  }.spec_read(c, row, col) is Err,
            },
            _ => I16Reader {  }.spec_read(c, row, col) is Err,
        },
{
}

/// A `i32` column reads a number cell as the number when `i32` holds it:
/// an integer cell in range keeps its value, a floating-point cell is cast
/// with `as i32` (truncated, and saturating at `i32`'s bounds), and text is
/// read exactly when it writes an integer in range, as that integer.
pub proof fn law_i32_cells_keep_their_values(c: Cell, row: usize, col: usize)
    ensures
        match c.value {
            CellValue::Int { value, .. } => i32::MIN <= value <= i32::MAX ==> I32Reader {  }.spec_read(c, row, col)
                == Ok::<i32, DtError>(value as i32),
            CellValue::Float(f) => I32Reader {  }.spec_read(c, row, col) == Ok::<i32, DtError>(
                if f.as_i64 < i32::MIN {
                    i32::MIN
                } else if f.as_i64 > i32::MAX {
                    i32::MAX
                } else {
                    f.as_i64 as i32
                },
            ),
            CellValue::String { text, .. } => match crate::text::decimal_value(text@, true) {
                Some(v) => if i32::MIN <= v <= i32::MAX {
                    I32Reader {  }.spec_read(c, row, col) == Ok::<i32, DtError>(v as i32)
                } else {
                    I32Reader {  }.spec_read(c, row, col) is Err
                },
                None => I32Reader {  }.spec_read(c, row, col) is Err,
            },
            _ => I32Reader {  }.spec_read(c, row, col) is Err,
        },
{
}

/// A `i64` column reads a number cell as the number when `i64` holds it:
/// an integer cell in range keeps its value, a floating-point cell is cast
/// with `as i64` (truncated, and saturating at `i64`'s bounds), and text is
/// read exactly when it writes an integer in range, as that integer.
pub proof fn law_i64_cells_keep_their_values(c: Cell, row: usize, col: usize)
    ensures
        match c.value {
            CellValue::Int { value, .. } => i64::MIN <= value <= i64::MAX ==> I64Reader {  }.spec_read(c, row, col)
                == Ok::<i64, DtError>(value as i64),
            CellValue::Float(f) => I64Reader {  }.spec_read(c, row, col) == Ok::<i64, DtError>(f.as_i64),
            CellValue::String { text, .. } => match crate::text::decimal_value(text@, true) {
                Some(v) => if i64::MIN <= v <= i64::MAX {
                    I64Reader {  }.spec_read(c, row, col) == Ok::<i64, DtError>(v as i64)
                } else {
                    I64Reader {  }.spec_read(c, row, col) is Err
                },
                None => I64Reader {  }.spec_read(c, row, col) is Err,
            },
            _ => I64Reader {  }.spec_read(c, row, col) is Err,
        },
{
}

/// Gathering an integer keeps the largest value seen: the new largest is at
/// least the integer and at least the earlier largest, and is one of them;
/// the column is negative once it has held a negative integer.
pub proof fn law_stats_keep_the_largest(st: NumberStats, v: i64)
    ensures
        stats_int(st, v).max_value >= st.max_value,
        stats_int(st, v).max_value >= v,
        stats_int(st, v).max_value == st.max_value || stats_int(st, v).max_value == v,
        stats_int(st, v).contains_negative == (st.contains_negative || v < 0),
        stats_int(st, v).contains_decimal == st.contains_decimal,
        stats_int(st, v).contains_f64 == st.contains_f64,
{
}

/// The largest value of a column's number statistics is at least 0 and at
/// least every integer cell of the column, and integral floating-point cells
/// count by their integer value.
pub proof fn law_number_stats_bound_the_cells(sheet: Sheet, col: usize, separator: char, rows: int)
    requires
        number_stats(sheet, col, separator, rows) is Ok,
    ensures
        number_stats(sheet, col, separator, rows)->Ok_0.max_value >= 0,
        forall|r: int|
            DATA_ROWS_START <= r < rows ==> match (#[trigger] sheet.cell(r, col as int)).value {
                CellValue::Int { value, .. } => number_stats(sheet, col, separator, rows)->Ok_0.max_value
                    >= value,
                CellValue::Float(f) => f.is_integral ==> number_stats(sheet, col, separator, rows)->Ok_0.max_value
                    >= f.as_i64,
                _ => true,
            },
    decreases rows,
{
    if rows > DATA_ROWS_START {
        law_number_stats_bound_the_cells(sheet, col, separator, rows - 1);
    }
}

} // verus!

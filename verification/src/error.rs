//! The errors of building and querying a decision table.

use vstd::prelude::*;
use crate::json_parseable::ConversionError;

verus! {

/// What went wrong, with the data that identifies where.
#[derive(Clone, Debug)]
pub enum DtError {
    /// The query has no field that a rule reads.
    FieldNotFound { field: String },
    /// The query field could not be read as the rule's value type.
    QueryConversion { field: String, reason: ConversionError },
    /// A rule's column has another number of values than the table has variants.
    ValueCountMismatch { field: String, found: usize, required: usize },
    /// The table has no rule that can be cached.
    NoRules,
    /// A selected variant has no result.
    IndexOutOfBounds { index: usize },
    /// The results are fewer or more than the variants.
    VariantsCountMismatch { found: usize, required: usize },
    /// The data source was read before it was initialised.
    NotInitialized,
    /// The data source has no rule with this number.
    NoRuleData { rule: usize },
    /// Date-time values were asked of a rule of another type.
    InvalidRuleType,
    /// A column past the sheet's width was asked for.
    ColumnOutOfRange { col: usize, width: usize },
    /// The sheet has no cell at this place.
    MissingCell { row: usize, col: usize },
    /// A cell holds a kind of value that its column's type does not take.
    InvalidCellType { row: usize, col: usize, found: String },
    /// A cell's text does not parse as its column's type.
    CellParse { row: usize, col: usize, found: String },
    /// A cell's date-time cannot be placed in the column's time zone.
    DateTimeOutOfRange { row: usize, col: usize },
    /// The sheet has fewer than four rows.
    TooFewRows,
    /// The last column is not named `out`.
    OutColumnMissing,
    /// The first row holds no text for this column.
    NoFieldName { col: usize },
    /// The type row of this column is not one of the known types.
    InvalidValueType { col: usize, found: String },
    /// The time zone in a `DateTime(..)` type cannot be read.
    InvalidTimeZone { col: usize, found: String },
    /// The condition row of this column is not one of `<`, `>`, `<=`, `>=`, `=`.
    InvalidCondition { col: usize, found: String },
}

} // verus!

//! Why a table operation was refused.

use vstd::prelude::*;

verus! {

/// The reasons a table operation can refuse its input.
#[derive(Clone, Debug, PartialEq, Eq)]
pub enum TableError {
    /// No column carries this name.
    ColumnNotFound(String),
    /// A column that would be created already exists.
    ColumnExists(String),
    /// A filter needs both a column and a keyword.
    MissingColumnOrKeyword,
    /// A row range must satisfy `1 <= start <= end`.
    InvalidRowRange,
    /// A row count must be positive.
    ZeroCount,
    /// A column list must not be empty.
    EmptyColumnList,
    /// A column name must not be blank.
    EmptyColumnName,
    /// The operation would leave no columns.
    EmptyResult,
    /// At least one of prefix and suffix is needed.
    EmptyAffix,
    /// Merging needs at least two source columns.
    TooFewColumns,
    /// A search text or delimiter must not be empty.
    EmptyPattern,
    /// A length limit must be positive.
    ZeroLength,
    /// A time window needs both bounds.
    MissingTimeBound,
    /// A time bound is not a recognisable date or timestamp.
    UnparsableTime(String),
    /// The start of a time window lies after its end.
    InvertedTimeWindow,
    /// Joining needs non-empty key lists of equal length.
    KeyPairsRequired,
    /// A statistic needs at least one non-empty cell.
    NoSamples,
    /// The operation computes with floating-point numbers, outside this library.
    FloatArithmetic,
    /// An arithmetic expression that cannot be read.
    InvalidExpression,
    /// Moving a moment would leave the representable range of dates.
    TimeOutOfRange,
    /// A file name without one of the supported extensions.
    UnsupportedFileType,
    /// There is no earlier state to go back to.
    NothingToUndo,
    /// There is no undone state to go forward to.
    NothingToRedo,
    /// A field (first) holds text (second) that is not a number of its kind.
    InvalidNumber(String, String),
    /// A field (named here) must hold a number greater than zero.
    NotPositive(String),
    /// At least one object key must be given.
    ObjectKeysRequired,
    /// The primary source has no column for this object key.
    MissingObjectKey(String),
    /// A time column must be given.
    TimeColumnRequired,
    /// The primary source has no column for this time column name.
    MissingTimeColumn(String),
    /// A secondary source has no column whose normalised name matches this one.
    NoMatchingColumn(String),
    /// The CSV reader refused the text.
    CsvUnreadable,
    /// serde_json cannot read the text as JSON.
    JsonUnreadable,
    /// The root of a JSON document must be an object or an array.
    JsonRootNotContainer,
    /// No dataset is selected.
    NoDatasetSelected,
    /// No dataset has this id.
    DatasetNotFound(i32),
    /// A dataset cannot be joined with itself.
    JoinWithItself,
    /// A composite key needs at least two fields.
    CompositeKeysTooFew,
    /// A range rule needs a column.
    RangeColumnRequired,
    /// A range rule needs a lower or an upper bound.
    RangeBoundRequired,
    /// The lower bound of a range rule exceeds its upper bound.
    RangeMinAboveMax,
    /// A length rule needs a column.
    LengthColumnRequired,
    /// A length rule needs a limit.
    LengthLimitRequired,
    /// A time-gap rule needs a recognisable time column.
    TimeGapNeedsTimeColumn,
}

} // verus!

//! Fixed numbers of the report format and the thresholds of the retention
//! rule.

use vstd::prelude::*;

verus! {

/// Number of header lines of a `cpu` report, the column titles included.
pub const CPU_HEADER_SIZE: usize = 6;

/// Number of header lines of a report of any other type.
pub const REST_HEADER_SIZE: usize = 5;

/// Number of columns that come before the function name in a row.
pub const FUNCTION_NAME_INDEX: usize = 5;

/// Least number of words in a row: the numeric columns and one word of name.
pub const MINIMUM_ROW_WORDS: usize = 6;

/// A row whose own cumulative percentage reaches this is kept.
pub const CUM_MINIMUM: u64 = 10;

/// A row whose running percentage does not exceed this is kept.
pub const SUM_MAXIMUM: u64 = 80;

} // verus!

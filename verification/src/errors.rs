use vstd::prelude::*;

verus! {

/// The failures the statistics pipeline can report.
///
/// Per-record problems (a missing field, an unparsable timestamp) are not
/// errors: such records are silently skipped. These variants cover the two
/// fatal kinds: a dataset in which no record carries a usable timestamp, and
/// a caller-supplied identifier that names no known dimension or sort metric.
#[derive(Clone, Copy, Debug, PartialEq, Eq, Structural)]
pub enum StatsError {
    /// No record in the whole collection has a parseable timestamp, so no
    /// default date window can be derived.
    NoParseableTimestamps,
    /// The grouping-dimension identifier is not one of the recognized ones.
    InvalidDimension,
    /// The sort-metric identifier is not one of the recognized ones.
    InvalidSortMetric,
}

} // verus!

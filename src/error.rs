//! Why one scrape could not update its metrics.
use vstd::prelude::*;

verus! {

/// The ways in which one collection cycle fails. Each aborts only the
/// current scrape's update of the metric families concerned.
#[derive(Debug, Clone, PartialEq, Eq)]
pub enum CollectError {
    /// A line of command output does not have the expected fields, or a
    /// numeric field does not hold a non-negative decimal integer. Carries
    /// the line as it was read.
    MalformedRecord(String),
    /// A query command could not be run, did not exit with status zero, or
    /// printed something that is not text. Carries a description.
    CollectionFailure(String),
    /// The metrics registry refused a family or a value, or could not
    /// encode its contents. Carries the registry's message.
    PublishFailure(String),
}

} // verus!

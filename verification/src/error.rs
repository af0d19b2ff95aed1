//! The failures that ledger operations report.

use vstd::prelude::*;
use crate::window::TimeWindow;

verus! {

/// A typed failure. None of these is retried: each is reported to the caller as it is.
#[derive(PartialEq, Eq, Debug)]
pub enum TTError {
    /// Malformed input; `message` says what was wrong with it.
    TTError { message: String },
    /// The candidate window `time` conflicts with stored windows: `ids`
    /// lists every conflicting window in stored order and `example` is the
    /// first of them.
    Overlap { ids: Vec<i64>, time: TimeWindow, example: TimeWindow },
    /// The operation named a window id or a category that is not stored.
    NotFound,
    /// A category that still has windows logged against it was to be deleted
    /// without deleting those windows too.
    Integrity,
    /// A summary was asked of no windows at all.
    EmptyResult,
}

} // verus!

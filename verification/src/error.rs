//! Errors the scheduling engine can report to its caller.  Incompatibility
//! and a full batch are not errors: they only drive the admission search on.

use vstd::prelude::*;

verus! {

/// A terminal scheduling failure.
#[derive(Debug, Clone, Copy, PartialEq, Eq, Structural)]
pub enum ScheduleError {
    /// The job exceeds the raw capacity of every machine, even alone in an
    /// empty batch, so no placement can ever admit it.
    JobTooLarge,
    /// An administrative removal named a position that does not exist.
    IndexOutOfRange,
}

} // verus!

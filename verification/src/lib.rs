//! Batch admission and scheduling engine for a fleet of 3D printers.
//!
//! Jobs carry a physical footprint, a process family and an estimated print
//! duration.  A farm of machines admits each job into the first batch whose
//! family matches and whose remaining capacity holds the job, opening a new
//! batch at the tail of a machine's queue when no open batch fits.

pub mod batch;
pub mod machine;
pub(crate) mod clock;
pub mod error;
pub mod farm;
pub mod laws;
pub mod family;
pub mod model;

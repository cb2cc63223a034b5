//! Log-segment rotation and retention: per-stream epoch tracking, record-count
//! and time-boundary triggers, a retention window, a registry of named streams,
//! and an edge-triggered calendar matcher.

use vstd::prelude::*;

pub mod cron;
pub mod distributor;
pub mod rotator;
pub mod table;
pub mod time_past;

verus! {

/// The capability that serializes records into one segment file.
pub trait LogWriter: Sized {
    /// No record handed to the writer is still held back from its file.
    spec fn is_flushed(&self) -> bool;

    /// The path of the segment file that the writer writes to.
    spec fn path(&self) -> &str;

    /// Pushes buffered records to the segment file.
    fn flush(&mut self)
        ensures
            final(self).is_flushed(),
            final(self).path()@ == old(self).path()@,
    ;

    /// Creates or truncates the segment file at `path`, whose directory exists,
    /// and writes to it.
    fn open(path: &str) -> (r: Self)
        ensures
            r.path()@ == path@,
    ;

    /// The extension of the segment files, without the dot.
    fn file_extension() -> &'static str;
}

} // verus!

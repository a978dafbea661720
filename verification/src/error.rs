use vstd::prelude::*;

verus! {

/// Unified error type: one variant per originating subsystem.
#[derive(Debug)]
pub enum Error {
    /// A failure reported by the repository backend, with its message.
    Git2 { message: String },
    /// A commit timestamp or UTC offset that cannot be represented as a
    /// normalized instant; carries the offending raw values.
    TimeOutOfRange { seconds: i64, offset_minutes: i32 },
}

} // verus!

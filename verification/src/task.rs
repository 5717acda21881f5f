//! Task: a single-use unit of work with an optional delay.

use vstd::prelude::*;

verus! {

/// Declares `uuid::Uuid` so that it can stand in signatures and fields.
/// The value is opaque to verification; it serves diagnostics only and is
/// never used for ordering.
#[verifier::external_type_specification]
#[verifier::external_body]
pub struct ExUuid(uuid::Uuid);

/// Relies on `uuid::Uuid::new_v4`: it returns a freshly generated random
/// identifier. Nothing can be promised of a random value, so this states
/// nothing about it.
pub assume_specification[ uuid::Uuid::new_v4 ]() -> uuid::Uuid;

/// A unit of work awaiting execution.
///
/// `work` is the payload the scheduler hands back to its driver exactly once;
/// `delay` is the number of time-units after submission before the task
/// becomes runnable (`None` means runnable immediately). The identifier is
/// assigned at construction and carries no scheduling meaning.
pub struct Task<W> {
    pub id: uuid::Uuid,
    pub work: W,
    pub delay: Option<u64>,
}

impl<W> Task<W> {
    /// Constructs a task with a fresh identity; the work is not run.
    pub fn new(work: W, delay: Option<u64>) -> (t: Task<W>)
        ensures
            t.work == work,
            t.delay == delay,
    {
        Task { id: uuid::Uuid::new_v4(), work, delay }
    }
}

} // verus!

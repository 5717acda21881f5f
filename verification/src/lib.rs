//! A single-process, cooperative task scheduler.
//!
//! Tasks are single-use units of work with an optional delay before they
//! become runnable. A [`scheduler::Scheduler`] keeps two ordered collections:
//! `ready` (runnable now, FIFO) and `sleeping` (ordered by absolute expiry).
//! The driver repeatedly asks the scheduler for the next action via
//! [`scheduler::Scheduler::step`]: run a callback, wait for the earliest
//! expiry, or stop once both collections are empty.

pub mod scheduler;
pub mod task;

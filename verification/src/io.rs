//! Cooperative single-step polling: an in-flight operation is represented as
//! a persisted countdown that the owner re-polls once per simulated cycle.
//! There is no real blocking and no concurrency; "suspension" is modeled,
//! not performed.

use vstd::prelude::*;

verus! {

/// Outcome of polling an in-flight operation: still pending, or ready with
/// its value.
pub enum Poll<T> {
    Pending,
    Ready(T),
}

/// A cooperatively stepped operation: polling it against its context either
/// reports pending or yields the finished value.
pub trait Future {
    type Output;

    type Input;

    fn poll(&mut self, context: &mut Self::Input) -> Poll<Self::Output>;
}

} // verus!

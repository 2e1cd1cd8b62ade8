//! Results of simulation steps that may wait on engine callbacks.
use vstd::prelude::*;

verus! {

/// The result of a single simulation step.
#[derive(Debug, Clone, PartialEq, Eq)]
pub enum StepResult<T> {
    /// The value is available.
    Ready(T),
    /// Waiting for the callback with this request id.
    Pending(usize),
    /// The step rules the branch out.
    Invalid,
    /// A simulation pass finished successfully.
    Complete,
}

} // verus!

use vstd::prelude::*;

verus! {

/// Why an acquisition or a release could not be completed.
///
/// Losing a compare-and-swap race is not among them: the allocator answers a
/// lost race by reading the counter again.
#[derive(Clone, Copy, Debug, PartialEq, Eq, Structural)]
pub enum LockError {
    /// The resource name is empty.
    InvalidName,
    /// The coordination store could not be reached or rejected the request.
    Store,
    /// The store answered with something the protocol does not allow: an
    /// answer of the wrong kind, a counter that is not a ticket number, or an
    /// event on a sentinel other than its deletion.
    Protocol,
    /// The watch on the sentinel ended before the sentinel was deleted.
    WatchEnded,
    /// The counter has reached the largest ticket number.
    Exhausted,
    /// As many bids were lost to other contenders as the retry policy allows.
    Contended,
    /// The handle was issued for another resource.
    ForeignHandle,
}

/// A failure together with what the store's client said of it. `reason` is
/// empty where the failure is none of the store's.
#[derive(Clone, Debug, PartialEq, Eq)]
pub struct Failure {
    pub error: LockError,
    pub reason: String,
}

pub struct FailureView {
    pub error: LockError,
    pub reason: Seq<char>,
}

impl View for Failure {
    type V = FailureView;

    open spec fn view(&self) -> FailureView {
        FailureView { error: self.error, reason: self.reason@ }
    }
}

} // verus!

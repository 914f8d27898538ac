use vstd::prelude::*;
use crate::acquire::HeldMutex;
use crate::error::{Failure, FailureView, LockError};
use crate::keys::{
    counter_key, counter_key_of, encode_ticket, sentinel_key, sentinel_key_of, ticket_bytes, Mutex,
};
use crate::store::{
    ops_view, Condition, ConditionView, Op, OpView, Request, RequestView, Response, ResponseView,
};

verus! {

/// The transaction that gives the lock up.
///
/// Its guard reads the counter. Where the counter still holds the number
/// after the releasing ticket's own, no ticket has been issued since, nobody
/// is queued, and the counter is written back to the idle marker: the next
/// contender starts the sequence anew. Otherwise a later ticket has been
/// issued, and the sentinel of the next ticket is deleted, which wakes
/// whoever waits on it.
///
/// The guard cannot read the sentinel of the next ticket instead: between
/// the bid that takes a ticket and the write of its sentinel the ticket is
/// issued and the sentinel absent, and a reset in that window would issue the
/// ticket a second time.
pub open spec fn release_request(name: Seq<char>, token: u64) -> RequestView {
    RequestView::Txn {
        guard: ConditionView::Holds {
            key: counter_key(name),
            value: ticket_bytes((token + 1) as u64),
        },
        on_commit: seq![OpView::Put { key: counter_key(name), value: Seq::<u8>::empty() }],
        on_abort: seq![OpView::Delete { key: sentinel_key(name, (token + 1) as nat) }],
    }
}

/// Which branch a release took.
#[derive(Clone, Copy, Debug, PartialEq, Eq, Structural)]
pub enum Handoff {
    /// The counter was written back to the idle marker.
    Reset,
    /// A later ticket had been issued: the sentinel of the next ticket was
    /// deleted, if it was there.
    Passed,
}

/// What the store's answer to a release says.
pub open spec fn release_result(response: ResponseView) -> Result<Handoff, FailureView> {
    match response {
        ResponseView::Txn { committed } => if committed {
            Ok(Handoff::Reset)
        } else {
            Ok(Handoff::Passed)
        },
        ResponseView::Failed { reason } => Err(FailureView { error: LockError::Store, reason }),
        _ => Err(FailureView { error: LockError::Protocol, reason: Seq::empty() }),
    }
}

/// The view of what `released` returns.
pub open spec fn result_view(result: Result<Handoff, Failure>) -> Result<Handoff, FailureView> {
    match result {
        Ok(handoff) => Ok(handoff),
        Err(failure) => Err(failure@),
    }
}

impl Mutex {
    /// Gives the lock up: uses up the handle and returns the one transaction
    /// to send. A handle for another resource is rejected with
    /// `ForeignHandle`.
    ///
    /// The handle must be one that an acquisition of this lock, fed with the
    /// store's own answers, has ended in. What the transaction does to the
    /// store for any other handle is not defined by the protocol: it may wake
    /// a ticket whose turn has not come, or start the tickets anew while one
    /// is held.
    pub fn release(&self, held: HeldMutex) -> (request: Result<Request, LockError>)
        ensures
            held@.name == self@ <==> request is Ok,
            request matches Ok(r) ==> r@ == release_request(self@, held@.token),
            request matches Err(e) ==> e == LockError::ForeignHandle,
    {
        let name = self.name();
        if *held.name() != *name {
            return Err(LockError::ForeignHandle);
        }
        let token = held.token();
        let mut on_commit: Vec<Op> = Vec::new();
        on_commit.push(Op::Put { key: counter_key_of(name), value: Vec::new() });
        let mut on_abort: Vec<Op> = Vec::new();
        on_abort.push(Op::Delete { key: sentinel_key_of(name, token + 1) });
        let request = Request::Txn {
            guard: Condition::Holds {
                key: counter_key_of(name),
                value: encode_ticket(token + 1),
            },
            on_commit,
            on_abort,
        };
        proof {
            let expected = release_request(self@, held@.token);
            assert(ops_view(on_commit@) =~= expected->Txn_on_commit);
            assert(ops_view(on_abort@) =~= expected->Txn_on_abort);
        }
        Ok(request)
    }
}

/// Reads the store's answer to a release: which branch the transaction took;
/// `Store`, with the reason given, if the store failed; `Protocol` for an
/// answer that is none to a transaction.
pub fn released(response: &Response) -> (result: Result<Handoff, Failure>)
    ensures
        result_view(result) == release_result(response@),
{
    match response {
        Response::Txn { committed } => if *committed {
            Ok(Handoff::Reset)
        } else {
            Ok(Handoff::Passed)
        },
        Response::Failed { reason } => Err(
            Failure { error: LockError::Store, reason: reason.clone() },
        ),
        _ => Err(Failure { error: LockError::Protocol, reason: String::new() }),
    }
}

} // verus!

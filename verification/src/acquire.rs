use vstd::prelude::*;
use crate::error::{Failure, LockError};
use crate::keys::{
    counter_key, counter_key_of, decode_ticket, encode_ticket, placeholder, placeholder_bytes,
    sentinel_key, sentinel_key_of, ticket_bytes, ticket_number, Mutex,
};
use crate::store::{
    ops_view, request_view, Condition, ConditionView, EventKind, Op, OpView, Request, RequestView,
    Response, ResponseView,
};

verus! {

/// Where an acquisition stands.
///
/// In the first five phases one request is in flight and its answer is
/// awaited; in `Waiting` the subscription is open and its events are awaited;
/// `Held` and `Failed` are final.
#[derive(Clone, Copy, Debug, PartialEq, Eq, Structural)]
pub enum Phase {
    /// Trying to take the lock while it is idle.
    ClaimingIdle,
    /// Reading the counter, after the lock was found busy.
    Reading,
    /// Trying to move the counter from `taking` to `taking + 1`.
    Bidding { taking: u64 },
    /// Ticket `token` is ours; writing its sentinel.
    Registering { token: u64 },
    /// Opening the subscription to the sentinel of `token`.
    Subscribing { token: u64 },
    /// Waiting for the sentinel of `token` to be deleted.
    Waiting { token: u64 },
    /// The lock is ours, under ticket `token`.
    Held { token: u64 },
    /// The acquisition has failed; the caller does not hold the lock.
    Failed { error: LockError },
}

/// The ticket numbers a phase may carry: a bid is never for ticket 0, which
/// only the idle claim grants, and no ticket is the largest number, so that
/// its successor can be named.
pub open spec fn in_range(phase: Phase) -> bool {
    match phase {
        Phase::Bidding { taking } => 1 <= taking < u64::MAX,
        Phase::Registering { token } => 1 <= token < u64::MAX,
        Phase::Subscribing { token } => 1 <= token < u64::MAX,
        Phase::Waiting { token } => 1 <= token < u64::MAX,
        Phase::Held { token } => token < u64::MAX,
        _ => true,
    }
}

/// The ticket that the store has issued to an acquisition in `phase`, as far
/// as the phase tells.
pub open spec fn ticket_in(phase: Phase) -> Option<u64> {
    match phase {
        Phase::Registering { token } => Some(token),
        Phase::Subscribing { token } => Some(token),
        Phase::Waiting { token } => Some(token),
        Phase::Held { token } => Some(token),
        _ => None,
    }
}

/// The transaction that takes the lock if it is idle: it writes 1 to the
/// counter if the counter is absent or empty, and does nothing otherwise.
pub open spec fn idle_claim(name: Seq<char>) -> RequestView {
    RequestView::Txn {
        guard: ConditionView::Idle { key: counter_key(name) },
        on_commit: seq![OpView::Put { key: counter_key(name), value: ticket_bytes(1) }],
        on_abort: Seq::empty(),
    }
}

/// The read of the counter.
pub open spec fn counter_read(name: Seq<char>) -> RequestView {
    RequestView::Get { key: counter_key(name) }
}

/// The transaction that takes ticket `taking`: it moves the counter to
/// `taking + 1` if the counter still holds `taking`, and does nothing
/// otherwise.
pub open spec fn bid(name: Seq<char>, taking: u64) -> RequestView {
    RequestView::Txn {
        guard: ConditionView::Holds { key: counter_key(name), value: ticket_bytes(taking) },
        on_commit: seq![
            OpView::Put { key: counter_key(name), value: ticket_bytes((taking + 1) as u64) },
        ],
        on_abort: Seq::empty(),
    }
}

/// The write that registers ticket `token` as waiting.
///
/// The sentinel is written without a lease. Its deletion is the grant of the
/// lock, so a sentinel that ran out with its lease would grant the lock to a
/// ticket whose turn has not come.
pub open spec fn registration(name: Seq<char>, token: u64) -> RequestView {
    RequestView::Put { key: sentinel_key(name, token as nat), value: placeholder() }
}

/// The subscription to the sentinel of ticket `token`.
pub open spec fn subscription(name: Seq<char>, token: u64) -> RequestView {
    RequestView::Watch { key: sentinel_key(name, token as nat) }
}

/// The request that is in flight in a phase, if any.
pub open spec fn pending(name: Seq<char>, phase: Phase) -> Option<RequestView> {
    match phase {
        Phase::ClaimingIdle => Some(idle_claim(name)),
        Phase::Reading => Some(counter_read(name)),
        Phase::Bidding { taking } => Some(bid(name, taking)),
        Phase::Registering { token } => Some(registration(name, token)),
        Phase::Subscribing { token } => Some(subscription(name, token)),
        Phase::Waiting { .. } => None,
        Phase::Held { .. } => None,
        Phase::Failed { .. } => None,
    }
}

/// What follows a read of the counter. An idle counter sends the acquisition
/// back to the idle claim. A ticket number between 1 and the largest but one
/// is bid for. Anything else is no counter of this protocol.
pub open spec fn after_read(value: Option<Seq<u8>>) -> Phase {
    match value {
        None => Phase::ClaimingIdle,
        Some(bytes) => if bytes.len() == 0 {
            Phase::ClaimingIdle
        } else if bytes.len() != 8 {
            Phase::Failed { error: LockError::Protocol }
        } else if ticket_number(bytes) == 0 {
            Phase::Failed { error: LockError::Protocol }
        } else if ticket_number(bytes) == u64::MAX {
            Phase::Failed { error: LockError::Exhausted }
        } else {
            Phase::Bidding { taking: ticket_number(bytes) }
        },
    }
}

/// The phase that follows `phase` when the store answers `response`.
///
/// A final phase stays as it is. A failure of the store ends the acquisition
/// with `Store`, the end of the subscription with `WatchEnded`, and any answer
/// that the phase does not expect with `Protocol`.
pub open spec fn next_phase(name: Seq<char>, phase: Phase, response: ResponseView) -> Phase {
    match phase {
        Phase::Held { .. } => phase,
        Phase::Failed { .. } => phase,
        Phase::ClaimingIdle => match response {
            ResponseView::Txn { committed } => if committed {
                Phase::Held { token: 0 }
            } else {
                Phase::Reading
            },
            ResponseView::Failed { .. } => Phase::Failed { error: LockError::Store },
            _ => Phase::Failed { error: LockError::Protocol },
        },
        Phase::Reading => match response {
            ResponseView::Value { value } => after_read(value),
            ResponseView::Failed { .. } => Phase::Failed { error: LockError::Store },
            _ => Phase::Failed { error: LockError::Protocol },
        },
        Phase::Bidding { taking } => match response {
            ResponseView::Txn { committed } => if committed {
                Phase::Registering { token: taking }
            } else {
                Phase::Reading
            },
            ResponseView::Failed { .. } => Phase::Failed { error: LockError::Store },
            _ => Phase::Failed { error: LockError::Protocol },
        },
        Phase::Registering { token } => match response {
            ResponseView::Written => Phase::Subscribing { token },
            ResponseView::Failed { .. } => Phase::Failed { error: LockError::Store },
            _ => Phase::Failed { error: LockError::Protocol },
        },
        Phase::Subscribing { token } => match response {
            ResponseView::Watching => Phase::Waiting { token },
            ResponseView::WatchEnded => Phase::Failed { error: LockError::WatchEnded },
            ResponseView::Failed { .. } => Phase::Failed { error: LockError::Store },
            _ => Phase::Failed { error: LockError::Protocol },
        },
        Phase::Waiting { token } => match response {
            ResponseView::Event { kind, key } => if kind == EventKind::Delete && key
                == sentinel_key(name, token as nat) {
                Phase::Held { token }
            } else {
                Phase::Failed { error: LockError::Protocol }
            },
            ResponseView::WatchEnded => Phase::Failed { error: LockError::WatchEnded },
            ResponseView::Failed { .. } => Phase::Failed { error: LockError::Store },
            _ => Phase::Failed { error: LockError::Protocol },
        },
    }
}

/// How long an acquisition goes on bidding for a ticket, and how long it
/// pauses before it tries again.
#[derive(Clone, Copy, Debug, PartialEq, Eq)]
pub struct RetryPolicy {
    /// The number of lost bids at which the acquisition gives up; `None` for
    /// no bound. With 0 it gives up at the first lost bid, as with 1.
    pub max_lost_bids: Option<u64>,
    /// The pause after the first lost bid, in milliseconds. After each
    /// further lost bid the pause is longer by as much.
    pub pause_ms: u64,
    /// The longest pause, in milliseconds.
    pub max_pause_ms: u64,
}

/// The policy that never gives up and never pauses.
pub open spec fn unbounded() -> RetryPolicy {
    RetryPolicy { max_lost_bids: None, pause_ms: 0, max_pause_ms: 0 }
}

/// Whether a step from phase `before` to phase `after` is a lost bid.
pub open spec fn lost_bid(before: Phase, after: Phase) -> bool {
    before is Bidding && after is Reading
}

/// Whether an acquisition that has lost `lost` bids gives up.
pub open spec fn gives_up(policy: RetryPolicy, lost: u64) -> bool {
    policy.max_lost_bids matches Some(most) && lost >= most
}

/// The pause after `lost` lost bids: `lost` times the first pause, but no
/// longer than the longest.
pub open spec fn pause_after(policy: RetryPolicy, lost: u64) -> u64 {
    if policy.pause_ms * lost <= policy.max_pause_ms {
        (policy.pause_ms * lost) as u64
    } else {
        policy.max_pause_ms
    }
}

/// Whether a phase is final.
pub open spec fn is_final(phase: Phase) -> bool {
    phase is Held || phase is Failed
}

/// An acquisition in progress: the resource, the phase, the retry policy,
/// the bids lost so far, and what the store's client said of a failure.
#[derive(Debug)]
pub struct Acquisition {
    name: String,
    phase: Phase,
    policy: RetryPolicy,
    lost: u64,
    reason: String,
}

pub struct AcquisitionView {
    pub name: Seq<char>,
    pub phase: Phase,
    pub policy: RetryPolicy,
    pub lost: u64,
    pub reason: Seq<char>,
}

impl View for Acquisition {
    type V = AcquisitionView;

    closed spec fn view(&self) -> AcquisitionView {
        AcquisitionView {
            name: self.name@,
            phase: self.phase,
            policy: self.policy,
            lost: self.lost,
            reason: self.reason@,
        }
    }
}

/// The acquisition after the store has answered `response`.
///
/// The phase moves as `next_phase` says, with one exception: a lost bid at
/// which the policy gives up ends the acquisition with `Contended` instead
/// of reading the counter again. A lost bid is counted. A failure of the
/// store leaves its reason behind.
pub open spec fn advance(a: AcquisitionView, response: ResponseView) -> AcquisitionView {
    let stepped = next_phase(a.name, a.phase, response);
    let lost = if lost_bid(a.phase, stepped) && a.lost < u64::MAX {
        (a.lost + 1) as u64
    } else {
        a.lost
    };
    AcquisitionView {
        name: a.name,
        phase: if lost_bid(a.phase, stepped) && gives_up(a.policy, lost) {
            Phase::Failed { error: LockError::Contended }
        } else {
            stepped
        },
        policy: a.policy,
        lost,
        reason: match response {
            ResponseView::Failed { reason } => if is_final(a.phase) {
                a.reason
            } else {
                reason
            },
            _ => a.reason,
        },
    }
}

/// The pause to make before the request in flight is sent: none, except
/// before the read that follows a lost bid.
pub open spec fn pause_before(a: AcquisitionView) -> u64 {
    if a.phase is Reading && a.lost > 0 {
        pause_after(a.policy, a.lost)
    } else {
        0
    }
}

/// An acquisition does nothing that the contenders of the model cannot do:
/// each step is the step of the phases, or a lost bid followed by giving up.
pub proof fn lemma_advance_is_a_move(a: AcquisitionView, response: ResponseView)
    ensures
        advance(a, response).phase == next_phase(a.name, a.phase, response) || (next_phase(
            a.name,
            a.phase,
            response,
        ) == Phase::Reading && advance(a, response).phase == Phase::Failed {
            error: LockError::Contended,
        }),
        in_range(a.phase) ==> in_range(advance(a, response).phase),
{
}

/// The capability to release the lock of resource `name`, granted under
/// ticket `token`. It is made by an acquisition that has reached `Held`, and
/// used up by the release.
#[derive(Debug)]
pub struct HeldMutex {
    name: String,
    token: u64,
}

pub struct HeldView {
    pub name: Seq<char>,
    pub token: u64,
}

impl View for HeldMutex {
    type V = HeldView;

    closed spec fn view(&self) -> HeldView {
        HeldView { name: self.name@, token: self.token }
    }
}

impl HeldMutex {
    #[verifier::type_invariant]
    spec fn has_successor(self) -> bool {
        self.token < u64::MAX
    }

    /// The ticket under which the lock was granted.
    pub fn token(&self) -> (token: u64)
        ensures
            token == self@.token,
            token < u64::MAX,
    {
        proof {
            use_type_invariant(self);
        }
        self.token
    }

    /// The resource whose lock is held.
    pub fn name(&self) -> (name: &String)
        ensures
            name@ == self@.name,
    {
        &self.name
    }
}

/// A list of one write.
fn one_op(op: Op) -> (ops: Vec<Op>)
    ensures
        ops_view(ops@) == seq![op@],
{
    let mut ops: Vec<Op> = Vec::new();
    ops.push(op);
    assert(ops_view(ops@) =~= seq![op@]);
    ops
}

/// A list of no writes.
fn no_ops() -> (ops: Vec<Op>)
    ensures
        ops_view(ops@) == Seq::<OpView>::empty(),
{
    let ops: Vec<Op> = Vec::new();
    assert(ops_view(ops@) =~= Seq::<OpView>::empty());
    ops
}

/// The request in flight in `phase` for resource `name`. A bid must be for a
/// ticket that has a successor.
pub fn request_for(name: &String, phase: Phase) -> (request: Option<Request>)
    requires
        phase matches Phase::Bidding { taking } ==> taking < u64::MAX,
    ensures
        request_view(request) == pending(name@, phase),
{
    match phase {
        Phase::ClaimingIdle => Some(
            Request::Txn {
                guard: Condition::Idle { key: counter_key_of(name) },
                on_commit: one_op(Op::Put { key: counter_key_of(name), value: encode_ticket(1) }),
                on_abort: no_ops(),
            },
        ),
        Phase::Reading => Some(Request::Get { key: counter_key_of(name) }),
        Phase::Bidding { taking } => Some(
            Request::Txn {
                guard: Condition::Holds {
                    key: counter_key_of(name),
                    value: encode_ticket(taking),
                },
                on_commit: one_op(
                    Op::Put { key: counter_key_of(name), value: encode_ticket(taking + 1) },
                ),
                on_abort: no_ops(),
            },
        ),
        Phase::Registering { token } => Some(
            Request::Put { key: sentinel_key_of(name, token), value: placeholder_bytes() },
        ),
        Phase::Subscribing { token } => Some(Request::Watch { key: sentinel_key_of(name, token) }),
        Phase::Waiting { .. } => None,
        Phase::Held { .. } => None,
        Phase::Failed { .. } => None,
    }
}

/// The phase after a read of the counter found `value`.
pub fn phase_after_read(value: &Option<Vec<u8>>) -> (phase: Phase)
    ensures
        phase == after_read(
            match *value {
                Some(bytes) => Some(bytes@),
                None => None,
            },
        ),
        in_range(phase),
{
    match value {
        None => Phase::ClaimingIdle,
        Some(bytes) => {
            if bytes.len() == 0 {
                Phase::ClaimingIdle
            } else {
                match decode_ticket(bytes) {
                    None => Phase::Failed { error: LockError::Protocol },
                    Some(n) => {
                        if n == 0 {
                            Phase::Failed { error: LockError::Protocol }
                        } else if n == u64::MAX {
                            Phase::Failed { error: LockError::Exhausted }
                        } else {
                            Phase::Bidding { taking: n }
                        }
                    },
                }
            }
        },
    }
}

/// The phase that follows `phase` of an acquisition for resource `name` when
/// the store answers `response`.
pub fn phase_after(name: &String, phase: Phase, response: &Response) -> (next: Phase)
    ensures
        next == next_phase(name@, phase, response@),
        in_range(phase) ==> in_range(next),
{
    let store_failed = match response {
        Response::Failed { .. } => true,
        _ => false,
    };
    let watch_ended = match response {
        Response::WatchEnded => true,
        _ => false,
    };
    let unexpected = Phase::Failed { error: LockError::Protocol };
    match phase {
        Phase::Held { token } => Phase::Held { token },
        Phase::Failed { error } => Phase::Failed { error },
        Phase::ClaimingIdle => match response {
            Response::Txn { committed } => if *committed {
                Phase::Held { token: 0 }
            } else {
                Phase::Reading
            },
            _ => if store_failed {
                Phase::Failed { error: LockError::Store }
            } else {
                unexpected
            },
        },
        Phase::Reading => match response {
            Response::Value { value } => phase_after_read(value),
            _ => if store_failed {
                Phase::Failed { error: LockError::Store }
            } else {
                unexpected
            },
        },
        Phase::Bidding { taking } => match response {
            Response::Txn { committed } => if *committed {
                Phase::Registering { token: taking }
            } else {
                Phase::Reading
            },
            _ => if store_failed {
                Phase::Failed { error: LockError::Store }
            } else {
                unexpected
            },
        },
        Phase::Registering { token } => match response {
            Response::Written => Phase::Subscribing { token },
            _ => if store_failed {
                Phase::Failed { error: LockError::Store }
            } else {
                unexpected
            },
        },
        Phase::Subscribing { token } => match response {
            Response::Watching => Phase::Waiting { token },
            _ => if store_failed {
                Phase::Failed { error: LockError::Store }
            } else if watch_ended {
                Phase::Failed { error: LockError::WatchEnded }
            } else {
                unexpected
            },
        },
        Phase::Waiting { token } => match response {
            Response::Event { kind, key } => {
                let deleted = match kind {
                    EventKind::Delete => true,
                    EventKind::Put => false,
                };
                let own = sentinel_key_of(name, token);
                if deleted && *key == own {
                    Phase::Held { token }
                } else {
                    unexpected
                }
            },
            _ => if store_failed {
                Phase::Failed { error: LockError::Store }
            } else if watch_ended {
                Phase::Failed { error: LockError::WatchEnded }
            } else {
                unexpected
            },
        },
    }
}

impl RetryPolicy {
    /// The policy that never gives up and never pauses.
    pub fn unbounded() -> (policy: RetryPolicy)
        ensures
            policy == unbounded(),
    {
        RetryPolicy { max_lost_bids: None, pause_ms: 0, max_pause_ms: 0 }
    }

    /// Whether an acquisition that has lost `lost` bids gives up.
    pub fn gives_up(&self, lost: u64) -> (over: bool)
        ensures
            over == gives_up(*self, lost),
    {
        match self.max_lost_bids {
            Some(most) => lost >= most,
            None => false,
        }
    }

    /// The pause after `lost` lost bids, in milliseconds.
    pub fn pause_after(&self, lost: u64) -> (pause: u64)
        ensures
            pause == pause_after(*self, lost),
    {
        match self.pause_ms.checked_mul(lost) {
            Some(pause) => if pause <= self.max_pause_ms {
                pause
            } else {
                self.max_pause_ms
            },
            None => self.max_pause_ms,
        }
    }
}

impl Acquisition {
    #[verifier::type_invariant]
    spec fn sound(self) -> bool {
        in_range(self.phase)
    }

    /// The phase the acquisition is in.
    pub fn phase(&self) -> (phase: Phase)
        ensures
            phase == self@.phase,
            in_range(phase),
    {
        proof {
            use_type_invariant(self);
        }
        self.phase
    }

    /// The ticket the store has issued to this acquisition, if the phase
    /// tells of one.
    ///
    /// While there is none, an acquisition whose request in flight has not
    /// been sent can be given up without harm: nothing in the store speaks of
    /// it. Once there is one, the tickets behind it wait for it to be
    /// granted the lock and to release it.
    pub fn ticket(&self) -> (ticket: Option<u64>)
        ensures
            ticket == ticket_in(self@.phase),
    {
        match self.phase {
            Phase::Registering { token } => Some(token),
            Phase::Subscribing { token } => Some(token),
            Phase::Waiting { token } => Some(token),
            Phase::Held { token } => Some(token),
            _ => None,
        }
    }

    /// The number of bids lost so far.
    pub fn lost_bids(&self) -> (lost: u64)
        ensures
            lost == self@.lost,
    {
        self.lost
    }

    /// The pause to make before the request in flight is sent, in
    /// milliseconds.
    pub fn pause_ms(&self) -> (pause: u64)
        ensures
            pause == pause_before(self@),
    {
        let reading = match self.phase {
            Phase::Reading => true,
            _ => false,
        };
        if reading && self.lost > 0 {
            self.policy.pause_after(self.lost)
        } else {
            0
        }
    }

    /// Takes the store's answer and moves on as `advance` says. The request
    /// returned, if any, is the one to send next, after the pause that
    /// `pause_ms` gives; with none, a `Waiting` acquisition waits for the
    /// next event, and a final one is over.
    pub fn step(self, response: &Response) -> (next: (Acquisition, Option<Request>))
        ensures
            next.0@ == advance(self@, response@),
            request_view(next.1) == pending(self@.name, next.0@.phase),
    {
        proof {
            use_type_invariant(&self);
        }
        let stepped = phase_after(&self.name, self.phase, response);
        let bidding = match self.phase {
            Phase::Bidding { .. } => true,
            _ => false,
        };
        let reading = match stepped {
            Phase::Reading => true,
            _ => false,
        };
        let lost_bid = bidding && reading;
        let lost = if lost_bid && self.lost < u64::MAX {
            self.lost + 1
        } else {
            self.lost
        };
        let phase = if lost_bid && self.policy.gives_up(lost) {
            Phase::Failed { error: LockError::Contended }
        } else {
            stepped
        };
        let over = match self.phase {
            Phase::Held { .. } => true,
            Phase::Failed { .. } => true,
            _ => false,
        };
        let reason = match response {
            Response::Failed { reason } => if over {
                self.reason
            } else {
                reason.clone()
            },
            _ => self.reason,
        };
        let request = request_for(&self.name, phase);
        (Acquisition { name: self.name, phase, policy: self.policy, lost, reason }, request)
    }

    /// The handle, once the lock is held: `Ok` exactly in phase `Held`. In
    /// any other phase the acquisition is handed back unchanged.
    pub fn into_held(self) -> (held: Result<HeldMutex, Acquisition>)
        ensures
            held is Ok <==> self@.phase is Held,
            held matches Ok(h) ==> h@.name == self@.name && self@.phase == (Phase::Held {
                token: h@.token,
            }),
            held matches Err(a) ==> a@ == self@,
    {
        proof {
            use_type_invariant(&self);
        }
        match self.phase {
            Phase::Held { token } => Ok(HeldMutex { name: self.name, token }),
            _ => Err(self),
        }
    }

    /// The error, once the acquisition has failed: `Some` exactly in phase
    /// `Failed`.
    pub fn error(&self) -> (error: Option<LockError>)
        ensures
            error is Some <==> self@.phase is Failed,
            error matches Some(e) ==> self@.phase == (Phase::Failed { error: e }),
    {
        match self.phase {
            Phase::Failed { error } => Some(error),
            _ => None,
        }
    }

    /// The failure, once the acquisition has failed: the error, and with it
    /// what the store's client said when the store failed.
    pub fn failure(&self) -> (failure: Option<Failure>)
        ensures
            failure is Some <==> self@.phase is Failed,
            failure matches Some(f) ==> self@.phase == (Phase::Failed { error: f@.error })
                && f@.reason == self@.reason,
    {
        match self.phase {
            Phase::Failed { error } => Some(Failure { error, reason: self.reason.clone() }),
            _ => None,
        }
    }
}

impl Mutex {
    /// Starts an acquisition of this lock that bids until it has a ticket,
    /// however often it loses: the first phase, and the first request to
    /// send.
    pub fn acquire(&self) -> (started: (Acquisition, Request))
        ensures
            started.0@ == (AcquisitionView {
                name: self@,
                phase: Phase::ClaimingIdle,
                policy: unbounded(),
                lost: 0,
                reason: Seq::empty(),
            }),
            started.1@ == idle_claim(self@),
    {
        self.acquire_with(RetryPolicy::unbounded())
    }

    /// Starts an acquisition of this lock under a retry policy.
    pub fn acquire_with(&self, policy: RetryPolicy) -> (started: (Acquisition, Request))
        ensures
            started.0@ == (AcquisitionView {
                name: self@,
                phase: Phase::ClaimingIdle,
                policy,
                lost: 0,
                reason: Seq::empty(),
            }),
            started.1@ == idle_claim(self@),
    {
        let name = self.name().clone();
        let request = request_for(&name, Phase::ClaimingIdle);
        (
            Acquisition { name, phase: Phase::ClaimingIdle, policy, lost: 0, reason: String::new() },
            request.unwrap(),
        )
    }
}

} // verus!

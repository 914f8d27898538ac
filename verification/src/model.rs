use vstd::prelude::*;
use crate::acquire::{in_range, next_phase, pending, ticket_in, Phase};
use crate::keys::{counter_key, sentinel_key, ticket_number};
use crate::release::release_request;
use crate::error::LockError;
use crate::store::{serve, Change, EventKind, ResponseView};

verus! {

/// Where one contender stands.
pub enum Stage {
    /// It has not asked for the lock.
    Fresh,
    /// It has asked, and is in `phase`; this covers holding the lock.
    Acquiring { phase: Phase },
    /// It has held the lock under `token` and given it up.
    Released { token: u64 },
}

/// A ticket, with the round it was issued in. A round starts when the
/// counter leaves the idle state and ends when a release writes it back.
pub struct Ticket {
    pub round: nat,
    pub number: nat,
}

/// Whether ticket `a` was issued before ticket `b`.
pub open spec fn earlier(a: Ticket, b: Ticket) -> bool {
    a.round < b.round || (a.round == b.round && a.number < b.number)
}

/// One contender, as the model sees it.
pub struct Task {
    pub stage: Stage,
    /// The ticket the store has issued to it, from the moment the store
    /// commits the claim or the bid, whether or not the answer arrives.
    pub ticket: Option<Ticket>,
    /// The events of its subscription that it has not taken yet.
    pub inbox: Seq<Change>,
}

/// The store and all contenders for the lock of one resource.
pub struct World {
    pub store: Map<Seq<char>, Seq<u8>>,
    pub tasks: Seq<Task>,
    /// How many times a release has written the counter back to idle.
    pub round: nat,
    /// How many releases of this round have passed the lock on. Like `round`
    /// it is kept for the proofs; no contender reads it.
    pub turn: nat,
}

/// One atomic step of the whole.
///
/// The store serves one request at a time. A contender's taking of the
/// answer is folded into the serving of its request: between the two it does
/// nothing that the store or another contender could see.
///
/// A contender that dies is one that makes no further move. It keeps what
/// the store has given it: a holder that dies holds for ever, and a ticket
/// that dies in the queue stops the queue behind it.
pub enum Move {
    /// A fresh contender asks for the lock.
    Start { task: int },
    /// The store serves the request a contender has in flight, and the
    /// contender takes the answer.
    Serve { task: int },
    /// A contender is told that the store failed. With `applied`, the store
    /// had served the request in flight and only the answer was lost.
    Fail { task: int, applied: bool },
    /// A contender that has lost a bid gives up instead of reading the
    /// counter again.
    GiveUp { task: int },
    /// The subscription of a contender ends.
    EndWatch { task: int },
    /// A waiting contender takes the oldest event of its subscription.
    Deliver { task: int },
    /// The holder's release is served.
    Release { task: int },
    /// Somebody writes (`Some`) or deletes (`None`) a key that is none of
    /// this lock's.
    Foreign { key: Seq<char>, value: Option<Seq<u8>> },
}

/// Whether `key` is none of the keys of the lock of resource `name`.
pub open spec fn foreign(name: Seq<char>, key: Seq<char>) -> bool {
    &&& key != counter_key(name)
    &&& forall|t: nat| key != #[trigger] sentinel_key(name, t)
}

/// The changes in `changes` that concern `key`, in order.
pub open spec fn heard(key: Seq<char>, changes: Seq<Change>) -> Seq<Change>
    decreases changes.len(),
{
    if changes.len() == 0 {
        Seq::empty()
    } else if changes.last().key == key {
        heard(key, changes.drop_last()).push(changes.last())
    } else {
        heard(key, changes.drop_last())
    }
}

/// A contender after the store has made `changes`: one whose subscription is
/// open is told of those to its sentinel; any other hears nothing.
pub open spec fn told(name: Seq<char>, task: Task, changes: Seq<Change>) -> Task {
    match task.stage {
        Stage::Acquiring { phase: Phase::Waiting { token } } => Task {
            stage: task.stage,
            ticket: task.ticket,
            inbox: task.inbox + heard(sentinel_key(name, token as nat), changes),
        },
        _ => task,
    }
}

/// All contenders after the store has made `changes`.
pub open spec fn notify(name: Seq<char>, tasks: Seq<Task>, changes: Seq<Change>) -> Seq<Task> {
    Seq::new(tasks.len(), |i: int| told(name, tasks[i], changes))
}

/// The ticket that a phase is entered with, if entering it means that the
/// store has issued one.
pub open spec fn issued_by(before: Phase, after: Phase) -> Option<nat> {
    match (before, after) {
        (Phase::ClaimingIdle, Phase::Held { token }) => Some(token as nat),
        (Phase::Bidding { .. }, Phase::Registering { token }) => Some(token as nat),
        _ => None,
    }
}

/// Whether move `m` can be made in world `w`.
pub open spec fn enabled(name: Seq<char>, w: World, m: Move) -> bool {
    match m {
        Move::Start { task } => 0 <= task < w.tasks.len() && w.tasks[task].stage is Fresh,
        Move::Serve { task } => {
            &&& 0 <= task < w.tasks.len()
            &&& w.tasks[task].stage matches Stage::Acquiring { phase }
            &&& pending(name, phase) is Some
        },
        Move::Fail { task, applied } => {
            &&& 0 <= task < w.tasks.len()
            &&& w.tasks[task].stage matches Stage::Acquiring { phase }
            &&& (applied ==> pending(name, phase) is Some)
        },
        Move::GiveUp { task } => {
            &&& 0 <= task < w.tasks.len()
            &&& w.tasks[task].stage == Stage::Acquiring { phase: Phase::Reading }
        },
        Move::EndWatch { task } => {
            &&& 0 <= task < w.tasks.len()
            &&& w.tasks[task].stage matches Stage::Acquiring { phase }
            &&& (phase is Subscribing || phase is Waiting)
        },
        Move::Deliver { task } => {
            &&& 0 <= task < w.tasks.len()
            &&& w.tasks[task].stage matches Stage::Acquiring { phase }
            &&& phase is Waiting
            &&& w.tasks[task].inbox.len() > 0
        },
        Move::Release { task } => {
            &&& 0 <= task < w.tasks.len()
            &&& w.tasks[task].stage matches Stage::Acquiring { phase }
            &&& phase is Held
        },
        Move::Foreign { key, value } => foreign(name, key),
    }
}

/// The answer that tells of a failure of the store.
pub open spec fn failure() -> ResponseView {
    ResponseView::Failed { reason: Seq::empty() }
}

/// The world after the store has served the request that contender `task`
/// has in flight. With `answered` the contender takes the answer; without,
/// the answer is lost and the contender is told of a failure.
pub open spec fn served_for(name: Seq<char>, w: World, task: int, answered: bool) -> World {
    let phase = w.tasks[task].stage->phase;
    let served = serve(w.store, pending(name, phase)->Some_0);
    let next = next_phase(name, phase, served.response);
    World {
        store: served.store,
        tasks: notify(name, w.tasks, served.changes).update(
            task,
            Task {
                stage: Stage::Acquiring {
                    phase: if answered {
                        next
                    } else {
                        next_phase(name, phase, failure())
                    },
                },
                ticket: match issued_by(phase, next) {
                    Some(number) => Some(Ticket { round: w.round, number }),
                    None => w.tasks[task].ticket,
                },
                inbox: Seq::empty(),
            },
        ),
        round: w.round,
        turn: w.turn,
    }
}

/// The world after contender `task` has moved to `phase` by itself, with
/// `inbox` left of its events.
pub open spec fn moved(w: World, task: int, phase: Phase, inbox: Seq<Change>) -> World {
    World {
        store: w.store,
        tasks: w.tasks.update(
            task,
            Task { stage: Stage::Acquiring { phase }, ticket: w.tasks[task].ticket, inbox },
        ),
        round: w.round,
        turn: w.turn,
    }
}

/// The world after move `m`.
pub open spec fn step(name: Seq<char>, w: World, m: Move) -> World {
    match m {
        Move::Start { task } => World {
            store: w.store,
            tasks: w.tasks.update(
                task,
                Task {
                    stage: Stage::Acquiring { phase: Phase::ClaimingIdle },
                    ticket: None,
                    inbox: Seq::empty(),
                },
            ),
            round: w.round,
            turn: w.turn,
        },
        Move::Serve { task } => served_for(name, w, task, true),
        Move::Fail { task, applied } => if applied {
            served_for(name, w, task, false)
        } else {
            moved(
                w,
                task,
                next_phase(name, w.tasks[task].stage->phase, failure()),
                w.tasks[task].inbox,
            )
        },
        Move::GiveUp { task } => moved(
            w,
            task,
            Phase::Failed { error: LockError::Contended },
            w.tasks[task].inbox,
        ),
        Move::EndWatch { task } => moved(
            w,
            task,
            next_phase(name, w.tasks[task].stage->phase, ResponseView::WatchEnded),
            w.tasks[task].inbox,
        ),
        Move::Deliver { task } => {
            let event = w.tasks[task].inbox.first();
            moved(
                w,
                task,
                next_phase(
                    name,
                    w.tasks[task].stage->phase,
                    ResponseView::Event { kind: event.kind, key: event.key },
                ),
                w.tasks[task].inbox.drop_first(),
            )
        },
        Move::Release { task } => {
            let token = w.tasks[task].stage->phase->Held_token;
            let served = serve(w.store, release_request(name, token));
            let reset = served.response == (ResponseView::Txn { committed: true });
            World {
                store: served.store,
                tasks: notify(name, w.tasks, served.changes).update(
                    task,
                    Task {
                        stage: Stage::Released { token },
                        ticket: w.tasks[task].ticket,
                        inbox: Seq::empty(),
                    },
                ),
                round: if reset {
                    w.round + 1
                } else {
                    w.round
                },
                turn: if reset {
                    0
                } else {
                    w.turn + 1
                },
            }
        },
        Move::Foreign { key, value } => World {
            store: match value {
                Some(v) => w.store.insert(key, v),
                None => w.store.remove(key),
            },
            tasks: w.tasks,
            round: w.round,
            turn: w.turn,
        },
    }
}

/// Whether the counter of resource `name` is idle in `store`.
pub open spec fn counter_idle(name: Seq<char>, store: Map<Seq<char>, Seq<u8>>) -> bool {
    !store.contains_key(counter_key(name)) || store[counter_key(name)].len() == 0
}

/// How many tickets the counter says have been issued: none while it is idle.
pub open spec fn issued(name: Seq<char>, store: Map<Seq<char>, Seq<u8>>) -> nat {
    if counter_idle(name, store) {
        0
    } else {
        ticket_number(store[counter_key(name)]) as nat
    }
}

/// The world before anything has happened: the counter is idle, no sentinel
/// of this lock exists, and every contender is fresh. Keys of other locks may
/// hold anything.
pub open spec fn initial(name: Seq<char>, w: World) -> bool {
    &&& counter_idle(name, w.store)
    &&& forall|t: nat| !w.store.contains_key(#[trigger] sentinel_key(name, t))
    &&& w.round == 0
    &&& w.turn == 0
    &&& forall|i: int|
        0 <= i < w.tasks.len() ==> #[trigger] w.tasks[i] == (Task {
            stage: Stage::Fresh,
            ticket: None,
            inbox: Seq::empty(),
        })
}

/// The world after the moves of `moves`, first to last, from `w`.
pub open spec fn run(name: Seq<char>, w: World, moves: Seq<Move>) -> World
    decreases moves.len(),
{
    if moves.len() == 0 {
        w
    } else {
        step(name, run(name, w, moves.drop_last()), moves.last())
    }
}

/// Whether each move of `moves` can be made when its turn comes.
pub open spec fn runs(name: Seq<char>, w: World, moves: Seq<Move>) -> bool
    decreases moves.len(),
{
    moves.len() == 0 || (runs(name, w, moves.drop_last()) && enabled(
        name,
        run(name, w, moves.drop_last()),
        moves.last(),
    ))
}

/// Whether a contender holds the lock: its acquisition has reached `Held`
/// and it has not released.
pub open spec fn holds_lock(task: Task) -> bool {
    task.stage matches Stage::Acquiring { phase } && phase is Held
}

/// Whether a contender has been granted the lock, now or earlier.
pub open spec fn granted(task: Task) -> bool {
    holds_lock(task) || task.stage is Released
}

/// The token that a stage carries, if it carries one.
pub open spec fn token_of(stage: Stage) -> Option<nat> {
    match stage {
        Stage::Fresh => None,
        Stage::Acquiring { phase } => match ticket_in(phase) {
            Some(token) => Some(token as nat),
            None => None,
        },
        Stage::Released { token } => Some(token as nat),
    }
}

/// Whether a stage comes before the store has issued a ticket.
pub open spec fn has_no_ticket_yet(stage: Stage) -> bool {
    match stage {
        Stage::Fresh => true,
        Stage::Acquiring { phase: Phase::ClaimingIdle } => true,
        Stage::Acquiring { phase: Phase::Reading } => true,
        Stage::Acquiring { phase: Phase::Bidding { .. } } => true,
        _ => false,
    }
}

/// The ticket of a contender that has registered its sentinel and waits, or
/// is about to wait, for its deletion.
pub open spec fn awaits_turn(stage: Stage) -> Option<nat> {
    match stage {
        Stage::Acquiring { phase: Phase::Subscribing { token } } => Some(token as nat),
        Stage::Acquiring { phase: Phase::Waiting { token } } => Some(token as nat),
        _ => None,
    }
}

/// Whether the turn of a ticket has passed: it is of an earlier round, or of
/// this round and before the turn.
pub open spec fn passed(w: World, ticket: Ticket) -> bool {
    ticket.round < w.round || (ticket.round == w.round && ticket.number < w.turn)
}

/// What holds of one contender in every world that can be reached.
pub open spec fn task_inv(name: Seq<char>, w: World, task: Task) -> bool {
    // The ticket numbers are in range.
    &&& task.stage matches Stage::Acquiring { phase } ==> in_range(phase)
    &&& task.stage matches Stage::Released { token } ==> token < u64::MAX
    // A token in a stage is the number of the ticket the store issued.
    &&& token_of(task.stage) matches Some(t) ==> task.ticket is Some && task.ticket->Some_0.number
        == t
    // Every ticket is of this round or an earlier one, and one of this round
    // was issued by the counter as it stands.
    &&& task.ticket matches Some(k) ==> k.round <= w.round && (k.round == w.round ==> k.number
        < issued(name, w.store))
    // Nobody has a ticket before the store has issued one.
    &&& has_no_ticket_yet(task.stage) ==> task.ticket is None
    // A sentinel stays registered until the turn of its ticket comes.
    &&& awaits_turn(task.stage) matches Some(t) ==> (t > w.turn ==> w.store.contains_key(
        sentinel_key(name, t),
    ))
    // The holder holds the ticket whose turn it is, and its own sentinel is gone.
    &&& task.stage matches Stage::Acquiring { phase: Phase::Held { token } } ==> token == w.turn
        && !w.store.contains_key(sentinel_key(name, token as nat))
    // A ticket whose turn has passed has been released, and only such a one.
    &&& task.ticket matches Some(k) ==> (passed(w, k) <==> task.stage is Released)
    // An event in the inbox of a waiting contender is the deletion of its
    // sentinel, the only one, and its turn has come.
    &&& task.stage matches Stage::Acquiring { phase: Phase::Waiting { token } } ==> (
    task.inbox.len() > 0 ==> {
        &&& token == w.turn
        &&& !w.store.contains_key(sentinel_key(name, token as nat))
        &&& task.inbox == seq![
            Change { kind: EventKind::Delete, key: sentinel_key(name, token as nat) },
        ]
    })
}

/// What holds of every world that can be reached from an initial one.
pub open spec fn inv(name: Seq<char>, w: World) -> bool {
    // The counter is idle or holds a ticket number from 1 on.
    &&& !counter_idle(name, w.store) ==> w.store[counter_key(name)].len() == 8 && issued(
        name,
        w.store,
    ) >= 1
    // No ticket has had its turn before one was issued.
    &&& w.turn <= issued(name, w.store)
    // A sentinel that is registered is of a ticket that was issued in this
    // round and whose turn has not passed.
    &&& forall|t: nat|
        w.store.contains_key(#[trigger] sentinel_key(name, t)) ==> w.turn <= t < issued(
            name,
            w.store,
        )
    &&& forall|i: int| 0 <= i < w.tasks.len() ==> task_inv(name, w, #[trigger] w.tasks[i])
    // No ticket was issued twice.
    &&& forall|i: int, j: int|
        0 <= i < w.tasks.len() && 0 <= j < w.tasks.len() && i != j && (
        #[trigger] w.tasks[i]).ticket is Some ==> w.tasks[i].ticket != (
        #[trigger] w.tasks[j]).ticket
}

} // verus!

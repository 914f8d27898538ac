use vstd::prelude::*;
use crate::acquire::{idle_claim, next_phase, pending, Phase};
use crate::keys::{
    counter_key, lemma_keys_tell_locks_apart, lemma_ticket_round_trip, sentinel_key,
    ticket_bytes,
};
use crate::model::{
    counter_idle, earlier, enabled, foreign, granted, holds_lock, initial, inv, issued, run, runs,
    step, task_inv, Move, Stage, Ticket, World,
};
use crate::proofs::{
    lemma_heard, lemma_inv_initial, lemma_inv_step, lemma_keys, lemma_release_decides,
    lemma_serve_pending,
};
use crate::release::release_request;
use crate::store::{lemma_one_op, serve, Change, ConditionView, EventKind, OpView, ResponseView};
use crate::store::holds;

verus! {

/// Whether `w` can come about: some moves, each made when it could be made,
/// lead to it from an initial world.
pub open spec fn reachable(name: Seq<char>, w: World) -> bool {
    exists|start: World, moves: Seq<Move>|
        initial(name, start) && #[trigger] runs(name, start, moves) && w == run(
            name,
            start,
            moves,
        )
}

/// No move adds or removes a contender.
pub proof fn lemma_step_keeps_tasks(name: Seq<char>, w: World, m: Move)
    requires
        enabled(name, w, m),
    ensures
        step(name, w, m).tasks.len() == w.tasks.len(),
{
}

/// A run keeps the invariant and the number of contenders.
pub proof fn lemma_run_inv(name: Seq<char>, start: World, moves: Seq<Move>)
    requires
        inv(name, start),
        runs(name, start, moves),
    ensures
        inv(name, run(name, start, moves)),
        run(name, start, moves).tasks.len() == start.tasks.len(),
    decreases moves.len(),
{
    if moves.len() > 0 {
        lemma_run_inv(name, start, moves.drop_last());
        let before = run(name, start, moves.drop_last());
        lemma_inv_step(name, before, moves.last());
        lemma_step_keeps_tasks(name, before, moves.last());
    }
}

/// The invariant holds of every world that can come about.
pub proof fn lemma_reachable_inv(name: Seq<char>, w: World)
    requires
        reachable(name, w),
    ensures
        inv(name, w),
{
    let (start, moves) = choose|start: World, moves: Seq<Move>|
        initial(name, start) && #[trigger] runs(name, start, moves) && w == run(
            name,
            start,
            moves,
        );
    lemma_inv_initial(name, start);
    lemma_run_inv(name, start, moves);
}

/// Mutual exclusion: whatever the contenders do and in whatever order the
/// store serves them, no two of them hold the lock at the same time.
pub proof fn law_mutual_exclusion(
    name: Seq<char>,
    start: World,
    moves: Seq<Move>,
    a: int,
    b: int,
)
    requires
        initial(name, start),
        runs(name, start, moves),
        0 <= a < start.tasks.len(),
        0 <= b < start.tasks.len(),
        a != b,
    ensures
        !(holds_lock(run(name, start, moves).tasks[a]) && holds_lock(
            run(name, start, moves).tasks[b],
        )),
{
    let w = run(name, start, moves);
    lemma_inv_initial(name, start);
    lemma_run_inv(name, start, moves);
    assert(task_inv(name, w, w.tasks[a]));
    assert(task_inv(name, w, w.tasks[b]));
    if holds_lock(w.tasks[a]) && holds_lock(w.tasks[b]) {
        let held = Ticket { round: w.round, number: w.turn };
        assert(w.tasks[a].ticket == Some(held));
        assert(w.tasks[b].ticket == Some(held));
    }
}

/// A ticket, once issued, stays with its contender, and a ticket that is
/// issued is later than every ticket issued before.
pub proof fn law_tickets_in_order(name: Seq<char>, w: World, m: Move, a: int, b: int)
    requires
        inv(name, w),
        enabled(name, w, m),
        0 <= a < w.tasks.len(),
        0 <= b < w.tasks.len(),
        w.tasks[a].ticket is Some,
    ensures
        step(name, w, m).tasks[a].ticket == w.tasks[a].ticket,
        w.tasks[b].ticket is None && step(name, w, m).tasks[b].ticket is Some ==> earlier(
            w.tasks[a].ticket->Some_0,
            step(name, w, m).tasks[b].ticket->Some_0,
        ),
{
    let after = step(name, w, m);
    assert(task_inv(name, w, w.tasks[a]));
    assert(task_inv(name, w, w.tasks[b]));
    lemma_inv_step(name, w, m);
    let serves = match m {
        Move::Serve { task } => Some(task),
        Move::Fail { task, applied } => if applied {
            Some(task)
        } else {
            None
        },
        _ => None,
    };
    if let Some(task) = serves {
        let phase = w.tasks[task].stage->phase;
        assert(task_inv(name, w, w.tasks[task]));
        lemma_serve_pending(name, w.store, phase);
        if w.tasks[b].ticket is None && after.tasks[b].ticket is Some {
            assert(b == task);
            if let Phase::Bidding { taking } = phase {
                lemma_ticket_round_trip(taking, Seq::empty());
            }
            assert(after.tasks[b].ticket->Some_0 == Ticket {
                round: w.round,
                number: issued(name, w.store),
            });
        }
    }
}

/// Along a run, a contender keeps its ticket, and every contender that had
/// none at the start and has one at the end has a later one.
proof fn lemma_later_ticket_is_later(
    name: Seq<char>,
    w: World,
    moves: Seq<Move>,
    a: int,
    b: int,
)
    requires
        inv(name, w),
        runs(name, w, moves),
        0 <= a < w.tasks.len(),
        0 <= b < w.tasks.len(),
        w.tasks[a].ticket is Some,
        w.tasks[b].ticket is None,
    ensures
        run(name, w, moves).tasks[a].ticket == w.tasks[a].ticket,
        run(name, w, moves).tasks[b].ticket matches Some(tb) ==> earlier(
            w.tasks[a].ticket->Some_0,
            tb,
        ),
    decreases moves.len(),
{
    if moves.len() > 0 {
        let before = run(name, w, moves.drop_last());
        lemma_later_ticket_is_later(name, w, moves.drop_last(), a, b);
        lemma_run_inv(name, w, moves.drop_last());
        law_tickets_in_order(name, before, moves.last(), a, b);
        if before.tasks[b].ticket is Some {
            law_tickets_in_order(name, before, moves.last(), b, a);
        }
    }
}

/// First come, first served: if the store issued a ticket to contender `a`
/// before it issued one to contender `b`, then whenever `b` has been granted
/// the lock, `a` has been granted it before, and has released it.
///
/// `first` is a run up to a moment at which `a` has its ticket and `b` has
/// none; `rest` is any run on from there.
pub proof fn law_fifo(
    name: Seq<char>,
    start: World,
    first: Seq<Move>,
    rest: Seq<Move>,
    a: int,
    b: int,
)
    requires
        initial(name, start),
        runs(name, start, first),
        runs(name, run(name, start, first), rest),
        0 <= a < start.tasks.len(),
        0 <= b < start.tasks.len(),
        run(name, start, first).tasks[a].ticket is Some,
        run(name, start, first).tasks[b].ticket is None,
        granted(run(name, run(name, start, first), rest).tasks[b]),
    ensures
        run(name, run(name, start, first), rest).tasks[a].stage is Released,
{
    let middle = run(name, start, first);
    let end = run(name, middle, rest);
    lemma_inv_initial(name, start);
    lemma_run_inv(name, start, first);
    lemma_run_inv(name, middle, rest);
    lemma_later_ticket_is_later(name, middle, rest, a, b);
    assert(task_inv(name, end, end.tasks[a]));
    assert(task_inv(name, end, end.tasks[b]));
}

/// Order of grants: of two contenders that hold a ticket, the one with the
/// later ticket has been granted the lock only if the other has already
/// released.
pub proof fn law_grants_in_ticket_order(name: Seq<char>, w: World, a: int, b: int)
    requires
        reachable(name, w),
        0 <= a < w.tasks.len(),
        0 <= b < w.tasks.len(),
        w.tasks[a].ticket is Some,
        w.tasks[b].ticket is Some,
        earlier(w.tasks[a].ticket->Some_0, w.tasks[b].ticket->Some_0),
        granted(w.tasks[b]),
    ensures
        w.tasks[a].stage is Released,
{
    lemma_reachable_inv(name, w);
    assert(task_inv(name, w, w.tasks[a]));
    assert(task_inv(name, w, w.tasks[b]));
}

/// An idle lock is granted at once: the claim commits, leaves 1 in the
/// counter, and the acquisition ends holding ticket 0 with no request left to
/// send.
pub proof fn law_idle_lock_is_granted(name: Seq<char>, store: Map<Seq<char>, Seq<u8>>)
    requires
        counter_idle(name, store),
    ensures
        ({
            let served = serve(store, idle_claim(name));
            let next = next_phase(name, Phase::ClaimingIdle, served.response);
            &&& served.store == store.insert(counter_key(name), ticket_bytes(1))
            &&& next == Phase::Held { token: 0 }
            &&& pending(name, next) is None
        }),
{
    lemma_serve_pending(name, store, Phase::ClaimingIdle);
}

/// What a release does to the counter, whoever sends it: the counter is
/// idle afterwards exactly where it held the number after the releasing
/// ticket's own, or was idle before. In the first case the release has
/// written the idle marker and touched nothing else.
pub proof fn law_release_resets_on_last_ticket(
    name: Seq<char>,
    store: Map<Seq<char>, Seq<u8>>,
    token: u64,
)
    requires
        token < u64::MAX,
    ensures
        ({
            let last = ConditionView::Holds {
                key: counter_key(name),
                value: ticket_bytes((token + 1) as u64),
            };
            let released = serve(store, release_request(name, token));
            &&& counter_idle(name, released.store) <==> holds(store, last) || counter_idle(
                name,
                store,
            )
            &&& holds(store, last) ==> released.response == ResponseView::Txn { committed: true }
                && released.store == store.insert(counter_key(name), Seq::<u8>::empty())
        }),
{
    lemma_keys(name);
    lemma_ticket_round_trip((token + 1) as u64, Seq::empty());
    lemma_one_op(store, OpView::Put { key: counter_key(name), value: Seq::<u8>::empty() });
    lemma_one_op(store, OpView::Delete { key: sentinel_key(name, (token + 1) as nat) });
}

/// Reset to idle: when the holder releases and no ticket has been issued
/// after its own, so that nobody is queued, the release writes the counter
/// back to the idle marker and changes no other key; no sentinel of the lock
/// is left in the store; and the next contender is granted the lock at once,
/// under ticket 0, with 1 in the counter and nothing more to send.
pub proof fn law_idle_reset(name: Seq<char>, w: World, holder: int)
    requires
        reachable(name, w),
        0 <= holder < w.tasks.len(),
        holds_lock(w.tasks[holder]),
        issued(name, w.store) == w.tasks[holder].stage->phase->Held_token + 1,
    ensures
        ({
            let after = step(name, w, Move::Release { task: holder });
            let claimed = serve(after.store, idle_claim(name));
            let next = next_phase(name, Phase::ClaimingIdle, claimed.response);
            &&& after.store == w.store.insert(counter_key(name), Seq::<u8>::empty())
            &&& counter_idle(name, after.store)
            &&& forall|t: nat| !after.store.contains_key(#[trigger] sentinel_key(name, t))
            &&& after.turn == 0
            &&& after.round == w.round + 1
            &&& next == Phase::Held { token: 0 }
            &&& pending(name, next) is None
            &&& claimed.store == after.store.insert(counter_key(name), ticket_bytes(1))
        }),
{
    lemma_reachable_inv(name, w);
    lemma_release_decides(name, w, holder);
    lemma_keys(name);
    let after = step(name, w, Move::Release { task: holder });
    law_idle_lock_is_granted(name, after.store);
}

/// The holder's release decides by the counter alone: it resets exactly
/// when no ticket has been issued after the holder's own, and otherwise
/// leaves the counter alone and deletes the sentinel of the next ticket.
pub proof fn law_release_decides(name: Seq<char>, w: World, holder: int)
    requires
        reachable(name, w),
        0 <= holder < w.tasks.len(),
        holds_lock(w.tasks[holder]),
    ensures
        ({
            let token = w.tasks[holder].stage->phase->Held_token;
            let served = serve(w.store, release_request(name, token));
            &&& served.response == ResponseView::Txn {
                committed: issued(name, w.store) == token + 1,
            }
            &&& issued(name, w.store) != token + 1 ==> served.store == w.store.remove(
                sentinel_key(name, (token + 1) as nat),
            )
        }),
{
    lemma_reachable_inv(name, w);
    lemma_release_decides(name, w, holder);
}

/// Hand-off: if the next ticket has registered its sentinel before the
/// holder releases, the release deletes that sentinel, that one only, and
/// leaves the counter as it was.
pub proof fn law_handoff(name: Seq<char>, w: World, holder: int)
    requires
        reachable(name, w),
        0 <= holder < w.tasks.len(),
        holds_lock(w.tasks[holder]),
        w.store.contains_key(
            sentinel_key(name, (w.tasks[holder].stage->phase->Held_token + 1) as nat),
        ),
    ensures
        ({
            let token = w.tasks[holder].stage->phase->Held_token;
            let next = sentinel_key(name, (token + 1) as nat);
            let after = step(name, w, Move::Release { task: holder });
            &&& !after.store.contains_key(next)
            &&& forall|key: Seq<char>|
                key != next ==> (after.store.contains_key(key) <==> w.store.contains_key(key))
                    && after.store[key] == w.store[key]
            &&& after.store.contains_key(counter_key(name)) == w.store.contains_key(
                counter_key(name),
            )
            &&& after.store[counter_key(name)] == w.store[counter_key(name)]
            &&& after.turn == w.turn + 1
            &&& after.round == w.round
        }),
{
    lemma_reachable_inv(name, w);
    lemma_release_decides(name, w, holder);
    lemma_keys(name);
}

/// No lost wake-up: a contender that has registered its sentinel and opened
/// its subscription before the holder of the ticket before its own releases
/// is told of the deletion, and holds the lock as soon as it takes that
/// event.
pub proof fn law_no_lost_wakeup(name: Seq<char>, w: World, holder: int, waiter: int, next: u64)
    requires
        reachable(name, w),
        0 <= holder < w.tasks.len(),
        0 <= waiter < w.tasks.len(),
        holds_lock(w.tasks[holder]),
        next == w.tasks[holder].stage->phase->Held_token + 1,
        w.tasks[waiter].stage == (Stage::Acquiring { phase: Phase::Waiting { token: next } }),
    ensures
        ({
            let released = step(name, w, Move::Release { task: holder });
            let woken = step(name, released, Move::Deliver { task: waiter });
            &&& released.tasks[waiter].inbox == seq![
                Change { kind: EventKind::Delete, key: sentinel_key(name, next as nat) },
            ]
            &&& enabled(name, released, Move::Deliver { task: waiter })
            &&& woken.tasks[waiter].stage == Stage::Acquiring { phase: Phase::Held { token: next } }
        }),
{
    let key = sentinel_key(name, next as nat);
    lemma_reachable_inv(name, w);
    lemma_release_decides(name, w, holder);
    assert(task_inv(name, w, w.tasks[waiter]));
    assert(task_inv(name, w, w.tasks[holder]));
    let gone = Change { kind: EventKind::Delete, key };
    lemma_heard(key, gone);
    let inbox = w.tasks[waiter].inbox;
    assert(inbox.len() == 0);
    assert(inbox + seq![gone] =~= seq![gone]);
    let released = step(name, w, Move::Release { task: holder });
    assert(released.tasks[waiter].inbox =~= seq![gone]);
    assert(released.tasks[waiter].inbox.first() == gone);
}

/// The keys of a lock of another name are none of this lock's.
pub proof fn law_other_locks_keys_are_foreign(name: Seq<char>, other: Seq<char>, ticket: nat)
    requires
        name != other,
    ensures
        foreign(name, counter_key(other)),
        foreign(name, sentinel_key(other, ticket)),
{
    lemma_keys_tell_locks_apart(other, name, ticket, ticket);
    assert forall|t: nat| counter_key(other) != #[trigger] sentinel_key(name, t) by {
        lemma_keys_tell_locks_apart(other, name, ticket, t);
    }
    assert forall|t: nat| sentinel_key(other, ticket) != #[trigger] sentinel_key(name, t) by {
        lemma_keys_tell_locks_apart(other, name, ticket, t);
    }
    lemma_keys_tell_locks_apart(name, other, ticket, ticket);
}

/// The contenders for a lock touch no key but the keys of that lock: whatever
/// one of them does, every other key of the store holds what it held.
pub proof fn law_moves_touch_own_keys(name: Seq<char>, w: World, m: Move, key: Seq<char>)
    requires
        enabled(name, w, m),
        !(m is Foreign),
        foreign(name, key),
    ensures
        step(name, w, m).store.contains_key(key) == w.store.contains_key(key),
        step(name, w, m).store[key] == w.store[key],
{
    match m {
        Move::Serve { task } => {
            lemma_serve_pending(name, w.store, w.tasks[task].stage->phase);
        },
        Move::Fail { task, applied } => {
            if applied {
                lemma_serve_pending(name, w.store, w.tasks[task].stage->phase);
            }
        },
        Move::Release { task } => {
            let token = w.tasks[task].stage->phase->Held_token;
            lemma_one_op(
                w.store,
                OpView::Put { key: counter_key(name), value: Seq::<u8>::empty() },
            );
            lemma_one_op(w.store, OpView::Delete { key: sentinel_key(name, (token + 1) as nat) });
        },
        _ => {},
    }
}

/// A world that a run from an initial world ends in can come about.
pub proof fn lemma_run_is_reachable(name: Seq<char>, start: World, moves: Seq<Move>)
    requires
        initial(name, start),
        runs(name, start, moves),
    ensures
        reachable(name, run(name, start, moves)),
{
}

} // verus!

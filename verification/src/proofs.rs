use vstd::prelude::*;
use crate::acquire::{pending, Phase};
use crate::error::LockError;
use crate::keys::{
    counter_key, lemma_counter_is_no_sentinel, lemma_sentinel_keys_differ,
    lemma_ticket_bytes_injective, lemma_ticket_round_trip, placeholder, sentinel_key,
    ticket_bytes,
};
use crate::model::{
    counter_idle, enabled, heard, initial, inv, issued, notify, served_for, step, task_inv, told,
    Move, Stage, Task, Ticket, World,
};
use crate::release::release_request;
use crate::store::{lemma_no_ops, lemma_one_op, serve, Change, EventKind, OpView, ResponseView};

verus! {

/// The keys of one lock are all different.
pub proof fn lemma_keys(name: Seq<char>)
    ensures
        forall|s: nat, t: nat|
            #[trigger] sentinel_key(name, s) == #[trigger] sentinel_key(name, t) ==> s == t,
        forall|t: nat| counter_key(name) != #[trigger] sentinel_key(name, t),
{
    assert forall|s: nat, t: nat|
        #[trigger] sentinel_key(name, s) == #[trigger] sentinel_key(name, t) implies s == t by {
        lemma_sentinel_keys_differ(name, s, t);
    }
    assert forall|t: nat| counter_key(name) != #[trigger] sentinel_key(name, t) by {
        lemma_counter_is_no_sentinel(name, t);
    }
}

/// Of no changes nothing is heard; of one change, that change if it
/// concerns the key.
pub proof fn lemma_heard(key: Seq<char>, change: Change)
    ensures
        heard(key, Seq::empty()) == Seq::<Change>::empty(),
        heard(key, seq![change]) == if change.key == key {
            seq![change]
        } else {
            Seq::<Change>::empty()
        },
{
    let one = seq![change];
    assert(one.drop_last() =~= Seq::<Change>::empty());
    assert(one.last() == change);
    assert(heard(key, one.drop_last()) =~= Seq::<Change>::empty());
    if change.key == key {
        assert(heard(key, one) =~= seq![change]);
    }
}

/// A contender that is told of no changes stays as it is.
pub proof fn lemma_notify_nothing(name: Seq<char>, tasks: Seq<Task>)
    ensures
        notify(name, tasks, Seq::empty()) == tasks,
{
    assert forall|i: int| 0 <= i < tasks.len() implies told(
        name,
        #[trigger] tasks[i],
        Seq::empty(),
    ) == tasks[i] by {
        let t = tasks[i];
        match t.stage {
            Stage::Acquiring { phase: Phase::Waiting { token } } => {
                assert(t.inbox + Seq::<Change>::empty() =~= t.inbox);
            },
            _ => {},
        }
    }
    assert(notify(name, tasks, Seq::empty()) =~= tasks);
}

/// A change that concerns no waiting contender's sentinel is heard by
/// nobody.
proof fn lemma_notify_unheard(name: Seq<char>, tasks: Seq<Task>, change: Change)
    requires
        forall|i: int|
            0 <= i < tasks.len() ==> (#[trigger] tasks[i].stage matches Stage::Acquiring {
                phase: Phase::Waiting { token },
            } ==> change.key != sentinel_key(name, token as nat)),
    ensures
        notify(name, tasks, seq![change]) == tasks,
{
    assert forall|i: int| 0 <= i < tasks.len() implies told(
        name,
        #[trigger] tasks[i],
        seq![change],
    ) == tasks[i] by {
        let t = tasks[i];
        assert(tasks[i].stage == t.stage);
        match t.stage {
            Stage::Acquiring { phase: Phase::Waiting { token } } => {
                lemma_heard(sentinel_key(name, token as nat), change);
                assert(t.inbox + Seq::<Change>::empty() =~= t.inbox);
            },
            _ => {},
        }
    }
    assert(notify(name, tasks, seq![change]) =~= tasks);
}

/// The invariant holds of every initial world.
pub proof fn lemma_inv_initial(name: Seq<char>, w: World)
    requires
        initial(name, w),
    ensures
        inv(name, w),
{
    assert forall|i: int| 0 <= i < w.tasks.len() implies task_inv(
        name,
        w,
        #[trigger] w.tasks[i],
    ) by {}
}

/// A move that leaves the store, the round, the turn and the tickets alone,
/// and changes one contender only, keeps the invariant if it keeps it of
/// that contender.
proof fn lemma_local_move(name: Seq<char>, w: World, after: World, task: int)
    requires
        inv(name, w),
        0 <= task < w.tasks.len(),
        after.store == w.store,
        after.round == w.round,
        after.turn == w.turn,
        after.tasks == w.tasks.update(task, after.tasks[task]),
        after.tasks[task].ticket == w.tasks[task].ticket,
        task_inv(name, after, after.tasks[task]),
    ensures
        inv(name, after),
{
    assert forall|i: int| 0 <= i < after.tasks.len() implies task_inv(
        name,
        after,
        #[trigger] after.tasks[i],
    ) by {
        if i != task {
            assert(after.tasks[i] == w.tasks[i]);
            assert(task_inv(name, w, w.tasks[i]));
        }
    }
    assert forall|i: int, j: int|
        0 <= i < after.tasks.len() && 0 <= j < after.tasks.len() && i != j && (
        #[trigger] after.tasks[i]).ticket is Some implies after.tasks[i].ticket != (
        #[trigger] after.tasks[j]).ticket by {
        assert(after.tasks[i].ticket == w.tasks[i].ticket);
        assert(after.tasks[j].ticket == w.tasks[j].ticket);
    }
}

/// A move that a contender makes by itself keeps the invariant: asking for
/// the lock, learning of a failure that the store knows nothing of, giving
/// up, the end of its subscription, taking an event.
proof fn lemma_inv_own_move(name: Seq<char>, w: World, m: Move, task: int)
    requires
        inv(name, w),
        enabled(name, w, m),
        m == (Move::Start { task }) || m == (Move::Fail { task, applied: false }) || m == (
        Move::GiveUp { task }) || m == (Move::EndWatch { task }) || m == (Move::Deliver { task }),
    ensures
        inv(name, step(name, w, m)),
{
    let after = step(name, w, m);
    assert(task_inv(name, w, w.tasks[task]));
    let inbox = w.tasks[task].inbox;
    if inbox.len() > 0 {
        assert(inbox.first() == inbox[0]);
    }
    lemma_local_move(name, w, after, task);
}

/// Issuing the next ticket to one contender keeps the invariant.
proof fn lemma_ticket_issued(name: Seq<char>, w: World, after: World, task: int, number: nat)
    requires
        inv(name, w),
        0 <= task < w.tasks.len(),
        number == issued(name, w.store),
        number + 1 <= u64::MAX,
        after.store == w.store.insert(counter_key(name), ticket_bytes((number + 1) as u64)),
        after.round == w.round,
        after.turn == w.turn,
        after.tasks == w.tasks.update(task, after.tasks[task]),
        after.tasks[task].ticket == Some(Ticket { round: w.round, number }),
        task_inv(name, after, after.tasks[task]),
    ensures
        inv(name, after),
{
    lemma_keys(name);
    lemma_ticket_round_trip((number + 1) as u64, Seq::empty());
    assert(issued(name, after.store) == number + 1);
    assert forall|i: int| 0 <= i < after.tasks.len() implies task_inv(
        name,
        after,
        #[trigger] after.tasks[i],
    ) by {
        if i != task {
            assert(after.tasks[i] == w.tasks[i]);
            assert(task_inv(name, w, w.tasks[i]));
        }
    }
    assert forall|i: int, j: int|
        0 <= i < after.tasks.len() && 0 <= j < after.tasks.len() && i != j && (
        #[trigger] after.tasks[i]).ticket is Some implies after.tasks[i].ticket != (
        #[trigger] after.tasks[j]).ticket by {
        if i != task {
            assert(after.tasks[i] == w.tasks[i]);
            assert(task_inv(name, w, w.tasks[i]));
        }
        if j != task {
            assert(after.tasks[j] == w.tasks[j]);
            assert(task_inv(name, w, w.tasks[j]));
        }
    }
}

/// Registering a sentinel keeps the invariant, whether or not the
/// contender learns that it is registered.
proof fn lemma_registered(name: Seq<char>, w: World, after: World, task: int, token: u64)
    requires
        inv(name, w),
        0 <= task < w.tasks.len(),
        w.tasks[task].stage == (Stage::Acquiring { phase: Phase::Registering { token } }),
        after.store == w.store.insert(sentinel_key(name, token as nat), placeholder()),
        after.round == w.round,
        after.turn == w.turn,
        after.tasks == w.tasks.update(task, after.tasks[task]),
        after.tasks[task].ticket == w.tasks[task].ticket,
        after.tasks[task].stage == (Stage::Acquiring { phase: Phase::Subscribing { token } })
            || after.tasks[task].stage == (Stage::Acquiring {
            phase: Phase::Failed { error: LockError::Store },
        }),
    ensures
        inv(name, after),
{
    lemma_keys(name);
    assert(task_inv(name, w, w.tasks[task]));
    assert(issued(name, after.store) == issued(name, w.store));
    assert forall|i: int| 0 <= i < after.tasks.len() implies task_inv(
        name,
        after,
        #[trigger] after.tasks[i],
    ) by {
        if i != task {
            assert(after.tasks[i] == w.tasks[i]);
            assert(task_inv(name, w, w.tasks[i]));
            assert(w.tasks[i].ticket != w.tasks[task].ticket);
        }
    }
    assert forall|i: int, j: int|
        0 <= i < after.tasks.len() && 0 <= j < after.tasks.len() && i != j && (
        #[trigger] after.tasks[i]).ticket is Some implies after.tasks[i].ticket != (
        #[trigger] after.tasks[j]).ticket by {
        assert(after.tasks[i].ticket == w.tasks[i].ticket);
        assert(after.tasks[j].ticket == w.tasks[j].ticket);
    }
}

/// What serving the request in flight of a phase does to the store, put
/// in plain terms.
pub proof fn lemma_serve_pending(name: Seq<char>, store: Map<Seq<char>, Seq<u8>>, phase: Phase)
    requires
        pending(name, phase) is Some,
    ensures
        ({
            let served = serve(store, pending(name, phase)->Some_0);
            let counter = counter_key(name);
            match phase {
                Phase::ClaimingIdle => if counter_idle(name, store) {
                    &&& served.response == ResponseView::Txn { committed: true }
                    &&& served.store == store.insert(counter, ticket_bytes(1))
                    &&& served.changes == seq![Change { kind: EventKind::Put, key: counter }]
                } else {
                    &&& served.response == ResponseView::Txn { committed: false }
                    &&& served.store == store
                    &&& served.changes == Seq::<Change>::empty()
                },
                Phase::Bidding { taking } => if store.contains_key(counter) && store[counter]
                    == ticket_bytes(taking) {
                    &&& served.response == ResponseView::Txn { committed: true }
                    &&& served.store == store.insert(
                        counter,
                        ticket_bytes((taking + 1) as u64),
                    )
                    &&& served.changes == seq![Change { kind: EventKind::Put, key: counter }]
                } else {
                    &&& served.response == ResponseView::Txn { committed: false }
                    &&& served.store == store
                    &&& served.changes == Seq::<Change>::empty()
                },
                Phase::Registering { token } => {
                    &&& served.response == ResponseView::Written
                    &&& served.store == store.insert(
                        sentinel_key(name, token as nat),
                        placeholder(),
                    )
                    &&& served.changes == seq![
                        Change { kind: EventKind::Put, key: sentinel_key(name, token as nat) },
                    ]
                },
                Phase::Reading => {
                    &&& served.response == ResponseView::Value {
                        value: if store.contains_key(counter) {
                            Some(store[counter])
                        } else {
                            None
                        },
                    }
                    &&& served.store == store
                    &&& served.changes == Seq::<Change>::empty()
                },
                _ => {
                    &&& served.response == ResponseView::Watching
                    &&& served.store == store
                    &&& served.changes == Seq::<Change>::empty()
                },
            }
        }),
{
    let counter = counter_key(name);
    lemma_no_ops(store);
    match phase {
        Phase::ClaimingIdle => {
            lemma_one_op(store, OpView::Put { key: counter, value: ticket_bytes(1) });
        },
        Phase::Bidding { taking } => {
            lemma_one_op(
                store,
                OpView::Put { key: counter, value: ticket_bytes((taking + 1) as u64) },
            );
        },
        _ => {},
    }
}

/// Serving the request a contender has in flight keeps the invariant,
/// whether the contender takes the answer or the answer is lost.
proof fn lemma_inv_served(name: Seq<char>, w: World, task: int, answered: bool)
    requires
        inv(name, w),
        enabled(name, w, Move::Serve { task }),
    ensures
        inv(name, served_for(name, w, task, answered)),
{
    let after = served_for(name, w, task, answered);
    let phase = w.tasks[task].stage->phase;
    let counter = counter_key(name);
    lemma_serve_pending(name, w.store, phase);
    lemma_keys(name);
    lemma_notify_nothing(name, w.tasks);
    assert(task_inv(name, w, w.tasks[task]));
    let put_counter = Change { kind: EventKind::Put, key: counter };
    lemma_notify_unheard(name, w.tasks, put_counter);
    match phase {
        Phase::ClaimingIdle => {
            if counter_idle(name, w.store) {
                lemma_ticket_round_trip(1, Seq::empty());
                lemma_ticket_issued(name, w, after, task, 0);
            } else {
                lemma_local_move(name, w, after, task);
            }
        },
        Phase::Reading => {
            if !counter_idle(name, w.store) {
                lemma_ticket_round_trip(0, w.store[counter]);
            }
            lemma_local_move(name, w, after, task);
        },
        Phase::Bidding { taking } => {
            if w.store.contains_key(counter) && w.store[counter] == ticket_bytes(taking) {
                lemma_ticket_round_trip(taking, Seq::empty());
                lemma_ticket_round_trip((taking + 1) as u64, Seq::empty());
                lemma_ticket_issued(name, w, after, task, taking as nat);
            } else {
                lemma_local_move(name, w, after, task);
            }
        },
        Phase::Registering { token } => {
            let put = Change { kind: EventKind::Put, key: sentinel_key(name, token as nat) };
            assert forall|i: int| 0 <= i < w.tasks.len() implies (
            #[trigger] w.tasks[i].stage matches Stage::Acquiring {
                phase: Phase::Waiting { token: other },
            } ==> put.key != sentinel_key(name, other as nat)) by {
                assert(task_inv(name, w, w.tasks[i]));
                assert(task_inv(name, w, w.tasks[task]));
                if i != task {
                    assert(w.tasks[i].ticket != w.tasks[task].ticket);
                }
            }
            lemma_notify_unheard(name, w.tasks, put);
            lemma_registered(name, w, after, task, token);
        },
        _ => {
            lemma_local_move(name, w, after, task);
        },
    }
}

/// What the holder's release does in a world that the invariant holds of.
/// The holder's ticket is the one whose turn it is. If no ticket has been
/// issued after it, the counter is written back to idle and nothing else
/// changes. If one has, the counter is left alone and the sentinel of the
/// next ticket is deleted.
pub proof fn lemma_release_decides(name: Seq<char>, w: World, task: int)
    requires
        inv(name, w),
        enabled(name, w, Move::Release { task }),
    ensures
        ({
            let token = w.tasks[task].stage->phase->Held_token;
            let next = sentinel_key(name, (token + 1) as nat);
            let served = serve(w.store, release_request(name, token));
            &&& token == w.turn
            &&& token < issued(name, w.store)
            &&& if issued(name, w.store) == token + 1 {
                &&& served.response == ResponseView::Txn { committed: true }
                &&& served.store == w.store.insert(counter_key(name), Seq::<u8>::empty())
                &&& served.changes == seq![
                    Change { kind: EventKind::Put, key: counter_key(name) },
                ]
                &&& forall|t: nat| !w.store.contains_key(#[trigger] sentinel_key(name, t))
            } else {
                &&& served.response == ResponseView::Txn { committed: false }
                &&& served.store == w.store.remove(next)
                &&& served.changes == if w.store.contains_key(next) {
                    seq![Change { kind: EventKind::Delete, key: next }]
                } else {
                    Seq::<Change>::empty()
                }
            }
        }),
{
    let token = w.tasks[task].stage->phase->Held_token;
    let counter = counter_key(name);
    assert(task_inv(name, w, w.tasks[task]));
    assert(!counter_idle(name, w.store));
    lemma_ticket_round_trip((token + 1) as u64, w.store[counter]);
    lemma_ticket_bytes_injective((token + 1) as u64, ticket_number_of(name, w));
    lemma_one_op(w.store, OpView::Put { key: counter, value: Seq::<u8>::empty() });
    lemma_one_op(w.store, OpView::Delete { key: sentinel_key(name, (token + 1) as nat) });
    if issued(name, w.store) == token + 1 {
        assert forall|t: nat| !w.store.contains_key(#[trigger] sentinel_key(name, t)) by {
            if w.store.contains_key(sentinel_key(name, t)) {
                assert(t == token);
            }
        }
    }
}

/// The number the counter holds.
spec fn ticket_number_of(name: Seq<char>, w: World) -> u64 {
    crate::keys::ticket_number(w.store[counter_key(name)])
}

/// The holder's release keeps the invariant.
proof fn lemma_inv_release(name: Seq<char>, w: World, task: int)
    requires
        inv(name, w),
        enabled(name, w, Move::Release { task }),
    ensures
        inv(name, step(name, w, Move::Release { task })),
{
    let after = step(name, w, Move::Release { task });
    let token = w.tasks[task].stage->phase->Held_token;
    let next = sentinel_key(name, (token + 1) as nat);
    let served = serve(w.store, release_request(name, token));
    lemma_release_decides(name, w, task);
    lemma_keys(name);
    assert(task_inv(name, w, w.tasks[task]));
    if issued(name, w.store) == token + 1 {
        let put_counter = Change { kind: EventKind::Put, key: counter_key(name) };
        lemma_notify_unheard(name, w.tasks, put_counter);
        assert(counter_idle(name, after.store));
        assert forall|i: int| 0 <= i < after.tasks.len() implies task_inv(
            name,
            after,
            #[trigger] after.tasks[i],
        ) by {
            if i != task {
                assert(after.tasks[i] == w.tasks[i]);
                assert(task_inv(name, w, w.tasks[i]));
                assert(w.tasks[i].ticket != w.tasks[task].ticket);
            }
        }
    } else {
        assert(issued(name, after.store) == issued(name, w.store));
        assert forall|i: int| 0 <= i < after.tasks.len() implies task_inv(
            name,
            after,
            #[trigger] after.tasks[i],
        ) by {
            if i != task {
                let before = w.tasks[i];
                assert(after.tasks[i] == told(name, before, served.changes));
                assert(task_inv(name, w, before));
                assert(before.ticket != w.tasks[task].ticket);
                match before.stage {
                    Stage::Acquiring { phase: Phase::Waiting { token: other } } => {
                        let own = sentinel_key(name, other as nat);
                        let gone = Change { kind: EventKind::Delete, key: next };
                        lemma_heard(own, gone);
                        assert(before.inbox + Seq::<Change>::empty() =~= before.inbox);
                        if own == next && w.store.contains_key(next) {
                            assert(other == token + 1);
                            assert(before.inbox.len() == 0);
                            assert(before.inbox + seq![gone] =~= seq![gone]);
                        }
                    },
                    _ => {},
                }
            }
        }
        assert forall|t: nat|
            after.store.contains_key(#[trigger] sentinel_key(name, t)) implies after.turn <= t
            < issued(name, after.store) by {
            assert(w.store.contains_key(sentinel_key(name, t)));
            assert(t != token);
            assert(t != token + 1);
        }
    }
    assert forall|i: int, j: int|
        0 <= i < after.tasks.len() && 0 <= j < after.tasks.len() && i != j && (
        #[trigger] after.tasks[i]).ticket is Some implies after.tasks[i].ticket != (
        #[trigger] after.tasks[j]).ticket by {
        assert(after.tasks[i].ticket == w.tasks[i].ticket);
        assert(after.tasks[j].ticket == w.tasks[j].ticket);
    }
}

/// A write to a key of another lock keeps the invariant.
proof fn lemma_inv_foreign(name: Seq<char>, w: World, key: Seq<char>, value: Option<Seq<u8>>)
    requires
        inv(name, w),
        enabled(name, w, Move::Foreign { key, value }),
    ensures
        inv(name, step(name, w, Move::Foreign { key, value })),
{
    let after = step(name, w, Move::Foreign { key, value });
    assert(issued(name, after.store) == issued(name, w.store));
    assert forall|i: int| 0 <= i < after.tasks.len() implies task_inv(
        name,
        after,
        #[trigger] after.tasks[i],
    ) by {
        assert(task_inv(name, w, w.tasks[i]));
    }
}

/// Every move keeps the invariant.
pub proof fn lemma_inv_step(name: Seq<char>, w: World, m: Move)
    requires
        inv(name, w),
        enabled(name, w, m),
    ensures
        inv(name, step(name, w, m)),
{
    match m {
        Move::Serve { task } => lemma_inv_served(name, w, task, true),
        Move::Fail { task, applied } => {
            if applied {
                lemma_inv_served(name, w, task, false);
            } else {
                lemma_inv_own_move(name, w, m, task);
            }
        },
        Move::Start { task } => lemma_inv_own_move(name, w, m, task),
        Move::GiveUp { task } => lemma_inv_own_move(name, w, m, task),
        Move::EndWatch { task } => lemma_inv_own_move(name, w, m, task),
        Move::Deliver { task } => lemma_inv_own_move(name, w, m, task),
        Move::Release { task } => lemma_inv_release(name, w, task),
        Move::Foreign { key, value } => lemma_inv_foreign(name, w, key, value),
    }
}

} // verus!

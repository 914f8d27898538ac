use ticket_lock::acquire::{
    phase_after, phase_after_read, request_for, Acquisition, Phase, RetryPolicy,
};
use ticket_lock::error::{Failure, LockError};
use ticket_lock::keys::{encode_ticket, Mutex};
use ticket_lock::memory::{Event, MemStore};
use ticket_lock::release::{released, Handoff};
use ticket_lock::store::{Condition, EventKind, Op, Request, Response};

fn lock(name: &str) -> Mutex {
    Mutex::new(name.to_string()).unwrap()
}

/// A contender in a test: its acquisition and the request it has in flight.
struct Contender {
    acquisition: Option<Acquisition>,
    in_flight: Option<Request>,
}

impl Contender {
    fn start(mutex: &Mutex) -> Contender {
        let (acquisition, request) = mutex.acquire();
        Contender { acquisition: Some(acquisition), in_flight: Some(request) }
    }

    fn start_with(mutex: &Mutex, policy: RetryPolicy) -> Contender {
        let (acquisition, request) = mutex.acquire_with(policy);
        Contender { acquisition: Some(acquisition), in_flight: Some(request) }
    }

    fn state(&self) -> &Acquisition {
        self.acquisition.as_ref().unwrap()
    }

    fn phase(&self) -> Phase {
        self.acquisition.as_ref().unwrap().phase()
    }

    fn take(&mut self, response: &Response) {
        let (next, request) = self.acquisition.take().unwrap().step(response);
        self.acquisition = Some(next);
        self.in_flight = request;
    }

    /// Lets the store serve the request in flight. Returns what the store
    /// tells its subscribers.
    fn serve_one(&mut self, store: &mut MemStore) -> Vec<Event> {
        let request = self.in_flight.take().unwrap();
        let (response, events) = store.serve(&request);
        self.take(&response);
        events
    }

    /// Serves requests until none is in flight.
    fn run(&mut self, store: &mut MemStore) {
        while self.in_flight.is_some() {
            self.serve_one(store);
        }
    }

    fn hear(&mut self, event: &Event) {
        self.take(&Response::Event { kind: event.kind, key: event.key.clone() });
    }
}

fn store_failed(reason: &str) -> Response {
    Response::Failed { reason: reason.to_string() }
}

fn counter(store: &MemStore) -> Option<Vec<u8>> {
    store.get(&"R.next".to_string())
}

#[test]
fn acquire_starts_with_the_idle_claim() {
    let (acquisition, request) = lock("R").acquire();
    assert_eq!(acquisition.phase(), Phase::ClaimingIdle);
    assert_eq!(
        request,
        Request::Txn {
            guard: Condition::Idle { key: "R.next".to_string() },
            on_commit: vec![Op::Put {
                key: "R.next".to_string(),
                value: vec![1, 0, 0, 0, 0, 0, 0, 0],
            }],
            on_abort: vec![],
        }
    );
}

#[test]
fn idle_lock_is_granted_at_once_with_token_zero() {
    let mut store = MemStore::new();
    let mut a = Contender::start(&lock("R"));
    let events = a.serve_one(&mut store);
    assert_eq!(a.phase(), Phase::Held { token: 0 });
    assert!(a.in_flight.is_none());
    assert_eq!(counter(&store), Some(vec![1, 0, 0, 0, 0, 0, 0, 0]));
    assert_eq!(store.get(&"R.blocked.0".to_string()), None);
    assert_eq!(events, vec![Event { kind: EventKind::Put, key: "R.next".to_string() }]);
    let held = a.acquisition.take().unwrap().into_held().ok().unwrap();
    assert_eq!(held.token(), 0);
    assert_eq!(held.name(), "R");
}

#[test]
fn empty_counter_is_idle_too() {
    let mut store = MemStore::new();
    store.put(&"R.next".to_string(), &vec![]);
    let mut a = Contender::start(&lock("R"));
    a.serve_one(&mut store);
    assert_eq!(a.phase(), Phase::Held { token: 0 });
    assert_eq!(counter(&store), Some(encode_ticket(1)));
}

#[test]
fn release_request_compares_the_counter_and_names_the_successor() {
    let mutex = lock("R");
    let mut store = MemStore::new();
    let mut a = Contender::start(&mutex);
    a.run(&mut store);
    let held = a.acquisition.take().unwrap().into_held().ok().unwrap();
    let request = mutex.release(held).unwrap();
    assert_eq!(
        request,
        Request::Txn {
            guard: Condition::Holds {
                key: "R.next".to_string(),
                value: vec![1, 0, 0, 0, 0, 0, 0, 0],
            },
            on_commit: vec![Op::Put { key: "R.next".to_string(), value: vec![] }],
            on_abort: vec![Op::Delete { key: "R.blocked.1".to_string() }],
        }
    );
}

#[test]
fn release_request_of_a_later_ticket() {
    let mutex = lock("R");
    let mut b = Contender::start(&mutex);
    b.take(&Response::Txn { committed: false });
    b.take(&Response::Value { value: Some(encode_ticket(7)) });
    b.take(&Response::Txn { committed: true });
    b.take(&Response::Written);
    b.take(&Response::Watching);
    b.take(&Response::Event { kind: EventKind::Delete, key: "R.blocked.7".to_string() });
    let held = b.acquisition.take().unwrap().into_held().ok().unwrap();
    assert_eq!(
        mutex.release(held).unwrap(),
        Request::Txn {
            guard: Condition::Holds { key: "R.next".to_string(), value: encode_ticket(8) },
            on_commit: vec![Op::Put { key: "R.next".to_string(), value: vec![] }],
            on_abort: vec![Op::Delete { key: "R.blocked.8".to_string() }],
        }
    );
}

#[test]
fn release_with_nobody_queued_resets_the_counter() {
    let mutex = lock("R");
    let mut store = MemStore::new();
    let mut a = Contender::start(&mutex);
    a.run(&mut store);
    assert_eq!(counter(&store), Some(encode_ticket(1)));
    let held = a.acquisition.take().unwrap().into_held().ok().unwrap();
    let (response, events) = store.serve(&mutex.release(held).unwrap());
    assert_eq!(released(&response), Ok(Handoff::Reset));
    assert_eq!(events, vec![Event { kind: EventKind::Put, key: "R.next".to_string() }]);
    assert_eq!(counter(&store), Some(vec![]));
    assert_eq!(store.get(&"R.blocked.0".to_string()), None);
    assert_eq!(store.get(&"R.blocked.1".to_string()), None);
}

#[test]
fn acquire_after_a_reset_takes_ticket_zero_at_once() {
    let mutex = lock("R");
    let mut store = MemStore::new();
    let mut a = Contender::start(&mutex);
    a.run(&mut store);
    let held = a.acquisition.take().unwrap().into_held().ok().unwrap();
    assert_eq!(held.token(), 0);
    store.serve(&mutex.release(held).unwrap());

    let mut b = Contender::start(&mutex);
    let events = b.serve_one(&mut store);
    assert_eq!(b.phase(), Phase::Held { token: 0 });
    assert!(b.in_flight.is_none());
    assert_eq!(events, vec![Event { kind: EventKind::Put, key: "R.next".to_string() }]);
    assert_eq!(counter(&store), Some(encode_ticket(1)));
    assert_eq!(store.get(&"R.blocked.0".to_string()), None);
    assert_eq!(store.get(&"R.blocked.1".to_string()), None);
}

#[test]
fn release_of_ticket_zero_on_the_store_the_claim_left() {
    let mutex = lock("R");
    let mut a = Contender::start(&mutex);
    a.take(&Response::Txn { committed: true });
    let held = a.acquisition.take().unwrap().into_held().ok().unwrap();
    let mut store = MemStore::new();
    store.put(&"R.next".to_string(), &vec![1, 0, 0, 0, 0, 0, 0, 0]);
    let (response, _) = store.serve(&mutex.release(held).unwrap());
    assert_eq!(response, Response::Txn { committed: true });
    assert_eq!(counter(&store), Some(vec![]));
    assert_eq!(store.get(&"R.blocked.1".to_string()), None);
}

#[test]
fn busy_lock_is_queued_for() {
    let mutex = lock("R");
    let mut store = MemStore::new();
    let mut a = Contender::start(&mutex);
    a.run(&mut store);

    let mut b = Contender::start(&mutex);
    b.serve_one(&mut store);
    assert_eq!(b.phase(), Phase::Reading);
    assert_eq!(b.in_flight, Some(Request::Get { key: "R.next".to_string() }));
    b.serve_one(&mut store);
    assert_eq!(b.phase(), Phase::Bidding { taking: 1 });
    assert_eq!(
        b.in_flight,
        Some(Request::Txn {
            guard: Condition::Holds { key: "R.next".to_string(), value: encode_ticket(1) },
            on_commit: vec![Op::Put { key: "R.next".to_string(), value: encode_ticket(2) }],
            on_abort: vec![],
        })
    );
    b.serve_one(&mut store);
    assert_eq!(b.phase(), Phase::Registering { token: 1 });
    assert_eq!(counter(&store), Some(encode_ticket(2)));
    assert_eq!(
        b.in_flight,
        Some(Request::Put { key: "R.blocked.1".to_string(), value: vec![1] })
    );
    b.serve_one(&mut store);
    assert_eq!(b.phase(), Phase::Subscribing { token: 1 });
    assert_eq!(store.get(&"R.blocked.1".to_string()), Some(vec![1]));
    assert_eq!(b.in_flight, Some(Request::Watch { key: "R.blocked.1".to_string() }));
    b.serve_one(&mut store);
    assert_eq!(b.phase(), Phase::Waiting { token: 1 });
    assert!(b.in_flight.is_none());
    assert!(b.acquisition.take().unwrap().into_held().is_err());
}

#[test]
fn two_contenders_queue_behind_the_holder_and_are_served_in_order() {
    let mutex = lock("R");
    let mut store = MemStore::new();
    let mut a = Contender::start(&mutex);
    a.run(&mut store);
    assert_eq!(a.phase(), Phase::Held { token: 0 });
    assert_eq!(counter(&store), Some(encode_ticket(1)));

    // Both find the lock busy, both read 1, both bid for ticket 1.
    let mut b = Contender::start(&mutex);
    let mut c = Contender::start(&mutex);
    b.serve_one(&mut store);
    c.serve_one(&mut store);
    b.serve_one(&mut store);
    c.serve_one(&mut store);
    assert_eq!(b.phase(), Phase::Bidding { taking: 1 });
    assert_eq!(c.phase(), Phase::Bidding { taking: 1 });
    // One bid wins; the loser reads again and takes the next ticket.
    b.serve_one(&mut store);
    c.serve_one(&mut store);
    assert_eq!(b.phase(), Phase::Registering { token: 1 });
    assert_eq!(c.phase(), Phase::Reading);
    c.serve_one(&mut store);
    assert_eq!(c.phase(), Phase::Bidding { taking: 2 });
    c.serve_one(&mut store);
    assert_eq!(c.phase(), Phase::Registering { token: 2 });
    assert_eq!(counter(&store), Some(encode_ticket(3)));
    b.run(&mut store);
    c.run(&mut store);
    assert_eq!(b.phase(), Phase::Waiting { token: 1 });
    assert_eq!(c.phase(), Phase::Waiting { token: 2 });

    // The holder of ticket 0 releases: ticket 1 is woken, ticket 2 is not.
    let held = a.acquisition.take().unwrap().into_held().ok().unwrap();
    let (response, events) = store.serve(&mutex.release(held).unwrap());
    assert_eq!(released(&response), Ok(Handoff::Passed));
    assert_eq!(events, vec![Event { kind: EventKind::Delete, key: "R.blocked.1".to_string() }]);
    assert_eq!(store.get(&"R.blocked.1".to_string()), None);
    assert_eq!(store.get(&"R.blocked.2".to_string()), Some(vec![1]));
    assert_eq!(counter(&store), Some(encode_ticket(3)));
    b.hear(&events[0]);
    assert_eq!(b.phase(), Phase::Held { token: 1 });
    assert_eq!(c.phase(), Phase::Waiting { token: 2 });

    // Ticket 1 releases: now ticket 2 is woken.
    let held = b.acquisition.take().unwrap().into_held().ok().unwrap();
    assert_eq!(held.token(), 1);
    let (response, events) = store.serve(&mutex.release(held).unwrap());
    assert_eq!(released(&response), Ok(Handoff::Passed));
    assert_eq!(events, vec![Event { kind: EventKind::Delete, key: "R.blocked.2".to_string() }]);
    c.hear(&events[0]);
    assert_eq!(c.phase(), Phase::Held { token: 2 });
    assert_eq!(counter(&store), Some(encode_ticket(3)));

    // Ticket 2 is the last one issued: its release ends the round.
    let held = c.acquisition.take().unwrap().into_held().ok().unwrap();
    let (response, _) = store.serve(&mutex.release(held).unwrap());
    assert_eq!(released(&response), Ok(Handoff::Reset));
    assert_eq!(counter(&store), Some(vec![]));
    let mut d = Contender::start(&mutex);
    d.run(&mut store);
    assert_eq!(d.phase(), Phase::Held { token: 0 });
}

#[test]
fn release_between_a_bid_and_its_registration_does_not_reset() {
    let mutex = lock("R");
    let mut store = MemStore::new();
    let mut a = Contender::start(&mutex);
    a.run(&mut store);
    let mut b = Contender::start(&mutex);
    b.serve_one(&mut store);
    b.serve_one(&mut store);
    b.serve_one(&mut store);
    assert_eq!(b.phase(), Phase::Registering { token: 1 });
    assert_eq!(store.get(&"R.blocked.1".to_string()), None);

    // Ticket 1 is issued but its sentinel is not written yet: the release
    // must leave the counter alone, or ticket 1 would be issued again.
    let held = a.acquisition.take().unwrap().into_held().ok().unwrap();
    let (response, events) = store.serve(&mutex.release(held).unwrap());
    assert_eq!(released(&response), Ok(Handoff::Passed));
    assert!(events.is_empty());
    assert_eq!(counter(&store), Some(encode_ticket(2)));

    let mut c = Contender::start(&mutex);
    c.run(&mut store);
    assert_eq!(c.phase(), Phase::Waiting { token: 2 });

    // The deletion came before the sentinel: ticket 1 waits on.
    b.run(&mut store);
    assert_eq!(b.phase(), Phase::Waiting { token: 1 });
    assert_eq!(store.get(&"R.blocked.1".to_string()), Some(vec![1]));
}

#[test]
fn idle_counter_found_by_the_read_goes_back_to_the_claim() {
    let mutex = lock("R");
    let mut b = Contender::start(&mutex);
    b.take(&Response::Txn { committed: false });
    assert_eq!(b.phase(), Phase::Reading);
    b.take(&Response::Value { value: None });
    assert_eq!(b.phase(), Phase::ClaimingIdle);
    assert_eq!(b.in_flight, Some(mutex.acquire().1));

    b.take(&Response::Txn { committed: false });
    b.take(&Response::Value { value: Some(vec![]) });
    assert_eq!(b.phase(), Phase::ClaimingIdle);
    assert_eq!(b.in_flight, Some(mutex.acquire().1));
}

#[test]
fn lost_bid_reads_the_counter_again() {
    let mut b = Contender::start(&lock("R"));
    b.take(&Response::Txn { committed: false });
    b.take(&Response::Value { value: Some(encode_ticket(5)) });
    assert_eq!(b.phase(), Phase::Bidding { taking: 5 });
    b.take(&Response::Txn { committed: false });
    assert_eq!(b.phase(), Phase::Reading);
    assert_eq!(b.in_flight, Some(Request::Get { key: "R.next".to_string() }));
    b.take(&Response::Value { value: Some(encode_ticket(9)) });
    assert_eq!(b.phase(), Phase::Bidding { taking: 9 });
    b.take(&Response::Txn { committed: true });
    assert_eq!(b.phase(), Phase::Registering { token: 9 });
    assert_eq!(
        b.in_flight,
        Some(Request::Put { key: "R.blocked.9".to_string(), value: vec![1] })
    );
}

#[test]
fn counter_that_is_no_ticket_is_a_protocol_error() {
    let protocol = Phase::Failed { error: LockError::Protocol };
    assert_eq!(phase_after_read(&Some(vec![1])), protocol);
    assert_eq!(phase_after_read(&Some(vec![1, 0, 0, 0, 0, 0, 0])), protocol);
    assert_eq!(phase_after_read(&Some(vec![1, 0, 0, 0, 0, 0, 0, 0, 0])), protocol);
    assert_eq!(phase_after_read(&Some(encode_ticket(0))), protocol);
    assert_eq!(phase_after_read(&Some(encode_ticket(1))), Phase::Bidding { taking: 1 });
    assert_eq!(
        phase_after_read(&Some(encode_ticket(u64::MAX - 1))),
        Phase::Bidding { taking: u64::MAX - 1 }
    );
    assert_eq!(phase_after_read(&None), Phase::ClaimingIdle);
    assert_eq!(phase_after_read(&Some(vec![])), Phase::ClaimingIdle);
}

#[test]
fn full_counter_is_exhausted() {
    assert_eq!(
        phase_after_read(&Some(encode_ticket(u64::MAX))),
        Phase::Failed { error: LockError::Exhausted }
    );
    let mut b = Contender::start(&lock("R"));
    b.take(&Response::Txn { committed: false });
    b.take(&Response::Value { value: Some(vec![255; 8]) });
    assert_eq!(b.phase(), Phase::Failed { error: LockError::Exhausted });
    assert!(b.in_flight.is_none());
    assert_eq!(b.acquisition.as_ref().unwrap().error(), Some(LockError::Exhausted));
}

#[test]
fn store_failure_ends_the_acquisition_in_every_phase() {
    let name = "R".to_string();
    let failed = Phase::Failed { error: LockError::Store };
    let phases = [
        Phase::ClaimingIdle,
        Phase::Reading,
        Phase::Bidding { taking: 3 },
        Phase::Registering { token: 3 },
        Phase::Subscribing { token: 3 },
        Phase::Waiting { token: 3 },
    ];
    for phase in phases {
        assert_eq!(phase_after(&name, phase, &store_failed("unreachable")), failed);
        assert_eq!(request_for(&name, failed), None);
    }
}

#[test]
fn put_event_on_the_sentinel_is_a_protocol_error() {
    let name = "R".to_string();
    let waiting = Phase::Waiting { token: 4 };
    let put = Response::Event { kind: EventKind::Put, key: "R.blocked.4".to_string() };
    assert_eq!(phase_after(&name, waiting, &put), Phase::Failed { error: LockError::Protocol });
}

#[test]
fn deletion_of_another_key_does_not_grant_the_lock() {
    let name = "R".to_string();
    let waiting = Phase::Waiting { token: 4 };
    let other = Response::Event { kind: EventKind::Delete, key: "R.blocked.5".to_string() };
    assert_eq!(phase_after(&name, waiting, &other), Phase::Failed { error: LockError::Protocol });
    let own = Response::Event { kind: EventKind::Delete, key: "R.blocked.4".to_string() };
    assert_eq!(phase_after(&name, waiting, &own), Phase::Held { token: 4 });
}

#[test]
fn end_of_the_watch_is_an_error_of_its_own() {
    let name = "R".to_string();
    let ended = Phase::Failed { error: LockError::WatchEnded };
    assert_eq!(phase_after(&name, Phase::Waiting { token: 2 }, &Response::WatchEnded), ended);
    assert_eq!(phase_after(&name, Phase::Subscribing { token: 2 }, &Response::WatchEnded), ended);
    assert_eq!(
        phase_after(&name, Phase::Reading, &Response::WatchEnded),
        Phase::Failed { error: LockError::Protocol }
    );
}

#[test]
fn answer_of_the_wrong_kind_is_a_protocol_error() {
    let name = "R".to_string();
    let protocol = Phase::Failed { error: LockError::Protocol };
    assert_eq!(phase_after(&name, Phase::ClaimingIdle, &Response::Written), protocol);
    assert_eq!(
        phase_after(&name, Phase::Reading, &Response::Txn { committed: true }),
        protocol
    );
    assert_eq!(
        phase_after(&name, Phase::Bidding { taking: 1 }, &Response::Value { value: None }),
        protocol
    );
    assert_eq!(phase_after(&name, Phase::Registering { token: 1 }, &Response::Watching), protocol);
    assert_eq!(phase_after(&name, Phase::Subscribing { token: 1 }, &Response::Written), protocol);
    assert_eq!(phase_after(&name, Phase::Waiting { token: 1 }, &Response::Watching), protocol);
}

#[test]
fn final_phases_stay_as_they_are() {
    let name = "R".to_string();
    let held = Phase::Held { token: 7 };
    let failed = Phase::Failed { error: LockError::WatchEnded };
    let answers = [
        store_failed("unreachable"),
        Response::WatchEnded,
        Response::Written,
        Response::Txn { committed: true },
        Response::Event { kind: EventKind::Delete, key: "R.blocked.7".to_string() },
    ];
    for answer in answers.iter() {
        assert_eq!(phase_after(&name, held, answer), held);
        assert_eq!(phase_after(&name, failed, answer), failed);
    }
    assert_eq!(request_for(&name, held), None);
}

#[test]
fn handle_of_another_resource_is_rejected() {
    let mut store = MemStore::new();
    let mut a = Contender::start(&lock("R"));
    a.run(&mut store);
    let held = a.acquisition.take().unwrap().into_held().ok().unwrap();
    assert_eq!(lock("S").release(held), Err(LockError::ForeignHandle));
}

#[test]
fn no_handle_without_a_grant() {
    let mutex = lock("R");
    let (fresh, _) = mutex.acquire();
    assert!(fresh.into_held().is_err());

    let mut b = Contender::start(&mutex);
    b.take(&Response::Txn { committed: false });
    b.take(&Response::Value { value: Some(encode_ticket(1)) });
    b.take(&Response::Txn { committed: true });
    b.take(&Response::Written);
    b.take(&Response::Watching);
    b.take(&Response::Event { kind: EventKind::Put, key: "R.blocked.1".to_string() });
    let ended = b.acquisition.take().unwrap();
    assert_eq!(ended.error(), Some(LockError::Protocol));
    assert!(ended.into_held().is_err());
}

#[test]
fn answer_to_a_release_is_read() {
    assert_eq!(released(&Response::Txn { committed: true }), Ok(Handoff::Reset));
    assert_eq!(released(&Response::Txn { committed: false }), Ok(Handoff::Passed));
    assert_eq!(
        released(&store_failed("deadline exceeded")),
        Err(Failure { error: LockError::Store, reason: "deadline exceeded".to_string() })
    );
    assert_eq!(
        released(&Response::Written),
        Err(Failure { error: LockError::Protocol, reason: String::new() })
    );
    assert_eq!(
        released(&Response::WatchEnded),
        Err(Failure { error: LockError::Protocol, reason: String::new() })
    );
}

#[test]
fn locks_of_different_resources_do_not_meet() {
    let mut store = MemStore::new();
    let mut a = Contender::start(&lock("R"));
    let mut b = Contender::start(&lock("S"));
    a.run(&mut store);
    b.run(&mut store);
    assert_eq!(a.phase(), Phase::Held { token: 0 });
    assert_eq!(b.phase(), Phase::Held { token: 0 });
    assert_eq!(store.get(&"R.next".to_string()), Some(encode_ticket(1)));
    assert_eq!(store.get(&"S.next".to_string()), Some(encode_ticket(1)));
}

#[test]
fn at_most_one_contender_holds_through_a_queue_of_five() {
    let mutex = lock("R");
    let mut store = MemStore::new();
    let mut all: Vec<Contender> = (0..5).map(|_| Contender::start(&mutex)).collect();
    for c in all.iter_mut() {
        c.run(&mut store);
    }
    for turn in 0u64..5 {
        let holders: Vec<usize> = (0..5)
            .filter(|i| matches!(all[*i].phase(), Phase::Held { .. }))
            .collect();
        assert_eq!(holders, vec![turn as usize]);
        assert_eq!(all[turn as usize].phase(), Phase::Held { token: turn });
        let held = all[turn as usize].acquisition.take().unwrap().into_held().ok().unwrap();
        let (_, events) = store.serve(&mutex.release(held).unwrap());
        all[turn as usize] = Contender { acquisition: Some(mutex.acquire().0), in_flight: None };
        for event in events.iter() {
            for c in all.iter_mut() {
                if let Phase::Waiting { token } = c.phase() {
                    if mutex.sentinel_key(token) == event.key {
                        c.hear(event);
                    }
                }
            }
        }
    }
}

#[test]
fn ticket_is_known_from_registration_on() {
    let mut store = MemStore::new();
    let mutex = lock("R");
    let mut a = Contender::start(&mutex);
    assert_eq!(a.acquisition.as_ref().unwrap().ticket(), None);
    a.run(&mut store);
    assert_eq!(a.acquisition.as_ref().unwrap().ticket(), Some(0));

    let mut b = Contender::start(&mutex);
    b.serve_one(&mut store);
    assert_eq!(b.acquisition.as_ref().unwrap().ticket(), None);
    b.serve_one(&mut store);
    assert_eq!(b.phase(), Phase::Bidding { taking: 1 });
    assert_eq!(b.acquisition.as_ref().unwrap().ticket(), None);
    b.serve_one(&mut store);
    assert_eq!(b.acquisition.as_ref().unwrap().ticket(), Some(1));
    b.run(&mut store);
    assert_eq!(b.phase(), Phase::Waiting { token: 1 });
    assert_eq!(b.acquisition.as_ref().unwrap().ticket(), Some(1));
    b.take(&Response::WatchEnded);
    assert_eq!(b.acquisition.as_ref().unwrap().ticket(), None);
}

#[test]
fn reason_of_a_store_failure_is_kept() {
    let mut b = Contender::start(&lock("R"));
    assert_eq!(b.state().failure(), None);
    b.take(&Response::Txn { committed: false });
    b.take(&store_failed("connection refused"));
    assert_eq!(b.phase(), Phase::Failed { error: LockError::Store });
    assert_eq!(
        b.state().failure(),
        Some(Failure { error: LockError::Store, reason: "connection refused".to_string() })
    );
    // A final phase keeps what it has.
    b.take(&store_failed("later"));
    assert_eq!(
        b.state().failure(),
        Some(Failure { error: LockError::Store, reason: "connection refused".to_string() })
    );
}

#[test]
fn failure_of_the_protocol_has_no_reason() {
    let mut b = Contender::start(&lock("R"));
    b.take(&Response::Written);
    assert_eq!(
        b.state().failure(),
        Some(Failure { error: LockError::Protocol, reason: String::new() })
    );
}

#[test]
fn unbounded_policy_bids_on() {
    let mut b = Contender::start(&lock("R"));
    b.take(&Response::Txn { committed: false });
    for n in 1u64..50 {
        b.take(&Response::Value { value: Some(encode_ticket(n)) });
        assert_eq!(b.phase(), Phase::Bidding { taking: n });
        b.take(&Response::Txn { committed: false });
        assert_eq!(b.phase(), Phase::Reading);
        assert_eq!(b.state().lost_bids(), n);
        assert_eq!(b.state().pause_ms(), 0);
    }
}

#[test]
fn bounded_policy_gives_up_at_the_bound() {
    let policy = RetryPolicy { max_lost_bids: Some(3), pause_ms: 0, max_pause_ms: 0 };
    let mut b = Contender::start_with(&lock("R"), policy);
    b.take(&Response::Txn { committed: false });
    for n in 1u64..3 {
        b.take(&Response::Value { value: Some(encode_ticket(n)) });
        b.take(&Response::Txn { committed: false });
        assert_eq!(b.phase(), Phase::Reading);
        assert_eq!(b.in_flight, Some(Request::Get { key: "R.next".to_string() }));
        assert_eq!(b.state().lost_bids(), n);
    }
    b.take(&Response::Value { value: Some(encode_ticket(3)) });
    b.take(&Response::Txn { committed: false });
    assert_eq!(b.phase(), Phase::Failed { error: LockError::Contended });
    assert!(b.in_flight.is_none());
    assert_eq!(b.state().lost_bids(), 3);
    assert_eq!(b.state().error(), Some(LockError::Contended));
    assert_eq!(b.state().ticket(), None);
}

#[test]
fn bound_of_zero_gives_up_at_the_first_lost_bid() {
    let policy = RetryPolicy { max_lost_bids: Some(0), pause_ms: 0, max_pause_ms: 0 };
    let mut b = Contender::start_with(&lock("R"), policy);
    b.take(&Response::Txn { committed: false });
    assert_eq!(b.phase(), Phase::Reading);
    b.take(&Response::Value { value: Some(encode_ticket(1)) });
    assert_eq!(b.phase(), Phase::Bidding { taking: 1 });
    b.take(&Response::Txn { committed: false });
    assert_eq!(b.phase(), Phase::Failed { error: LockError::Contended });
}

#[test]
fn bid_that_wins_at_the_bound_is_kept() {
    let policy = RetryPolicy { max_lost_bids: Some(1), pause_ms: 0, max_pause_ms: 0 };
    let mut b = Contender::start_with(&lock("R"), policy);
    b.take(&Response::Txn { committed: false });
    b.take(&Response::Value { value: Some(encode_ticket(4)) });
    b.take(&Response::Txn { committed: true });
    assert_eq!(b.phase(), Phase::Registering { token: 4 });
    assert_eq!(b.state().lost_bids(), 0);
}

#[test]
fn pause_grows_with_each_lost_bid_up_to_the_longest() {
    let policy = RetryPolicy { max_lost_bids: None, pause_ms: 20, max_pause_ms: 50 };
    assert_eq!(policy.pause_after(0), 0);
    assert_eq!(policy.pause_after(1), 20);
    assert_eq!(policy.pause_after(2), 40);
    assert_eq!(policy.pause_after(3), 50);
    assert_eq!(policy.pause_after(u64::MAX), 50);
    let wide = RetryPolicy { max_lost_bids: None, pause_ms: u64::MAX, max_pause_ms: u64::MAX };
    assert_eq!(wide.pause_after(1), u64::MAX);
    assert_eq!(wide.pause_after(2), u64::MAX);

    let mut b = Contender::start_with(&lock("R"), policy);
    assert_eq!(b.state().pause_ms(), 0);
    b.take(&Response::Txn { committed: false });
    assert_eq!(b.phase(), Phase::Reading);
    assert_eq!(b.state().pause_ms(), 0);
    b.take(&Response::Value { value: Some(encode_ticket(1)) });
    assert_eq!(b.state().pause_ms(), 0);
    b.take(&Response::Txn { committed: false });
    assert_eq!(b.state().pause_ms(), 20);
    b.take(&Response::Value { value: Some(encode_ticket(2)) });
    assert_eq!(b.state().pause_ms(), 0);
    b.take(&Response::Txn { committed: false });
    assert_eq!(b.state().pause_ms(), 40);
    b.take(&Response::Value { value: Some(encode_ticket(3)) });
    b.take(&Response::Txn { committed: false });
    assert_eq!(b.state().pause_ms(), 50);
}

#[test]
fn policy_says_when_to_give_up() {
    let never = RetryPolicy::unbounded();
    assert_eq!(never, RetryPolicy { max_lost_bids: None, pause_ms: 0, max_pause_ms: 0 });
    assert!(!never.gives_up(0));
    assert!(!never.gives_up(u64::MAX));
    let five = RetryPolicy { max_lost_bids: Some(5), pause_ms: 1, max_pause_ms: 1 };
    assert!(!five.gives_up(4));
    assert!(five.gives_up(5));
    assert!(five.gives_up(6));
}

use ticket_lock::memory::{Event, MemStore};
use ticket_lock::store::{Condition, EventKind, Op, Request, Response};

fn key(s: &str) -> String {
    s.to_string()
}

#[test]
fn new_store_holds_nothing() {
    let store = MemStore::new();
    assert_eq!(store.get(&key("a")), None);
}

#[test]
fn put_then_get() {
    let mut store = MemStore::new();
    store.put(&key("a"), &vec![1, 2]);
    store.put(&key("b"), &vec![]);
    assert_eq!(store.get(&key("a")), Some(vec![1, 2]));
    assert_eq!(store.get(&key("b")), Some(vec![]));
    assert_eq!(store.get(&key("c")), None);
}

#[test]
fn put_replaces_the_value() {
    let mut store = MemStore::new();
    store.put(&key("a"), &vec![1]);
    store.put(&key("b"), &vec![2]);
    store.put(&key("a"), &vec![3]);
    assert_eq!(store.get(&key("a")), Some(vec![3]));
    assert_eq!(store.get(&key("b")), Some(vec![2]));
}

#[test]
fn delete_removes_only_that_key() {
    let mut store = MemStore::new();
    store.put(&key("a"), &vec![1]);
    store.put(&key("b"), &vec![2]);
    store.put(&key("c"), &vec![3]);
    assert!(store.delete(&key("b")));
    assert!(!store.delete(&key("b")));
    assert!(!store.delete(&key("zz")));
    assert_eq!(store.get(&key("a")), Some(vec![1]));
    assert_eq!(store.get(&key("b")), None);
    assert_eq!(store.get(&key("c")), Some(vec![3]));
}

#[test]
fn idle_guard_holds_of_absent_and_of_empty() {
    let mut store = MemStore::new();
    let guard = Condition::Idle { key: key("c") };
    assert!(store.check(&guard));
    store.put(&key("c"), &vec![]);
    assert!(store.check(&guard));
    store.put(&key("c"), &vec![0]);
    assert!(!store.check(&guard));
}

#[test]
fn value_guard_fails_on_an_absent_key() {
    let mut store = MemStore::new();
    let empty = Condition::Holds { key: key("s"), value: vec![] };
    let one = Condition::Holds { key: key("s"), value: vec![1] };
    assert!(!store.check(&empty));
    assert!(!store.check(&one));
    store.put(&key("s"), &vec![]);
    assert!(store.check(&empty));
    assert!(!store.check(&one));
    store.put(&key("s"), &vec![1]);
    assert!(!store.check(&empty));
    assert!(store.check(&one));
}

#[test]
fn transaction_runs_one_branch() {
    let mut store = MemStore::new();
    let txn = Request::Txn {
        guard: Condition::Idle { key: key("c") },
        on_commit: vec![Op::Put { key: key("c"), value: vec![7] }],
        on_abort: vec![Op::Put { key: key("x"), value: vec![9] }],
    };
    let (answer, events) = store.serve(&txn);
    assert_eq!(answer, Response::Txn { committed: true });
    assert_eq!(events, vec![Event { kind: EventKind::Put, key: key("c") }]);
    assert_eq!(store.get(&key("c")), Some(vec![7]));
    assert_eq!(store.get(&key("x")), None);

    let (answer, events) = store.serve(&txn);
    assert_eq!(answer, Response::Txn { committed: false });
    assert_eq!(events, vec![Event { kind: EventKind::Put, key: key("x") }]);
    assert_eq!(store.get(&key("c")), Some(vec![7]));
    assert_eq!(store.get(&key("x")), Some(vec![9]));
}

#[test]
fn writes_of_a_branch_run_in_order() {
    let mut store = MemStore::new();
    store.put(&key("a"), &vec![1]);
    let ops = vec![
        Op::Delete { key: key("a") },
        Op::Delete { key: key("a") },
        Op::Put { key: key("a"), value: vec![2] },
        Op::Put { key: key("b"), value: vec![3] },
        Op::Delete { key: key("b") },
    ];
    let events = store.apply_all(&ops);
    assert_eq!(
        events,
        vec![
            Event { kind: EventKind::Delete, key: key("a") },
            Event { kind: EventKind::Put, key: key("a") },
            Event { kind: EventKind::Put, key: key("b") },
            Event { kind: EventKind::Delete, key: key("b") },
        ]
    );
    assert_eq!(store.get(&key("a")), Some(vec![2]));
    assert_eq!(store.get(&key("b")), None);
}

#[test]
fn deleting_nothing_tells_nothing() {
    let mut store = MemStore::new();
    let mut events = Vec::new();
    store.apply(&Op::Delete { key: key("a") }, &mut events);
    assert!(events.is_empty());
}

#[test]
fn read_write_and_watch_requests() {
    let mut store = MemStore::new();
    let (answer, events) = store.serve(&Request::Get { key: key("a") });
    assert_eq!(answer, Response::Value { value: None });
    assert!(events.is_empty());

    let (answer, events) = store.serve(&Request::Put { key: key("a"), value: vec![5] });
    assert_eq!(answer, Response::Written);
    assert_eq!(events, vec![Event { kind: EventKind::Put, key: key("a") }]);

    let (answer, events) = store.serve(&Request::Get { key: key("a") });
    assert_eq!(answer, Response::Value { value: Some(vec![5]) });
    assert!(events.is_empty());

    let (answer, events) = store.serve(&Request::Watch { key: key("a") });
    assert_eq!(answer, Response::Watching);
    assert!(events.is_empty());
    assert_eq!(store.get(&key("a")), Some(vec![5]));
}

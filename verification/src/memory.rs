use vstd::prelude::*;
use vstd::string::*;
use crate::store::{
    apply_op, apply_ops, holds, op_changes, ops_changes, ops_view, serve, Change, Condition,
    EventKind, Op, Request, Response,
};

verus! {

/// One change of one key, as a store reports it.
#[derive(Clone, Debug, PartialEq, Eq)]
pub struct Event {
    pub kind: EventKind,
    pub key: String,
}

impl View for Event {
    type V = Change;

    open spec fn view(&self) -> Change {
        Change { kind: self.kind, key: self.key@ }
    }
}

/// The views of a list of events, in order.
pub open spec fn events_view(events: Seq<Event>) -> Seq<Change> {
    events.map_values(|e: Event| e@)
}

/// The key of entry `i`.
spec fn key_at(entries: Seq<(String, Vec<u8>)>, i: int) -> Seq<char> {
    entries[i].0@
}

/// Whether no key occurs in two entries.
spec fn distinct(entries: Seq<(String, Vec<u8>)>) -> bool {
    forall|i: int, j: int|
        0 <= i < entries.len() && 0 <= j < entries.len() && i != j ==> key_at(entries, i)
            != key_at(entries, j)
}

/// Whether some entry has key `key`.
spec fn has(entries: Seq<(String, Vec<u8>)>, key: Seq<char>) -> bool {
    exists|i: int| 0 <= i < entries.len() && key_at(entries, i) == key
}

/// The entry that has key `key`.
spec fn index_of(entries: Seq<(String, Vec<u8>)>, key: Seq<char>) -> int {
    choose|i: int| 0 <= i < entries.len() && key_at(entries, i) == key
}

/// The map that a list of entries stands for.
spec fn contents(entries: Seq<(String, Vec<u8>)>) -> Map<Seq<char>, Seq<u8>> {
    Map::new(|key: Seq<char>| has(entries, key), |key: Seq<char>| entries[index_of(entries, key)].1@)
}

/// With distinct keys, entry `i` is what the map holds under its key.
proof fn lemma_entry(entries: Seq<(String, Vec<u8>)>, i: int)
    requires
        distinct(entries),
        0 <= i < entries.len(),
    ensures
        contents(entries).contains_key(key_at(entries, i)),
        contents(entries)[key_at(entries, i)] == entries[i].1@,
        index_of(entries, key_at(entries, i)) == i,
{
    let key = key_at(entries, i);
    assert(has(entries, key));
    let j = index_of(entries, key);
    assert(0 <= j < entries.len() && key_at(entries, j) == key);
}

/// A key that no entry has is absent from the map.
proof fn lemma_absent(entries: Seq<(String, Vec<u8>)>, key: Seq<char>)
    requires
        forall|i: int| 0 <= i < entries.len() ==> key_at(entries, i) != key,
    ensures
        !contents(entries).contains_key(key),
{
}

/// Adding an entry with a new key inserts it.
proof fn lemma_pushed(entries: Seq<(String, Vec<u8>)>, entry: (String, Vec<u8>))
    requires
        distinct(entries),
        forall|i: int| 0 <= i < entries.len() ==> key_at(entries, i) != entry.0@,
    ensures
        distinct(entries.push(entry)),
        contents(entries.push(entry)) == contents(entries).insert(entry.0@, entry.1@),
{
    let after = entries.push(entry);
    let last = entries.len() as int;
    assert forall|i: int, j: int|
        0 <= i < after.len() && 0 <= j < after.len() && i != j implies key_at(after, i)
        != key_at(after, j) by {
        if i < last {
            assert(key_at(after, i) == key_at(entries, i));
        }
        if j < last {
            assert(key_at(after, j) == key_at(entries, j));
        }
    }
    assert(key_at(after, last) == entry.0@);
    lemma_entry(after, last);
    let expected = contents(entries).insert(entry.0@, entry.1@);
    assert forall|key: Seq<char>| contents(after).contains_key(key) <==> expected.contains_key(
        key,
    ) by {
        if has(after, key) {
            let i = index_of(after, key);
            if i < last {
                assert(key_at(entries, i) == key);
            }
        }
        if has(entries, key) {
            let i = index_of(entries, key);
            assert(key_at(after, i) == key);
        }
    }
    assert forall|key: Seq<char>| contents(after).contains_key(key) implies contents(after)[key]
        == expected[key] by {
        let i = index_of(after, key);
        lemma_entry(after, i);
        if i < last {
            assert(key_at(entries, i) == key);
            lemma_entry(entries, i);
        }
    }
    assert(contents(after) =~= expected);
}

/// Replacing the value of an entry inserts the new value under its key.
proof fn lemma_replaced(entries: Seq<(String, Vec<u8>)>, at: int, entry: (String, Vec<u8>))
    requires
        distinct(entries),
        0 <= at < entries.len(),
        key_at(entries, at) == entry.0@,
    ensures
        distinct(entries.update(at, entry)),
        contents(entries.update(at, entry)) == contents(entries).insert(entry.0@, entry.1@),
{
    let after = entries.update(at, entry);
    assert forall|i: int| 0 <= i < entries.len() implies key_at(after, i) == key_at(
        entries,
        i,
    ) by {}
    assert forall|i: int, j: int|
        0 <= i < after.len() && 0 <= j < after.len() && i != j implies key_at(after, i)
        != key_at(after, j) by {
        assert(key_at(after, i) == key_at(entries, i));
        assert(key_at(after, j) == key_at(entries, j));
    }
    let expected = contents(entries).insert(entry.0@, entry.1@);
    lemma_entry(entries, at);
    assert forall|key: Seq<char>| contents(after).contains_key(key) <==> expected.contains_key(
        key,
    ) by {
        if has(after, key) {
            let i = index_of(after, key);
            assert(key_at(entries, i) == key);
        }
        if has(entries, key) {
            let i = index_of(entries, key);
            assert(key_at(after, i) == key);
        }
    }
    assert forall|key: Seq<char>| contents(after).contains_key(key) implies contents(after)[key]
        == expected[key] by {
        let i = index_of(after, key);
        lemma_entry(after, i);
        assert(key_at(entries, i) == key);
        lemma_entry(entries, i);
    }
    assert(contents(after) =~= expected);
}

/// Taking an entry out removes its key.
proof fn lemma_removed(entries: Seq<(String, Vec<u8>)>, at: int)
    requires
        distinct(entries),
        0 <= at < entries.len(),
    ensures
        distinct(entries.remove(at)),
        contents(entries.remove(at)) == contents(entries).remove(key_at(entries, at)),
{
    let after = entries.remove(at);
    let gone = key_at(entries, at);
    assert forall|i: int| 0 <= i < after.len() implies key_at(after, i) == key_at(
        entries,
        if i < at {
            i
        } else {
            i + 1
        },
    ) by {}
    assert forall|i: int, j: int|
        0 <= i < after.len() && 0 <= j < after.len() && i != j implies key_at(after, i)
        != key_at(after, j) by {
        let oi = if i < at {
            i
        } else {
            i + 1
        };
        let oj = if j < at {
            j
        } else {
            j + 1
        };
        assert(key_at(after, i) == key_at(entries, oi));
        assert(key_at(after, j) == key_at(entries, oj));
    }
    let expected = contents(entries).remove(gone);
    assert forall|key: Seq<char>| contents(after).contains_key(key) <==> expected.contains_key(
        key,
    ) by {
        if has(after, key) {
            let i = index_of(after, key);
            let oi = if i < at {
                i
            } else {
                i + 1
            };
            assert(key_at(entries, oi) == key);
        }
        if has(entries, key) && key != gone {
            let oi = index_of(entries, key);
            let i = if oi < at {
                oi
            } else {
                oi - 1
            };
            assert(key_at(after, i) == key);
        }
    }
    assert forall|key: Seq<char>| contents(after).contains_key(key) implies contents(after)[key]
        == expected[key] by {
        let i = index_of(after, key);
        lemma_entry(after, i);
        let oi = if i < at {
            i
        } else {
            i + 1
        };
        assert(key_at(entries, oi) == key);
        lemma_entry(entries, oi);
    }
    assert(contents(after) =~= expected);
}

/// A coordination store in memory, for one process: it serves each request
/// exactly as the protocol assumes a store does.
pub struct MemStore {
    entries: Vec<(String, Vec<u8>)>,
}

impl View for MemStore {
    type V = Map<Seq<char>, Seq<u8>>;

    closed spec fn view(&self) -> Map<Seq<char>, Seq<u8>> {
        contents(self.entries@)
    }
}

/// A copy of `bytes`.
fn copy_bytes(bytes: &Vec<u8>) -> (copy: Vec<u8>)
    ensures
        copy@ == bytes@,
{
    let mut copy: Vec<u8> = Vec::new();
    let mut i: usize = 0;
    while i < bytes.len()
        invariant
            i <= bytes.len(),
            copy@ == bytes@.take(i as int),
        decreases bytes.len() - i,
    {
        copy.push(bytes[i]);
        i = i + 1;
        assert(copy@ =~= bytes@.take(i as int));
    }
    assert(bytes@.take(bytes.len() as int) =~= bytes@);
    copy
}

impl MemStore {
    /// Whether the store is well formed: it keeps each key once.
    pub closed spec fn wf(&self) -> bool {
        distinct(self.entries@)
    }

    /// A store that holds nothing.
    pub fn new() -> (store: MemStore)
        ensures
            store.wf(),
            store@ == Map::<Seq<char>, Seq<u8>>::empty(),
    {
        let store = MemStore { entries: Vec::new() };
        assert(store@ =~= Map::<Seq<char>, Seq<u8>>::empty());
        store
    }

    /// The entry that has key `key`, if there is one.
    fn find(&self, key: &String) -> (found: Option<usize>)
        ensures
            found matches Some(i) ==> i < self.entries@.len() && key_at(self.entries@, i as int)
                == key@,
            found is None ==> forall|i: int|
                0 <= i < self.entries@.len() ==> key_at(self.entries@, i) != key@,
    {
        let mut i: usize = 0;
        while i < self.entries.len()
            invariant
                i <= self.entries@.len(),
                forall|j: int| 0 <= j < i ==> key_at(self.entries@, j) != key@,
            decreases self.entries.len() - i,
        {
            if self.entries[i].0 == *key {
                return Some(i);
            }
            i = i + 1;
        }
        None
    }

    /// The value under `key`, or `None` where the key is absent.
    pub fn get(&self, key: &String) -> (value: Option<Vec<u8>>)
        requires
            self.wf(),
        ensures
            value is Some <==> self@.contains_key(key@),
            value matches Some(bytes) ==> bytes@ == self@[key@],
    {
        match self.find(key) {
            Some(i) => {
                proof {
                    lemma_entry(self.entries@, i as int);
                }
                Some(copy_bytes(&self.entries[i].1))
            },
            None => {
                proof {
                    lemma_absent(self.entries@, key@);
                }
                None
            },
        }
    }

    /// Writes `value` under `key`, whatever the key held.
    pub fn put(&mut self, key: &String, value: &Vec<u8>)
        requires
            old(self).wf(),
        ensures
            final(self).wf(),
            final(self)@ == old(self)@.insert(key@, value@),
    {
        let entry = (key.clone(), copy_bytes(value));
        match self.find(key) {
            Some(i) => {
                proof {
                    lemma_replaced(self.entries@, i as int, entry);
                }
                self.entries.set(i, entry);
            },
            None => {
                proof {
                    lemma_pushed(self.entries@, entry);
                }
                self.entries.push(entry);
            },
        }
    }

    /// Deletes `key`. Says whether there was anything to delete.
    pub fn delete(&mut self, key: &String) -> (existed: bool)
        requires
            old(self).wf(),
        ensures
            final(self).wf(),
            existed == old(self)@.contains_key(key@),
            final(self)@ == old(self)@.remove(key@),
    {
        match self.find(key) {
            Some(i) => {
                proof {
                    lemma_entry(self.entries@, i as int);
                    lemma_removed(self.entries@, i as int);
                }
                self.entries.remove(i);
                true
            },
            None => {
                proof {
                    lemma_absent(self.entries@, key@);
                    assert(self@.remove(key@) =~= self@);
                }
                false
            },
        }
    }

    /// Whether `guard` holds of what the store holds now.
    pub fn check(&self, guard: &Condition) -> (met: bool)
        requires
            self.wf(),
        ensures
            met == holds(self@, guard@),
    {
        match guard {
            Condition::Idle { key } => match self.get(key) {
                Some(bytes) => bytes.len() == 0,
                None => true,
            },
            Condition::Holds { key, value } => match self.get(key) {
                Some(bytes) => crate::keys::same_bytes(&bytes, value),
                None => false,
            },
        }
    }

    /// Does one write, and adds to `events` what subscribers are told of it.
    pub fn apply(&mut self, op: &Op, events: &mut Vec<Event>)
        requires
            old(self).wf(),
        ensures
            final(self).wf(),
            final(self)@ == apply_op(old(self)@, op@),
            events_view(final(events)@) == events_view(old(events)@) + op_changes(
                old(self)@,
                op@,
            ),
    {
        let ghost before = events_view(events@);
        match op {
            Op::Put { key, value } => {
                self.put(key, value);
                events.push(Event { kind: EventKind::Put, key: key.clone() });
            },
            Op::Delete { key } => {
                if self.delete(key) {
                    events.push(Event { kind: EventKind::Delete, key: key.clone() });
                }
            },
        }
        assert(events_view(events@) =~= before + op_changes(old(self)@, op@));
    }

    /// Does a list of writes, first to last, and returns what subscribers
    /// are told of them.
    pub fn apply_all(&mut self, ops: &Vec<Op>) -> (events: Vec<Event>)
        requires
            old(self).wf(),
        ensures
            final(self).wf(),
            final(self)@ == apply_ops(old(self)@, ops_view(ops@)),
            events_view(events@) == ops_changes(old(self)@, ops_view(ops@)),
    {
        let mut events: Vec<Event> = Vec::new();
        let mut i: usize = 0;
        assert(ops_view(ops@).take(0) =~= Seq::empty());
        assert(events_view(events@) =~= Seq::empty());
        while i < ops.len()
            invariant
                i <= ops.len(),
                self.wf(),
                self@ == apply_ops(old(self)@, ops_view(ops@).take(i as int)),
                events_view(events@) == ops_changes(old(self)@, ops_view(ops@).take(i as int)),
            decreases ops.len() - i,
        {
            let ghost done = ops_view(ops@).take(i as int);
            let ghost more = ops_view(ops@).take(i + 1);
            assert(more.drop_last() =~= done);
            assert(more.last() == ops@[i as int]@);
            self.apply(&ops[i], &mut events);
            i = i + 1;
        }
        assert(ops_view(ops@).take(ops.len() as int) =~= ops_view(ops@));
        events
    }

    /// Serves one request in one step: the answer, and what subscribers are
    /// told.
    pub fn serve(&mut self, request: &Request) -> (served: (Response, Vec<Event>))
        requires
            old(self).wf(),
        ensures
            final(self).wf(),
            final(self)@ == serve(old(self)@, request@).store,
            served.0@ == serve(old(self)@, request@).response,
            events_view(served.1@) == serve(old(self)@, request@).changes,
    {
        match request {
            Request::Txn { guard, on_commit, on_abort } => {
                let committed = self.check(guard);
                let events = if committed {
                    self.apply_all(on_commit)
                } else {
                    self.apply_all(on_abort)
                };
                (Response::Txn { committed }, events)
            },
            Request::Get { key } => {
                let value = self.get(key);
                let events: Vec<Event> = Vec::new();
                assert(events_view(events@) =~= Seq::empty());
                (Response::Value { value }, events)
            },
            Request::Put { key, value } => {
                self.put(key, value);
                let mut events: Vec<Event> = Vec::new();
                events.push(Event { kind: EventKind::Put, key: key.clone() });
                assert(events_view(events@) =~= seq![Change { kind: EventKind::Put, key: key@ }]);
                (Response::Written, events)
            },
            Request::Watch { key } => {
                let events: Vec<Event> = Vec::new();
                assert(events_view(events@) =~= Seq::empty());
                (Response::Watching, events)
            },
        }
    }
}

} // verus!

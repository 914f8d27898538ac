use vstd::prelude::*;

verus! {

/// What a transaction compares before it chooses a branch.
///
/// A key that is absent is an outcome of its own: it is idle, and it holds no
/// value, not even the empty one.
#[derive(Clone, Debug, PartialEq, Eq)]
pub enum Condition {
    /// The key is absent, or present with an empty value.
    Idle { key: String },
    /// The key is present and its value is exactly `value`.
    Holds { key: String, value: Vec<u8> },
}

/// A write inside a transaction.
#[derive(Clone, Debug, PartialEq, Eq)]
pub enum Op {
    Put { key: String, value: Vec<u8> },
    Delete { key: String },
}

/// What a client asks of the coordination store.
#[derive(Clone, Debug, PartialEq, Eq)]
pub enum Request {
    /// Evaluate `guard` and run `on_commit` if it holds, `on_abort` if not,
    /// all in one atomic step.
    Txn { guard: Condition, on_commit: Vec<Op>, on_abort: Vec<Op> },
    /// Read one key.
    Get { key: String },
    /// Write one key, whatever it held.
    Put { key: String, value: Vec<u8> },
    /// Subscribe to the changes of one key, from now on.
    Watch { key: String },
}

/// The kind of a change to a watched key.
#[derive(Clone, Copy, Debug, PartialEq, Eq, Structural)]
pub enum EventKind {
    Put,
    Delete,
}

/// What the coordination store tells a client.
#[derive(Clone, Debug, PartialEq, Eq)]
pub enum Response {
    /// A transaction ran; `committed` says whether its guard held.
    Txn { committed: bool },
    /// A read found `value`, or found the key absent.
    Value { value: Option<Vec<u8>> },
    /// A write was done.
    Written,
    /// A subscription is open.
    Watching,
    /// A watched key changed.
    Event { kind: EventKind, key: String },
    /// The subscription ended.
    WatchEnded,
    /// The store could not be reached, or refused the request; `reason` is
    /// what the store's client said of it.
    Failed { reason: String },
}

pub enum ConditionView {
    Idle { key: Seq<char> },
    Holds { key: Seq<char>, value: Seq<u8> },
}

pub enum OpView {
    Put { key: Seq<char>, value: Seq<u8> },
    Delete { key: Seq<char> },
}

pub enum RequestView {
    Txn { guard: ConditionView, on_commit: Seq<OpView>, on_abort: Seq<OpView> },
    Get { key: Seq<char> },
    Put { key: Seq<char>, value: Seq<u8> },
    Watch { key: Seq<char> },
}

pub enum ResponseView {
    Txn { committed: bool },
    Value { value: Option<Seq<u8>> },
    Written,
    Watching,
    Event { kind: EventKind, key: Seq<char> },
    WatchEnded,
    Failed { reason: Seq<char> },
}

/// One change of one key, as a subscriber of that key is told of it.
pub struct Change {
    pub kind: EventKind,
    pub key: Seq<char>,
}

impl View for Condition {
    type V = ConditionView;

    open spec fn view(&self) -> ConditionView {
        match self {
            Condition::Idle { key } => ConditionView::Idle { key: key@ },
            Condition::Holds { key, value } => ConditionView::Holds { key: key@, value: value@ },
        }
    }
}

impl View for Op {
    type V = OpView;

    open spec fn view(&self) -> OpView {
        match self {
            Op::Put { key, value } => OpView::Put { key: key@, value: value@ },
            Op::Delete { key } => OpView::Delete { key: key@ },
        }
    }
}

/// The views of a list of writes, in order.
pub open spec fn ops_view(ops: Seq<Op>) -> Seq<OpView> {
    ops.map_values(|op: Op| op@)
}

impl View for Request {
    type V = RequestView;

    open spec fn view(&self) -> RequestView {
        match self {
            Request::Txn { guard, on_commit, on_abort } => RequestView::Txn {
                guard: guard@,
                on_commit: ops_view(on_commit@),
                on_abort: ops_view(on_abort@),
            },
            Request::Get { key } => RequestView::Get { key: key@ },
            Request::Put { key, value } => RequestView::Put { key: key@, value: value@ },
            Request::Watch { key } => RequestView::Watch { key: key@ },
        }
    }
}

impl View for Response {
    type V = ResponseView;

    open spec fn view(&self) -> ResponseView {
        match self {
            Response::Txn { committed } => ResponseView::Txn { committed: *committed },
            Response::Value { value } => ResponseView::Value {
                value: match value {
                    Some(bytes) => Some(bytes@),
                    None => None,
                },
            },
            Response::Written => ResponseView::Written,
            Response::Watching => ResponseView::Watching,
            Response::Event { kind, key } => ResponseView::Event { kind: *kind, key: key@ },
            Response::WatchEnded => ResponseView::WatchEnded,
            Response::Failed { reason } => ResponseView::Failed { reason: reason@ },
        }
    }
}

/// The view of a request that may be missing.
pub open spec fn request_view(request: Option<Request>) -> Option<RequestView> {
    match request {
        Some(r) => Some(r@),
        None => None,
    }
}

/// Whether `guard` holds of the store's contents.
pub open spec fn holds(store: Map<Seq<char>, Seq<u8>>, guard: ConditionView) -> bool {
    match guard {
        ConditionView::Idle { key } => !store.contains_key(key) || store[key].len() == 0,
        ConditionView::Holds { key, value } => store.contains_key(key) && store[key] == value,
    }
}

/// The store's contents after one write.
pub open spec fn apply_op(store: Map<Seq<char>, Seq<u8>>, op: OpView) -> Map<
    Seq<char>,
    Seq<u8>,
> {
    match op {
        OpView::Put { key, value } => store.insert(key, value),
        OpView::Delete { key } => store.remove(key),
    }
}

/// What one write tells the subscribers: a put always shows, a delete only
/// where there was something to delete.
pub open spec fn op_changes(store: Map<Seq<char>, Seq<u8>>, op: OpView) -> Seq<Change> {
    match op {
        OpView::Put { key, value } => seq![Change { kind: EventKind::Put, key }],
        OpView::Delete { key } => if store.contains_key(key) {
            seq![Change { kind: EventKind::Delete, key }]
        } else {
            Seq::empty()
        },
    }
}

/// The store's contents after a list of writes, first to last.
pub open spec fn apply_ops(store: Map<Seq<char>, Seq<u8>>, ops: Seq<OpView>) -> Map<
    Seq<char>,
    Seq<u8>,
>
    decreases ops.len(),
{
    if ops.len() == 0 {
        store
    } else {
        apply_op(apply_ops(store, ops.drop_last()), ops.last())
    }
}

/// What a list of writes tells the subscribers, first to last.
pub open spec fn ops_changes(store: Map<Seq<char>, Seq<u8>>, ops: Seq<OpView>) -> Seq<Change>
    decreases ops.len(),
{
    if ops.len() == 0 {
        Seq::empty()
    } else {
        ops_changes(store, ops.drop_last()) + op_changes(
            apply_ops(store, ops.drop_last()),
            ops.last(),
        )
    }
}

/// What serving one request does: the contents afterwards, the answer, and
/// the changes that subscribers are told of.
pub struct Served {
    pub store: Map<Seq<char>, Seq<u8>>,
    pub response: ResponseView,
    pub changes: Seq<Change>,
}

/// The coordination store as the protocol assumes it: each request is served
/// in one atomic step.
pub open spec fn serve(store: Map<Seq<char>, Seq<u8>>, request: RequestView) -> Served {
    match request {
        RequestView::Txn { guard, on_commit, on_abort } => {
            let committed = holds(store, guard);
            let ops = if committed {
                on_commit
            } else {
                on_abort
            };
            Served {
                store: apply_ops(store, ops),
                response: ResponseView::Txn { committed },
                changes: ops_changes(store, ops),
            }
        },
        RequestView::Get { key } => Served {
            store,
            response: ResponseView::Value {
                value: if store.contains_key(key) {
                    Some(store[key])
                } else {
                    None
                },
            },
            changes: Seq::empty(),
        },
        RequestView::Put { key, value } => Served {
            store: store.insert(key, value),
            response: ResponseView::Written,
            changes: seq![Change { kind: EventKind::Put, key }],
        },
        RequestView::Watch { key } => Served {
            store,
            response: ResponseView::Watching,
            changes: Seq::empty(),
        },
    }
}

/// A list of no writes changes nothing and tells nothing.
pub proof fn lemma_no_ops(store: Map<Seq<char>, Seq<u8>>)
    ensures
        apply_ops(store, Seq::empty()) == store,
        ops_changes(store, Seq::empty()) == Seq::<Change>::empty(),
{
}

/// A list of one write does what that write does.
pub proof fn lemma_one_op(store: Map<Seq<char>, Seq<u8>>, op: OpView)
    ensures
        apply_ops(store, seq![op]) == apply_op(store, op),
        ops_changes(store, seq![op]) == op_changes(store, op),
{
    let ops = seq![op];
    assert(ops.drop_last() =~= Seq::<OpView>::empty());
    assert(ops.last() == op);
    assert(apply_ops(store, ops.drop_last()) == store);
    assert(ops_changes(store, ops.drop_last()) =~= Seq::<Change>::empty());
    assert(ops_changes(store, ops) =~= op_changes(store, op));
}

} // verus!

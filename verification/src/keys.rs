use vstd::prelude::*;
use vstd::bytes::*;
use vstd::string::*;
use crate::error::LockError;

verus! {

/// The character that stands for the decimal digit `d`.
pub open spec fn digit(d: nat) -> char
    recommends
        d < 10,
{
    if d == 0 {
        '0'
    } else if d == 1 {
        '1'
    } else if d == 2 {
        '2'
    } else if d == 3 {
        '3'
    } else if d == 4 {
        '4'
    } else if d == 5 {
        '5'
    } else if d == 6 {
        '6'
    } else if d == 7 {
        '7'
    } else if d == 8 {
        '8'
    } else {
        '9'
    }
}

/// `n` written in base ten, most significant digit first, without padding.
pub open spec fn decimal(n: nat) -> Seq<char>
    decreases n,
{
    if n < 10 {
        seq![digit(n)]
    } else {
        decimal(n / 10).push(digit(n % 10))
    }
}

/// The suffix that turns a resource name into the key of its counter.
pub open spec fn counter_suffix() -> Seq<char> {
    seq!['.', 'n', 'e', 'x', 't']
}

/// The infix between a resource name and a ticket number in a sentinel key.
pub open spec fn sentinel_infix() -> Seq<char> {
    seq!['.', 'b', 'l', 'o', 'c', 'k', 'e', 'd', '.']
}

/// The key under which the next ticket number of resource `name` is kept.
pub open spec fn counter_key(name: Seq<char>) -> Seq<char> {
    name + counter_suffix()
}

/// The key whose existence says that ticket `token` of resource `name` has
/// not been granted the lock yet.
pub open spec fn sentinel_key(name: Seq<char>, token: nat) -> Seq<char> {
    name + sentinel_infix() + decimal(token)
}

/// The bytes that stand for ticket number `n` in the counter: eight bytes,
/// least significant first.
pub open spec fn ticket_bytes(n: u64) -> Seq<u8> {
    spec_u64_to_le_bytes(n)
}

/// The ticket number that eight counter bytes stand for.
pub open spec fn ticket_number(bytes: Seq<u8>) -> u64
    recommends
        bytes.len() == 8,
{
    spec_u64_from_le_bytes(bytes)
}

/// The value a waiting ticket writes under its sentinel key.
pub open spec fn placeholder() -> Seq<u8> {
    seq![1u8]
}

/// Whether a counter value is the idle marker: an empty value. (A counter
/// key that is absent is idle as well.)
pub open spec fn is_idle_value(value: Seq<u8>) -> bool {
    value.len() == 0
}

/// A decimal numeral is never empty.
pub proof fn lemma_decimal_nonempty(n: nat)
    ensures
        decimal(n).len() >= 1,
        n >= 10 ==> decimal(n).len() >= 2,
    decreases n,
{
    if n >= 10 {
        lemma_decimal_nonempty(n / 10);
    }
}

/// Different digits are written with different characters.
pub proof fn lemma_digit_injective(a: nat, b: nat)
    requires
        a < 10,
        b < 10,
        digit(a) == digit(b),
    ensures
        a == b,
{
}

/// A decimal numeral ends in the digit of the number's remainder by ten.
pub proof fn lemma_decimal_last_is_digit(n: nat)
    ensures
        decimal(n).last() == digit(n % 10),
{
    lemma_decimal_nonempty(n);
}

/// Different numbers have different decimal numerals.
pub proof fn lemma_decimal_injective(a: nat, b: nat)
    requires
        decimal(a) == decimal(b),
    ensures
        a == b,
    decreases a,
{
    lemma_decimal_nonempty(a);
    lemma_decimal_nonempty(b);
    lemma_decimal_last_is_digit(a);
    lemma_decimal_last_is_digit(b);
    lemma_digit_injective(a % 10, b % 10);
    if a < 10 && b < 10 {
    } else if a >= 10 && b >= 10 {
        let da = decimal(a / 10);
        let db = decimal(b / 10);
        assert(da =~= decimal(a).drop_last());
        assert(db =~= decimal(b).drop_last());
        lemma_decimal_injective(a / 10, b / 10);
    } else {
        assert(decimal(a).len() != decimal(b).len());
    }
}

/// Two sentinel keys of one resource are the same key only for the same
/// ticket.
pub proof fn lemma_sentinel_keys_differ(name: Seq<char>, s: nat, t: nat)
    requires
        sentinel_key(name, s) == sentinel_key(name, t),
    ensures
        s == t,
{
    let prefix = name + sentinel_infix();
    let ks = sentinel_key(name, s);
    let kt = sentinel_key(name, t);
    assert(ks.subrange(prefix.len() as int, ks.len() as int) =~= decimal(s));
    assert(kt.subrange(prefix.len() as int, kt.len() as int) =~= decimal(t));
    lemma_decimal_injective(s, t);
}

/// The counter key of a resource is none of its sentinel keys.
pub proof fn lemma_counter_is_no_sentinel(name: Seq<char>, t: nat)
    ensures
        counter_key(name) != sentinel_key(name, t),
{
    lemma_decimal_last_is_digit(t);
    lemma_decimal_nonempty(t);
    let c = counter_key(name);
    let k = sentinel_key(name, t);
    assert(c.last() == 't');
    assert(k.last() == decimal(t).last());
}

/// A decimal numeral holds no dot.
pub proof fn lemma_decimal_has_no_dot(n: nat, i: int)
    requires
        0 <= i < decimal(n).len(),
    ensures
        decimal(n)[i] != '.',
    decreases n,
{
    if n >= 10 {
        if i < decimal(n / 10).len() {
            lemma_decimal_has_no_dot(n / 10, i);
        }
    }
}

/// The keys of two locks are the same key only if the two locks have the
/// same name: no counter key is a sentinel key, two counter keys that agree
/// belong to one name, and two sentinel keys that agree belong to one name
/// and one ticket.
pub proof fn lemma_keys_tell_locks_apart(x: Seq<char>, y: Seq<char>, s: nat, t: nat)
    ensures
        counter_key(x) != sentinel_key(y, t),
        counter_key(x) == counter_key(y) ==> x == y,
        sentinel_key(x, s) == sentinel_key(y, t) ==> x == y && s == t,
{
    lemma_decimal_last_is_digit(t);
    lemma_decimal_nonempty(t);
    lemma_decimal_nonempty(s);
    assert(counter_key(x).last() == 't');
    assert(sentinel_key(y, t).last() == decimal(t).last());
    if counter_key(x) == counter_key(y) {
        assert(x =~= counter_key(x).subrange(0, x.len() as int));
        assert(y =~= counter_key(y).subrange(0, y.len() as int));
    }
    let a = sentinel_key(x, s);
    let b = sentinel_key(y, t);
    if a == b {
        let total = a.len() as int;
        let ls = decimal(s).len() as int;
        let lt = decimal(t).len() as int;
        assert(a[total - ls - 1] == '.');
        assert(b[total - lt - 1] == '.');
        if ls < lt {
            lemma_decimal_has_no_dot(t, lt - ls - 1);
            assert(b[total - ls - 1] == decimal(t)[lt - ls - 1]);
        }
        if lt < ls {
            lemma_decimal_has_no_dot(s, ls - lt - 1);
            assert(a[total - lt - 1] == decimal(s)[ls - lt - 1]);
        }
        assert(ls == lt);
        assert(decimal(s) =~= a.subrange(total - ls, total));
        assert(decimal(t) =~= b.subrange(total - lt, total));
        lemma_decimal_injective(s, t);
        assert(x =~= a.subrange(0, x.len() as int));
        assert(y =~= b.subrange(0, y.len() as int));
    }
}

/// A ticket number survives being written to the counter and read back, and
/// eight bytes survive being read as a number and written again.
pub proof fn lemma_ticket_round_trip(n: u64, bytes: Seq<u8>)
    ensures
        ticket_bytes(n).len() == 8,
        ticket_number(ticket_bytes(n)) == n,
        bytes.len() == 8 ==> ticket_bytes(ticket_number(bytes)) == bytes,
{
    lemma_auto_spec_u64_to_from_le_bytes();
}

/// Different ticket numbers are written as different counter values, and none
/// of them is the idle marker.
pub proof fn lemma_ticket_bytes_injective(a: u64, b: u64)
    ensures
        ticket_bytes(a) == ticket_bytes(b) ==> a == b,
        !is_idle_value(ticket_bytes(a)),
{
    lemma_auto_spec_u64_to_from_le_bytes();
}

/// The name of a lock: the resource it protects.
///
/// A descriptor has no state beyond the name. Every key the protocol uses in
/// the coordination store is derived from it.
#[derive(Debug)]
pub struct Mutex {
    name: String,
}

impl View for Mutex {
    type V = Seq<char>;

    closed spec fn view(&self) -> Seq<char> {
        self.name@
    }
}

impl Mutex {
    #[verifier::type_invariant]
    spec fn named(self) -> bool {
        self.name@.len() > 0
    }

    /// Names the lock for resource `name`. An empty name is rejected.
    pub fn new(name: String) -> (made: Result<Mutex, LockError>)
        ensures
            name@.len() == 0 <==> made is Err,
            made matches Err(e) ==> e == LockError::InvalidName,
            made matches Ok(m) ==> m@ == name@,
    {
        if name.as_str().is_empty() {
            Err(LockError::InvalidName)
        } else {
            Ok(Mutex { name })
        }
    }

    /// The resource name.
    pub fn name(&self) -> (name: &String)
        ensures
            name@ == self@,
            name@.len() > 0,
    {
        proof {
            use_type_invariant(self);
        }
        &self.name
    }

    /// The key of the counter.
    pub fn counter_key(&self) -> (key: String)
        ensures
            key@ == counter_key(self@),
    {
        counter_key_of(&self.name)
    }

    /// The key of the sentinel of ticket `token`.
    pub fn sentinel_key(&self, token: u64) -> (key: String)
        ensures
            key@ == sentinel_key(self@, token as nat),
    {
        sentinel_key_of(&self.name, token)
    }
}

/// The key of the counter of resource `name`.
pub fn counter_key_of(name: &String) -> (key: String)
    ensures
        key@ == counter_key(name@),
{
    proof {
        reveal_strlit(".next");
    }
    let key = name.clone().concat(".next");
    assert(".next"@ =~= counter_suffix());
    key
}

/// The key of the sentinel of ticket `token` of resource `name`.
pub fn sentinel_key_of(name: &String, token: u64) -> (key: String)
    ensures
        key@ == sentinel_key(name@, token as nat),
{
    proof {
        reveal_strlit(".blocked.");
    }
    let mut key = name.clone().concat(".blocked.");
    assert(".blocked."@ =~= sentinel_infix());
    append_decimal(&mut key, token);
    key
}

/// The one-character string of the decimal digit `d`.
fn digit_str(d: u64) -> (s: &'static str)
    requires
        d < 10,
    ensures
        s@ == seq![digit(d as nat)],
{
    proof {
        reveal_strlit("0");
        reveal_strlit("1");
        reveal_strlit("2");
        reveal_strlit("3");
        reveal_strlit("4");
        reveal_strlit("5");
        reveal_strlit("6");
        reveal_strlit("7");
        reveal_strlit("8");
        reveal_strlit("9");
    }
    let s = if d == 0 {
        "0"
    } else if d == 1 {
        "1"
    } else if d == 2 {
        "2"
    } else if d == 3 {
        "3"
    } else if d == 4 {
        "4"
    } else if d == 5 {
        "5"
    } else if d == 6 {
        "6"
    } else if d == 7 {
        "7"
    } else if d == 8 {
        "8"
    } else {
        "9"
    };
    assert(s@ =~= seq![digit(d as nat)]);
    s
}

/// Appends the decimal numeral of `n` to `out`.
pub fn append_decimal(out: &mut String, n: u64)
    ensures
        final(out)@ == old(out)@ + decimal(n as nat),
    decreases n,
{
    if n >= 10 {
        append_decimal(out, n / 10);
    }
    out.append(digit_str(n % 10));
    assert(out@ =~= old(out)@ + decimal(n as nat));
}

/// The counter value for ticket number `n`.
pub fn encode_ticket(n: u64) -> (bytes: Vec<u8>)
    ensures
        bytes@ == ticket_bytes(n),
        bytes@.len() == 8,
{
    u64_to_le_bytes(n)
}

/// The ticket number in a counter value, if the value is one: `None` for any
/// value that is not eight bytes long.
pub fn decode_ticket(bytes: &Vec<u8>) -> (n: Option<u64>)
    ensures
        bytes@.len() == 8 <==> n is Some,
        n matches Some(v) ==> v == ticket_number(bytes@) && ticket_bytes(v) == bytes@,
{
    if bytes.len() == 8 {
        proof {
            lemma_auto_spec_u64_to_from_le_bytes();
        }
        Some(u64_from_le_bytes(bytes.as_slice()))
    } else {
        None
    }
}

/// The value written under a sentinel key.
pub fn placeholder_bytes() -> (bytes: Vec<u8>)
    ensures
        bytes@ == placeholder(),
{
    let mut bytes: Vec<u8> = Vec::new();
    bytes.push(1u8);
    assert(bytes@ =~= placeholder());
    bytes
}

/// Whether two byte strings are the same.
pub fn same_bytes(a: &Vec<u8>, b: &Vec<u8>) -> (same: bool)
    ensures
        same == (a@ == b@),
{
    if a.len() != b.len() {
        return false;
    }
    let mut i: usize = 0;
    while i < a.len()
        invariant
            a.len() == b.len(),
            i <= a.len(),
            forall|j: int| 0 <= j < i ==> a@[j] == b@[j],
        decreases a.len() - i,
    {
        if a[i] != b[i] {
            return false;
        }
        i = i + 1;
    }
    assert(a@ =~= b@);
    true
}

} // verus!

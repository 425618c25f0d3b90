//! The key/value store behind the log, as the log sees it: the requests it
//! is sent, the answers it gives, the names under which the log keeps its
//! data, and a model of what a linearizable store does with a request.

use crate::message::KVPayload;
use crate::text::{decimal, digit, lemma_decimal_first, lemma_decimal_injective, push_decimal_i64};
use vstd::prelude::*;

verus! {

/// A request to the store.
#[derive(Debug, Clone, PartialEq, Eq)]
pub enum Request {
    /// Asks for the value under `key`.
    Read { key: String },
    /// Puts `value` under `key`, whatever was there.
    Write { key: String, value: i64 },
    /// Puts `to` under `key` if `from` is there now; with `put`, also if
    /// nothing is there.
    Cas { key: String, from: i64, to: i64, put: bool },
}

/// What a requester makes of the store's reply.
#[derive(Debug, Clone, Copy, PartialEq, Eq)]
pub enum Answer {
    /// A read found this value.
    Value(i64),
    /// A write took effect.
    Written,
    /// A compare-and-swap took effect.
    Swapped,
    /// The store refused because the key does not exist.
    Missing,
    /// The store refused a compare-and-swap because the value it expected
    /// is not the one there.
    Conflict,
    /// Anything else: another error of the store, or a reply that is no
    /// answer of the store at all.
    Failed,
}

/// The error code by which the store says that a key does not exist.
pub const KEY_DOES_NOT_EXIST: usize = 20;

/// The error code by which the store says that a compare-and-swap did not
/// find the value it expected.
pub const PRECONDITION_FAILED: usize = 22;

/// A request with its key as a sequence of characters.
pub enum Op {
    Read { key: Seq<char> },
    Write { key: Seq<char>, value: i64 },
    Cas { key: Seq<char>, from: i64, to: i64, put: bool },
}

impl Op {
    /// The key that the request is about.
    pub open spec fn key(self) -> Seq<char> {
        match self {
            Op::Read { key } => key,
            Op::Write { key, .. } => key,
            Op::Cas { key, .. } => key,
        }
    }
}

impl View for Request {
    type V = Op;

    open spec fn view(&self) -> Op {
        match *self {
            Request::Read { key } => Op::Read { key: key@ },
            Request::Write { key, value } => Op::Write { key: key@, value },
            Request::Cas { key, from, to, put } => Op::Cas { key: key@, from, to, put },
        }
    }
}

impl Request {
    /// The request as a payload for the wire.
    pub fn into_payload(self) -> (p: KVPayload<i64>)
        ensures
            match self {
                Request::Read { key } => p == (KVPayload::<i64>::Read { key }),
                Request::Write { key, value } => p == (KVPayload::Write { key, value }),
                Request::Cas { key, from, to, put } => p == (KVPayload::Cas { key, from, to, put }),
            },
    {
        match self {
            Request::Read { key } => KVPayload::Read { key },
            Request::Write { key, value } => KVPayload::Write { key, value },
            Request::Cas { key, from, to, put } => KVPayload::Cas { key, from, to, put },
        }
    }
}

/// What the store holds: a value under each key that was ever set.
pub type Contents = Map<Seq<char>, i64>;

/// Whether the store carries out `op`, given what it holds.
pub open spec fn accepts(held: Contents, op: Op) -> bool {
    match op {
        Op::Read { key } => held.contains_key(key),
        Op::Write { .. } => true,
        Op::Cas { key, from, to, put } => if held.contains_key(key) {
            held[key] == from
        } else {
            put
        },
    }
}

/// What the store holds after `op`. A refused request changes nothing.
pub open spec fn after(held: Contents, op: Op) -> Contents {
    match op {
        Op::Read { .. } => held,
        Op::Write { key, value } => held.insert(key, value),
        Op::Cas { key, to, .. } => if accepts(held, op) {
            held.insert(key, to)
        } else {
            held
        },
    }
}

/// The answer of the store to `op`. A read of a key that does not exist is
/// refused as missing, and so is a compare-and-swap on such a key that may
/// not create it; a compare-and-swap that finds another value than the one
/// it expects is refused as a conflict.
pub open spec fn answer(held: Contents, op: Op) -> Answer {
    match op {
        Op::Read { key } => if held.contains_key(key) {
            Answer::Value(held[key])
        } else {
            Answer::Missing
        },
        Op::Write { .. } => Answer::Written,
        Op::Cas { key, .. } => if accepts(held, op) {
            Answer::Swapped
        } else if held.contains_key(key) {
            Answer::Conflict
        } else {
            Answer::Missing
        },
    }
}

/// The characters `latest:`.
pub open spec fn latest_prefix() -> Seq<char> {
    seq!['l', 'a', 't', 'e', 's', 't', ':']
}

/// The store key that holds the latest offset given out for the log `key`.
pub open spec fn latest_name(key: Seq<char>) -> Seq<char> {
    latest_prefix() + key
}

/// The store key that holds the entry of the log `key` at `offset`.
pub open spec fn entry_name(key: Seq<char>, offset: int) -> Seq<char> {
    key + seq![':'] + decimal(offset)
}

/// The store key of the latest offset of a log, as a string.
pub fn latest_key(key: &String) -> (name: String)
    ensures
        name@ == latest_name(key@),
{
    proof {
        reveal_strlit("latest:");
    }
    let mut name = String::from_str("latest:");
    assert(name@ =~= latest_prefix());
    name.append(key.as_str());
    name
}

/// The store key of one entry of a log, as a string.
pub fn entry_key(key: &String, offset: i64) -> (name: String)
    ensures
        name@ == entry_name(key@, offset as int),
{
    proof {
        reveal_strlit(":");
    }
    let mut name = key.clone();
    name.append(":");
    assert(name@ =~= key@ + seq![':']);
    push_decimal_i64(&mut name, offset);
    name
}

/// Two entries of one log are kept under different keys.
pub proof fn lemma_entry_names_differ(key: Seq<char>, a: int, b: int)
    requires
        a != b,
    ensures
        entry_name(key, a) != entry_name(key, b),
{
    if entry_name(key, a) == entry_name(key, b) {
        let head = key + seq![':'];
        let na = entry_name(key, a);
        let nb = entry_name(key, b);
        assert(decimal(a) =~= na.subrange(head.len() as int, na.len() as int));
        assert(decimal(b) =~= nb.subrange(head.len() as int, nb.len() as int));
        lemma_decimal_injective(a, b);
    }
}

/// If the name of a log's latest offset were also the name of one of its
/// entries, the name would repeat `latest:` from its start to its end.
proof fn lemma_repeats(key: Seq<char>, offset: int, i: int)
    requires
        latest_name(key) == entry_name(key, offset),
        0 <= i < latest_name(key).len(),
    ensures
        latest_name(key)[i] == latest_prefix()[i % 7],
    decreases i,
{
    if i >= 7 {
        lemma_repeats(key, offset, i - 7);
        assert(latest_name(key)[i] == key[i - 7]);
        assert(entry_name(key, offset)[i - 7] == key[i - 7]);
    }
}

/// The latest offset of a log is not kept where one of its entries is.
pub proof fn lemma_latest_is_no_entry(key: Seq<char>, offset: int)
    ensures
        latest_name(key) != entry_name(key, offset),
{
    if latest_name(key) == entry_name(key, offset) {
        lemma_decimal_first(offset);
        let at: int = key.len() as int + 1;
        lemma_repeats(key, offset, at);
        let c = decimal(offset)[0];
        assert(entry_name(key, offset)[at] == c);
        assert(c == latest_prefix()[at % 7]);
        assert forall|d: int| 0 <= d < 10 implies c != #[trigger] digit(d) by {}
    }
}

} // verus!

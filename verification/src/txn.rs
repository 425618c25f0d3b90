//! The node that carries out transactions of reads and writes on a store
//! of its own.

use crate::message::{letters, Event, Letter, Message};
use crate::rpc::id_after;
use std::collections::HashMap;
use vstd::prelude::*;

verus! {

broadcast use vstd::std_specs::hash::group_hash_axioms;

/// One step of a transaction: `r` or `w`, a key, and a value. A read
/// comes in without a value and goes out with the one found.
pub type Operation = (String, u32, Option<u32>);

/// A step with its kind as a sequence of characters.
pub type Step = (Seq<char>, u32, Option<u32>);

/// What the messages of the node carry.
#[derive(Debug, Clone, PartialEq, Eq)]
pub enum Payload {
    Txn { txn: Vec<Operation> },
    TxnOk { txn: Vec<Operation> },
}

/// A payload with its steps' kinds as sequences of characters.
pub enum Content {
    Txn { txn: Seq<Step> },
    TxnOk { txn: Seq<Step> },
}

/// The kind of each step of `txn` as a sequence of characters.
pub open spec fn steps_view(txn: Seq<Operation>) -> Seq<Step> {
    Seq::new(txn.len(), |i: int| (txn[i].0@, txn[i].1, txn[i].2))
}

impl View for Payload {
    type V = Content;

    open spec fn view(&self) -> Content {
        match *self {
            Payload::Txn { txn } => Content::Txn { txn: steps_view(txn@) },
            Payload::TxnOk { txn } => Content::TxnOk { txn: steps_view(txn@) },
        }
    }
}


/// What a transaction has come to: the store, and the steps carried out.
pub struct Outcome {
    pub storage: Map<u32, u32>,
    pub done: Seq<Step>,
}

/// The store and the steps carried out after `txn`, begun on `storage`.
/// A read reports what the store holds under the key; a write with a value
/// puts it there, and is reported as it came; a step of another kind is
/// passed over.
pub open spec fn carried_out(storage: Map<u32, u32>, txn: Seq<Step>) -> Outcome
    decreases txn.len(),
{
    if txn.len() == 0 {
        Outcome { storage, done: Seq::empty() }
    } else {
        let before = carried_out(storage, txn.drop_last());
        let step = txn.last();
        if step.0 == seq!['r'] {
            Outcome {
                storage: before.storage,
                done: before.done.push(
                    (
                        step.0,
                        step.1,
                        if before.storage.contains_key(step.1) {
                            Some(before.storage[step.1])
                        } else {
                            None
                        },
                    ),
                ),
            }
        } else if step.0 == seq!['w'] {
            Outcome {
                storage: match step.2 {
                    Some(value) => before.storage.insert(step.1, value),
                    None => before.storage,
                },
                done: before.done.push(step),
            }
        } else {
            before
        }
    }
}

/// The state of the node.
pub struct TxnModel {
    pub storage: Map<u32, u32>,
    /// The id that the next reply of the node gets.
    pub next: usize,
}

/// What a message makes of the node.
pub struct TxnReaction {
    pub state: TxnModel,
    pub out: Seq<Letter<Content>>,
}

impl TxnModel {
    /// A message came in. The reply takes the next id at once. A
    /// transaction is carried out and answered with its steps; anything
    /// else is passed over.
    pub open spec fn on_letter(self, letter: Letter<Content>) -> TxnReaction {
        match letter.content {
            Content::Txn { txn } => {
                let outcome = carried_out(self.storage, txn);
                TxnReaction {
                    state: TxnModel { storage: outcome.storage, next: id_after(self.next) },
                    out: seq![
                        letter.reply_of(Some(self.next)).carrying(
                            Content::TxnOk { txn: outcome.done },
                        ),
                    ],
                }
            },
            _ => TxnReaction {
                state: TxnModel { storage: self.storage, next: id_after(self.next) },
                out: Seq::empty(),
            },
        }
    }
}

/// The node of the transactions.
pub struct TxnNode {
    storage: HashMap<u32, u32>,
    next: usize,
}

impl View for TxnNode {
    type V = TxnModel;

    closed spec fn view(&self) -> TxnModel {
        TxnModel { storage: self.storage@, next: self.next }
    }
}

impl TxnNode {
    /// A node with an empty store, whose first message id is 1.
    pub fn new() -> (node: TxnNode)
        ensures
            node@ == (TxnModel { storage: Map::empty(), next: 1 }),
    {
        TxnNode { storage: HashMap::new(), next: 1 }
    }

    /// Carries out the steps of `txn` on the store.
    pub fn carry_out(&mut self, txn: &Vec<Operation>) -> (done: Vec<Operation>)
        ensures
            final(self)@.next == old(self)@.next,
            final(self)@.storage == carried_out(old(self)@.storage, steps_view(txn@)).storage,
            steps_view(done@) == carried_out(old(self)@.storage, steps_view(txn@)).done,
    {
        proof {
            reveal_strlit("r");
            reveal_strlit("w");
        }
        let read = String::from_str("r");
        let write = String::from_str("w");
        assert(read@ =~= seq!['r']);
        assert(write@ =~= seq!['w']);
        let ghost all = steps_view(txn@);
        let ghost begin = self.storage@;
        let mut done: Vec<Operation> = Vec::new();
        let mut i: usize = 0;
        assert(all.take(0) =~= Seq::empty());
        assert(steps_view(done@) =~= Seq::empty());
        while i < txn.len()
            invariant
                i <= txn.len(),
                all == steps_view(txn@),
                read@ == seq!['r'],
                write@ == seq!['w'],
                self.next == old(self).next,
                self.storage@ == carried_out(begin, all.take(i as int)).storage,
                steps_view(done@) == carried_out(begin, all.take(i as int)).done,
            decreases txn.len() - i,
        {
            let ghost before = steps_view(done@);
            assert(all.take(i + 1).drop_last() =~= all.take(i as int));
            assert(all.take(i + 1).last() == (txn[i as int].0@, txn[i as int].1, txn[i as int].2));
            let kind = &txn[i].0;
            let key = txn[i].1;
            if *kind == read {
                let found = match self.storage.get(&key) {
                    Some(value) => Some(*value),
                    None => None,
                };
                done.push((kind.clone(), key, found));
                assert(steps_view(done@) =~= before.push((kind@, key, found)));
            } else if *kind == write {
                match txn[i].2 {
                    Some(value) => {
                        self.storage.insert(key, value);
                    },
                    None => {},
                }
                done.push((kind.clone(), key, txn[i].2));
                assert(steps_view(done@) =~= before.push((kind@, key, txn[i as int].2)));
            }
            i += 1;
        }
        assert(all.take(txn.len() as int) =~= all);
        done
    }

    /// Handles one event and hands back the messages to send. The end of
    /// the stream and the timer call for nothing.
    pub fn handle<Injected>(&mut self, event: Event<Payload, Injected>) -> (out: Vec<
        Message<Payload>,
    >)
        ensures
            match event {
                Event::Message(message) => {
                    &&& final(self)@ == old(self)@.on_letter(message@).state
                    &&& letters(out@) == old(self)@.on_letter(message@).out
                },
                _ => final(self)@ == old(self)@ && out@.len() == 0,
            },
    {
        match event {
            Event::Message(message) => {
                let id = self.next;
                self.next = if id == usize::MAX {
                    0
                } else {
                    id + 1
                };
                let (reply, payload) = message.reply_with(Some(id)).exchange(());
                match payload {
                    Payload::Txn { txn } => {
                        let done = self.carry_out(&txn);
                        let (reply, _) = reply.exchange(Payload::TxnOk { txn: done });
                        let out = vec![reply];
                        assert(letters(out@) =~= seq![reply@]);
                        out
                    },
                    Payload::TxnOk { .. } => {
                        let out: Vec<Message<Payload>> = Vec::new();
                        assert(letters(out@) =~= Seq::empty());
                        out
                    },
                }
            },
            _ => Vec::new(),
        }
    }
}

} // verus!

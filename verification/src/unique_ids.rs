//! The node that hands out ids that no other node hands out.
//!
//! An id is the node's own name, a hyphen, and the number of the message
//! that asked for it; no two nodes share a name, and no node gives a number
//! twice before its message ids wrap round.

use crate::message::{letters, Event, Init, Letter, Message};
use crate::rpc::id_after;
use crate::text::{decimal_nat, push_decimal_u64};
use vstd::prelude::*;

verus! {

/// What the messages of the node carry.
#[derive(Debug, Clone, PartialEq, Eq)]
pub enum Payload {
    Generate,
    GenerateOk { guid: String },
}

/// A payload with its id as a sequence of characters.
pub enum Content {
    Generate,
    GenerateOk { guid: Seq<char> },
}

impl View for Payload {
    type V = Content;

    open spec fn view(&self) -> Content {
        match *self {
            Payload::Generate => Content::Generate,
            Payload::GenerateOk { guid } => Content::GenerateOk { guid: guid@ },
        }
    }
}

/// The node was handed an event that is no message.
#[derive(Debug, Clone, Copy, PartialEq, Eq)]
pub struct UnexpectedEvent;

/// The id that `node` hands out with the number `number`.
pub open spec fn guid_of(node: Seq<char>, number: usize) -> Seq<char> {
    node + seq!['-'] + decimal_nat(number as nat)
}

/// The state of the node: its name and the id that its next reply gets.
pub struct UniqueIdsModel {
    pub node: Seq<char>,
    pub next: usize,
}

/// What the node sends in answer to `letter`: for `Generate`, the id made
/// of its name and of the message id that follows the reply's own.
pub open spec fn answers(state: UniqueIdsModel, letter: Letter<Content>) -> Seq<Letter<Content>> {
    match letter.content {
        Content::Generate => seq![
            letter.reply_of(Some(state.next)).carrying(
                Content::GenerateOk { guid: guid_of(state.node, id_after(state.next)) },
            ),
        ],
        _ => Seq::empty(),
    }
}

/// The node that hands out ids.
#[derive(Debug)]
pub struct UniqueIdsNode {
    node: String,
    next: usize,
}

impl View for UniqueIdsNode {
    type V = UniqueIdsModel;

    closed spec fn view(&self) -> UniqueIdsModel {
        UniqueIdsModel { node: self.node@, next: self.next }
    }
}

impl UniqueIdsNode {
    /// The node that the handshake `init` describes; its first message id
    /// is 1.
    pub fn from_init(init: Init) -> (node: UniqueIdsNode)
        ensures
            node@ == (UniqueIdsModel { node: init.node_id@, next: 1 }),
    {
        UniqueIdsNode { node: init.node_id, next: 1 }
    }

    /// Handles one event and hands back the messages to send. Every
    /// message takes an id, whether it is answered or not; an event that is
    /// no message is an error and changes nothing.
    pub fn handle<Injected>(&mut self, event: Event<Payload, Injected>) -> (r: Result<
        Vec<Message<Payload>>,
        UnexpectedEvent,
    >)
        ensures
            match event {
                Event::Message(message) => {
                    &&& final(self)@ == (UniqueIdsModel {
                        node: old(self)@.node,
                        next: id_after(old(self)@.next),
                    })
                    &&& r is Ok
                    &&& letters(r->Ok_0@) == answers(old(self)@, message@)
                },
                _ => r is Err && final(self)@ == old(self)@,
            },
    {
        match event {
            Event::Message(message) => {
                let id = self.next;
                self.next = if id == usize::MAX {
                    0
                } else {
                    id + 1
                };
                let (reply, payload) = message.reply_with(Some(id)).exchange(());
                match payload {
                    Payload::Generate => {
                        proof {
                            reveal_strlit("-");
                        }
                        let mut guid = self.node.clone();
                        guid.append("-");
                        assert(guid@ =~= self.node@ + seq!['-']);
                        push_decimal_u64(&mut guid, self.next as u64);
                        let (reply, _) = reply.exchange(Payload::GenerateOk { guid });
                        let out = vec![reply];
                        assert(letters(out@) =~= seq![reply@]);
                        Ok(out)
                    },
                    Payload::GenerateOk { .. } => {
                        let out: Vec<Message<Payload>> = Vec::new();
                        assert(letters(out@) =~= Seq::empty());
                        Ok(out)
                    },
                }
            },
            _ => Err(UnexpectedEvent),
        }
    }
}

} // verus!

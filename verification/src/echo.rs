//! The node that sends back what it is sent.

use crate::message::{letters, Event, Letter, Message};
use crate::rpc::id_after;
use vstd::prelude::*;

verus! {

/// What the messages of the echo carry.
#[derive(Debug, Clone, PartialEq, Eq)]
pub enum Payload {
    Echo { echo: String },
    EchoOk { echo: String },
}

/// A payload with its text as a sequence of characters.
pub enum Content {
    Echo { echo: Seq<char> },
    EchoOk { echo: Seq<char> },
}

impl View for Payload {
    type V = Content;

    open spec fn view(&self) -> Content {
        match *self {
            Payload::Echo { echo } => Content::Echo { echo: echo@ },
            Payload::EchoOk { echo } => Content::EchoOk { echo: echo@ },
        }
    }
}

/// The node was handed an event that is no message.
#[derive(Debug, Clone, Copy, PartialEq, Eq)]
pub struct UnexpectedEvent;

/// The echo node. Its state is the id that its next reply gets.
#[derive(Debug, Clone, Copy, PartialEq, Eq)]
pub struct EchoNode {
    next: usize,
}

impl View for EchoNode {
    type V = usize;

    closed spec fn view(&self) -> usize {
        self.next
    }
}

/// What the node sends in answer to `letter` when its next id is `next`:
/// the text of an `Echo` in an `EchoOk`, and nothing for anything else.
pub open spec fn echoes(next: usize, letter: Letter<Content>) -> Seq<Letter<Content>> {
    match letter.content {
        Content::Echo { echo } => seq![
            letter.reply_of(Some(next)).carrying(Content::EchoOk { echo }),
        ],
        _ => Seq::empty(),
    }
}

impl EchoNode {
    /// A node whose first message id is 1.
    pub fn new() -> (node: EchoNode)
        ensures
            node@ == 1,
    {
        EchoNode { next: 1 }
    }

    /// Handles one event and hands back the messages to send. Every
    /// message takes an id, whether it is answered or not; an event that is
    /// no message is an error and changes nothing.
    pub fn handle<Injected>(&mut self, event: Event<Payload, Injected>) -> (r: Result<
        Vec<Message<Payload>>,
        UnexpectedEvent,
    >)
        ensures
            match event {
                Event::Message(message) => {
                    &&& final(self)@ == id_after(old(self)@)
                    &&& r is Ok
                    &&& letters(r->Ok_0@) == echoes(old(self)@, message@)
                },
                _ => r is Err && final(self)@ == old(self)@,
            },
    {
        match event {
            Event::Message(message) => {
                let id = self.next;
                self.next = if id == usize::MAX {
                    0
                } else {
                    id + 1
                };
                let (reply, payload) = message.reply_with(Some(id)).exchange(());
                match payload {
                    Payload::Echo { echo } => {
                        let (reply, _) = reply.exchange(Payload::EchoOk { echo });
                        let out = vec![reply];
                        assert(letters(out@) =~= seq![reply@]);
                        Ok(out)
                    },
                    Payload::EchoOk { .. } => {
                        let out: Vec<Message<Payload>> = Vec::new();
                        assert(letters(out@) =~= Seq::empty());
                        Ok(out)
                    },
                }
            },
            _ => Err(UnexpectedEvent),
        }
    }
}

} // verus!

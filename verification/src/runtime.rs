//! The stream of a node's input, turned into events.
//!
//! Reading lines and decoding them is left to the caller; what is decided
//! here is which event each piece of input makes, and that nothing follows
//! the end of the stream.

use crate::message::{Event, Message};
use vstd::prelude::*;

verus! {

/// One piece of input from the stream.
pub enum Inbound<Payload> {
    /// A line that was decoded into a message.
    Line(Message<Payload>),
    /// A line that could not be decoded.
    Malformed,
    /// The end of the stream.
    Closed,
}

/// Why the stream was given up.
#[derive(Debug, Clone, Copy, PartialEq, Eq)]
pub enum TransportError {
    /// A line could not be decoded.
    Malformed,
}

/// Whether the stream still delivers messages.
#[derive(Debug, Clone, Copy, PartialEq, Eq)]
pub struct Inbox {
    open: bool,
}

impl View for Inbox {
    type V = bool;

    closed spec fn view(&self) -> bool {
        self.open
    }
}

impl Inbox {
    /// An inbox whose stream is open.
    pub fn new() -> (inbox: Inbox)
        ensures
            inbox@,
    {
        Inbox { open: true }
    }

    /// Whether the stream is still open.
    pub fn is_open(&self) -> (open: bool)
        ensures
            open == self@,
    {
        self.open
    }

    /// Takes one piece of input. While the stream is open, a message makes
    /// a `Message` event, the end of the stream makes `EOF` and closes the
    /// stream, and a line that cannot be decoded closes it with an error.
    /// Once the stream is closed, nothing makes an event any more.
    pub fn accept<Payload, Injected>(&mut self, input: Inbound<Payload>) -> (r: Result<
        Option<Event<Payload, Injected>>,
        TransportError,
    >)
        ensures
            final(self)@ == (old(self)@ && input is Line),
            r == (if !old(self)@ {
                Ok::<Option<Event<Payload, Injected>>, TransportError>(None)
            } else {
                match input {
                    Inbound::Line(message) => Ok(Some(Event::Message(message))),
                    Inbound::Closed => Ok(Some(Event::EOF)),
                    Inbound::Malformed => Err(TransportError::Malformed),
                }
            }),
    {
        if !self.open {
            return Ok(None);
        }
        match input {
            Inbound::Line(message) => Ok(Some(Event::Message(message))),
            Inbound::Closed => {
                self.open = false;
                Ok(Some(Event::EOF))
            },
            Inbound::Malformed => {
                self.open = false;
                Err(TransportError::Malformed)
            },
        }
    }
}

} // verus!

//! Message envelopes, the handshake and the events a node reacts to.

use std::sync::atomic::AtomicUsize;
use std::sync::atomic::Ordering;
use vstd::prelude::*;

verus! {

/// An envelope: who sent it, whom it is for, and what it carries.
#[derive(Debug, Clone, PartialEq, Eq)]
pub struct Message<Payload> {
    pub src: String,
    pub dest: String,
    pub body: Body<Payload>,
}

/// The body of an envelope. `id` numbers the messages of the sender;
/// `in_reply_to` repeats the `id` of the request that a reply answers.
#[derive(Debug, Clone, PartialEq, Eq)]
pub struct Body<Payload> {
    pub id: Option<usize>,
    pub in_reply_to: Option<usize>,
    pub payload: Payload,
}

/// A message with its names as sequences of characters and its payload as
/// the payload's own view.
pub struct Letter<Content> {
    pub src: Seq<char>,
    pub dest: Seq<char>,
    pub id: Option<usize>,
    pub in_reply_to: Option<usize>,
    pub content: Content,
}

impl<Payload: View> View for Message<Payload> {
    type V = Letter<Payload::V>;

    open spec fn view(&self) -> Letter<Payload::V> {
        Letter {
            src: self.src@,
            dest: self.dest@,
            id: self.body.id,
            in_reply_to: self.body.in_reply_to,
            content: self.body.payload@,
        }
    }
}

impl<Content> Letter<Content> {
    /// The reply to this letter that carries the message id `id`, with the
    /// content still to be replaced.
    pub open spec fn reply_of(self, id: Option<usize>) -> Letter<Content> {
        Letter { src: self.dest, dest: self.src, id, in_reply_to: self.id, content: self.content }
    }

    /// The same letter with `content` in place of its own.
    pub open spec fn carrying<Other>(self, content: Other) -> Letter<Other> {
        Letter {
            src: self.src,
            dest: self.dest,
            id: self.id,
            in_reply_to: self.in_reply_to,
            content,
        }
    }
}

/// The view of each message of `messages`.
pub open spec fn letters<Payload: View>(messages: Seq<Message<Payload>>) -> Seq<Letter<Payload::V>> {
    Seq::new(messages.len(), |i: int| messages[i]@)
}

/// What the handshake tells a node: its own name and the names of all nodes.
#[derive(Debug, Clone, PartialEq, Eq)]
pub struct Init {
    pub node_id: String,
    pub node_ids: Vec<String>,
}

/// The two payloads of the handshake.
#[derive(Debug, Clone, PartialEq, Eq)]
pub enum InitPayload {
    Init(Init),
    InitOk,
}

/// Why a handshake was refused.
#[derive(Debug, Clone, Copy, PartialEq, Eq)]
pub enum HandshakeError {
    /// The first message did not carry `Init`.
    ExpectedInit,
}

/// Requests to, and answers from, a key/value store.
#[derive(Debug, Clone, PartialEq, Eq)]
pub enum KVPayload<T> {
    Read { key: String },
    ReadOk { value: T },
    Write { key: String, value: T },
    Cas { key: String, from: T, to: T, put: bool },
    CasOk {  },
}

/// What a node is asked to handle: a message from the stream, something the
/// node's own timer injected, or the end of the stream.
#[derive(Debug, Clone, PartialEq, Eq)]
pub enum Event<Payload, InjectedPayload = ()> {
    Message(Message<Payload>),
    Injected(InjectedPayload),
    EOF,
}

/// Tells whether a flag is unset. A store request leaves its `put` flag off
/// the wire exactly when this holds of it.
pub fn is_ref_false(b: &bool) -> (r: bool)
    ensures
        r == !*b,
{
    !*b
}

impl<Payload> Message<Payload> {
    /// The reply to `self` that carries the message id `id`: sender and
    /// receiver change places, and `in_reply_to` is the id of `self`.
    pub open spec fn reply_of(self, id: Option<usize>) -> Self {
        Message {
            src: self.dest,
            dest: self.src,
            body: Body { id, in_reply_to: self.body.id, payload: self.body.payload },
        }
    }

    /// Turns a message into the reply to it, numbered `id`. The payload is
    /// carried over unchanged, for the caller to replace.
    pub fn reply_with(self, id: Option<usize>) -> (reply: Self)
        ensures
            reply == self.reply_of(id),
    {
        Message {
            src: self.dest,
            dest: self.src,
            body: Body { id, in_reply_to: self.body.id, payload: self.body.payload },
        }
    }

    /// Takes the payload out and puts `payload` in its place.
    pub fn exchange<Other>(self, payload: Other) -> (r: (Message<Other>, Payload))
        ensures
            r.0 == (Message {
                src: self.src,
                dest: self.dest,
                body: Body { id: self.body.id, in_reply_to: self.body.in_reply_to, payload },
            }),
            r.1 == self.body.payload,
    {
        (
            Message {
                src: self.src,
                dest: self.dest,
                body: Body { id: self.body.id, in_reply_to: self.body.in_reply_to, payload },
            },
            self.body.payload,
        )
    }

    /// Turns a message into the reply to it. With a counter, the reply takes
    /// the counter's value as its id and the counter moves on by one; what
    /// that value is depends on every other user of the counter, so the
    /// contract only says that the reply is `reply_of` some id.
    pub fn into_reply(self, id: Option<&AtomicUsize>) -> (reply: Self)
        ensures
            reply.body.id is Some <==> id is Some,
            reply == self.reply_of(reply.body.id),
    {
        let fresh = match id {
            Some(counter) => Some(counter.fetch_add(1, Ordering::SeqCst)),
            None => None,
        };
        self.reply_with(fresh)
    }
}

/// Checks the first message of a stream. It must carry `Init`; the answer is
/// `InitOk` with message id 0, addressed back to the sender.
pub fn handshake(first: Message<InitPayload>) -> (r: Result<
    (Init, Message<InitPayload>),
    HandshakeError,
>)
    ensures
        match r {
            Ok((init, reply)) => {
                &&& first.body.payload == InitPayload::Init(init)
                &&& reply == (Message {
                    src: first.dest,
                    dest: first.src,
                    body: Body {
                        id: Some(0usize),
                        in_reply_to: first.body.id,
                        payload: InitPayload::InitOk,
                    },
                })
            },
            Err(e) => first.body.payload is InitOk && e == HandshakeError::ExpectedInit,
        },
{
    match first.body.payload {
        InitPayload::Init(init) => {
            let reply = Message {
                src: first.dest,
                dest: first.src,
                body: Body {
                    id: Some(0),
                    in_reply_to: first.body.id,
                    payload: InitPayload::InitOk,
                },
            };
            Ok((init, reply))
        },
        InitPayload::InitOk => Err(HandshakeError::ExpectedInit),
    }
}

} // verus!

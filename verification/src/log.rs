//! The node of the replicated log.
//!
//! The node answers `send`, `poll`, `commit_offsets` and
//! `list_committed_offsets`. Appends and polls work on a key/value store
//! that is reached by messages, so the node keeps each one that waits for
//! the store under the id of its outstanding request and takes it up again
//! when the reply comes in. Many of them can be under way at once.

use crate::message::{letters, Body, Event, Init, Letter, Message};
use crate::names::names_view;
use crate::offsets::{listed, marked, Committed};
use crate::poll::{polled_view, wanted_view, PollModel, PollOp, PollProgress, PollStep, Polled, Wanted};
use crate::rpc::{id_after, Correlator};
use crate::send::{Progress, SendModel, SendOp, Step};
use crate::store::{Answer, Op, Request, KEY_DOES_NOT_EXIST, PRECONDITION_FAILED};
use vstd::prelude::*;

verus! {

/// What the messages of the log node carry: the requests of clients and
/// the answers to them, and the requests to the store and its answers.
#[derive(Debug, Clone, PartialEq, Eq)]
pub enum Payload {
    Send { key: String, msg: i64 },
    SendOk { offset: i64 },
    Poll { offsets: Vec<(String, i64)> },
    PollOk { msgs: Vec<(String, Vec<(i64, i64)>)> },
    CommitOffsets { offsets: Vec<(String, i64)> },
    CommitOffsetsOk,
    ListCommittedOffsets { keys: Vec<String> },
    ListCommittedOffsetsOk { offsets: Vec<(String, i64)> },
    Read { key: String },
    ReadOk { value: i64 },
    Error { code: usize, text: String },
    Write { key: String, value: i64 },
    WriteOk {  },
    Cas { key: String, from: i64, to: i64, put: bool },
    CasOk {  },
}

/// A payload with its names as sequences of characters.
pub enum Content {
    Send { key: Seq<char>, msg: i64 },
    SendOk { offset: i64 },
    Poll { offsets: Seq<Wanted> },
    PollOk { msgs: Seq<Polled> },
    CommitOffsets { offsets: Seq<Wanted> },
    CommitOffsetsOk,
    ListCommittedOffsets { keys: Seq<Seq<char>> },
    ListCommittedOffsetsOk { offsets: Seq<Wanted> },
    Read { key: Seq<char> },
    ReadOk { value: i64 },
    Error { code: usize, text: Seq<char> },
    Write { key: Seq<char>, value: i64 },
    WriteOk,
    Cas { key: Seq<char>, from: i64, to: i64, put: bool },
    CasOk,
}

impl View for Payload {
    type V = Content;

    open spec fn view(&self) -> Content {
        match *self {
            Payload::Send { key, msg } => Content::Send { key: key@, msg },
            Payload::SendOk { offset } => Content::SendOk { offset },
            Payload::Poll { offsets } => Content::Poll { offsets: wanted_view(offsets@) },
            Payload::PollOk { msgs } => Content::PollOk { msgs: polled_view(msgs@) },
            Payload::CommitOffsets { offsets } => Content::CommitOffsets {
                offsets: wanted_view(offsets@),
            },
            Payload::CommitOffsetsOk => Content::CommitOffsetsOk,
            Payload::ListCommittedOffsets { keys } => Content::ListCommittedOffsets {
                keys: names_view(keys@),
            },
            Payload::ListCommittedOffsetsOk { offsets } => Content::ListCommittedOffsetsOk {
                offsets: wanted_view(offsets@),
            },
            Payload::Read { key } => Content::Read { key: key@ },
            Payload::ReadOk { value } => Content::ReadOk { value },
            Payload::Error { code, text } => Content::Error { code, text: text@ },
            Payload::Write { key, value } => Content::Write { key: key@, value },
            Payload::WriteOk {  } => Content::WriteOk,
            Payload::Cas { key, from, to, put } => Content::Cas { key: key@, from, to, put },
            Payload::CasOk {  } => Content::CasOk,
        }
    }
}

impl Content {
    /// The content that carries the store request `op`.
    pub open spec fn asking(op: Op) -> Content {
        match op {
            Op::Read { key } => Content::Read { key },
            Op::Write { key, value } => Content::Write { key, value },
            Op::Cas { key, from, to, put } => Content::Cas { key, from, to, put },
        }
    }

    /// What a requester makes of this content as the store's reply. Of the
    /// store's errors, the two by which it refuses a request are told
    /// apart by their code.
    pub open spec fn answer(self) -> Answer {
        match self {
            Content::ReadOk { value } => Answer::Value(value),
            Content::WriteOk => Answer::Written,
            Content::CasOk => Answer::Swapped,
            Content::Error { code, .. } => if code == KEY_DOES_NOT_EXIST {
                Answer::Missing
            } else if code == PRECONDITION_FAILED {
                Answer::Conflict
            } else {
                Answer::Failed
            },
            _ => Answer::Failed,
        }
    }
}

impl Payload {
    /// The payload that carries a request to the store.
    pub fn asking(request: Request) -> (p: Payload)
        ensures
            p@ == Content::asking(request@),
    {
        match request {
            Request::Read { key } => Payload::Read { key },
            Request::Write { key, value } => Payload::Write { key, value },
            Request::Cas { key, from, to, put } => Payload::Cas { key, from, to, put },
        }
    }

    /// What a requester makes of this payload as the store's reply.
    pub fn answer(&self) -> (a: Answer)
        ensures
            a == self@.answer(),
    {
        match self {
            Payload::ReadOk { value } => Answer::Value(*value),
            Payload::WriteOk {  } => Answer::Written,
            Payload::CasOk {  } => Answer::Swapped,
            Payload::Error { code, .. } => if *code == KEY_DOES_NOT_EXIST {
                Answer::Missing
            } else if *code == PRECONDITION_FAILED {
                Answer::Conflict
            } else {
                Answer::Failed
            },
            _ => Answer::Failed,
        }
    }
}

/// Why the log node cannot go on.
#[derive(Debug, Clone, Copy, PartialEq, Eq)]
pub enum LogError {
    /// A reply came in that answers no outstanding request.
    Unmatched { id: usize },
    /// The next message id still has a request outstanding.
    IdInUse { id: usize },
    /// An append found no further offset that an `i64` can hold.
    OffsetsExhausted,
    /// The store answered an append or a poll with an error that is no
    /// part of their way, or with something that is no answer at all.
    StoreFailed,
}

/// What waits for the store: an append or a poll.
#[derive(Debug)]
pub enum Work {
    Send(SendOp),
    Poll(PollOp),
}

/// What waits for the store, with its names as sequences of characters.
pub enum WorkModel {
    Send(SendModel),
    Poll(PollModel),
}

impl View for Work {
    type V = WorkModel;

    open spec fn view(&self) -> WorkModel {
        match *self {
            Work::Send(op) => WorkModel::Send(op@),
            Work::Poll(op) => WorkModel::Poll(op@),
        }
    }
}

impl WorkModel {
    /// The request to the store that is outstanding.
    pub open spec fn pending(self) -> Op {
        match self {
            WorkModel::Send(op) => op.pending(),
            WorkModel::Poll(op) => op.pending(),
        }
    }
}

/// The state of the log node. What waits for the store is kept as the
/// reply to the client that it will end in, with the work in the place of
/// the payload.
pub struct LogModel {
    /// The node's own name.
    pub node: Seq<char>,
    /// The name under which the store is reached.
    pub storage: Seq<char>,
    /// The id that the next message of the node gets.
    pub next: usize,
    /// What waits for the store, under the id of its outstanding request.
    pub pending: Map<usize, Letter<WorkModel>>,
    /// The committed offset of each log that has one.
    pub committed: Map<Seq<char>, i64>,
}

/// What an event makes of the node: its next state, and the messages to
/// send or the reason why the node cannot go on.
pub struct Reaction {
    pub state: LogModel,
    pub result: Result<Seq<Letter<Content>>, LogError>,
}

impl LogModel {
    /// Sends the outstanding request of `waiting` to the store under the
    /// next id, and keeps `waiting` under that id.
    pub open spec fn issue(self, waiting: Letter<WorkModel>) -> Reaction {
        if self.pending.contains_key(self.next) {
            Reaction { state: self, result: Err(LogError::IdInUse { id: self.next }) }
        } else {
            Reaction {
                state: LogModel {
                    next: id_after(self.next),
                    pending: self.pending.insert(self.next, waiting),
                    ..self
                },
                result: Ok(
                    seq![
                        Letter {
                            src: self.node,
                            dest: self.storage,
                            id: Some(self.next),
                            in_reply_to: None,
                            content: Content::asking(waiting.content.pending()),
                        },
                    ],
                ),
            }
        }
    }

    /// Sends `letter` and changes nothing.
    pub open spec fn deliver(self, letter: Letter<Content>) -> Reaction {
        Reaction { state: self, result: Ok(seq![letter]) }
    }

    /// Sends nothing and changes nothing.
    pub open spec fn rest(self) -> Reaction {
        Reaction { state: self, result: Ok(Seq::empty()) }
    }

    /// Goes on with an append: asks the store again, or tells the client
    /// the offset. An append that cannot go on ends the node, with no
    /// answer to the client.
    pub open spec fn send_on<C>(self, frame: Letter<C>, progress: Progress) -> Reaction {
        match progress {
            Progress::Ask(op) => self.issue(frame.carrying(WorkModel::Send(op))),
            Progress::Done(offset) => self.deliver(frame.carrying(Content::SendOk { offset })),
            Progress::Exhausted => Reaction {
                state: self,
                result: Err(LogError::OffsetsExhausted),
            },
            Progress::Failed => Reaction { state: self, result: Err(LogError::StoreFailed) },
        }
    }

    /// Goes on with a poll: asks the store again, or tells the client what
    /// was found. A poll that cannot go on ends the node.
    pub open spec fn poll_on<C>(self, frame: Letter<C>, progress: PollProgress) -> Reaction {
        match progress {
            PollProgress::Ask(op) => self.issue(frame.carrying(WorkModel::Poll(op))),
            PollProgress::Finished(msgs) => self.deliver(frame.carrying(Content::PollOk { msgs })),
            PollProgress::Failed => Reaction { state: self, result: Err(LogError::StoreFailed) },
        }
    }

    /// A reply came in. What waits under the id it answers is taken up
    /// again with what the reply carries; a reply that answers nothing
    /// outstanding is an error.
    pub open spec fn on_reply(self, id: usize, content: Content) -> Reaction {
        if !self.pending.contains_key(id) {
            Reaction { state: self, result: Err(LogError::Unmatched { id }) }
        } else {
            let waiting = self.pending[id];
            let state = LogModel { pending: self.pending.remove(id), ..self };
            match waiting.content {
                WorkModel::Send(op) => state.send_on(waiting, op.advance(content.answer())),
                WorkModel::Poll(op) => state.poll_on(waiting, op.advance(content.answer())),
            }
        }
    }

    /// A request came in. The reply takes the next id at once, whatever
    /// the request is. An append or a poll begins with a request to the
    /// store; marks are recorded and listed on the spot; anything else is
    /// passed over without an answer.
    pub open spec fn on_request(self, letter: Letter<Content>) -> Reaction {
        let state = LogModel { next: id_after(self.next), ..self };
        let reply = letter.reply_of(Some(self.next));
        match letter.content {
            Content::Send { key, msg } => state.send_on(
                reply,
                Progress::Ask(SendModel::fresh(key, msg)),
            ),
            Content::Poll { offsets } => state.poll_on(reply, PollModel::fresh(offsets)),
            Content::CommitOffsets { offsets } => LogModel {
                committed: marked(state.committed, offsets),
                ..state
            }.deliver(reply.carrying(Content::CommitOffsetsOk)),
            Content::ListCommittedOffsets { keys } => state.deliver(
                reply.carrying(
                    Content::ListCommittedOffsetsOk { offsets: listed(state.committed, keys) },
                ),
            ),
            _ => state.rest(),
        }
    }

    /// What `letter` makes of the node.
    pub open spec fn on_letter(self, letter: Letter<Content>) -> Reaction {
        match letter.in_reply_to {
            Some(id) => self.on_reply(id, letter.content),
            None => self.on_request(letter),
        }
    }
}

/// The node of the replicated log.
pub struct LogNode {
    node: String,
    storage: String,
    rpc: Correlator<Message<Work>>,
    committed: Committed,
}

impl View for LogNode {
    type V = LogModel;

    closed spec fn view(&self) -> LogModel {
        LogModel {
            node: self.node@,
            storage: self.storage@,
            next: self.rpc@.next,
            pending: self.rpc@.pending.map_values(|waiting: Message<Work>| waiting@),
            committed: self.committed@,
        }
    }
}

/// The name under which the store is reached.
pub open spec fn store_name() -> Seq<char> {
    seq!['l', 'i', 'n', '-', 'k', 'v']
}

/// What an event makes of the node, when it is a message.
pub open spec fn reaction_to(state: LogModel, event: Event<Payload, ()>) -> Reaction {
    match event {
        Event::Message(message) => state.on_letter(message@),
        _ => state.rest(),
    }
}

impl LogNode {
    /// The node that the handshake `init` describes: nothing waits, no
    /// offset is committed, and the first message id is 1.
    pub fn from_init(init: Init) -> (node: LogNode)
        ensures
            node@ == (LogModel {
                node: init.node_id@,
                storage: store_name(),
                next: 1,
                pending: Map::empty(),
                committed: Map::empty(),
            }),
    {
        proof {
            reveal_strlit("lin-kv");
        }
        let storage = String::from_str("lin-kv");
        assert(storage@ =~= store_name());
        let node = LogNode {
            node: init.node_id,
            storage,
            rpc: Correlator::new(1),
            committed: Committed::new(),
        };
        assert(node@.pending =~= Map::empty());
        node
    }

    /// How many appends and polls wait for the store.
    pub fn outstanding(&self) -> (n: usize)
        ensures
            n == self@.pending.len(),
    {
        assert(self@.pending.dom() =~= self.rpc@.pending.dom());
        self.rpc.outstanding()
    }

    /// The committed offset of the log `key`, if one was recorded.
    pub fn committed(&self, key: &String) -> (r: Option<i64>)
        ensures
            r == (if self@.committed.contains_key(key@) {
                Some(self@.committed[key@])
            } else {
                None
            }),
    {
        self.committed.get(key)
    }

    /// Sends the outstanding request of `waiting` to the store and keeps
    /// `waiting` under the id of the request.
    fn issue(&mut self, waiting: Message<Work>) -> (r: Result<Vec<Message<Payload>>, LogError>)
        ensures
            final(self)@ == old(self)@.issue(waiting@).state,
            match r {
                Ok(out) => Ok::<Seq<Letter<Content>>, LogError>(letters(out@)) == old(self)@.issue(
                    waiting@,
                ).result,
                Err(e) => Err::<Seq<Letter<Content>>, LogError>(e) == old(self)@.issue(
                    waiting@,
                ).result,
            },
    {
        let request = match &waiting.body.payload {
            Work::Send(op) => op.request(),
            Work::Poll(op) => op.request(),
        };
        let ghost kept = waiting@;
        match self.rpc.register(waiting) {
            Ok(id) => {
                let message = Message {
                    src: self.node.clone(),
                    dest: self.storage.clone(),
                    body: Body { id: Some(id), in_reply_to: None, payload: Payload::asking(request) },
                };
                let out = vec![message];
                assert(letters(out@) =~= seq![message@]);
                assert(self@.pending =~= old(self)@.pending.insert(id, kept));
                Ok(out)
            },
            Err(_) => {
                assert(self@.pending =~= old(self)@.pending);
                Err(LogError::IdInUse { id: self.rpc.next_id() })
            },
        }
    }

    /// Hands back `message` as all there is to send.
    fn deliver(&self, message: Message<Payload>) -> (r: Result<Vec<Message<Payload>>, LogError>)
        ensures
            r is Ok,
            letters(r->Ok_0@) == seq![message@],
    {
        let out = vec![message];
        assert(letters(out@) =~= seq![message@]);
        Ok(out)
    }

    /// Goes on with an append as `step` says.
    fn send_on<C>(&mut self, frame: Message<C>, step: Step) -> (r: Result<
        Vec<Message<Payload>>,
        LogError,
    >)
        where C: View
        ensures
            final(self)@ == old(self)@.send_on(frame@, step@).state,
            match r {
                Ok(out) => Ok::<Seq<Letter<Content>>, LogError>(letters(out@)) == old(
                    self,
                )@.send_on(frame@, step@).result,
                Err(e) => Err::<Seq<Letter<Content>>, LogError>(e) == old(self)@.send_on(
                    frame@,
                    step@,
                ).result,
            },
    {
        match step {
            Step::Ask(op) => {
                let (waiting, _) = frame.exchange(Work::Send(op));
                self.issue(waiting)
            },
            Step::Done(offset) => {
                let (reply, _) = frame.exchange(Payload::SendOk { offset });
                self.deliver(reply)
            },
            Step::Exhausted => Err(LogError::OffsetsExhausted),
            Step::Failed => Err(LogError::StoreFailed),
        }
    }

    /// Goes on with a poll as `step` says.
    fn poll_on<C>(&mut self, frame: Message<C>, step: PollStep) -> (r: Result<
        Vec<Message<Payload>>,
        LogError,
    >)
        where C: View
        ensures
            final(self)@ == old(self)@.poll_on(frame@, step@).state,
            match r {
                Ok(out) => Ok::<Seq<Letter<Content>>, LogError>(letters(out@)) == old(
                    self,
                )@.poll_on(frame@, step@).result,
                Err(e) => Err::<Seq<Letter<Content>>, LogError>(e) == old(self)@.poll_on(
                    frame@,
                    step@,
                ).result,
            },
    {
        match step {
            PollStep::Ask(op) => {
                let (waiting, _) = frame.exchange(Work::Poll(op));
                self.issue(waiting)
            },
            PollStep::Finished(msgs) => {
                let (reply, _) = frame.exchange(Payload::PollOk { msgs });
                self.deliver(reply)
            },
            PollStep::Failed => Err(LogError::StoreFailed),
        }
    }

    /// Takes up what waits for the reply to the request `id`.
    fn on_reply(&mut self, id: usize, payload: Payload) -> (r: Result<
        Vec<Message<Payload>>,
        LogError,
    >)
        ensures
            final(self)@ == old(self)@.on_reply(id, payload@).state,
            match r {
                Ok(out) => Ok::<Seq<Letter<Content>>, LogError>(letters(out@)) == old(
                    self,
                )@.on_reply(id, payload@).result,
                Err(e) => Err::<Seq<Letter<Content>>, LogError>(e) == old(self)@.on_reply(
                    id,
                    payload@,
                ).result,
            },
    {
        let answer = payload.answer();
        match self.rpc.resolve(id) {
            Err(_) => {
                assert(self@.pending =~= old(self)@.pending);
                Err(LogError::Unmatched { id })
            },
            Ok(waiting) => {
                assert(self@.pending =~= old(self)@.pending.remove(id));
                assert(old(self)@.pending[id] == waiting@);
                let (frame, work) = waiting.exchange(());
                match work {
                    Work::Send(op) => {
                        let step = op.resume(answer);
                        assert(forall|p: Progress, s: LogModel|
                            #![trigger s.send_on(frame@, p)]
                            s.send_on(frame@, p) == s.send_on(waiting@, p));
                        self.send_on(frame, step)
                    },
                    Work::Poll(op) => {
                        let step = op.resume(answer);
                        assert(forall|p: PollProgress, s: LogModel|
                            #![trigger s.poll_on(frame@, p)]
                            s.poll_on(frame@, p) == s.poll_on(waiting@, p));
                        self.poll_on(frame, step)
                    },
                }
            },
        }
    }

    /// Takes up a request of a client.
    fn on_request(&mut self, message: Message<Payload>) -> (r: Result<
        Vec<Message<Payload>>,
        LogError,
    >)
        ensures
            final(self)@ == old(self)@.on_request(message@).state,
            match r {
                Ok(out) => Ok::<Seq<Letter<Content>>, LogError>(letters(out@)) == old(
                    self,
                )@.on_request(message@).result,
                Err(e) => Err::<Seq<Letter<Content>>, LogError>(e) == old(self)@.on_request(
                    message@,
                ).result,
            },
    {
        let id = self.rpc.take_id();
        assert(self@.pending =~= old(self)@.pending);
        let (frame, payload) = message.reply_with(Some(id)).exchange(());
        let ghost reply = message@.reply_of(Some(id));
        assert(forall|p: Progress, s: LogModel|
            #![trigger s.send_on(frame@, p)]
            s.send_on(frame@, p) == s.send_on(reply, p));
        assert(forall|p: PollProgress, s: LogModel|
            #![trigger s.poll_on(frame@, p)]
            s.poll_on(frame@, p) == s.poll_on(reply, p));
        match payload {
            Payload::Send { key, msg } => {
                let op = SendOp::begin(key, msg);
                self.send_on(frame, Step::Ask(op))
            },
            Payload::Poll { offsets } => {
                let step = PollOp::begin(offsets);
                self.poll_on(frame, step)
            },
            Payload::CommitOffsets { offsets } => {
                self.committed.commit(&offsets);
                assert(self@.pending =~= old(self)@.pending);
                let (reply, _) = frame.exchange(Payload::CommitOffsetsOk);
                self.deliver(reply)
            },
            Payload::ListCommittedOffsets { keys } => {
                let offsets = self.committed.list(&keys);
                let (reply, _) = frame.exchange(Payload::ListCommittedOffsetsOk { offsets });
                self.deliver(reply)
            },
            _ => {
                let out: Vec<Message<Payload>> = Vec::new();
                assert(letters(out@) =~= Seq::empty());
                Ok(out)
            },
        }
    }

    /// Handles one event and hands back the messages to send. The end of
    /// the stream and the timer call for nothing; what a message calls for
    /// is `on_letter` of its view.
    pub fn handle(&mut self, event: Event<Payload, ()>) -> (r: Result<
        Vec<Message<Payload>>,
        LogError,
    >)
        ensures
            final(self)@ == reaction_to(old(self)@, event).state,
            match r {
                Ok(out) => Ok::<Seq<Letter<Content>>, LogError>(letters(out@)) == reaction_to(
                    old(self)@,
                    event,
                ).result,
                Err(e) => Err::<Seq<Letter<Content>>, LogError>(e) == reaction_to(
                    old(self)@,
                    event,
                ).result,
            },
    {
        match event {
            Event::Message(message) => {
                match message.body.in_reply_to {
                    Some(id) => self.on_reply(id, message.body.payload),
                    None => self.on_request(message),
                }
            },
            _ => {
                let out: Vec<Message<Payload>> = Vec::new();
                assert(letters(out@) =~= Seq::empty());
                Ok(out)
            },
        }
    }
}

} // verus!

//! A counter that only grows, kept by several nodes at once.
//!
//! Every node has a shard of its own, which it alone adds to. A node tells
//! the others the value of its shard from time to time, and a node that is
//! told a value keeps the larger of that value and the one it has. The
//! counter reads as the sum of all shards that a node knows.

use crate::message::{letters, Body, Event, Init, Letter, Message};
use crate::names::{index_of, lemma_index_of, names_view, position};
use crate::rpc::id_after;
use vstd::prelude::*;

verus! {

/// What the messages of the counter carry.
#[derive(Debug, Clone, Copy, PartialEq, Eq)]
pub enum Payload {
    Add { delta: u64 },
    AddOk,
    Read,
    ReadOk { value: u64 },
    Sync { value: u64 },
}

impl View for Payload {
    type V = Payload;

    open spec fn view(&self) -> Payload {
        *self
    }
}

/// What the node's timer injects: the call to tell the others.
#[derive(Debug, Clone, Copy, PartialEq, Eq)]
pub enum Tick {
    Sync,
}

/// Why the counter cannot go on.
#[derive(Debug, Clone, Copy, PartialEq, Eq)]
pub enum CounterError {
    /// The node's own name is not among the names of the nodes.
    NotAMember,
    /// A shard or the sum of the shards is more than a `u64` can hold.
    Overflow,
}

/// The sum of `shards`.
pub open spec fn total(shards: Seq<u64>) -> int
    decreases shards.len(),
{
    if shards.len() == 0 {
        0
    } else {
        total(shards.drop_last()) + shards.last()
    }
}

/// The larger of two values.
pub open spec fn larger(a: u64, b: u64) -> u64 {
    if a >= b {
        a
    } else {
        b
    }
}

/// The shards after the node `from` has told the value of its own: that
/// shard is the larger of what it was and `value`. A name that is not among
/// `nodes` changes nothing.
pub open spec fn merged(nodes: Seq<Seq<char>>, shards: Seq<u64>, from: Seq<char>, value: u64) -> Seq<
    u64,
> {
    match index_of(nodes, from) {
        Some(i) => if i < shards.len() {
            shards.update(i, larger(shards[i], value))
        } else {
            shards
        },
        None => shards,
    }
}

/// The messages by which `node` tells every node of another name the value
/// of its shard, in the order of `nodes`.
pub open spec fn syncs(node: Seq<char>, nodes: Seq<Seq<char>>, value: u64) -> Seq<Letter<Payload>>
    decreases nodes.len(),
{
    if nodes.len() == 0 {
        Seq::empty()
    } else if nodes.last() == node {
        syncs(node, nodes.drop_last(), value)
    } else {
        syncs(node, nodes.drop_last(), value).push(
            Letter {
                src: node,
                dest: nodes.last(),
                id: None,
                in_reply_to: None,
                content: Payload::Sync { value },
            },
        )
    }
}

/// The state of a counter node.
pub struct CounterModel {
    /// The node's own name.
    pub node: Seq<char>,
    /// The names of all nodes.
    pub nodes: Seq<Seq<char>>,
    /// The shard of each node, in the order of `nodes`.
    pub shards: Seq<u64>,
    /// The id that the next reply of the node gets.
    pub next: usize,
}

/// What an event makes of the node: its next state, and the messages to
/// send or the reason why the node cannot go on.
pub struct CounterReaction {
    pub state: CounterModel,
    pub result: Result<Seq<Letter<Payload>>, CounterError>,
}

impl CounterModel {
    /// There is a shard for every node, and the node itself is one of them.
    pub open spec fn wf(self) -> bool {
        &&& self.shards.len() == self.nodes.len()
        &&& index_of(self.nodes, self.node) is Some
    }

    /// The place of the node's own shard.
    pub open spec fn me(self) -> int {
        index_of(self.nodes, self.node)->0
    }

    /// The value of the node's own shard.
    pub open spec fn own(self) -> u64 {
        self.shards[self.me()]
    }

    /// What the counter reads as at this node.
    pub open spec fn value(self) -> int {
        total(self.shards)
    }

    /// The state after `delta` was added to the node's own shard.
    pub open spec fn adding(self, delta: u64) -> CounterModel {
        CounterModel {
            shards: self.shards.update(self.me(), (self.own() + delta) as u64),
            ..self
        }
    }

    /// The state after each of `deltas` was added in turn.
    pub open spec fn adding_all(self, deltas: Seq<u64>) -> CounterModel
        decreases deltas.len(),
    {
        if deltas.len() == 0 {
            self
        } else {
            self.adding_all(deltas.drop_last()).adding(deltas.last())
        }
    }

    /// Sends nothing and changes nothing.
    pub open spec fn rest(self) -> CounterReaction {
        CounterReaction { state: self, result: Ok(Seq::empty()) }
    }

    /// A message came in. The reply takes the next id at once, whatever
    /// the message is. `Add` raises the node's own shard and no other;
    /// `Read` gives the sum of the shards; `Sync` merges the sender's
    /// shard and has no answer; an answer that arrives unasked is passed
    /// over.
    pub open spec fn on_letter(self, letter: Letter<Payload>) -> CounterReaction {
        let state = CounterModel { next: id_after(self.next), ..self };
        let reply = letter.reply_of(Some(self.next));
        match letter.content {
            Payload::Add { delta } => if self.own() + delta > u64::MAX {
                CounterReaction { state, result: Err(CounterError::Overflow) }
            } else {
                CounterReaction {
                    state: CounterModel { next: id_after(self.next), ..self.adding(delta) },
                    result: Ok(seq![reply.carrying(Payload::AddOk)]),
                }
            },
            Payload::Read => if self.value() > u64::MAX {
                CounterReaction { state, result: Err(CounterError::Overflow) }
            } else {
                CounterReaction {
                    state,
                    result: Ok(seq![reply.carrying(Payload::ReadOk { value: self.value() as u64 })]),
                }
            },
            Payload::Sync { value } => CounterModel {
                shards: merged(self.nodes, self.shards, letter.src, value),
                ..state
            }.rest(),
            _ => state.rest(),
        }
    }

    /// The timer went off: the node tells every other node the value of
    /// its own shard.
    pub open spec fn on_tick(self) -> CounterReaction {
        CounterReaction { state: self, result: Ok(syncs(self.node, self.nodes, self.own())) }
    }

    /// What `event` makes of the node.
    pub open spec fn react(self, event: Event<Payload, Tick>) -> CounterReaction {
        match event {
            Event::Message(message) => self.on_letter(message@),
            Event::Injected(_) => self.on_tick(),
            Event::EOF => self.rest(),
        }
    }
}

/// A node of the counter.
pub struct CounterNode {
    node: String,
    nodes: Vec<String>,
    me: usize,
    shards: Vec<u64>,
    next: usize,
}

impl View for CounterNode {
    type V = CounterModel;

    closed spec fn view(&self) -> CounterModel {
        CounterModel {
            node: self.node@,
            nodes: names_view(self.nodes@),
            shards: self.shards@,
            next: self.next,
        }
    }
}

impl CounterNode {
    /// There is a shard for every node, and `me` is the node's own place.
    #[verifier::type_invariant]
    spec fn inv(self) -> bool {
        &&& self.shards.len() == self.nodes.len()
        &&& index_of(names_view(self.nodes@), self.node@) == Some(self.me as int)
    }

    /// The node that the handshake `init` describes: every shard is 0 and
    /// the first message id is 1. The node must be one of the nodes named.
    pub fn from_init(init: Init) -> (r: Result<CounterNode, CounterError>)
        ensures
            match r {
                Ok(node) => {
                    &&& node@.wf()
                    &&& node@ == (CounterModel {
                        node: init.node_id@,
                        nodes: names_view(init.node_ids@),
                        shards: Seq::new(init.node_ids@.len(), |i: int| 0u64),
                        next: 1,
                    })
                },
                Err(e) => {
                    &&& e == CounterError::NotAMember
                    &&& index_of(names_view(init.node_ids@), init.node_id@) is None
                },
            },
    {
        match position(&init.node_ids, &init.node_id) {
            None => Err(CounterError::NotAMember),
            Some(me) => {
                let mut shards: Vec<u64> = Vec::new();
                let mut i: usize = 0;
                while i < init.node_ids.len()
                    invariant
                        i <= init.node_ids.len(),
                        shards.len() == i,
                        forall|j: int| 0 <= j < i ==> shards[j] == 0,
                    decreases init.node_ids.len() - i,
                {
                    shards.push(0);
                    i += 1;
                }
                assert(shards@ =~= Seq::new(init.node_ids@.len(), |i: int| 0u64));
                Ok(CounterNode { node: init.node_id, nodes: init.node_ids, me, shards, next: 1 })
            },
        }
    }

    /// What the counter reads as at this node, if a `u64` can hold it.
    pub fn read(&self) -> (r: Result<u64, CounterError>)
        ensures
            self@.wf(),
            match r {
                Ok(value) => value == self@.value(),
                Err(e) => e == CounterError::Overflow && self@.value() > u64::MAX,
            },
    {
        proof {
            use_type_invariant(self);
        }
        let mut sum: u64 = 0;
        let mut i: usize = 0;
        assert(self.shards@.take(0) =~= Seq::empty());
        while i < self.shards.len()
            invariant
                i <= self.shards.len(),
                sum == total(self.shards@.take(i as int)),
            decreases self.shards.len() - i,
        {
            assert(self.shards@.take(i + 1).drop_last() =~= self.shards@.take(i as int));
            match sum.checked_add(self.shards[i]) {
                Some(more) => {
                    sum = more;
                },
                None => {
                    proof {
                        use_type_invariant(self);
                        lemma_total_of_part(self.shards@, i + 1);
                    }
                    return Err(CounterError::Overflow);
                },
            }
            i += 1;
        }
        assert(self.shards@.take(self.shards.len() as int) =~= self.shards@);
        Ok(sum)
    }

    /// The value of the node's own shard.
    pub fn own(&self) -> (value: u64)
        ensures
            self@.wf(),
            value == self@.own(),
    {
        proof {
            use_type_invariant(self);
        }
        self.shards[self.me]
    }

    /// Adds `delta` to the node's own shard, if a `u64` can hold the sum;
    /// if not, nothing changes.
    pub fn add(&mut self, delta: u64) -> (r: Result<(), CounterError>)
        ensures
            old(self)@.wf(),
            match r {
                Ok(_) => {
                    &&& old(self)@.own() + delta <= u64::MAX
                    &&& final(self)@ == (CounterModel {
                        shards: old(self)@.shards.update(
                            old(self)@.me(),
                            (old(self)@.own() + delta) as u64,
                        ),
                        ..old(self)@
                    })
                },
                Err(e) => {
                    &&& e == CounterError::Overflow
                    &&& old(self)@.own() + delta > u64::MAX
                    &&& final(self)@ == old(self)@
                },
            },
    {
        proof {
            use_type_invariant(&*self);
        }
        match self.shards[self.me].checked_add(delta) {
            Some(more) => {
                self.shards[self.me] = more;
                Ok(())
            },
            None => Err(CounterError::Overflow),
        }
    }

    /// Takes in the value that the node `from` has told of its own shard.
    pub fn merge(&mut self, from: &String, value: u64)
        ensures
            final(self)@ == (CounterModel {
                shards: merged(old(self)@.nodes, old(self)@.shards, from@, value),
                ..old(self)@
            }),
    {
        proof {
            use_type_invariant(&*self);
        }
        match position(&self.nodes, from) {
            Some(i) => {
                if value > self.shards[i] {
                    self.shards[i] = value;
                } else {
                    assert(self.shards@ =~= self.shards@.update(i as int, self.shards@[i as int]));
                }
            },
            None => {},
        }
    }

    /// The messages that tell every node of another name the value of the
    /// node's own shard.
    pub fn sync_messages(&self) -> (out: Vec<Message<Payload>>)
        ensures
            self@.wf(),
            letters(out@) == syncs(self@.node, self@.nodes, self@.own()),
    {
        proof {
            use_type_invariant(self);
        }
        let value = self.shards[self.me];
        let ghost names = names_view(self.nodes@);
        let mut out: Vec<Message<Payload>> = Vec::new();
        let mut i: usize = 0;
        assert(names.take(0) =~= Seq::empty());
        assert(letters(out@) =~= Seq::empty());
        while i < self.nodes.len()
            invariant
                i <= self.nodes.len(),
                names == names_view(self.nodes@),
                letters(out@) == syncs(self.node@, names.take(i as int), value),
            decreases self.nodes.len() - i,
        {
            let ghost before = letters(out@);
            assert(names.take(i + 1).drop_last() =~= names.take(i as int));
            assert(names.take(i + 1).last() == self.nodes[i as int]@);
            if self.nodes[i] != self.node {
                let message = Message {
                    src: self.node.clone(),
                    dest: self.nodes[i].clone(),
                    body: Body { id: None, in_reply_to: None, payload: Payload::Sync { value } },
                };
                out.push(message);
                assert(letters(out@) =~= before.push(message@));
            }
            i += 1;
        }
        assert(names.take(self.nodes.len() as int) =~= names);
        out
    }

    /// Handles one event and hands back the messages to send.
    pub fn handle(&mut self, event: Event<Payload, Tick>) -> (r: Result<
        Vec<Message<Payload>>,
        CounterError,
    >)
        ensures
            old(self)@.wf(),
            final(self)@.wf(),
            final(self)@ == old(self)@.react(event).state,
            match r {
                Ok(out) => Ok::<Seq<Letter<Payload>>, CounterError>(letters(out@)) == old(
                    self,
                )@.react(event).result,
                Err(e) => Err::<Seq<Letter<Payload>>, CounterError>(e) == old(self)@.react(
                    event,
                ).result,
            },
    {
        proof {
            use_type_invariant(&*self);
        }
        match event {
            Event::Message(message) => {
                let id = self.next;
                self.next = if id == usize::MAX {
                    0
                } else {
                    id + 1
                };
                let payload = message.body.payload;
                let reply = message.reply_with(Some(id));
                match payload {
                    Payload::Add { delta } => {
                        match self.add(delta) {
                            Ok(_) => {
                                let (reply, _) = reply.exchange(Payload::AddOk);
                                let out = vec![reply];
                                assert(letters(out@) =~= seq![reply@]);
                                Ok(out)
                            },
                            Err(e) => Err(e),
                        }
                    },
                    Payload::Read => {
                        match self.read() {
                            Ok(value) => {
                                let (reply, _) = reply.exchange(Payload::ReadOk { value });
                                let out = vec![reply];
                                assert(letters(out@) =~= seq![reply@]);
                                Ok(out)
                            },
                            Err(e) => Err(e),
                        }
                    },
                    Payload::Sync { value } => {
                        self.merge(&reply.dest, value);
                        let out: Vec<Message<Payload>> = Vec::new();
                        assert(letters(out@) =~= Seq::empty());
                        Ok(out)
                    },
                    _ => {
                        let out: Vec<Message<Payload>> = Vec::new();
                        assert(letters(out@) =~= Seq::empty());
                        Ok(out)
                    },
                }
            },
            Event::Injected(_) => Ok(self.sync_messages()),
            Event::EOF => {
                let out: Vec<Message<Payload>> = Vec::new();
                assert(letters(out@) =~= Seq::empty());
                Ok(out)
            },
        }
    }
}

/// The sum of the first shards is no more than the sum of all.
pub proof fn lemma_total_of_part(shards: Seq<u64>, n: int)
    requires
        0 <= n <= shards.len(),
    ensures
        0 <= total(shards.take(n)) <= total(shards),
    decreases shards.len(),
{
    if shards.len() == 0 {
        assert(shards.take(n) =~= shards);
    } else if n == shards.len() {
        assert(shards.take(n) =~= shards);
        lemma_total_of_part(shards.drop_last(), n - 1);
    } else {
        lemma_total_of_part(shards.drop_last(), n);
        assert(shards.drop_last().take(n) =~= shards.take(n));
    }
}

/// Changing one shard changes the sum by as much.
pub proof fn lemma_total_of_update(shards: Seq<u64>, i: int, value: u64)
    requires
        0 <= i < shards.len(),
    ensures
        total(shards.update(i, value)) == total(shards) - shards[i] + value,
    decreases shards.len(),
{
    let changed = shards.update(i, value);
    if i == shards.len() - 1 {
        assert(changed.drop_last() =~= shards.drop_last());
    } else {
        lemma_total_of_update(shards.drop_last(), i, value);
        assert(changed.drop_last() =~= shards.drop_last().update(i, value));
    }
}

/// A merge never lowers a shard, and changes none but the sender's.
pub proof fn law_merge_never_lowers(
    nodes: Seq<Seq<char>>,
    shards: Seq<u64>,
    from: Seq<char>,
    value: u64,
    i: int,
)
    requires
        0 <= i < shards.len(),
    ensures
        merged(nodes, shards, from, value).len() == shards.len(),
        merged(nodes, shards, from, value)[i] >= shards[i],
        index_of(nodes, from) != Some(i) ==> merged(nodes, shards, from, value)[i] == shards[i],
        total(merged(nodes, shards, from, value)) >= total(shards),
{
    match index_of(nodes, from) {
        Some(at) => {
            lemma_index_of(nodes, from);
            if at < shards.len() {
                lemma_total_of_update(shards, at, larger(shards[at], value));
            }
        },
        None => {},
    }
}

/// Merging the same value twice is merging it once.
pub proof fn law_merge_is_idempotent(
    nodes: Seq<Seq<char>>,
    shards: Seq<u64>,
    from: Seq<char>,
    value: u64,
)
    ensures
        merged(nodes, merged(nodes, shards, from, value), from, value) == merged(
            nodes,
            shards,
            from,
            value,
        ),
{
    lemma_index_of(nodes, from);
    assert(merged(nodes, merged(nodes, shards, from, value), from, value) =~= merged(
        nodes,
        shards,
        from,
        value,
    ));
}

/// Two merges give the same shards in either order.
pub proof fn law_merge_commutes(
    nodes: Seq<Seq<char>>,
    shards: Seq<u64>,
    a: Seq<char>,
    x: u64,
    b: Seq<char>,
    y: u64,
)
    ensures
        merged(nodes, merged(nodes, shards, a, x), b, y) == merged(
            nodes,
            merged(nodes, shards, b, y),
            a,
            x,
        ),
{
    lemma_index_of(nodes, a);
    lemma_index_of(nodes, b);
    assert(merged(nodes, merged(nodes, shards, a, x), b, y) =~= merged(
        nodes,
        merged(nodes, shards, b, y),
        a,
        x,
    ));
}

/// Adds accumulate. An `Add` that the node accepts raises its own shard by
/// the delta and the reading of the counter by as much, and leaves every
/// other shard alone.
pub proof fn law_add_raises_the_own_shard(state: CounterModel, letter: Letter<Payload>, i: int)
    requires
        state.wf(),
        letter.content is Add,
        state.on_letter(letter).result is Ok,
        0 <= i < state.shards.len(),
    ensures
        ({
            let delta = letter.content->delta;
            let after = state.on_letter(letter).state;
            &&& after.wf()
            &&& after.shards == state.adding(delta).shards
            &&& after.own() == state.own() + delta
            &&& after.value() == state.value() + delta
            &&& i != state.me() ==> after.shards[i] == state.shards[i]
        }),
{
    lemma_index_of(state.nodes, state.node);
    lemma_total_of_update(state.shards, state.me(), (state.own() + letter.content->delta) as u64);
}

/// The own shard is the sum of the adds. After any run of adds that a `u64`
/// can hold, the node's own shard stands at what it was plus the sum of the
/// deltas, the counter reads that much higher, and no other shard has
/// changed.
pub proof fn law_adds_sum_up(state: CounterModel, deltas: Seq<u64>, i: int)
    requires
        state.wf(),
        state.own() + total(deltas) <= u64::MAX,
        0 <= i < state.shards.len(),
    ensures
        ({
            let after = state.adding_all(deltas);
            &&& after.wf()
            &&& after.node == state.node
            &&& after.nodes == state.nodes
            &&& after.own() == state.own() + total(deltas)
            &&& after.value() == state.value() + total(deltas)
            &&& i != state.me() ==> after.shards[i] == state.shards[i]
        }),
    decreases deltas.len(),
{
    lemma_index_of(state.nodes, state.node);
    if deltas.len() > 0 {
        let front = deltas.drop_last();
        lemma_total_of_part(deltas, deltas.len() - 1);
        assert(deltas.take(deltas.len() - 1) =~= front);
        law_adds_sum_up(state, front, i);
        let mid = state.adding_all(front);
        lemma_total_of_update(mid.shards, mid.me(), (mid.own() + deltas.last()) as u64);
    }
}

} // verus!

//! Spreading values to every node by gossip.
//!
//! A node keeps every value it has learned, and for each node what it
//! believes that node to know already. On every tick it sends each of its
//! neighbours the values that the neighbour is not known to have. What a
//! neighbour is believed to know grows only by what the neighbour itself
//! has sent, never by what was sent to it.

use crate::message::{letters, Body, Event, Init, Letter, Message};
use crate::names::{index_of, lemma_index_of, names_view, position};
use crate::rpc::id_after;
use crate::sets::{absorb, copy_of, difference};
use std::collections::HashSet;
use vstd::prelude::*;

verus! {

broadcast use vstd::std_specs::hash::group_hash_axioms;

/// What the messages of the gossip carry.
#[derive(Debug, PartialEq, Eq)]
pub enum Payload {
    Broadcast { msg: usize },
    BroadcastOk,
    Read,
    ReadOk { msgs: HashSet<usize> },
    Topology { topo: Vec<(String, Vec<String>)> },
    TopologyOk,
    Gossip { seen: HashSet<usize> },
}

/// A node and its neighbours, as sequences of characters.
pub type Neighbourhood = (Seq<char>, Seq<Seq<char>>);

/// A payload with its names as sequences of characters and its values as
/// sets.
pub enum Content {
    Broadcast { msg: usize },
    BroadcastOk,
    Read,
    ReadOk { msgs: Set<usize> },
    Topology { topo: Seq<Neighbourhood> },
    TopologyOk,
    Gossip { seen: Set<usize> },
}

/// The sequences of characters of each node of `topo` and of its
/// neighbours.
pub open spec fn topology_view(topo: Seq<(String, Vec<String>)>) -> Seq<Neighbourhood> {
    Seq::new(topo.len(), |i: int| (topo[i].0@, names_view(topo[i].1@)))
}

impl View for Payload {
    type V = Content;

    open spec fn view(&self) -> Content {
        match *self {
            Payload::Broadcast { msg } => Content::Broadcast { msg },
            Payload::BroadcastOk => Content::BroadcastOk,
            Payload::Read => Content::Read,
            Payload::ReadOk { msgs } => Content::ReadOk { msgs: msgs@ },
            Payload::Topology { topo } => Content::Topology { topo: topology_view(topo@) },
            Payload::TopologyOk => Content::TopologyOk,
            Payload::Gossip { seen } => Content::Gossip { seen: seen@ },
        }
    }
}

/// What the node's timer injects: the call to gossip.
#[derive(Debug, Clone, Copy, PartialEq, Eq)]
pub enum Tick {
    Gossip,
}

/// Why the gossip cannot go on.
#[derive(Debug, Clone, Copy, PartialEq, Eq)]
pub enum BroadcastError {
    /// A name that is not among the names of the nodes: the sender of a
    /// gossip, or a neighbour to gossip to.
    UnknownPeer,
    /// A topology that does not name the node itself.
    NotInTopology,
}

/// The nodes that `topo` names, in order.
pub open spec fn named(topo: Seq<Neighbourhood>) -> Seq<Seq<char>> {
    Seq::new(topo.len(), |i: int| topo[i].0)
}

/// The neighbours that `topo` assigns to `node`, if it names the node.
pub open spec fn neighbours_of(topo: Seq<Neighbourhood>, node: Seq<char>) -> Option<
    Seq<Seq<char>>,
> {
    match index_of(named(topo), node) {
        Some(i) => Some(topo[i].1),
        None => None,
    }
}

/// Whether every one of `names` is among `nodes`.
pub open spec fn all_among(nodes: Seq<Seq<char>>, names: Seq<Seq<char>>) -> bool {
    forall|k: int| 0 <= k < names.len() ==> index_of(nodes, #[trigger] names[k]) is Some
}

/// The values of `seen` that `neighbour` is not known to have.
pub open spec fn news_for(
    nodes: Seq<Seq<char>>,
    known: Seq<Set<usize>>,
    seen: Set<usize>,
    neighbour: Seq<char>,
) -> Set<usize> {
    seen.difference(known[index_of(nodes, neighbour)->0])
}

/// The gossip of one tick: to each of `neighbours`, in order, what it is not
/// known to have, and nothing to a neighbour for which there is no news.
pub open spec fn gossips(
    node: Seq<char>,
    nodes: Seq<Seq<char>>,
    known: Seq<Set<usize>>,
    seen: Set<usize>,
    neighbours: Seq<Seq<char>>,
) -> Seq<Letter<Content>>
    decreases neighbours.len(),
{
    if neighbours.len() == 0 {
        Seq::empty()
    } else {
        let before = gossips(node, nodes, known, seen, neighbours.drop_last());
        let news = news_for(nodes, known, seen, neighbours.last());
        if news.is_empty() {
            before
        } else {
            before.push(
                Letter {
                    src: node,
                    dest: neighbours.last(),
                    id: None,
                    in_reply_to: None,
                    content: Content::Gossip { seen: news },
                },
            )
        }
    }
}

/// The state of a gossiping node.
pub struct GossipModel {
    /// The node's own name.
    pub node: Seq<char>,
    /// The names of all nodes.
    pub nodes: Seq<Seq<char>>,
    /// Every value that the node has learned.
    pub seen: Set<usize>,
    /// The nodes that the node gossips to.
    pub neighbours: Seq<Seq<char>>,
    /// What each node is believed to know, in the order of `nodes`.
    pub known: Seq<Set<usize>>,
    /// The id that the next reply of the node gets.
    pub next: usize,
}

/// What an event makes of the node: its next state, and the messages to
/// send or the reason why the node cannot go on.
pub struct GossipReaction {
    pub state: GossipModel,
    pub result: Result<Seq<Letter<Content>>, BroadcastError>,
}

impl GossipModel {
    /// Something is believed of every node.
    pub open spec fn wf(self) -> bool {
        self.known.len() == self.nodes.len()
    }

    /// Sends nothing and changes nothing.
    pub open spec fn rest(self) -> GossipReaction {
        GossipReaction { state: self, result: Ok(Seq::empty()) }
    }

    /// Sends `letter` and changes nothing.
    pub open spec fn deliver(self, letter: Letter<Content>) -> GossipReaction {
        GossipReaction { state: self, result: Ok(seq![letter]) }
    }

    /// Stops with `error` and changes nothing.
    pub open spec fn fail(self, error: BroadcastError) -> GossipReaction {
        GossipReaction { state: self, result: Err(error) }
    }

    /// A message came in. The reply takes the next id at once, whatever
    /// the message is.
    ///
    /// `Broadcast` adds a value to what the node has learned. `Read` gives
    /// all that it has learned. `Topology` assigns the node the neighbours
    /// that it names for it, whoever they are, and is an error only where
    /// it does not name the node. `Gossip` adds the values both to what the
    /// node has learned and to what the sender is believed to know, and has
    /// no answer. An answer that arrives unasked is passed over.
    pub open spec fn on_letter(self, letter: Letter<Content>) -> GossipReaction {
        let state = GossipModel { next: id_after(self.next), ..self };
        let reply = letter.reply_of(Some(self.next));
        match letter.content {
            Content::Gossip { seen } => match index_of(self.nodes, letter.src) {
                Some(i) => GossipModel {
                    seen: self.seen.union(seen),
                    known: self.known.update(i, self.known[i].union(seen)),
                    ..state
                }.rest(),
                None => state.fail(BroadcastError::UnknownPeer),
            },
            Content::Broadcast { msg } => GossipModel {
                seen: self.seen.insert(msg),
                ..state
            }.deliver(reply.carrying(Content::BroadcastOk)),
            Content::Read => state.deliver(reply.carrying(Content::ReadOk { msgs: self.seen })),
            Content::Topology { topo } => match neighbours_of(topo, self.node) {
                None => state.fail(BroadcastError::NotInTopology),
                Some(neighbours) => GossipModel { neighbours, ..state }.deliver(
                    reply.carrying(Content::TopologyOk),
                ),
            },
            _ => state.rest(),
        }
    }

    /// The timer went off: the node gossips to its neighbours. What the
    /// neighbours are believed to know is left as it is. A neighbour that
    /// is no node is an error, and then nothing is sent.
    pub open spec fn on_tick(self) -> GossipReaction {
        if all_among(self.nodes, self.neighbours) {
            GossipReaction {
                state: self,
                result: Ok(gossips(self.node, self.nodes, self.known, self.seen, self.neighbours)),
            }
        } else {
            self.fail(BroadcastError::UnknownPeer)
        }
    }

    /// What `event` makes of the node.
    pub open spec fn react(self, event: Event<Payload, Tick>) -> GossipReaction {
        match event {
            Event::Message(message) => self.on_letter(message@),
            Event::Injected(_) => self.on_tick(),
            Event::EOF => self.rest(),
        }
    }
}

/// A gossiping node.
pub struct BroadcastNode {
    node: String,
    nodes: Vec<String>,
    msgs: HashSet<usize>,
    neighbours: Vec<String>,
    known: Vec<HashSet<usize>>,
    next: usize,
}

/// The values of each set of `sets`.
spec fn sets_view(sets: Seq<HashSet<usize>>) -> Seq<Set<usize>> {
    Seq::new(sets.len(), |i: int| sets[i]@)
}

impl View for BroadcastNode {
    type V = GossipModel;

    closed spec fn view(&self) -> GossipModel {
        GossipModel {
            node: self.node@,
            nodes: names_view(self.nodes@),
            seen: self.msgs@,
            neighbours: names_view(self.neighbours@),
            known: sets_view(self.known@),
            next: self.next,
        }
    }
}

impl BroadcastNode {
    /// Something is believed of every node.
    #[verifier::type_invariant]
    spec fn inv(self) -> bool {
        self.known.len() == self.nodes.len()
    }

    /// The node that the handshake `init` describes: it has learned
    /// nothing, believes nothing of the others, has no neighbours yet, and
    /// its first message id is 1.
    pub fn from_init(init: Init) -> (node: BroadcastNode)
        ensures
            node@.wf(),
            node@ == (GossipModel {
                node: init.node_id@,
                nodes: names_view(init.node_ids@),
                seen: Set::empty(),
                neighbours: Seq::empty(),
                known: Seq::new(init.node_ids@.len(), |i: int| Set::<usize>::empty()),
                next: 1,
            }),
    {
        let mut known: Vec<HashSet<usize>> = Vec::new();
        let mut i: usize = 0;
        while i < init.node_ids.len()
            invariant
                i <= init.node_ids.len(),
                known.len() == i,
                forall|j: int| 0 <= j < i ==> known[j]@ == Set::<usize>::empty(),
            decreases init.node_ids.len() - i,
        {
            known.push(HashSet::new());
            i += 1;
        }
        let neighbours: Vec<String> = Vec::new();
        assert(names_view(neighbours@) =~= Seq::empty());
        assert(sets_view(known@) =~= Seq::new(
            init.node_ids@.len(),
            |i: int| Set::<usize>::empty(),
        ));
        BroadcastNode {
            node: init.node_id,
            nodes: init.node_ids,
            msgs: HashSet::new(),
            neighbours,
            known,
            next: 1,
        }
    }

    /// Every value that the node has learned.
    pub fn messages(&self) -> (msgs: HashSet<usize>)
        ensures
            msgs@ == self@.seen,
    {
        copy_of(&self.msgs)
    }

    /// Adds `value` to what the node has learned. Nothing changes if the
    /// node has learned it before.
    pub fn observe(&mut self, value: usize)
        ensures
            final(self)@ == (GossipModel { seen: old(self)@.seen.insert(value), ..old(self)@ }),
    {
        proof {
            use_type_invariant(&*self);
        }
        let mut seen: HashSet<usize> = HashSet::new();
        std::mem::swap(&mut self.msgs, &mut seen);
        seen.insert(value);
        std::mem::swap(&mut self.msgs, &mut seen);
    }

    /// Takes in the values that the node at `place` has gossiped.
    fn take_in(&mut self, place: usize, values: &HashSet<usize>)
        requires
            place < old(self)@.nodes.len(),
        ensures
            final(self)@ == (GossipModel {
                seen: old(self)@.seen.union(values@),
                known: old(self)@.known.update(
                    place as int,
                    old(self)@.known[place as int].union(values@),
                ),
                ..old(self)@
            }),
    {
        proof {
            use_type_invariant(&*self);
        }
        let mut seen: HashSet<usize> = HashSet::new();
        std::mem::swap(&mut self.msgs, &mut seen);
        absorb(&mut seen, values);
        std::mem::swap(&mut self.msgs, &mut seen);
        let mut theirs: HashSet<usize> = HashSet::new();
        std::mem::swap(&mut self.known[place], &mut theirs);
        absorb(&mut theirs, values);
        std::mem::swap(&mut self.known[place], &mut theirs);
        assert(sets_view(self.known@) =~= sets_view(old(self).known@).update(
            place as int,
            old(self)@.known[place as int].union(values@),
        ));
    }

    /// Where `topo` names the node.
    fn own_place(&self, topo: &Vec<(String, Vec<String>)>) -> (r: Option<usize>)
        ensures
            match r {
                Some(i) => i < topo.len() && neighbours_of(topology_view(topo@), self@.node) == Some(
                    names_view(topo[i as int].1@),
                ),
                None => neighbours_of(topology_view(topo@), self@.node) is None,
            },
    {
        let ghost view = topology_view(topo@);
        let mut i: usize = 0;
        while i < topo.len()
            invariant
                i <= topo.len(),
                view == topology_view(topo@),
                forall|j: int| 0 <= j < i ==> named(view)[j] != self.node@,
            decreases topo.len() - i,
        {
            if topo[i].0 == self.node {
                proof {
                    assert(named(view)[i as int] == self.node@);
                    lemma_index_of(named(view), self.node@);
                }
                return Some(i);
            }
            i += 1;
        }
        proof {
            lemma_index_of(named(view), self.node@);
            if index_of(named(view), self.node@) is Some {
                let at = index_of(named(view), self.node@)->0;
                assert(named(view)[at] == self.node@);
            }
        }
        None
    }

    /// The gossip of one tick, or an error where a neighbour is no node.
    pub fn gossip_messages(&self) -> (r: Result<Vec<Message<Payload>>, BroadcastError>)
        ensures
            self@.wf(),
            match r {
                Ok(out) => Ok::<Seq<Letter<Content>>, BroadcastError>(letters(out@))
                    == self@.on_tick().result,
                Err(e) => Err::<Seq<Letter<Content>>, BroadcastError>(e) == self@.on_tick().result,
            },
    {
        proof {
            use_type_invariant(self);
        }
        let ghost names = names_view(self.neighbours@);
        let mut out: Vec<Message<Payload>> = Vec::new();
        let mut k: usize = 0;
        assert(names.take(0) =~= Seq::empty());
        assert(letters(out@) =~= Seq::empty());
        while k < self.neighbours.len()
            invariant
                k <= self.neighbours.len(),
                self.known.len() == self.nodes.len(),
                names == names_view(self.neighbours@),
                forall|j: int|
                    0 <= j < k ==> index_of(names_view(self.nodes@), #[trigger] names[j]) is Some,
                letters(out@) == gossips(
                    self.node@,
                    names_view(self.nodes@),
                    sets_view(self.known@),
                    self.msgs@,
                    names.take(k as int),
                ),
            decreases self.neighbours.len() - k,
        {
            let ghost before = letters(out@);
            proof {
                assert(names.take(k + 1).drop_last() =~= names.take(k as int));
                assert(names.take(k + 1).last() == names[k as int]);
                lemma_index_of(names_view(self.nodes@), names[k as int]);
            }
            match position(&self.nodes, &self.neighbours[k]) {
                None => {
                    assert(index_of(names_view(self.nodes@), names[k as int]) is None);
                    return Err(BroadcastError::UnknownPeer);
                },
                Some(at) => {
                    let news = difference(&self.msgs, &self.known[at]);
                    if !news.is_empty() {
                        let message = Message {
                            src: self.node.clone(),
                            dest: self.neighbours[k].clone(),
                            body: Body {
                                id: None,
                                in_reply_to: None,
                                payload: Payload::Gossip { seen: news },
                            },
                        };
                        out.push(message);
                        assert(letters(out@) =~= before.push(message@));
                    }
                },
            }
            k += 1;
        }
        assert(names.take(self.neighbours.len() as int) =~= names);
        Ok(out)
    }

    /// Handles one event and hands back the messages to send.
    pub fn handle(&mut self, event: Event<Payload, Tick>) -> (r: Result<
        Vec<Message<Payload>>,
        BroadcastError,
    >)
        ensures
            old(self)@.wf(),
            final(self)@.wf(),
            final(self)@ == old(self)@.react(event).state,
            match r {
                Ok(out) => Ok::<Seq<Letter<Content>>, BroadcastError>(letters(out@)) == old(
                    self,
                )@.react(event).result,
                Err(e) => Err::<Seq<Letter<Content>>, BroadcastError>(e) == old(self)@.react(
                    event,
                ).result,
            },
    {
        proof {
            use_type_invariant(&*self);
        }
        match event {
            Event::Message(message) => {
                let id = self.next;
                self.next = if id == usize::MAX {
                    0
                } else {
                    id + 1
                };
                let (reply, payload) = message.reply_with(Some(id)).exchange(());
                match payload {
                    Payload::Gossip { seen } => {
                        match position(&self.nodes, &reply.dest) {
                            Some(place) => {
                                self.take_in(place, &seen);
                                proof {
                                    use_type_invariant(&*self);
                                }
                                let out: Vec<Message<Payload>> = Vec::new();
                                assert(letters(out@) =~= Seq::empty());
                                Ok(out)
                            },
                            None => Err(BroadcastError::UnknownPeer),
                        }
                    },
                    Payload::Broadcast { msg } => {
                        self.observe(msg);
                        proof {
                            use_type_invariant(&*self);
                        }
                        let (reply, _) = reply.exchange(Payload::BroadcastOk);
                        let out = vec![reply];
                        assert(letters(out@) =~= seq![reply@]);
                        Ok(out)
                    },
                    Payload::Read => {
                        let msgs = copy_of(&self.msgs);
                        let (reply, _) = reply.exchange(Payload::ReadOk { msgs });
                        let out = vec![reply];
                        assert(letters(out@) =~= seq![reply@]);
                        Ok(out)
                    },
                    Payload::Topology { topo } => {
                        let mut topo = topo;
                        match self.own_place(&topo) {
                            None => Err(BroadcastError::NotInTopology),
                            Some(i) => {
                                let (_, neighbours) = topo.remove(i);
                                self.neighbours = neighbours;
                                let (reply, _) = reply.exchange(Payload::TopologyOk);
                                let out = vec![reply];
                                assert(letters(out@) =~= seq![reply@]);
                                Ok(out)
                            },
                        }
                    },
                    _ => {
                        let out: Vec<Message<Payload>> = Vec::new();
                        assert(letters(out@) =~= Seq::empty());
                        Ok(out)
                    },
                }
            },
            Event::Injected(_) => self.gossip_messages(),
            Event::EOF => {
                let out: Vec<Message<Payload>> = Vec::new();
                assert(letters(out@) =~= Seq::empty());
                Ok(out)
            },
        }
    }
}

/// Nothing is forgotten. Whatever the event, a node knows afterwards every
/// value that it knew before, and believes of every node all that it
/// believed of it before.
pub proof fn law_nothing_is_forgotten(state: GossipModel, event: Event<Payload, Tick>, i: int)
    requires
        state.known.len() == state.nodes.len(),
        0 <= i < state.known.len(),
    ensures
        state.seen.subset_of(state.react(event).state.seen),
        state.react(event).state.known.len() == state.known.len(),
        state.known[i].subset_of(state.react(event).state.known[i]),
{
    match event {
        Event::Message(message) => {
            lemma_index_of(state.nodes, message@.src);
        },
        _ => {},
    }
}

/// A repeated gossip changes nothing. A node that is handed the same
/// gossip a second time has learned nothing new and believes nothing new;
/// only its message id has moved on.
pub proof fn law_gossip_twice_is_once(state: GossipModel, letter: Letter<Content>)
    requires
        state.wf(),
        letter.content is Gossip,
    ensures
        ({
            let once = state.on_letter(letter).state;
            let twice = once.on_letter(letter).state;
            &&& twice == (GossipModel { next: twice.next, ..once })
            &&& once.on_letter(letter).result == state.on_letter(letter).result
        }),
{
    let once = state.on_letter(letter).state;
    let twice = once.on_letter(letter).state;
    lemma_index_of(state.nodes, letter.src);
    assert(twice.seen =~= once.seen);
    assert(twice.known =~= once.known) by {
        assert forall|i: int| 0 <= i < once.known.len() implies twice.known[i] =~= once.known[i] by {}
    }
}

/// The order of delivery does not matter. Two messages that carry gossip
/// or a value from a client leave a node in the same state whichever of
/// them it is handed first.
pub proof fn law_delivery_order_does_not_matter(
    state: GossipModel,
    a: Letter<Content>,
    b: Letter<Content>,
)
    requires
        state.wf(),
        a.content is Gossip || a.content is Broadcast,
        b.content is Gossip || b.content is Broadcast,
    ensures
        state.on_letter(a).state.on_letter(b).state == state.on_letter(b).state.on_letter(a).state,
{
    let ab = state.on_letter(a).state.on_letter(b).state;
    let ba = state.on_letter(b).state.on_letter(a).state;
    lemma_index_of(state.nodes, a.src);
    lemma_index_of(state.nodes, b.src);
    assert(ab.seen =~= ba.seen);
    assert(ab.known =~= ba.known) by {
        assert(ab.known.len() == ba.known.len());
        assert forall|i: int| 0 <= i < ab.known.len() implies ab.known[i] =~= ba.known[i] by {}
    }
}

} // verus!

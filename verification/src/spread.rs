//! How values spread through a net of gossiping nodes.
//!
//! The net is every node's state. Messages may be delivered in any order,
//! any number of times, and late, and a node may gossip at any time; what
//! is proved here asks only that in each round every neighbour is brought
//! the news that there was for it when the round began.

use crate::gossip::{all_among, gossips, news_for, Content, GossipModel};
use crate::message::Letter;
use crate::names::{distinct, index_of, lemma_index_of};
use vstd::prelude::*;

verus! {

/// The states of all nodes of a net, in the order of their names.
pub struct Net {
    pub names: Seq<Seq<char>>,
    pub states: Seq<GossipModel>,
}

impl Net {
    /// Every node has a name of its own and a state, every state is that
    /// of the node at its place, among the nodes of this net, and every
    /// neighbour of a node is a node.
    pub open spec fn wf(self) -> bool {
        &&& distinct(self.names)
        &&& self.states.len() == self.names.len()
        &&& forall|i: int|
            0 <= i < self.states.len() ==> {
                &&& (#[trigger] self.states[i]).node == self.names[i]
                &&& self.states[i].nodes == self.names
                &&& self.states[i].wf()
                &&& all_among(self.names, self.states[i].neighbours)
            }
    }

    /// What a node believes another to know, the other does know.
    pub open spec fn trusted(self) -> bool {
        forall|a: int, b: int|
            0 <= a < self.states.len() && 0 <= b < self.states.len() ==> (
            #[trigger] self.states[a]).known[b].subset_of((#[trigger] self.states[b]).seen)
    }

    /// Whether `letter` is gossip that its sender may have sent: the sender
    /// is a node, and has learned every value that the letter carries.
    pub open spec fn honest(self, letter: Letter<Content>) -> bool {
        &&& letter.content is Gossip
        &&& index_of(self.names, letter.src) is Some
        &&& letter.content->seen.subset_of(self.states[index_of(self.names, letter.src)->0].seen)
    }

    /// The net after `letter` has reached the node it is for. A letter for
    /// no node of the net changes nothing.
    pub open spec fn deliver(self, letter: Letter<Content>) -> Net {
        match index_of(self.names, letter.dest) {
            Some(d) => Net {
                names: self.names,
                states: self.states.update(d, self.states[d].on_letter(letter).state),
            },
            None => self,
        }
    }

    /// The net after each of `letters` was delivered in turn.
    pub open spec fn run(self, letters: Seq<Letter<Content>>) -> Net
        decreases letters.len(),
    {
        if letters.len() == 0 {
            self
        } else {
            self.run(letters.drop_last()).deliver(letters.last())
        }
    }

    /// Whether `b` is a neighbour of `a`.
    pub open spec fn linked(self, a: int, b: int) -> bool {
        &&& 0 <= a < self.states.len()
        &&& 0 <= b < self.states.len()
        &&& self.states[a].neighbours.contains(self.names[b])
    }

    /// The gossip that the node `a` owes its neighbour `b` on a tick.
    pub open spec fn owed(self, a: int, b: int) -> Letter<Content> {
        let from = self.states[a];
        Letter {
            src: self.names[a],
            dest: self.names[b],
            id: None,
            in_reply_to: None,
            content: Content::Gossip {
                seen: news_for(self.names, from.known, from.seen, self.names[b]),
            },
        }
    }

    /// Whether each of `letters` is honest when it is delivered, the
    /// letters before it having been delivered first.
    pub open spec fn proper(self, letters: Seq<Letter<Content>>) -> bool
        decreases letters.len(),
    {
        letters.len() > 0 ==> self.proper(letters.drop_last()) && self.run(
            letters.drop_last(),
        ).honest(letters.last())
    }

    /// Whether `letters` brings the node `b` the news that the node `a` has
    /// for it in this net: one of the letters is for `b` and carries all of
    /// it.
    pub open spec fn brings(self, letters: Seq<Letter<Content>>, a: int, b: int) -> bool {
        exists|k: int|
            0 <= k < letters.len() && (#[trigger] letters[k]).dest == self.names[b] && self.owed(
                a,
                b,
            ).content->seen.subset_of(letters[k].content->seen)
    }

    /// Whether `letters` is a round of gossip from this net on: every
    /// letter is honest when it is delivered, and whenever a node has news
    /// for a neighbour, the letters bring it.
    pub open spec fn round(self, letters: Seq<Letter<Content>>) -> bool {
        &&& self.proper(letters)
        &&& forall|a: int, b: int|
            #![trigger self.owed(a, b)]
            self.linked(a, b) && !self.owed(a, b).content->seen.is_empty() ==> self.brings(
                letters,
                a,
                b,
            )
    }

    /// The net after the rounds `rounds`, one after another.
    pub open spec fn after(self, rounds: Seq<Seq<Letter<Content>>>) -> Net
        decreases rounds.len(),
    {
        if rounds.len() == 0 {
            self
        } else {
            self.after(rounds.drop_last()).run(rounds.last())
        }
    }

    /// Whether each of `rounds` is a round of gossip from the net that the
    /// rounds before it have left.
    pub open spec fn fair(self, rounds: Seq<Seq<Letter<Content>>>) -> bool
        decreases rounds.len(),
    {
        rounds.len() > 0 ==> self.fair(rounds.drop_last()) && self.after(rounds.drop_last()).round(
            rounds.last(),
        )
    }

    /// Whether `path` leads from neighbour to neighbour.
    pub open spec fn path(self, path: Seq<int>) -> bool {
        &&& path.len() > 0
        &&& 0 <= path[0] < self.states.len()
        &&& forall|k: int| 0 <= k < path.len() - 1 ==> self.linked(#[trigger] path[k], path[k + 1])
    }

    /// Whether `other` has the nodes of this net with the neighbours they
    /// have here, and every node has learned there all that it has learned
    /// here.
    pub open spec fn grown_into(self, other: Net) -> bool {
        &&& other.names == self.names
        &&& other.states.len() == self.states.len()
        &&& forall|i: int|
            0 <= i < self.states.len() ==> {
                &&& (#[trigger] self.states[i]).seen.subset_of(other.states[i].seen)
                &&& other.states[i].neighbours == self.states[i].neighbours
            }
    }
}

/// The gossip of a tick holds, for every neighbour for which there is news,
/// the letter owed to it, and holds nothing but gossip of what the node has
/// learned.
proof fn lemma_gossips(state: GossipModel, neighbours: Seq<Seq<char>>)
    ensures
        forall|k: int|
            0 <= k < neighbours.len() && !news_for(
                state.nodes,
                state.known,
                state.seen,
                #[trigger] neighbours[k],
            ).is_empty() ==> gossips(
                state.node,
                state.nodes,
                state.known,
                state.seen,
                neighbours,
            ).contains(
                Letter {
                    src: state.node,
                    dest: neighbours[k],
                    id: None,
                    in_reply_to: None,
                    content: Content::Gossip {
                        seen: news_for(state.nodes, state.known, state.seen, neighbours[k]),
                    },
                },
            ),
        forall|i: int|
            0 <= i < gossips(state.node, state.nodes, state.known, state.seen, neighbours).len()
                ==> {
                let letter = #[trigger] gossips(
                    state.node,
                    state.nodes,
                    state.known,
                    state.seen,
                    neighbours,
                )[i];
                &&& letter.src == state.node
                &&& letter.content is Gossip
                &&& letter.content->seen.subset_of(state.seen)
            },
    decreases neighbours.len(),
{
    if neighbours.len() > 0 {
        let all = gossips(state.node, state.nodes, state.known, state.seen, neighbours);
        let front = neighbours.drop_last();
        let before = gossips(state.node, state.nodes, state.known, state.seen, front);
        lemma_gossips(state, front);
        assert forall|k: int|
            0 <= k < neighbours.len() && !news_for(
                state.nodes,
                state.known,
                state.seen,
                #[trigger] neighbours[k],
            ).is_empty() implies all.contains(
            Letter {
                src: state.node,
                dest: neighbours[k],
                id: None,
                in_reply_to: None,
                content: Content::Gossip {
                    seen: news_for(state.nodes, state.known, state.seen, neighbours[k]),
                },
            },
        ) by {
            let wanted = Letter {
                src: state.node,
                dest: neighbours[k],
                id: None,
                in_reply_to: None,
                content: Content::Gossip {
                    seen: news_for(state.nodes, state.known, state.seen, neighbours[k]),
                },
            };
            if k == neighbours.len() - 1 {
                assert(all[all.len() - 1] == wanted);
            } else {
                assert(front[k] == neighbours[k]);
                let at = choose|i: int| 0 <= i < before.len() && before[i] == wanted;
                assert(all[at] == wanted);
            }
        }
        assert forall|i: int| 0 <= i < all.len() implies {
            let letter = #[trigger] all[i];
            &&& letter.src == state.node
            &&& letter.content is Gossip
            &&& letter.content->seen.subset_of(state.seen)
        } by {
            if i < before.len() {
                assert(all[i] == before[i]);
            }
        }
    }
}

/// A tick makes a round. The gossip that a node sends on a tick is honest,
/// and it holds what the node owes each neighbour for which it has news.
pub proof fn law_tick_sends_what_is_owed(net: Net, a: int, b: int)
    requires
        net.wf(),
        net.linked(a, b),
    ensures
        net.states[a].on_tick().result is Ok,
        forall|i: int|
            0 <= i < net.states[a].on_tick().result->Ok_0.len() ==> net.honest(
                #[trigger] net.states[a].on_tick().result->Ok_0[i],
            ),
        !net.owed(a, b).content->seen.is_empty() ==> net.states[a].on_tick().result->Ok_0.contains(
            net.owed(a, b),
        ) && net.brings(net.states[a].on_tick().result->Ok_0, a, b),
{
    let state = net.states[a];
    lemma_gossips(state, state.neighbours);
    assert(index_of(net.names, net.names[a]) == Some(a)) by {
        lemma_index_of(net.names, net.names[a]);
    }
    let k = choose|k: int| 0 <= k < state.neighbours.len() && state.neighbours[k] == net.names[b];
    assert(state.neighbours[k] == net.names[b]);
    let sent = state.on_tick().result->Ok_0;
    if !net.owed(a, b).content->seen.is_empty() {
        let at = choose|i: int| 0 <= i < sent.len() && sent[i] == net.owed(a, b);
        assert(sent[at].dest == net.names[b]);
    }
}

/// Delivering a letter takes nothing away: the nodes and their neighbours
/// stay, unless the letter assigns neighbours, and what a node has learned
/// it keeps.
pub proof fn lemma_deliver_keeps(net: Net, letter: Letter<Content>, i: int)
    requires
        0 <= i < net.states.len(),
        net.states.len() == net.names.len(),
    ensures
        net.deliver(letter).names == net.names,
        net.deliver(letter).states.len() == net.states.len(),
        net.states[i].seen.subset_of(net.deliver(letter).states[i].seen),
        net.deliver(letter).states[i].node == net.states[i].node,
        net.deliver(letter).states[i].nodes == net.states[i].nodes,
        !(letter.content is Topology) ==> net.deliver(letter).states[i].neighbours
            == net.states[i].neighbours,
        letter.content is Gossip && index_of(net.names, letter.dest) == Some(i) && index_of(
            net.states[i].nodes,
            letter.src,
        ) is Some ==> letter.content->seen.subset_of(net.deliver(letter).states[i].seen),
{
    lemma_index_of(net.names, letter.dest);
}

/// Honest gossip keeps a net in order: the net stays well-formed, a node
/// still knows what it is believed to know, and honest letters stay honest.
pub proof fn lemma_deliver_honest(net: Net, letter: Letter<Content>)
    requires
        net.wf(),
        net.trusted(),
        net.honest(letter),
    ensures
        net.deliver(letter).wf(),
        net.deliver(letter).trusted(),
        net.grown_into(net.deliver(letter)),
        forall|other: Letter<Content>| net.honest(other) ==> net.deliver(letter).honest(other),
{
    let next = net.deliver(letter);
    lemma_index_of(net.names, letter.dest);
    lemma_index_of(net.names, letter.src);
    let s = index_of(net.names, letter.src)->0;
    let carried = letter.content->seen;
    assert forall|i: int| 0 <= i < net.states.len() implies {
        &&& (#[trigger] net.states[i]).seen.subset_of(next.states[i].seen)
        &&& next.states[i].neighbours == net.states[i].neighbours
        &&& next.states[i].node == net.names[i]
        &&& next.states[i].nodes == net.names
        &&& next.states[i].wf()
    } by {
        lemma_deliver_keeps(net, letter, i);
    }
    assert forall|i: int| 0 <= i < next.states.len() implies {
        &&& (#[trigger] next.states[i]).node == next.names[i]
        &&& next.states[i].nodes == next.names
        &&& next.states[i].wf()
    } by {
        assert(net.states[i].seen.subset_of(next.states[i].seen));
    }
    assert forall|a: int, b: int|
        0 <= a < next.states.len() && 0 <= b < next.states.len() implies (
    #[trigger] next.states[a]).known[b].subset_of((#[trigger] next.states[b]).seen) by {
        assert(net.states[a].known[b].subset_of(net.states[b].seen));
        assert(net.states[b].seen.subset_of(next.states[b].seen));
        assert(net.states[s].seen.subset_of(next.states[s].seen));
        if index_of(net.names, letter.dest) == Some(a) && b == s {
            assert(next.states[a].known[b] == net.states[a].known[b].union(carried));
        } else {
            assert(next.states[a].known[b] == net.states[a].known[b]);
        }
    }
    assert forall|other: Letter<Content>| net.honest(other) implies next.honest(other) by {
        let o = index_of(net.names, other.src)->0;
        lemma_index_of(net.names, other.src);
        assert(net.states[o].seen.subset_of(next.states[o].seen));
    }
}

/// Gossip that is honest when it is delivered, however much of it, keeps a
/// net in order.
pub proof fn lemma_run_honest(net: Net, letters: Seq<Letter<Content>>)
    requires
        net.wf(),
        net.trusted(),
        net.proper(letters),
    ensures
        net.run(letters).wf(),
        net.run(letters).trusted(),
        net.grown_into(net.run(letters)),
        forall|other: Letter<Content>| net.honest(other) ==> net.run(letters).honest(other),
    decreases letters.len(),
{
    if letters.len() > 0 {
        let front = letters.drop_last();
        lemma_run_honest(net, front);
        let mid = net.run(front);
        lemma_deliver_honest(mid, letters.last());
        let end = mid.deliver(letters.last());
        assert forall|i: int| 0 <= i < net.states.len() implies {
            &&& (#[trigger] net.states[i]).seen.subset_of(end.states[i].seen)
            &&& end.states[i].neighbours == net.states[i].neighbours
        } by {
            assert(net.states[i].seen.subset_of(mid.states[i].seen));
            assert(mid.states[i].seen.subset_of(end.states[i].seen));
        }
    }
}

/// Once gossip has been delivered, the node it was for has learned what it
/// carried, whatever else was delivered before or after.
proof fn lemma_run_takes_in(net: Net, letters: Seq<Letter<Content>>, at: int)
    requires
        net.wf(),
        net.trusted(),
        net.proper(letters),
        0 <= at < letters.len(),
        index_of(net.names, letters[at].dest) is Some,
    ensures
        letters[at].content->seen.subset_of(
            net.run(letters).states[index_of(net.names, letters[at].dest)->0].seen,
        ),
    decreases letters.len(),
{
    let front = letters.drop_last();
    let d = index_of(net.names, letters[at].dest)->0;
    lemma_index_of(net.names, letters[at].dest);
    lemma_run_honest(net, front);
    let mid = net.run(front);
    lemma_deliver_honest(mid, letters.last());
    if at == letters.len() - 1 {
        lemma_index_of(mid.names, letters.last().src);
        lemma_deliver_keeps(mid, letters.last(), d);
    } else {
        lemma_run_takes_in(net, front, at);
        assert(front[at] == letters[at]);
        lemma_deliver_keeps(mid, letters.last(), d);
    }
}

/// A round carries everything over one link: after a round of gossip, a
/// neighbour has learned all that the node had learned when the round
/// began, whenever in the round the node gossiped and whatever else was
/// delivered.
pub proof fn law_round_crosses_a_link(net: Net, letters: Seq<Letter<Content>>, a: int, b: int)
    requires
        net.wf(),
        net.trusted(),
        net.round(letters),
        net.linked(a, b),
    ensures
        net.run(letters).wf(),
        net.run(letters).trusted(),
        net.grown_into(net.run(letters)),
        net.states[a].seen.subset_of(net.run(letters).states[b].seen),
{
    lemma_run_honest(net, letters);
    let end = net.run(letters);
    let from = net.states[a];
    let news = net.owed(a, b).content->seen;
    assert(index_of(net.names, net.names[b]) == Some(b)) by {
        lemma_index_of(net.names, net.names[b]);
    }
    assert(from.known[b].subset_of(net.states[b].seen));
    assert(net.states[b].seen.subset_of(end.states[b].seen));
    if !news.is_empty() {
        assert(net.brings(letters, a, b));
        let at = choose|k: int|
            0 <= k < letters.len() && (#[trigger] letters[k]).dest == net.names[b] && news.subset_of(
                letters[k].content->seen,
            );
        lemma_run_takes_in(net, letters, at);
    }
    assert forall|v: usize| from.seen.contains(v) implies end.states[b].seen.contains(v) by {
        if !from.known[b].contains(v) {
            assert(news.contains(v));
        }
    }
}

/// Fair rounds keep a net in order and take nothing away.
pub proof fn lemma_rounds_keep(net: Net, rounds: Seq<Seq<Letter<Content>>>)
    requires
        net.wf(),
        net.trusted(),
        net.fair(rounds),
    ensures
        net.after(rounds).wf(),
        net.after(rounds).trusted(),
        net.grown_into(net.after(rounds)),
    decreases rounds.len(),
{
    if rounds.len() > 0 {
        lemma_rounds_keep(net, rounds.drop_last());
        let mid = net.after(rounds.drop_last());
        lemma_run_honest(mid, rounds.last());
        let end = mid.run(rounds.last());
        assert forall|i: int| 0 <= i < net.states.len() implies {
            &&& (#[trigger] net.states[i]).seen.subset_of(end.states[i].seen)
            &&& end.states[i].neighbours == net.states[i].neighbours
        } by {
            assert(net.states[i].seen.subset_of(mid.states[i].seen));
            assert(mid.states[i].seen.subset_of(end.states[i].seen));
        }
    }
}

/// Gossip converges. In a net in which a node knows what it is believed to
/// know, a value that one node has learned is learned by every node that a
/// path of neighbours leads to, after as many fair rounds as the path has
/// links, or more; duplicated, reordered and belated letters do not matter.
/// Where the neighbours connect all nodes, every node learns every value.
pub proof fn law_gossip_converges(
    net: Net,
    rounds: Seq<Seq<Letter<Content>>>,
    path: Seq<int>,
    value: usize,
)
    requires
        net.wf(),
        net.trusted(),
        net.fair(rounds),
        net.path(path),
        rounds.len() >= path.len() - 1,
        net.states[path[0]].seen.contains(value),
    ensures
        0 <= path.last() < net.after(rounds).states.len(),
        net.after(rounds).states[path.last()].seen.contains(value),
    decreases rounds.len(),
{
    lemma_rounds_keep(net, rounds);
    if path.len() == 1 {
        assert(net.states[path[0]].seen.subset_of(net.after(rounds).states[path[0]].seen));
    } else {
        let earlier = rounds.drop_last();
        let mid = net.after(earlier);
        lemma_rounds_keep(net, earlier);
        let last = path.len() - 1;
        assert(net.linked(path[last - 1], path[last]));
        if rounds.len() > path.len() - 1 {
            law_gossip_converges(net, earlier, path, value);
            lemma_run_honest(mid, rounds.last());
            assert(mid.states[path[last]].seen.subset_of(
                mid.run(rounds.last()).states[path[last]].seen,
            ));
        } else {
            let shorter = path.drop_last();
            assert forall|k: int| 0 <= k < shorter.len() - 1 implies net.linked(
                #[trigger] shorter[k],
                shorter[k + 1],
            ) by {
                assert(net.linked(path[k], path[k + 1]));
            }
            law_gossip_converges(net, earlier, shorter, value);
            let a = path[last - 1];
            let b = path[last];
            assert(mid.states[a].neighbours == net.states[a].neighbours);
            assert(mid.linked(a, b));
            law_round_crosses_a_link(mid, rounds.last(), a, b);
        }
    }
}

impl Net {
    /// The net after the node `a` has learned `value` from a client.
    pub open spec fn observe(self, a: int, value: usize) -> Net {
        Net {
            names: self.names,
            states: self.states.update(
                a,
                GossipModel { seen: self.states[a].seen.insert(value), ..self.states[a] },
            ),
        }
    }
}

/// Nodes that believe nothing of each other are right in what they believe.
pub proof fn law_no_belief_is_trusted(net: Net)
    requires
        net.wf(),
        forall|a: int, b: int|
            0 <= a < net.states.len() && 0 <= b < net.states.len() ==> #[trigger] net.states[a].known[b]
                == Set::<usize>::empty(),
    ensures
        net.trusted(),
{
    assert forall|a: int, b: int|
        0 <= a < net.states.len() && 0 <= b < net.states.len() implies (
    #[trigger] net.states[a]).known[b].subset_of((#[trigger] net.states[b]).seen) by {
        assert(net.states[a].known[b] == Set::<usize>::empty());
    }
}

/// Learning a value from a client keeps a net in order: a node still knows
/// what it is believed to know, and honest letters stay honest.
pub proof fn law_observe_keeps_trust(net: Net, a: int, value: usize)
    requires
        net.wf(),
        net.trusted(),
        0 <= a < net.states.len(),
    ensures
        net.observe(a, value).wf(),
        net.observe(a, value).trusted(),
        net.grown_into(net.observe(a, value)),
        net.observe(a, value).states[a].seen.contains(value),
        forall|letter: Letter<Content>| net.honest(letter) ==> net.observe(a, value).honest(letter),
{
    let next = net.observe(a, value);
    assert forall|x: int, y: int|
        0 <= x < next.states.len() && 0 <= y < next.states.len() implies (
    #[trigger] next.states[x]).known[y].subset_of((#[trigger] next.states[y]).seen) by {
        assert(net.states[x].known[y].subset_of(net.states[y].seen));
    }
    assert forall|letter: Letter<Content>| net.honest(letter) implies next.honest(letter) by {
        lemma_index_of(net.names, letter.src);
    }
}

} // verus!

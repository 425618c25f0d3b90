//! How the counter of a whole fleet of nodes comes to one value.
//!
//! The fleet is every node's state. Messages may be delivered in any order,
//! any number of times, and late; what is proved here asks only that, once
//! the adding is over, every node is told the value of every other node's
//! shard at some time.

use crate::counter::{lemma_total_of_update, syncs, total, CounterModel, Payload};
use crate::message::Letter;
use crate::names::{distinct, index_of, lemma_index_of};
use vstd::prelude::*;

verus! {

/// The states of all nodes of a fleet, in the order of their names.
pub struct Fleet {
    pub names: Seq<Seq<char>>,
    pub states: Seq<CounterModel>,
}

impl Fleet {
    /// Every node has a name of its own and a state, and every state is
    /// that of the node at its place, among the nodes of this fleet.
    pub open spec fn wf(self) -> bool {
        &&& distinct(self.names)
        &&& self.states.len() == self.names.len()
        &&& forall|i: int|
            0 <= i < self.states.len() ==> {
                &&& (#[trigger] self.states[i]).node == self.names[i]
                &&& self.states[i].nodes == self.names
                &&& self.states[i].shards.len() == self.names.len()
            }
    }

    /// What the node `a` holds for the shard of the node `b`.
    pub open spec fn at(self, a: int, b: int) -> u64 {
        self.states[a].shards[b]
    }

    /// The value of each node's shard at the node itself.
    pub open spec fn truth(self) -> Seq<u64> {
        Seq::new(self.states.len(), |i: int| self.states[i].shards[i])
    }

    /// No node holds more for a shard than the shard's own node does.
    pub open spec fn faithful(self) -> bool {
        forall|a: int, b: int|
            0 <= a < self.states.len() && 0 <= b < self.states.len() ==> #[trigger] self.at(a, b)
                <= self.at(b, b)
    }

    /// Whether `letter` is a `Sync` that its sender may have sent: the
    /// sender is a node, and its shard has reached the value told.
    pub open spec fn honest(self, letter: Letter<Payload>) -> bool {
        &&& letter.content is Sync
        &&& index_of(self.names, letter.src) is Some
        &&& letter.content->Sync_value <= self.truth()[index_of(self.names, letter.src)->0]
    }

    /// The fleet after `letter` has reached the node it is for. A letter
    /// for no node of the fleet changes nothing.
    pub open spec fn deliver(self, letter: Letter<Payload>) -> Fleet {
        match index_of(self.names, letter.dest) {
            Some(d) => Fleet {
                names: self.names,
                states: self.states.update(d, self.states[d].on_letter(letter).state),
            },
            None => self,
        }
    }

    /// The fleet after each of `letters` was delivered in turn.
    pub open spec fn run(self, letters: Seq<Letter<Payload>>) -> Fleet
        decreases letters.len(),
    {
        if letters.len() == 0 {
            self
        } else {
            self.run(letters.drop_last()).deliver(letters.last())
        }
    }

    /// The fleet after the node `a` has added `delta` to its shard.
    pub open spec fn add(self, a: int, delta: u64) -> Fleet {
        Fleet { names: self.names, states: self.states.update(a, self.states[a].adding(delta)) }
    }

    /// The `Sync` by which the node `a` tells the node `b` the value of
    /// its shard.
    pub open spec fn owed(self, a: int, b: int) -> Letter<Payload> {
        Letter {
            src: self.names[a],
            dest: self.names[b],
            id: None,
            in_reply_to: None,
            content: Payload::Sync { value: self.states[a].shards[a] },
        }
    }

    /// Whether `letters` tells every node the value of every other node's
    /// shard, among honest letters only.
    pub open spec fn told(self, letters: Seq<Letter<Payload>>) -> bool {
        &&& forall|k: int| 0 <= k < letters.len() ==> self.honest(#[trigger] letters[k])
        &&& forall|a: int, b: int|
            #![trigger self.owed(a, b)]
            0 <= a < self.states.len() && 0 <= b < self.states.len() && a != b
                ==> letters.contains(self.owed(a, b))
    }
}

/// Every node of a well-formed fleet stands first under its name.
proof fn lemma_places(fleet: Fleet, i: int)
    requires
        fleet.wf(),
        0 <= i < fleet.states.len(),
    ensures
        index_of(fleet.names, fleet.names[i]) == Some(i),
        fleet.states[i].wf(),
        fleet.states[i].me() == i,
{
    lemma_index_of(fleet.names, fleet.names[i]);
}

/// An add keeps a fleet in order. After a node has added to its own shard,
/// no node holds more for a shard than the shard's own node, letters that
/// were honest are honest still, and only that one shard has changed.
pub proof fn law_add_keeps_faithful(fleet: Fleet, a: int, delta: u64)
    requires
        fleet.wf(),
        fleet.faithful(),
        0 <= a < fleet.states.len(),
        fleet.states[a].shards[a] + delta <= u64::MAX,
    ensures
        fleet.add(a, delta).wf(),
        fleet.add(a, delta).faithful(),
        fleet.add(a, delta).truth() == fleet.truth().update(
            a,
            (fleet.truth()[a] + delta) as u64,
        ),
        total(fleet.add(a, delta).truth()) == total(fleet.truth()) + delta,
        forall|letter: Letter<Payload>|
            fleet.honest(letter) ==> fleet.add(a, delta).honest(letter),
{
    let next = fleet.add(a, delta);
    lemma_places(fleet, a);
    assert forall|x: int, y: int|
        0 <= x < next.states.len() && 0 <= y < next.states.len() implies #[trigger] next.at(x, y)
        <= next.at(y, y) by {
        assert(fleet.at(x, y) <= fleet.at(y, y));
    }
    assert(next.truth() =~= fleet.truth().update(a, (fleet.truth()[a] + delta) as u64));
    lemma_total_of_update(fleet.truth(), a, (fleet.truth()[a] + delta) as u64);
    assert forall|letter: Letter<Payload>| fleet.honest(letter) implies next.honest(letter) by {
        lemma_index_of(fleet.names, letter.src);
    }
}

/// An honest `Sync` keeps a fleet in order and lowers nothing: the shards'
/// own values stay, no shard anywhere goes down, and the node that the
/// letter is for holds at least the value told for the sender's shard.
pub proof fn lemma_deliver_honest(fleet: Fleet, letter: Letter<Payload>)
    requires
        fleet.wf(),
        fleet.faithful(),
        fleet.honest(letter),
    ensures
        fleet.deliver(letter).wf(),
        fleet.deliver(letter).faithful(),
        fleet.deliver(letter).truth() == fleet.truth(),
        forall|x: int, y: int|
            0 <= x < fleet.states.len() && 0 <= y < fleet.states.len() ==> fleet.at(x, y)
                <= #[trigger] fleet.deliver(letter).at(x, y),
        index_of(fleet.names, letter.dest) is Some ==> fleet.deliver(letter).states[index_of(
            fleet.names,
            letter.dest,
        )->0].shards[index_of(fleet.names, letter.src)->0] >= letter.content->Sync_value,
{
    let next = fleet.deliver(letter);
    lemma_index_of(fleet.names, letter.dest);
    lemma_index_of(fleet.names, letter.src);
    let s = index_of(fleet.names, letter.src)->0;
    assert(fleet.truth()[s] == fleet.states[s].shards[s]);
    assert forall|x: int, y: int|
        0 <= x < fleet.states.len() && 0 <= y < fleet.states.len() implies {
        &&& fleet.at(x, y) <= #[trigger] next.at(x, y)
        &&& next.at(x, y) <= fleet.at(y, y)
        &&& next.states[x].shards.len() == fleet.names.len()
    } by {
        assert(fleet.at(x, y) <= fleet.at(y, y));
    }
    assert forall|i: int| 0 <= i < next.states.len() implies {
        &&& (#[trigger] next.states[i]).node == next.names[i]
        &&& next.states[i].nodes == next.names
        &&& next.states[i].shards.len() == next.names.len()
    } by {
        assert(fleet.states[i].node == fleet.names[i]);
    }
    assert forall|i: int| 0 <= i < next.states.len() implies next.truth()[i]
        == fleet.truth()[i] by {
        assert(fleet.at(i, i) <= next.at(i, i));
        assert(next.at(i, i) <= fleet.at(i, i));
    }
    assert(next.truth() =~= fleet.truth());
    assert forall|x: int, y: int|
        0 <= x < next.states.len() && 0 <= y < next.states.len() implies #[trigger] next.at(x, y)
        <= next.at(y, y) by {
        assert(next.at(x, y) <= fleet.at(y, y));
        assert(fleet.at(y, y) <= next.at(y, y));
    }
}

/// Honest letters, however many, keep a fleet in order and lower nothing.
pub proof fn lemma_run_honest(fleet: Fleet, letters: Seq<Letter<Payload>>)
    requires
        fleet.wf(),
        fleet.faithful(),
        forall|k: int| 0 <= k < letters.len() ==> fleet.honest(#[trigger] letters[k]),
    ensures
        fleet.run(letters).wf(),
        fleet.run(letters).faithful(),
        fleet.run(letters).names == fleet.names,
        fleet.run(letters).truth() == fleet.truth(),
        forall|x: int, y: int|
            0 <= x < fleet.states.len() && 0 <= y < fleet.states.len() ==> fleet.at(x, y)
                <= #[trigger] fleet.run(letters).at(x, y),
    decreases letters.len(),
{
    if letters.len() > 0 {
        let front = letters.drop_last();
        assert forall|k: int| 0 <= k < front.len() implies fleet.honest(#[trigger] front[k]) by {
            assert(front[k] == letters[k]);
        }
        lemma_run_honest(fleet, front);
        let mid = fleet.run(front);
        assert(fleet.honest(letters[letters.len() - 1]));
        assert(mid.honest(letters.last()));
        lemma_deliver_honest(mid, letters.last());
        let end = mid.deliver(letters.last());
        assert forall|x: int, y: int|
            0 <= x < fleet.states.len() && 0 <= y < fleet.states.len() implies fleet.at(x, y)
            <= #[trigger] end.at(x, y) by {
            assert(fleet.at(x, y) <= mid.at(x, y));
            assert(mid.at(x, y) <= end.at(x, y));
        }
    }
}

/// Once an honest `Sync` has been delivered, the node it was for holds at
/// least the value told, whatever else was delivered before or after.
proof fn lemma_run_takes_in(fleet: Fleet, letters: Seq<Letter<Payload>>, at: int)
    requires
        fleet.wf(),
        fleet.faithful(),
        forall|k: int| 0 <= k < letters.len() ==> fleet.honest(#[trigger] letters[k]),
        0 <= at < letters.len(),
        index_of(fleet.names, letters[at].dest) is Some,
    ensures
        fleet.run(letters).states[index_of(fleet.names, letters[at].dest)->0].shards[index_of(
            fleet.names,
            letters[at].src,
        )->0] >= letters[at].content->Sync_value,
    decreases letters.len(),
{
    let front = letters.drop_last();
    let d = index_of(fleet.names, letters[at].dest)->0;
    let s = index_of(fleet.names, letters[at].src)->0;
    lemma_index_of(fleet.names, letters[at].dest);
    lemma_index_of(fleet.names, letters[at].src);
    assert forall|k: int| 0 <= k < front.len() implies fleet.honest(#[trigger] front[k]) by {
        assert(front[k] == letters[k]);
    }
    lemma_run_honest(fleet, front);
    let mid = fleet.run(front);
    assert(fleet.honest(letters[letters.len() - 1]));
    assert(fleet.honest(letters[at]));
    assert(mid.honest(letters.last()));
    lemma_deliver_honest(mid, letters.last());
    if at < letters.len() - 1 {
        lemma_run_takes_in(fleet, front, at);
        assert(front[at] == letters[at]);
        assert(mid.at(d, s) <= mid.deliver(letters.last()).at(d, s));
    }
}

/// The counter converges. In a fleet in which no node holds more for a
/// shard than the shard's own node, let every node be told the value of
/// every other node's shard, among any honest letters, in any order and any
/// number of times. Then every node holds every shard at its true value,
/// and the counter reads at every node as the sum of all shards.
pub proof fn law_fleet_converges(fleet: Fleet, letters: Seq<Letter<Payload>>, b: int)
    requires
        fleet.wf(),
        fleet.faithful(),
        fleet.told(letters),
        0 <= b < fleet.states.len(),
    ensures
        fleet.run(letters).states[b].shards == fleet.truth(),
        fleet.run(letters).states[b].value() == total(fleet.truth()),
        fleet.run(letters).truth() == fleet.truth(),
{
    lemma_run_honest(fleet, letters);
    let end = fleet.run(letters);
    assert forall|a: int| 0 <= a < fleet.states.len() implies end.states[b].shards[a]
        == fleet.truth()[a] by {
        assert(end.truth()[a] == end.at(a, a));
        assert(end.at(b, a) <= end.at(a, a));
        if a == b {
        } else {
            let at = choose|k: int| 0 <= k < letters.len() && letters[k] == fleet.owed(a, b);
            lemma_places(fleet, a);
            lemma_places(fleet, b);
            lemma_run_takes_in(fleet, letters, at);
        }
    }
    assert(end.states[b].shards.len() == fleet.names.len());
    assert(end.states[b].shards =~= fleet.truth());
}

/// The syncs of a tick hold a letter for every node of another name, and
/// hold nothing but the value given, sent in the node's name.
proof fn lemma_syncs(node: Seq<char>, nodes: Seq<Seq<char>>, value: u64)
    ensures
        forall|k: int|
            0 <= k < nodes.len() && #[trigger] nodes[k] != node ==> syncs(node, nodes, value).contains(
                Letter {
                    src: node,
                    dest: nodes[k],
                    id: None,
                    in_reply_to: None,
                    content: Payload::Sync { value },
                },
            ),
        forall|i: int|
            0 <= i < syncs(node, nodes, value).len() ==> {
                let letter = #[trigger] syncs(node, nodes, value)[i];
                &&& letter.src == node
                &&& letter.content == Payload::Sync { value }
            },
    decreases nodes.len(),
{
    if nodes.len() > 0 {
        let all = syncs(node, nodes, value);
        let front = nodes.drop_last();
        let before = syncs(node, front, value);
        lemma_syncs(node, front, value);
        assert forall|k: int| 0 <= k < nodes.len() && #[trigger] nodes[k] != node implies all.contains(
            Letter {
                src: node,
                dest: nodes[k],
                id: None,
                in_reply_to: None,
                content: Payload::Sync { value },
            },
        ) by {
            let wanted = Letter {
                src: node,
                dest: nodes[k],
                id: None,
                in_reply_to: None,
                content: Payload::Sync { value },
            };
            if k == nodes.len() - 1 {
                assert(all[all.len() - 1] == wanted);
            } else {
                assert(front[k] == nodes[k]);
                let at = choose|i: int| 0 <= i < before.len() && before[i] == wanted;
                assert(all[at] == wanted);
            }
        }
        assert forall|i: int| 0 <= i < all.len() implies {
            let letter = #[trigger] all[i];
            &&& letter.src == node
            &&& letter.content == Payload::Sync { value }
        } by {
            if i < before.len() {
                assert(all[i] == before[i]);
            }
        }
    }
}

/// A tick tells the others. What a node sends on a tick is honest, and it
/// holds the `Sync` that the node owes each other node.
pub proof fn law_tick_tells_the_others(fleet: Fleet, a: int, b: int)
    requires
        fleet.wf(),
        0 <= a < fleet.states.len(),
        0 <= b < fleet.states.len(),
        a != b,
    ensures
        fleet.states[a].on_tick().result is Ok,
        forall|i: int|
            0 <= i < fleet.states[a].on_tick().result->Ok_0.len() ==> fleet.honest(
                #[trigger] fleet.states[a].on_tick().result->Ok_0[i],
            ),
        fleet.states[a].on_tick().result->Ok_0.contains(fleet.owed(a, b)),
{
    let state = fleet.states[a];
    lemma_places(fleet, a);
    lemma_syncs(state.node, state.nodes, state.own());
    assert(fleet.names[b] != fleet.names[a]);
    assert(state.nodes[b] != state.node);
}

/// A fleet whose shards are all 0 is faithful, and its counter reads 0.
pub proof fn law_fresh_fleet_is_faithful(fleet: Fleet)
    requires
        fleet.wf(),
        forall|a: int, b: int|
            0 <= a < fleet.states.len() && 0 <= b < fleet.states.len() ==> #[trigger] fleet.at(a, b)
                == 0,
    ensures
        fleet.faithful(),
        total(fleet.truth()) == 0,
{
    assert forall|a: int, b: int|
        0 <= a < fleet.states.len() && 0 <= b < fleet.states.len() implies #[trigger] fleet.at(a, b)
        <= fleet.at(b, b) by {
        assert(fleet.at(b, b) == 0);
    }
    lemma_total_of_zeros(fleet.truth());
    assert forall|i: int| 0 <= i < fleet.truth().len() implies fleet.truth()[i] == 0 by {
        assert(fleet.at(i, i) == 0);
    }
}

/// The sum of zeros is 0.
proof fn lemma_total_of_zeros(shards: Seq<u64>)
    ensures
        (forall|i: int| 0 <= i < shards.len() ==> shards[i] == 0) ==> total(shards) == 0,
    decreases shards.len(),
{
    if shards.len() > 0 {
        lemma_total_of_zeros(shards.drop_last());
        if forall|i: int| 0 <= i < shards.len() ==> shards[i] == 0 {
            assert forall|i: int| 0 <= i < shards.drop_last().len() implies shards.drop_last()[i]
                == 0 by {
                assert(shards[i] == 0);
            }
            assert(shards.last() == shards[shards.len() - 1]);
        }
    }
}

} // verus!

//! Several appends to one log at once, against a linearizable store.
//!
//! The store carries out one request at a time, so a run of concurrent
//! appends is a sequence of turns. In a turn the store takes the outstanding
//! request of one append, and that append goes on with the answer; or the
//! store takes a request of somebody else, to a key that is none of the
//! log's. Between the answer to one request and its next request an append
//! does nothing but compute, so it makes no difference to anyone else when
//! the answer reaches it. What is proved here holds of every such sequence.

use crate::poll::{batch, law_batch_in_order, law_batch_misses_nothing, POLL_BATCH};
use crate::send::{Phase, Progress, SendModel};
use crate::store::{
    accepts, after, answer, entry_name, latest_name, lemma_entry_names_differ,
    lemma_latest_is_no_entry, Contents, Op,
};
use vstd::prelude::*;

verus! {

/// One of the appends of a run.
pub enum Claimant {
    /// A request of the append is outstanding.
    Busy(SendModel),
    /// The append is complete: `value` stands at `offset`.
    Done { value: i64, offset: i64 },
    /// The append gave up because the offsets ran out.
    Stopped,
    /// The append gave up because of an answer that it cannot go on from.
    Failed,
}

/// Whose request the store takes next.
pub enum Turn {
    /// The outstanding request of the append at this place.
    Append(int),
    /// A request of somebody else.
    Other(Op),
}

/// Whether `op` leaves the log `key` alone: its key is neither where the
/// log's latest offset is kept nor where any of its entries is.
pub open spec fn foreign(key: Seq<char>, op: Op) -> bool {
    &&& op.key() != latest_name(key)
    &&& forall|offset: int| op.key() != #[trigger] entry_name(key, offset)
}

/// Whether every request of somebody else in `schedule` leaves the log
/// `key` alone.
pub open spec fn calm(key: Seq<char>, schedule: Seq<Turn>) -> bool {
    forall|k: int|
        0 <= k < schedule.len() ==> ((#[trigger] schedule[k]) matches Turn::Other(op) ==> foreign(
            key,
            op,
        ))
}

/// The store and the appends that work on it.
pub struct World {
    pub held: Contents,
    pub claimants: Seq<Claimant>,
}

impl Claimant {
    /// What `progress` makes of the append of `value`.
    pub open spec fn settle(progress: Progress, value: i64) -> Claimant {
        match progress {
            Progress::Ask(next) => Claimant::Busy(next),
            Progress::Done(offset) => Claimant::Done { value, offset },
            Progress::Exhausted => Claimant::Stopped,
            Progress::Failed => Claimant::Failed,
        }
    }

    /// The offset that the append has claimed, once its claim has succeeded.
    pub open spec fn claimed(self) -> Option<i64> {
        match self {
            Claimant::Busy(op) => match op.phase {
                Phase::Record { offset } => Some(offset),
                Phase::Confirm { offset } => Some(offset),
                Phase::Raise { offset, .. } => Some(offset),
                _ => None,
            },
            Claimant::Done { offset, .. } => Some(offset),
            Claimant::Stopped => None,
            Claimant::Failed => None,
        }
    }

    /// The offset of the append, once the store has acknowledged the write
    /// of its value.
    pub open spec fn recorded(self) -> Option<i64> {
        match self {
            Claimant::Busy(op) => match op.phase {
                Phase::Confirm { offset } => Some(offset),
                Phase::Raise { offset, .. } => Some(offset),
                _ => None,
            },
            Claimant::Done { offset, .. } => Some(offset),
            Claimant::Stopped => None,
            Claimant::Failed => None,
        }
    }

    /// The value that the append carries.
    pub open spec fn carried(self) -> Option<i64> {
        match self {
            Claimant::Busy(op) => Some(op.value),
            Claimant::Done { value, .. } => Some(value),
            Claimant::Stopped => None,
            Claimant::Failed => None,
        }
    }
}

impl World {
    /// A store that holds `held`, and one append to the log `key` for each
    /// of `values`, none of which has had an answer yet.
    pub open spec fn start(held: Contents, key: Seq<char>, values: Seq<i64>) -> World {
        World {
            held,
            claimants: Seq::new(
                values.len(),
                |i: int| Claimant::Busy(SendModel::fresh(key, values[i])),
            ),
        }
    }

    /// One turn: the store carries out the outstanding request of the
    /// append `i`, and that append goes on with the answer. A turn of an
    /// append that is not busy changes nothing.
    pub open spec fn turn(self, i: int) -> World {
        if 0 <= i < self.claimants.len() && self.claimants[i] is Busy {
            let op = self.claimants[i]->Busy_0;
            let request = op.pending();
            World {
                held: after(self.held, request),
                claimants: self.claimants.update(
                    i,
                    Claimant::settle(op.advance(answer(self.held, request)), op.value),
                ),
            }
        } else {
            self
        }
    }

    /// The world after the store has taken the request that `turn` names.
    pub open spec fn step(self, turn: Turn) -> World {
        match turn {
            Turn::Append(i) => self.turn(i),
            Turn::Other(op) => World { held: after(self.held, op), claimants: self.claimants },
        }
    }

    /// The world after the turns of `schedule`, in order.
    pub open spec fn run(self, schedule: Seq<Turn>) -> World
        decreases schedule.len(),
    {
        if schedule.len() == 0 {
            self
        } else {
            self.run(schedule.drop_last()).step(schedule.last())
        }
    }

    /// What holds of every world that a run of appends to the log `key`
    /// reaches: every claimed offset is at most the latest offset in the
    /// store, no offset is claimed twice, and every acknowledged value
    /// stands in the store under its offset.
    pub open spec fn sound(self, key: Seq<char>) -> bool {
        &&& forall|i: int|
            0 <= i < self.claimants.len() && (#[trigger] self.claimants[i]) is Busy ==> {
                &&& self.claimants[i]->Busy_0.key == key
                &&& self.claimants[i]->Busy_0.wf()
                &&& self.claimants[i]->Busy_0.phase matches Phase::Raise { offset, seen } ==> seen
                    < offset
            }
        &&& forall|i: int|
            0 <= i < self.claimants.len() && (#[trigger] self.claimants[i]).claimed() is Some ==> {
                &&& self.held.contains_key(latest_name(key))
                &&& self.claimants[i].claimed()->0 <= self.held[latest_name(key)]
            }
        &&& forall|i: int, j: int|
            0 <= i < self.claimants.len() && 0 <= j < self.claimants.len() && i != j && (
            #[trigger] self.claimants[i]).claimed() is Some && (
            #[trigger] self.claimants[j]).claimed() is Some ==> self.claimants[i].claimed()
                != self.claimants[j].claimed()
        &&& forall|i: int|
            0 <= i < self.claimants.len() && (#[trigger] self.claimants[i]).recorded() is Some ==> {
                let offset = self.claimants[i].recorded()->0;
                &&& self.held.contains_key(entry_name(key, offset as int))
                &&& Some(self.held[entry_name(key, offset as int)]) == self.claimants[i].carried()
            }
    }
}

/// Appends that have had no answer yet make a sound world, whatever the
/// store holds.
pub proof fn lemma_start_sound(held: Contents, key: Seq<char>, values: Seq<i64>)
    ensures
        World::start(held, key, values).sound(key),
{
}

/// A turn keeps a sound world sound.
pub proof fn lemma_turn_sound(w: World, key: Seq<char>, i: int)
    requires
        w.sound(key),
    ensures
        w.turn(i).sound(key),
{
    if 0 <= i < w.claimants.len() && w.claimants[i] is Busy {
        let op = w.claimants[i]->Busy_0;
        let request = op.pending();
        let next = w.turn(i);
        let latest = latest_name(key);
        assert(next.claimants.len() == w.claimants.len());
        assert(forall|j: int|
            0 <= j < w.claimants.len() && j != i ==> next.claimants[j] == w.claimants[j]);
        assert forall|o: int| latest != #[trigger] entry_name(key, o) by {
            lemma_latest_is_no_entry(key, o);
        }
        match op.phase {
            Phase::Locate => {
                assert(next.held == w.held);
            },
            Phase::Claim { candidate } => {
                if accepts(w.held, request) {
                    assert(next.held == w.held.insert(latest, candidate));
                    assert(next.claimants[i].claimed() == Some(candidate));
                    assert forall|j: int|
                        0 <= j < w.claimants.len() && j != i && (
                        #[trigger] w.claimants[j]).claimed() is Some implies w.claimants[j].claimed()->0
                        < candidate by {
                        assert(w.held.contains_key(latest));
                    }
                } else {
                    assert(next.held == w.held);
                }
            },
            Phase::Record { offset } => {
                let name = entry_name(key, offset as int);
                assert(next.held == w.held.insert(name, op.value));
                assert(w.claimants[i].claimed() == Some(offset));
                assert forall|j: int|
                    0 <= j < w.claimants.len() && j != i && (
                    #[trigger] w.claimants[j]).recorded() is Some implies entry_name(
                    key,
                    w.claimants[j].recorded()->0 as int,
                ) != name by {
                    let other = w.claimants[j].recorded()->0;
                    assert(w.claimants[j].claimed() == Some(other));
                    lemma_entry_names_differ(key, other as int, offset as int);
                }
            },
            Phase::Confirm { offset } => {
                assert(next.held == w.held);
                assert(w.claimants[i].claimed() == Some(offset));
            },
            Phase::Raise { offset, seen } => {
                assert(w.claimants[i].claimed() == Some(offset));
                assert(!accepts(w.held, request));
                assert(next.held == w.held);
            },
        }
    }
}

/// A request of somebody else that leaves the log alone keeps a sound world
/// sound, and a grounded world grounded.
pub proof fn lemma_other_sound(w: World, key: Seq<char>, op: Op)
    requires
        w.sound(key),
        foreign(key, op),
    ensures
        w.step(Turn::Other(op)).sound(key),
        w.grounded(key) ==> w.step(Turn::Other(op)).grounded(key),
        w.step(Turn::Other(op)).claimants == w.claimants,
        w.step(Turn::Other(op)).latest(key) == w.latest(key),
{
    let next = w.step(Turn::Other(op));
    assert(next.held.contains_key(latest_name(key)) == w.held.contains_key(latest_name(key)));
    assert forall|i: int|
        0 <= i < next.claimants.len() && (#[trigger] next.claimants[i]).recorded() is Some implies {
        let offset = next.claimants[i].recorded()->0;
        &&& next.held.contains_key(entry_name(key, offset as int))
        &&& Some(next.held[entry_name(key, offset as int)]) == next.claimants[i].carried()
    } by {
        let offset = w.claimants[i].recorded()->0;
        assert(op.key() != entry_name(key, offset as int));
    }
}

/// The part of a calm schedule before its last turn is calm.
pub proof fn lemma_calm_front(key: Seq<char>, schedule: Seq<Turn>)
    requires
        calm(key, schedule),
        schedule.len() > 0,
    ensures
        calm(key, schedule.drop_last()),
        schedule.last() matches Turn::Other(op) ==> foreign(key, op),
{
    let front = schedule.drop_last();
    assert forall|k: int| 0 <= k < front.len() implies ((#[trigger] front[k]) matches Turn::Other(
        op,
    ) ==> foreign(key, op)) by {
        assert(front[k] == schedule[k]);
    }
    assert(schedule.last() == schedule[schedule.len() - 1]);
}

/// Offsets are given out in increasing order. An offset that is claimed in
/// a sound world is higher than every offset claimed before.
pub proof fn law_later_claims_are_higher(w: World, key: Seq<char>, i: int, j: int)
    requires
        w.sound(key),
        0 <= i < w.claimants.len(),
        0 <= j < w.claimants.len(),
        i != j,
        w.claimants[i].claimed() is None,
        w.turn(i).claimants[i].claimed() is Some,
        w.claimants[j].claimed() is Some,
    ensures
        w.turn(i).claimants[i].claimed()->0 > w.claimants[j].claimed()->0,
        w.turn(i).claimants[j] == w.claimants[j],
{
    assert(w.held.contains_key(latest_name(key)));
}

/// Every world that a run reaches from a sound world is sound.
pub proof fn lemma_run_sound(w: World, key: Seq<char>, schedule: Seq<Turn>)
    requires
        w.sound(key),
        calm(key, schedule),
    ensures
        w.run(schedule).sound(key),
    decreases schedule.len(),
{
    if schedule.len() > 0 {
        lemma_calm_front(key, schedule);
        lemma_run_sound(w, key, schedule.drop_last());
        match schedule.last() {
            Turn::Append(i) => lemma_turn_sound(w.run(schedule.drop_last()), key, i),
            Turn::Other(op) => lemma_other_sound(w.run(schedule.drop_last()), key, op),
        }
    }
}

/// No offset is given out twice. However the turns of any number of
/// concurrent appends to one log fall, and whatever the store held before,
/// two appends whose claims have succeeded hold different offsets.
pub proof fn law_offsets_distinct(
    held: Contents,
    key: Seq<char>,
    values: Seq<i64>,
    schedule: Seq<Turn>,
    a: int,
    b: int,
)
    requires
        calm(key, schedule),
        0 <= a < values.len(),
        0 <= b < values.len(),
        a != b,
    ensures
        ({
            let end = World::start(held, key, values).run(schedule);
            &&& end.claimants.len() == values.len()
            &&& end.claimants[a].claimed() is Some && end.claimants[b].claimed() is Some
                ==> end.claimants[a].claimed() != end.claimants[b].claimed()
        }),
{
    let begin = World::start(held, key, values);
    lemma_start_sound(held, key, values);
    lemma_run_sound(begin, key, schedule);
    lemma_run_keeps_count(begin, schedule);
    let end = begin.run(schedule);
    assert(end.sound(key));
}

/// A run neither adds nor drops an append.
pub proof fn lemma_run_keeps_count(w: World, schedule: Seq<Turn>)
    ensures
        w.run(schedule).claimants.len() == w.claimants.len(),
    decreases schedule.len(),
{
    if schedule.len() > 0 {
        lemma_run_keeps_count(w, schedule.drop_last());
    }
}

/// Nothing is lost. However the turns of any number of concurrent appends to
/// one log fall, every append that is complete finds its value in the store
/// under the offset it was given, and that offset is at most the latest
/// offset that the store holds for the log.
pub proof fn law_completed_appends_stand(
    held: Contents,
    key: Seq<char>,
    values: Seq<i64>,
    schedule: Seq<Turn>,
    a: int,
)
    requires
        calm(key, schedule),
        0 <= a < values.len(),
    ensures
        ({
            let end = World::start(held, key, values).run(schedule);
            &&& end.claimants.len() == values.len()
            &&& end.claimants[a] matches Claimant::Done { value, offset } ==> {
                &&& value == values[a]
                &&& end.held.contains_key(entry_name(key, offset as int))
                &&& end.held[entry_name(key, offset as int)] == value
                &&& end.held.contains_key(latest_name(key))
                &&& offset <= end.held[latest_name(key)]
            }
        }),
{
    let begin = World::start(held, key, values);
    lemma_start_sound(held, key, values);
    lemma_run_sound(begin, key, schedule);
    lemma_run_keeps_count(begin, schedule);
    lemma_run_keeps_values(held, key, values, schedule, a);
    let end = begin.run(schedule);
    assert(end.sound(key));
    if end.claimants[a] is Done {
        assert(end.claimants[a].recorded() is Some);
        assert(end.claimants[a].claimed() is Some);
    }
}

/// An append carries the value it was started with to its end.
pub proof fn lemma_run_keeps_values(
    held: Contents,
    key: Seq<char>,
    values: Seq<i64>,
    schedule: Seq<Turn>,
    a: int,
)
    requires
        0 <= a < values.len(),
    ensures
        ({
            let end = World::start(held, key, values).run(schedule);
            &&& end.claimants.len() == values.len()
            &&& end.claimants[a].carried() is Some ==> end.claimants[a].carried() == Some(values[a])
        }),
    decreases schedule.len(),
{
    let begin = World::start(held, key, values);
    lemma_run_keeps_count(begin, schedule);
    if schedule.len() > 0 {
        lemma_run_keeps_values(held, key, values, schedule.drop_last(), a);
        lemma_run_keeps_count(begin, schedule.drop_last());
    }
}

impl World {
    /// Offsets begin at 0: the latest offset in the store is -1 at the
    /// least, and every claimed offset is 0 at the least.
    pub open spec fn grounded(self, key: Seq<char>) -> bool {
        &&& self.held.contains_key(latest_name(key)) ==> self.held[latest_name(key)] >= -1
        &&& forall|i: int|
            0 <= i < self.claimants.len() && (#[trigger] self.claimants[i]).claimed() is Some
                ==> self.claimants[i].claimed()->0 >= 0
    }
}

/// A turn keeps a sound and grounded world grounded.
pub proof fn lemma_turn_grounded(w: World, key: Seq<char>, i: int)
    requires
        w.sound(key),
        w.grounded(key),
    ensures
        w.turn(i).grounded(key),
{
    if 0 <= i < w.claimants.len() && w.claimants[i] is Busy {
        let op = w.claimants[i]->Busy_0;
        let next = w.turn(i);
        assert(forall|j: int|
            0 <= j < w.claimants.len() && j != i ==> next.claimants[j] == w.claimants[j]);
        assert forall|o: int| latest_name(key) != #[trigger] entry_name(key, o) by {
            lemma_latest_is_no_entry(key, o);
        }
        match op.phase {
            Phase::Record { offset } => {
                assert(w.claimants[i].claimed() == Some(offset));
            },
            Phase::Confirm { offset } => {
                assert(w.claimants[i].claimed() == Some(offset));
            },
            Phase::Raise { offset, .. } => {
                assert(w.claimants[i].claimed() == Some(offset));
            },
            _ => {},
        }
    }
}

/// Offsets begin at 0. Where the store holds no latest offset for the log
/// before the appends begin, or one that is -1 at the least, no append is
/// ever given an offset below 0, however the turns fall.
pub proof fn law_offsets_from_zero(
    held: Contents,
    key: Seq<char>,
    values: Seq<i64>,
    schedule: Seq<Turn>,
    a: int,
)
    requires
        calm(key, schedule),
        0 <= a < values.len(),
        held.contains_key(latest_name(key)) ==> held[latest_name(key)] >= -1,
    ensures
        ({
            let end = World::start(held, key, values).run(schedule);
            &&& end.claimants.len() == values.len()
            &&& end.claimants[a].claimed() is Some ==> end.claimants[a].claimed()->0 >= 0
        }),
    decreases schedule.len(),
{
    let begin = World::start(held, key, values);
    lemma_run_keeps_count(begin, schedule);
    lemma_start_sound(held, key, values);
    lemma_run_grounded(begin, key, schedule);
}

/// Every world that a run reaches from a sound and grounded world is
/// grounded.
pub proof fn lemma_run_grounded(w: World, key: Seq<char>, schedule: Seq<Turn>)
    requires
        w.sound(key),
        w.grounded(key),
        calm(key, schedule),
    ensures
        w.run(schedule).grounded(key),
    decreases schedule.len(),
{
    if schedule.len() > 0 {
        lemma_calm_front(key, schedule);
        lemma_run_sound(w, key, schedule.drop_last());
        lemma_run_grounded(w, key, schedule.drop_last());
        match schedule.last() {
            Turn::Append(i) => lemma_turn_grounded(w.run(schedule.drop_last()), key, i),
            Turn::Other(op) => lemma_other_sound(w.run(schedule.drop_last()), key, op),
        }
    }
}

/// The sum of `f` over `claimants`.
pub open spec fn sum_over(claimants: Seq<Claimant>, f: spec_fn(Claimant) -> int) -> int
    decreases claimants.len(),
{
    if claimants.len() == 0 {
        0
    } else {
        sum_over(claimants.drop_last(), f) + f(claimants.last())
    }
}

/// Changing one claimant changes the sum by as much as its own part.
proof fn lemma_sum_of_update(
    claimants: Seq<Claimant>,
    f: spec_fn(Claimant) -> int,
    i: int,
    c: Claimant,
)
    requires
        0 <= i < claimants.len(),
    ensures
        sum_over(claimants.update(i, c), f) == sum_over(claimants, f) - f(claimants[i]) + f(c),
    decreases claimants.len(),
{
    let changed = claimants.update(i, c);
    if i == claimants.len() - 1 {
        assert(changed.drop_last() =~= claimants.drop_last());
    } else {
        lemma_sum_of_update(claimants.drop_last(), f, i, c);
        assert(changed.drop_last() =~= claimants.drop_last().update(i, c));
    }
}

/// A sum of parts that are not negative is at least each part, and at most
/// the greatest part times the number of parts.
proof fn lemma_sum_bounds(claimants: Seq<Claimant>, f: spec_fn(Claimant) -> int, top: int)
    requires
        forall|i: int| 0 <= i < claimants.len() ==> 0 <= f(#[trigger] claimants[i]) <= top,
    ensures
        0 <= sum_over(claimants, f) <= claimants.len() * top,
        forall|i: int| 0 <= i < claimants.len() ==> f(#[trigger] claimants[i]) <= sum_over(
            claimants,
            f,
        ),
    decreases claimants.len(),
{
    if claimants.len() > 0 {
        let front = claimants.drop_last();
        assert forall|i: int| 0 <= i < front.len() implies 0 <= f(#[trigger] front[i]) <= top by {
            assert(front[i] == claimants[i]);
        }
        lemma_sum_bounds(front, f, top);
        assert(0 <= f(claimants[claimants.len() - 1]) <= top);
        assert(claimants.len() * top == front.len() * top + top) by (nonlinear_arith)
            requires
                claimants.len() == front.len() + 1,
        ;
        assert forall|i: int| 0 <= i < claimants.len() implies f(#[trigger] claimants[i])
            <= sum_over(claimants, f) by {
            if i < front.len() {
                assert(front[i] == claimants[i]);
            }
        }
    }
}

/// For each claimant, whether it waits.
pub open spec fn waits_of() -> spec_fn(Claimant) -> int {
    |c: Claimant| c.waits()
}

/// For each claimant, the turns it can still take.
pub open spec fn turns_of(budget: int, count: int) -> spec_fn(Claimant) -> int {
    |c: Claimant| c.turns_left(budget, count)
}

impl Claimant {
    /// Whether the append has yet to claim an offset.
    pub open spec fn unclaimed(self) -> bool {
        match self {
            Claimant::Busy(op) => op.phase is Locate || op.phase is Claim,
            _ => false,
        }
    }

    /// The offset that the append tries for, while a claim is outstanding.
    pub open spec fn candidate(self) -> Option<i64> {
        match self {
            Claimant::Busy(op) => match op.phase {
                Phase::Claim { candidate } => Some(candidate),
                _ => None,
            },
            _ => None,
        }
    }

    /// 1 for an append that has yet to claim an offset, 0 for any other.
    pub open spec fn waits(self) -> int {
        if self.unclaimed() {
            1
        } else {
            0
        }
    }

    /// How many turns the append can still take at the most, where no
    /// offset above `budget` is claimed and `count` appends run.
    pub open spec fn turns_left(self, budget: int, count: int) -> int {
        match self {
            Claimant::Busy(op) => match op.phase {
                Phase::Locate => count + 6,
                Phase::Claim { candidate } => budget - candidate + 5,
                Phase::Record { .. } => 3,
                Phase::Confirm { .. } => 2,
                Phase::Raise { .. } => 1,
            },
            _ => 0,
        }
    }
}

impl World {
    /// The latest offset that the store holds for the log `key`, or -1
    /// where it holds none.
    pub open spec fn latest(self, key: Seq<char>) -> int {
        if self.held.contains_key(latest_name(key)) {
            self.held[latest_name(key)] as int
        } else {
            -1
        }
    }

    /// How many appends have yet to claim an offset.
    pub open spec fn waiting(self) -> int {
        sum_over(self.claimants, waits_of())
    }

    /// How many turns the appends can still take at the most, all
    /// together.
    pub open spec fn turns_left(self, budget: int) -> int {
        sum_over(self.claimants, turns_of(budget, self.claimants.len() as int))
    }

    /// How many turns of `schedule` fall to an append that is busy when
    /// its turn comes.
    pub open spec fn busy_turns(self, schedule: Seq<Turn>) -> int
        decreases schedule.len(),
    {
        if schedule.len() == 0 {
            0
        } else {
            let before = self.run(schedule.drop_last());
            self.busy_turns(schedule.drop_last()) + (match schedule.last() {
                Turn::Append(i) => if 0 <= i < before.claimants.len() && before.claimants[i] is Busy {
                    1int
                } else {
                    0int
                },
                Turn::Other(_) => 0int,
            })
        }
    }

    /// What holds of every world that appends reach when they begin where
    /// no offset stands below -1 and there is room for an offset for each:
    /// the world is sound and grounded, no append has given up, an append
    /// tries for offset 0 as long as the log has no latest offset, no append
    /// tries for an offset beyond the one after the latest or below the
    /// first that was free, and the latest
    /// offset cannot pass `budget` even if every append that still waits
    /// claims one.
    pub open spec fn steady(self, key: Seq<char>, budget: int) -> bool {
        &&& self.sound(key)
        &&& self.grounded(key)
        &&& budget < i64::MAX
        &&& self.latest(key) + self.waiting() <= budget
        &&& budget - self.latest(key) <= self.claimants.len()
        &&& forall|i: int|
            0 <= i < self.claimants.len() ==> !((#[trigger] self.claimants[i]) is Stopped)
                && !(self.claimants[i] is Failed)
        &&& forall|i: int|
            0 <= i < self.claimants.len() && (#[trigger] self.claimants[i]).candidate() is Some
                && !self.held.contains_key(latest_name(key)) ==> self.claimants[i].candidate()
                == Some(0i64)
        &&& forall|i: int|
            0 <= i < self.claimants.len() && (#[trigger] self.claimants[i]).candidate() is Some
                ==> budget - self.claimants.len() <= self.claimants[i].candidate()->0
                <= self.latest(key) + 1
    }
}

/// In a steady world no append has fewer than no turns left or more than
/// six and one for each append.
proof fn lemma_turns_bounded(w: World, key: Seq<char>, budget: int)
    requires
        w.steady(key, budget),
    ensures
        0 <= w.waiting(),
        forall|j: int|
            0 <= j < w.claimants.len() ==> (#[trigger] w.claimants[j]).waits() <= w.waiting(),
        forall|j: int|
            0 <= j < w.claimants.len() ==> 0 <= (#[trigger] w.claimants[j]).turns_left(
                budget,
                w.claimants.len() as int,
            ) <= w.claimants.len() + 6,
        0 <= w.turns_left(budget) <= w.claimants.len() * (w.claimants.len() + 6),
{
    let count = w.claimants.len() as int;
    let waits = waits_of();
    let left = turns_of(budget, count);
    assert forall|j: int| 0 <= j < w.claimants.len() implies 0 <= waits(#[trigger] w.claimants[j])
        <= 1 by {}
    lemma_sum_bounds(w.claimants, waits, 1);
    assert forall|j: int| 0 <= j < w.claimants.len() implies 0 <= left(#[trigger] w.claimants[j])
        <= count + 6 by {
        assert(waits(w.claimants[j]) <= w.waiting());
    }
    lemma_sum_bounds(w.claimants, left, count + 6);
}

/// A turn keeps a steady world steady, and a turn of an append that is
/// busy leaves fewer turns to take.
pub proof fn lemma_turn_steady(w: World, key: Seq<char>, budget: int, i: int)
    requires
        w.steady(key, budget),
    ensures
        w.turn(i).steady(key, budget),
        0 <= w.turn(i).turns_left(budget) <= w.turns_left(budget),
        0 <= i < w.claimants.len() && w.claimants[i] is Busy ==> w.turn(i).turns_left(budget)
            < w.turns_left(budget),
{
    let count = w.claimants.len() as int;
    lemma_turn_sound(w, key, i);
    lemma_turn_grounded(w, key, i);
    lemma_turns_bounded(w, key, budget);
    if 0 <= i < w.claimants.len() && w.claimants[i] is Busy {
        let op = w.claimants[i]->Busy_0;
        let request = op.pending();
        let next = w.turn(i);
        let latest = latest_name(key);
        assert(next.claimants == w.claimants.update(i, next.claimants[i]));
        assert forall|o: int| latest != #[trigger] entry_name(key, o) by {
            lemma_latest_is_no_entry(key, o);
        }
        lemma_sum_of_update(w.claimants, waits_of(), i, next.claimants[i]);
        lemma_sum_of_update(w.claimants, turns_of(budget, count), i, next.claimants[i]);
        match op.phase {
            Phase::Claim { candidate } => {
                if accepts(w.held, request) {
                    assert(next.latest(key) == w.latest(key) + 1);
                } else {
                    assert(candidate <= w.latest(key));
                }
            },
            Phase::Record { offset } => {
                assert(next.latest(key) == w.latest(key));
            },
            Phase::Raise { offset, seen } => {
                assert(w.claimants[i].claimed() == Some(offset));
                assert(!accepts(w.held, request));
            },
            _ => {},
        }
        assert(next.steady(key, budget));
    }
    lemma_turns_bounded(w.turn(i), key, budget);
}

/// Every world that a run reaches from a steady world is steady, and the
/// run leaves no more turns to take than there were.
pub proof fn lemma_run_steady(w: World, key: Seq<char>, budget: int, schedule: Seq<Turn>)
    requires
        w.steady(key, budget),
        calm(key, schedule),
    ensures
        w.run(schedule).steady(key, budget),
        0 <= w.run(schedule).turns_left(budget),
        0 <= w.busy_turns(schedule),
        w.run(schedule).turns_left(budget) + w.busy_turns(schedule) <= w.turns_left(budget),
    decreases schedule.len(),
{
    if schedule.len() > 0 {
        lemma_calm_front(key, schedule);
        lemma_run_steady(w, key, budget, schedule.drop_last());
        match schedule.last() {
            Turn::Append(i) => lemma_turn_steady(w.run(schedule.drop_last()), key, budget, i),
            Turn::Other(op) => {
                lemma_other_sound(w.run(schedule.drop_last()), key, op);
                lemma_turns_bounded(w.run(schedule), key, budget);
            },
        }
    } else {
        lemma_turns_bounded(w, key, budget);
    }
}

/// Every append gets its offset. Let any number of appends to one log begin
/// where the store holds no latest offset for the log, or one that is -1 at
/// the least, and where there is an offset left for each of them. Then,
/// however the turns fall, no append ever gives up, and no schedule holds
/// more than `n * (n + 6)` turns of appends that are still busy, for `n`
/// appends: a count of the turns that are left, which is never negative,
/// goes down with every such turn. So an append that is given its turn
/// again and again is complete in the end.
pub proof fn law_appends_complete(
    held: Contents,
    key: Seq<char>,
    values: Seq<i64>,
    schedule: Seq<Turn>,
    a: int,
)
    requires
        calm(key, schedule),
        0 <= a < values.len(),
        held.contains_key(latest_name(key)) ==> held[latest_name(key)] >= -1,
        World::start(held, key, values).latest(key) + values.len() < i64::MAX,
    ensures
        ({
            let begin = World::start(held, key, values);
            let budget = begin.latest(key) + values.len();
            let end = begin.run(schedule);
            &&& end.claimants.len() == values.len()
            &&& !(end.claimants[a] is Stopped)
            &&& !(end.claimants[a] is Failed)
            &&& 0 <= begin.busy_turns(schedule) <= values.len() * (values.len() + 6)
            &&& 0 <= end.turns_left(budget) <= begin.turns_left(budget) - begin.busy_turns(
                schedule,
            )
            &&& end.claimants[a] is Busy ==> 0 <= end.turn(a).turns_left(budget) < end.turns_left(
                budget,
            )
        }),
{
    let begin = World::start(held, key, values);
    let budget = begin.latest(key) + values.len();
    lemma_start_sound(held, key, values);
    lemma_run_keeps_count(begin, schedule);
    assert forall|j: int| 0 <= j < begin.claimants.len() implies 0 <= waits_of()(
        #[trigger] begin.claimants[j],
    ) <= 1 by {}
    lemma_sum_bounds(begin.claimants, waits_of(), 1);
    assert(begin.steady(key, budget));
    lemma_turns_bounded(begin, key, budget);
    lemma_run_steady(begin, key, budget, schedule);
    lemma_turn_steady(begin.run(schedule), key, budget, a);
}

/// A poll finds what was appended. Where offsets begin at 0, a poll of the
/// log, made of the store as any run of concurrent appends has left it,
/// returns the value of every complete append at the offset the append was
/// given, provided the offset is not before the one asked for and the batch
/// has room.
pub proof fn law_poll_finds_completed_appends(
    held: Contents,
    key: Seq<char>,
    values: Seq<i64>,
    schedule: Seq<Turn>,
    a: int,
    start: i64,
)
    requires
        calm(key, schedule),
        0 <= a < values.len(),
        held.contains_key(latest_name(key)) ==> held[latest_name(key)] >= -1,
    ensures
        ({
            let end = World::start(held, key, values).run(schedule);
            &&& end.claimants.len() == values.len()
            &&& end.claimants[a] matches Claimant::Done { value, offset } ==> start <= offset
                ==> batch(end.held, key, start).contains((offset, values[a])) || batch(
                end.held,
                key,
                start,
            ).len() == POLL_BATCH
        }),
{
    let end = World::start(held, key, values).run(schedule);
    law_completed_appends_stand(held, key, values, schedule, a);
    law_offsets_from_zero(held, key, values, schedule, a);
    if end.claimants[a] is Done {
        let offset = end.claimants[a]->Done_offset;
        assert(end.claimants[a].claimed() == Some(offset));
        if start <= offset {
            law_batch_misses_nothing(end.held, key, start, offset);
        }
    }
}

impl World {
    /// Whether the append at `i` has had the write of its value at `offset`
    /// acknowledged.
    pub open spec fn wrote(self, i: int, offset: int) -> bool {
        &&& 0 <= i < self.claimants.len()
        &&& self.claimants[i].recorded() is Some
        &&& self.claimants[i].recorded()->0 == offset
    }

    /// Whether the store holds no entry of the log `key` but those that the
    /// appends have written.
    pub open spec fn tidy(self, key: Seq<char>) -> bool {
        forall|offset: int|
            self.held.contains_key(#[trigger] entry_name(key, offset)) ==> exists|i: int|
                self.wrote(i, offset)
    }
}

/// A turn of an append keeps a sound and tidy world tidy.
pub proof fn lemma_turn_tidy(w: World, key: Seq<char>, i: int)
    requires
        w.sound(key),
        w.tidy(key),
    ensures
        w.turn(i).tidy(key),
{
    let next = w.turn(i);
    assert forall|offset: int| next.held.contains_key(#[trigger] entry_name(key, offset)) implies exists|
        j: int,
    | next.wrote(j, offset) by {
        lemma_latest_is_no_entry(key, offset);
        if 0 <= i < w.claimants.len() && w.claimants[i] is Busy {
            let op = w.claimants[i]->Busy_0;
            if w.held.contains_key(entry_name(key, offset)) {
                let j = choose|j: int| w.wrote(j, offset);
                if j != i {
                    assert(next.claimants[j] == w.claimants[j]);
                }
                assert(next.wrote(j, offset));
            } else {
                assert(op.phase is Record);
                let claimed = op.phase->Record_offset;
                if claimed as int != offset {
                    lemma_entry_names_differ(key, claimed as int, offset);
                }
                assert(next.wrote(i, offset));
            }
        } else {
            let j = choose|j: int| w.wrote(j, offset);
            assert(next.wrote(j, offset));
        }
    }
}

/// Every world that a run reaches from a sound and tidy world is tidy.
pub proof fn lemma_run_tidy(w: World, key: Seq<char>, schedule: Seq<Turn>)
    requires
        w.sound(key),
        w.tidy(key),
        calm(key, schedule),
    ensures
        w.run(schedule).tidy(key),
    decreases schedule.len(),
{
    if schedule.len() > 0 {
        lemma_calm_front(key, schedule);
        lemma_run_sound(w, key, schedule.drop_last());
        lemma_run_tidy(w, key, schedule.drop_last());
        let mid = w.run(schedule.drop_last());
        match schedule.last() {
            Turn::Append(i) => lemma_turn_tidy(mid, key, i),
            Turn::Other(op) => {
                let next = mid.step(Turn::Other(op));
                assert forall|offset: int|
                    next.held.contains_key(#[trigger] entry_name(key, offset)) implies exists|
                    j: int,
                | next.wrote(j, offset) by {
                    assert(op.key() != entry_name(key, offset));
                    let j = choose|j: int| mid.wrote(j, offset);
                    assert(next.wrote(j, offset));
                }
            },
        }
    }
}

/// A poll finds nothing but what was appended. Where the store holds no
/// entry of the log before the appends begin, every entry that a poll of
/// the log returns, made of the store as any run of concurrent appends has
/// left it, is the value of one of the appends at the offset that the
/// append claimed: no entry stands at an offset that nobody claimed.
pub proof fn law_poll_finds_only_appends(
    held: Contents,
    key: Seq<char>,
    values: Seq<i64>,
    schedule: Seq<Turn>,
    start: i64,
    j: int,
)
    requires
        calm(key, schedule),
        forall|offset: int| !held.contains_key(#[trigger] entry_name(key, offset)),
        0 <= j < batch(World::start(held, key, values).run(schedule).held, key, start).len(),
    ensures
        ({
            let end = World::start(held, key, values).run(schedule);
            let entry = batch(end.held, key, start)[j];
            exists|a: int|
                0 <= a < values.len() && (#[trigger] end.claimants[a]).claimed() == Some(entry.0)
                    && values[a] == entry.1
        }),
{
    let begin = World::start(held, key, values);
    let end = begin.run(schedule);
    let entry = batch(end.held, key, start)[j];
    lemma_start_sound(held, key, values);
    lemma_run_sound(begin, key, schedule);
    lemma_run_tidy(begin, key, schedule);
    lemma_run_keeps_count(begin, schedule);
    law_batch_in_order(end.held, key, start);
    assert(end.held.contains_key(entry_name(key, entry.0 as int)));
    let a = choose|a: int| end.wrote(a, entry.0 as int);
    lemma_run_keeps_values(held, key, values, schedule, a);
    assert(end.claimants[a].recorded() == Some(entry.0));
    assert(end.claimants[a].claimed() == Some(entry.0));
    assert(end.claimants[a].carried() == Some(values[a]));
}

/// Appends to a new log get the first offsets. Let `n` appends to one log
/// begin where the store holds no latest offset for the log, `n` being no
/// more than the offsets that an `i64` can hold. Then, however the turns
/// fall, no append ever gives up, every offset claimed is at least 0 and
/// below `n`, and no schedule holds more than `n * (n + 6)` turns of
/// appends that are still busy.
pub proof fn law_appends_to_a_new_log_complete(
    held: Contents,
    key: Seq<char>,
    values: Seq<i64>,
    schedule: Seq<Turn>,
    a: int,
)
    requires
        calm(key, schedule),
        0 <= a < values.len(),
        !held.contains_key(latest_name(key)),
        values.len() <= i64::MAX,
    ensures
        ({
            let begin = World::start(held, key, values);
            let end = begin.run(schedule);
            &&& end.claimants.len() == values.len()
            &&& !(end.claimants[a] is Stopped)
            &&& !(end.claimants[a] is Failed)
            &&& end.claimants[a].claimed() is Some ==> 0 <= end.claimants[a].claimed()->0
                < values.len()
            &&& 0 <= begin.busy_turns(schedule) <= values.len() * (values.len() + 6)
        }),
{
    let begin = World::start(held, key, values);
    let budget = begin.latest(key) + values.len();
    let end = begin.run(schedule);
    law_appends_complete(held, key, values, schedule, a);
    lemma_start_sound(held, key, values);
    lemma_run_keeps_count(begin, schedule);
    assert forall|j: int| 0 <= j < begin.claimants.len() implies 0 <= waits_of()(
        #[trigger] begin.claimants[j],
    ) <= 1 by {}
    lemma_sum_bounds(begin.claimants, waits_of(), 1);
    assert(begin.steady(key, budget));
    lemma_run_steady(begin, key, budget, schedule);
    lemma_turns_bounded(end, key, budget);
}

} // verus!

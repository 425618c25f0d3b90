//! Reading entries of logs back from the store, a batch for each log asked
//! for.
//!
//! Like an append, a poll waits for the store many times and is kept as a
//! value, `PollOp`, that says which read is outstanding.

use crate::store::{answer, entry_key, entry_name, latest_key, latest_name, Answer, Contents, Op, Request};
use vstd::prelude::*;

verus! {

/// The most entries that one poll returns for one log.
pub const POLL_BATCH: usize = 32;

/// A log and the offset from which its entries are wanted.
pub type Wanted = (Seq<char>, i64);

/// A log and the entries found for it, each an offset and a value.
pub type Polled = (Seq<char>, Seq<(i64, i64)>);

/// The entries of the log `key` that `held` keeps at the offsets `from` to
/// `to`, in increasing order of offset, but no more than `room` of them.
pub open spec fn scan(held: Contents, key: Seq<char>, from: int, to: int, room: nat) -> Seq<
    (i64, i64),
>
    decreases to - from + 1,
{
    if from > to || room == 0 {
        Seq::empty()
    } else if held.contains_key(entry_name(key, from)) {
        seq![(from as i64, held[entry_name(key, from)])] + scan(
            held,
            key,
            from + 1,
            to,
            (room - 1) as nat,
        )
    } else {
        scan(held, key, from + 1, to, room)
    }
}

/// The first offset that a poll from `start` looks at: offsets begin at 0.
pub open spec fn first_offset(start: i64) -> int {
    if start < 0 {
        0
    } else {
        start as int
    }
}

/// What a poll of the log `key` from `start` returns when the store holds
/// `held`: the entries at or after `start`, up to the log's latest offset,
/// in increasing order of offset, `POLL_BATCH` of them at most. A log
/// without a latest offset has no entries.
pub open spec fn batch(held: Contents, key: Seq<char>, start: i64) -> Seq<(i64, i64)> {
    if held.contains_key(latest_name(key)) {
        scan(held, key, first_offset(start), held[latest_name(key)] as int, POLL_BATCH as nat)
    } else {
        Seq::empty()
    }
}

/// What a poll of all of `wanted` returns when the store holds `held`.
pub open spec fn batches(held: Contents, wanted: Seq<Wanted>) -> Seq<Polled> {
    Seq::new(wanted.len(), |i: int| (wanted[i].0, batch(held, wanted[i].0, wanted[i].1)))
}

/// Which read of a poll is outstanding.
#[derive(Debug, Clone, Copy, PartialEq, Eq)]
pub enum Stage {
    /// The latest offset of the log in hand.
    Latest,
    /// The entry at `cursor`; `latest` is the log's latest offset.
    Entry { cursor: i64, latest: i64 },
}

/// A poll in progress, with its keys as sequences of characters.
pub struct PollModel {
    /// The logs asked for.
    pub wanted: Seq<Wanted>,
    /// What was found for the logs before the one in hand.
    pub done: Seq<Polled>,
    /// What was found so far for the log in hand.
    pub found: Seq<(i64, i64)>,
    pub stage: Stage,
}

/// What an answer of the store makes of a poll.
pub enum PollProgress {
    /// The poll goes on, with another read outstanding.
    Ask(PollModel),
    /// The poll is complete, with these entries for the logs asked for.
    Finished(Seq<Polled>),
    /// The store gave an answer that the poll cannot go on from.
    Failed,
}

impl PollModel {
    /// There is a log in hand, the batch for it is not full, and the cursor
    /// has not passed the latest offset.
    pub open spec fn wf(self) -> bool {
        &&& self.done.len() < self.wanted.len()
        &&& self.found.len() < POLL_BATCH
        &&& self.stage matches Stage::Entry { cursor, latest } ==> 0 <= cursor <= latest
    }

    /// The log in hand.
    pub open spec fn key(self) -> Seq<char> {
        self.wanted[self.done.len() as int].0
    }

    /// The offset from which the entries of the log in hand are wanted.
    pub open spec fn start(self) -> i64 {
        self.wanted[self.done.len() as int].1
    }

    /// The read that is outstanding.
    pub open spec fn pending(self) -> Op {
        match self.stage {
            Stage::Latest => Op::Read { key: latest_name(self.key()) },
            Stage::Entry { cursor, .. } => Op::Read { key: entry_name(self.key(), cursor as int) },
        }
    }

    /// The poll once `found` is all there is for the log in hand.
    pub open spec fn close(self, found: Seq<(i64, i64)>) -> PollProgress {
        let done = self.done.push((self.key(), found));
        if done.len() >= self.wanted.len() {
            PollProgress::Finished(done)
        } else {
            PollProgress::Ask(
                PollModel { wanted: self.wanted, done, found: Seq::empty(), stage: Stage::Latest },
            )
        }
    }

    /// The poll with `found` in hand and `cursor` as the next offset to
    /// look at.
    pub open spec fn reach(self, found: Seq<(i64, i64)>, cursor: int, latest: i64) -> PollProgress {
        if cursor > latest || found.len() >= POLL_BATCH {
            self.close(found)
        } else {
            PollProgress::Ask(
                PollModel {
                    wanted: self.wanted,
                    done: self.done,
                    found,
                    stage: Stage::Entry { cursor: cursor as i64, latest },
                },
            )
        }
    }

    /// The poll of `wanted`, before any answer.
    pub open spec fn fresh(wanted: Seq<Wanted>) -> PollProgress {
        if wanted.len() == 0 {
            PollProgress::Finished(Seq::empty())
        } else {
            PollProgress::Ask(
                PollModel { wanted, done: Seq::empty(), found: Seq::empty(), stage: Stage::Latest },
            )
        }
    }

    /// The poll after the store's answer to the outstanding read.
    ///
    /// A log whose latest offset is missing has no entries, and an offset
    /// at which the entry is missing is passed over. Every answer but a
    /// value or a missing key is a failure.
    pub open spec fn advance(self, answer: Answer) -> PollProgress {
        match self.stage {
            Stage::Latest => match answer {
                Answer::Value(latest) => self.reach(
                    Seq::empty(),
                    first_offset(self.start()),
                    latest,
                ),
                Answer::Missing => self.close(Seq::empty()),
                _ => PollProgress::Failed,
            },
            Stage::Entry { cursor, latest } => match answer {
                Answer::Value(value) => self.reach(
                    self.found.push((cursor, value)),
                    cursor + 1,
                    latest,
                ),
                Answer::Missing => self.reach(self.found, cursor + 1, latest),
                _ => PollProgress::Failed,
            },
        }
    }

    /// Whether what the poll has gathered is what the store `held` holds.
    pub open spec fn agrees(self, held: Contents) -> bool {
        &&& self.wf()
        &&& self.done == batches(held, self.wanted.subrange(0, self.done.len() as int))
        &&& match self.stage {
            Stage::Latest => self.found.len() == 0,
            Stage::Entry { cursor, latest } => {
                &&& held.contains_key(latest_name(self.key()))
                &&& held[latest_name(self.key())] == latest
                &&& self.found + scan(
                    held,
                    self.key(),
                    cursor as int,
                    latest as int,
                    (POLL_BATCH - self.found.len()) as nat,
                ) == batch(held, self.key(), self.start())
            },
        }
    }
}

/// The sequence of characters of each key of `wanted`.
pub open spec fn wanted_view(wanted: Seq<(String, i64)>) -> Seq<Wanted> {
    Seq::new(wanted.len(), |i: int| (wanted[i].0@, wanted[i].1))
}

/// The sequence of characters of each key of `polled`, and the sequence of
/// its entries.
pub open spec fn polled_view(polled: Seq<(String, Vec<(i64, i64)>)>) -> Seq<Polled> {
    Seq::new(polled.len(), |i: int| (polled[i].0@, polled[i].1@))
}

/// A poll in progress.
#[derive(Debug)]
pub struct PollOp {
    wanted: Vec<(String, i64)>,
    done: Vec<(String, Vec<(i64, i64)>)>,
    found: Vec<(i64, i64)>,
    stage: Stage,
}

/// What `PollOp::begin` and `PollOp::resume` hand back.
#[derive(Debug)]
pub enum PollStep {
    /// The poll goes on: send `request()` of the new state to the store.
    Ask(PollOp),
    /// The poll is complete, with these entries for the logs asked for.
    Finished(Vec<(String, Vec<(i64, i64)>)>),
    /// The store gave an answer that the poll cannot go on from.
    Failed,
}

impl View for PollOp {
    type V = PollModel;

    closed spec fn view(&self) -> PollModel {
        PollModel {
            wanted: wanted_view(self.wanted@),
            done: polled_view(self.done@),
            found: self.found@,
            stage: self.stage,
        }
    }
}

impl View for PollStep {
    type V = PollProgress;

    open spec fn view(&self) -> PollProgress {
        match *self {
            PollStep::Ask(op) => PollProgress::Ask(op@),
            PollStep::Finished(polled) => PollProgress::Finished(polled_view(polled@)),
            PollStep::Failed => PollProgress::Failed,
        }
    }
}

impl PollOp {
    /// There is a log in hand, its batch is not full, and the cursor has
    /// not passed the latest offset.
    #[verifier::type_invariant]
    spec fn inv(self) -> bool {
        self@.wf()
    }

    /// Starts the poll of `wanted`: for each log, the entries from the
    /// given offset on.
    pub fn begin(wanted: Vec<(String, i64)>) -> (step: PollStep)
        ensures
            step@ == PollModel::fresh(wanted_view(wanted@)),
    {
        if wanted.len() == 0 {
            let nothing: Vec<(String, Vec<(i64, i64)>)> = Vec::new();
            assert(polled_view(nothing@) =~= Seq::empty());
            PollStep::Finished(nothing)
        } else {
            let done: Vec<(String, Vec<(i64, i64)>)> = Vec::new();
            let found: Vec<(i64, i64)> = Vec::new();
            assert(polled_view(done@) =~= Seq::empty());
            assert(found@ =~= Seq::empty());
            PollStep::Ask(PollOp { wanted, done, found, stage: Stage::Latest })
        }
    }

    /// Which read is outstanding.
    pub fn stage(&self) -> (stage: Stage)
        ensures
            stage == self@.stage,
            self@.wf(),
    {
        proof {
            use_type_invariant(self);
        }
        self.stage
    }

    /// The request to send to the store.
    pub fn request(&self) -> (request: Request)
        ensures
            request@ == self@.pending(),
    {
        proof {
            use_type_invariant(self);
        }
        let key = &self.wanted[self.done.len()].0;
        match self.stage {
            Stage::Latest => Request::Read { key: latest_key(key) },
            Stage::Entry { cursor, .. } => Request::Read { key: entry_key(key, cursor) },
        }
    }

    /// Ends the log in hand with `found`.
    fn close(self, found: Vec<(i64, i64)>) -> (step: PollStep)
        ensures
            step@ == self@.close(found@),
    {
        proof {
            use_type_invariant(&self);
        }
        let ghost before = self@;
        let PollOp { wanted, mut done, found: _, stage: _ } = self;
        let key = wanted[done.len()].0.clone();
        let ghost earlier = done@;
        done.push((key, found));
        assert(polled_view(done@) =~= polled_view(earlier).push((before.key(), found@)));
        if done.len() >= wanted.len() {
            PollStep::Finished(done)
        } else {
            let empty: Vec<(i64, i64)> = Vec::new();
            assert(empty@ =~= Seq::empty());
            PollStep::Ask(PollOp { wanted, done, found: empty, stage: Stage::Latest })
        }
    }

    /// Goes on with `found` in hand, or ends the log in hand. The next
    /// offset to look at is `cursor`, or the one after it where `passed`
    /// says that `cursor` has been looked at.
    fn reach(self, found: Vec<(i64, i64)>, cursor: i64, latest: i64, passed: bool) -> (step:
        PollStep)
        requires
            0 <= cursor,
        ensures
            step@ == self@.reach(
                found@,
                if passed {
                    cursor + 1
                } else {
                    cursor as int
                },
                latest,
            ),
    {
        proof {
            use_type_invariant(&self);
        }
        if found.len() >= POLL_BATCH || cursor > latest || (passed && cursor == latest) {
            self.close(found)
        } else {
            let next = if passed {
                cursor + 1
            } else {
                cursor
            };
            let PollOp { wanted, done, found: _, stage: _ } = self;
            PollStep::Ask(PollOp { wanted, done, found, stage: Stage::Entry { cursor: next, latest } })
        }
    }

    /// Takes the store's answer to the outstanding read.
    pub fn resume(self, answer: Answer) -> (step: PollStep)
        ensures
            step@ == self@.advance(answer),
    {
        proof {
            use_type_invariant(&self);
        }
        match self.stage {
            Stage::Latest => match answer {
                Answer::Value(latest) => {
                    let start = self.wanted[self.done.len()].1;
                    let from = if start < 0 {
                        0
                    } else {
                        start
                    };
                    let empty: Vec<(i64, i64)> = Vec::new();
                    assert(empty@ =~= Seq::empty());
                    self.reach(empty, from, latest, false)
                },
                Answer::Missing => {
                    let empty: Vec<(i64, i64)> = Vec::new();
                    assert(empty@ =~= Seq::empty());
                    self.close(empty)
                },
                _ => PollStep::Failed,
            },
            Stage::Entry { cursor, latest } => {
                let PollOp { wanted, done, mut found, stage } = self;
                match answer {
                    Answer::Value(value) => {
                        found.push((cursor, value));
                    },
                    Answer::Missing => {},
                    _ => {
                        return PollStep::Failed;
                    },
                }
                let op = PollOp { wanted, done, found: Vec::new(), stage };
                op.reach(found, cursor, latest, true)
            },
        }
    }
}

/// A poll begins in agreement. A poll that has had no answer yet agrees
/// with whatever the store holds, and a poll of no log at all returns
/// nothing.
pub proof fn law_poll_begins_in_agreement(wanted: Seq<Wanted>, held: Contents)
    ensures
        match PollModel::fresh(wanted) {
            PollProgress::Ask(op) => op.agrees(held),
            PollProgress::Finished(polled) => polled == batches(held, wanted),
            PollProgress::Failed => false,
        },
{
    if wanted.len() > 0 {
        assert(wanted.subrange(0, 0) =~= Seq::empty());
        assert(batches(held, Seq::<Wanted>::empty()) =~= Seq::<Polled>::empty());
    } else {
        assert(batches(held, wanted) =~= Seq::<Polled>::empty());
    }
}

/// Ending the log in hand with its batch keeps the poll in agreement.
proof fn lemma_close_agrees(op: PollModel, held: Contents, found: Seq<(i64, i64)>)
    requires
        op.wf(),
        op.done == batches(held, op.wanted.subrange(0, op.done.len() as int)),
        found == batch(held, op.key(), op.start()),
    ensures
        match op.close(found) {
            PollProgress::Ask(next) => next.agrees(held) && next.wanted == op.wanted,
            PollProgress::Finished(polled) => polled == batches(held, op.wanted),
            PollProgress::Failed => false,
        },
{
    let n = op.done.len() as int;
    let done = op.done.push((op.key(), found));
    assert(done =~= batches(held, op.wanted.subrange(0, n + 1)));
    if done.len() >= op.wanted.len() {
        assert(op.wanted.subrange(0, n + 1) =~= op.wanted);
    }
}

/// Going on from a cursor keeps the poll in agreement.
proof fn lemma_reach_agrees(
    op: PollModel,
    held: Contents,
    found: Seq<(i64, i64)>,
    cursor: int,
    latest: i64,
)
    requires
        op.wf(),
        op.done == batches(held, op.wanted.subrange(0, op.done.len() as int)),
        0 <= cursor <= latest + 1,
        found.len() <= POLL_BATCH,
        held.contains_key(latest_name(op.key())),
        held[latest_name(op.key())] == latest,
        found + scan(held, op.key(), cursor, latest as int, (POLL_BATCH - found.len()) as nat)
            == batch(held, op.key(), op.start()),
    ensures
        match op.reach(found, cursor, latest) {
            PollProgress::Ask(next) => next.agrees(held) && next.wanted == op.wanted,
            PollProgress::Finished(polled) => polled == batches(held, op.wanted),
            PollProgress::Failed => false,
        },
{
    if cursor > latest || found.len() >= POLL_BATCH {
        assert(scan(held, op.key(), cursor, latest as int, (POLL_BATCH - found.len()) as nat)
            =~= Seq::empty());
        assert(found =~= batch(held, op.key(), op.start()));
        lemma_close_agrees(op, held, found);
    }
}

/// A poll reads the store faithfully. While the store holds `held`, a poll
/// that agrees with it does not fail and still agrees after the store's
/// answer to its outstanding read; and when the poll is complete, what it
/// returns is, for each log asked for, exactly the batch that `held` holds.
pub proof fn law_poll_returns_batches(op: PollModel, held: Contents)
    requires
        op.agrees(held),
    ensures
        match op.advance(answer(held, op.pending())) {
            PollProgress::Ask(next) => next.agrees(held) && next.wanted == op.wanted,
            PollProgress::Finished(polled) => polled == batches(held, op.wanted),
            PollProgress::Failed => false,
        },
{
    let key = op.key();
    match op.stage {
        Stage::Latest => {
            if held.contains_key(latest_name(key)) {
                let latest = held[latest_name(key)];
                let from = first_offset(op.start());
                assert(Seq::<(i64, i64)>::empty() + scan(
                    held,
                    key,
                    from,
                    latest as int,
                    POLL_BATCH as nat,
                ) =~= batch(held, key, op.start()));
                if from > latest {
                    assert(scan(held, key, from, latest as int, POLL_BATCH as nat)
                        =~= Seq::empty());
                    lemma_close_agrees(op, held, Seq::empty());
                } else {
                    lemma_reach_agrees(op, held, Seq::empty(), from, latest);
                }
            } else {
                lemma_close_agrees(op, held, Seq::empty());
            }
        },
        Stage::Entry { cursor, latest } => {
            let room = (POLL_BATCH - op.found.len()) as nat;
            let name = entry_name(key, cursor as int);
            if held.contains_key(name) {
                let found = op.found.push((cursor, held[name]));
                assert(found + scan(held, key, cursor + 1, latest as int, (room - 1) as nat)
                    =~= op.found + scan(held, key, cursor as int, latest as int, room));
                lemma_reach_agrees(op, held, found, cursor + 1, latest);
            } else {
                lemma_reach_agrees(op, held, op.found, cursor + 1, latest);
            }
        },
    }
}

/// What `scan` returns is in order and true to the store: its offsets lie
/// between `from` and `to` and increase strictly, each value is the one the
/// store holds under its offset, and there are at most `room` entries.
pub proof fn lemma_scan_in_order(held: Contents, key: Seq<char>, from: int, to: int, room: nat)
    requires
        i64::MIN <= from,
        to <= i64::MAX,
    ensures
        scan(held, key, from, to, room).len() <= room,
        forall|i: int|
            0 <= i < scan(held, key, from, to, room).len() ==> {
                let entry = #[trigger] scan(held, key, from, to, room)[i];
                &&& from <= entry.0 <= to
                &&& held.contains_key(entry_name(key, entry.0 as int))
                &&& held[entry_name(key, entry.0 as int)] == entry.1
            },
        forall|i: int, j: int|
            0 <= i < j < scan(held, key, from, to, room).len() ==> (#[trigger] scan(
                held,
                key,
                from,
                to,
                room,
            )[i]).0 < (#[trigger] scan(held, key, from, to, room)[j]).0,
    decreases to - from + 1,
{
    if from > to || room == 0 {
    } else if held.contains_key(entry_name(key, from)) {
        lemma_scan_in_order(held, key, from + 1, to, (room - 1) as nat);
        let rest = scan(held, key, from + 1, to, (room - 1) as nat);
        let all = scan(held, key, from, to, room);
        assert(all =~= seq![(from as i64, held[entry_name(key, from)])] + rest);
        assert(forall|i: int| 1 <= i < all.len() ==> all[i] == rest[i - 1]);
    } else {
        lemma_scan_in_order(held, key, from + 1, to, room);
    }
}

/// `scan` passes over no entry: one that the store holds between `from` and
/// `to` is returned, unless `room` entries before it were.
pub proof fn lemma_scan_misses_nothing(
    held: Contents,
    key: Seq<char>,
    from: int,
    to: int,
    room: nat,
    offset: int,
)
    requires
        i64::MIN <= from <= offset <= to <= i64::MAX,
        held.contains_key(entry_name(key, offset)),
    ensures
        scan(held, key, from, to, room).contains((offset as i64, held[entry_name(key, offset)]))
            || scan(held, key, from, to, room).len() == room,
    decreases to - from + 1,
{
    let all = scan(held, key, from, to, room);
    let wanted = (offset as i64, held[entry_name(key, offset)]);
    if room == 0 {
    } else if held.contains_key(entry_name(key, from)) {
        let rest = scan(held, key, from + 1, to, (room - 1) as nat);
        assert(all =~= seq![(from as i64, held[entry_name(key, from)])] + rest);
        if offset == from {
            assert(all[0] == wanted);
        } else {
            lemma_scan_misses_nothing(held, key, from + 1, to, (room - 1) as nat, offset);
            if rest.contains(wanted) {
                let i = choose|i: int| 0 <= i < rest.len() && rest[i] == wanted;
                assert(all[i + 1] == wanted);
            }
        }
    } else {
        lemma_scan_misses_nothing(held, key, from + 1, to, room, offset);
    }
}

/// A batch is in increasing order of offset, starts no earlier than asked,
/// holds the store's own values, and has `POLL_BATCH` entries at most.
pub proof fn law_batch_in_order(held: Contents, key: Seq<char>, start: i64)
    ensures
        batch(held, key, start).len() <= POLL_BATCH,
        forall|i: int|
            0 <= i < batch(held, key, start).len() ==> {
                let entry = #[trigger] batch(held, key, start)[i];
                &&& start <= entry.0
                &&& 0 <= entry.0
                &&& held.contains_key(entry_name(key, entry.0 as int))
                &&& held[entry_name(key, entry.0 as int)] == entry.1
            },
        forall|i: int, j: int|
            0 <= i < j < batch(held, key, start).len() ==> (#[trigger] batch(held, key, start)[i]).0
                < (#[trigger] batch(held, key, start)[j]).0,
{
    if held.contains_key(latest_name(key)) {
        lemma_scan_in_order(
            held,
            key,
            first_offset(start),
            held[latest_name(key)] as int,
            POLL_BATCH as nat,
        );
    }
}

/// A batch leaves out no entry that it has room for: an entry of the log at
/// or after `start`, not below 0 and not above the log's latest offset, is
/// in the batch unless the batch is full.
pub proof fn law_batch_misses_nothing(held: Contents, key: Seq<char>, start: i64, offset: i64)
    requires
        start <= offset,
        0 <= offset,
        held.contains_key(latest_name(key)),
        offset <= held[latest_name(key)],
        held.contains_key(entry_name(key, offset as int)),
    ensures
        batch(held, key, start).contains((offset, held[entry_name(key, offset as int)])) || batch(
            held,
            key,
            start,
        ).len() == POLL_BATCH,
{
    lemma_scan_misses_nothing(
        held,
        key,
        first_offset(start),
        held[latest_name(key)] as int,
        POLL_BATCH as nat,
        offset as int,
    );
}

} // verus!

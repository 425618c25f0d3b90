//! Appending one value to a log: the offset is claimed by compare-and-swap
//! on the log's latest offset, then the value is written under it.
//!
//! An append waits for the store several times. It is therefore kept as a
//! value, `SendOp`, that says which request is outstanding; `resume` takes
//! the store's answer and gives the append's next state.

use crate::store::{entry_key, entry_name, latest_key, latest_name, Answer, Op, Request};
use vstd::prelude::*;

verus! {

/// Where an append stands: which request to the store is outstanding.
#[derive(Debug, Clone, Copy, PartialEq, Eq)]
pub enum Phase {
    /// The latest offset is being read.
    Locate,
    /// A compare-and-swap from `candidate - 1` to `candidate` is outstanding.
    Claim { candidate: i64 },
    /// `offset` is claimed, and the value is being written under it.
    Record { offset: i64 },
    /// The value is written, and the latest offset is being read again.
    Confirm { offset: i64 },
    /// The latest offset was seen below `offset`, and a compare-and-swap
    /// from `seen` to `offset` is outstanding.
    Raise { offset: i64, seen: i64 },
}

/// An append in progress, with its key as a sequence of characters.
pub struct SendModel {
    pub key: Seq<char>,
    pub value: i64,
    pub phase: Phase,
}

/// What an answer of the store makes of an append.
pub enum Progress {
    /// The append goes on, with another request outstanding.
    Ask(SendModel),
    /// The append is complete; the value stands at this offset.
    Done(i64),
    /// No further offset can be written as an `i64`.
    Exhausted,
    /// The store gave an answer that the append cannot go on from.
    Failed,
}

impl SendModel {
    /// A candidate always has a predecessor to swap from.
    pub open spec fn wf(self) -> bool {
        self.phase matches Phase::Claim { candidate } ==> candidate > i64::MIN
    }

    /// The append of `value` to the log `key`, before any answer.
    pub open spec fn fresh(key: Seq<char>, value: i64) -> SendModel {
        SendModel { key, value, phase: Phase::Locate }
    }

    /// The request that is outstanding.
    pub open spec fn pending(self) -> Op {
        match self.phase {
            Phase::Locate => Op::Read { key: latest_name(self.key) },
            Phase::Claim { candidate } => Op::Cas {
                key: latest_name(self.key),
                from: (candidate - 1) as i64,
                to: candidate,
                put: candidate == 0,
            },
            Phase::Record { offset } => Op::Write {
                key: entry_name(self.key, offset as int),
                value: self.value,
            },
            Phase::Confirm { .. } => Op::Read { key: latest_name(self.key) },
            Phase::Raise { offset, seen } => Op::Cas {
                key: latest_name(self.key),
                from: seen,
                to: offset,
                put: false,
            },
        }
    }

    /// The append with `candidate` as the offset to try for.
    pub open spec fn try_for(self, candidate: int) -> Progress {
        if i64::MIN < candidate <= i64::MAX {
            Progress::Ask(SendModel { phase: Phase::Claim { candidate: candidate as i64 }, ..self })
        } else {
            Progress::Exhausted
        }
    }

    /// The append after the store's answer to the outstanding request.
    ///
    /// Two refusals are part of the way: a latest offset that is missing
    /// counts as offset 0, and a claim that meets a conflict is followed by
    /// a claim of the next offset. The value is written once the claim has
    /// been swapped in, and the append goes on only when the write is
    /// acknowledged. Then the latest offset is raised to the claimed one
    /// only if it is seen below it, and only by one compare-and-swap from
    /// what was seen; a conflict there means that somebody else has raised
    /// it. Every other answer is a failure.
    pub open spec fn advance(self, answer: Answer) -> Progress {
        match self.phase {
            Phase::Locate => match answer {
                Answer::Value(latest) => self.try_for(latest as int),
                Answer::Missing => self.try_for(0),
                _ => Progress::Failed,
            },
            Phase::Claim { candidate } => match answer {
                Answer::Swapped => Progress::Ask(
                    SendModel { phase: Phase::Record { offset: candidate }, ..self },
                ),
                Answer::Conflict => self.try_for(candidate + 1),
                _ => Progress::Failed,
            },
            Phase::Record { offset } => match answer {
                Answer::Written => Progress::Ask(
                    SendModel { phase: Phase::Confirm { offset }, ..self },
                ),
                _ => Progress::Failed,
            },
            Phase::Confirm { offset } => match answer {
                Answer::Value(seen) => if seen < offset {
                    Progress::Ask(SendModel { phase: Phase::Raise { offset, seen }, ..self })
                } else {
                    Progress::Done(offset)
                },
                Answer::Missing => Progress::Done(offset),
                _ => Progress::Failed,
            },
            Phase::Raise { offset, .. } => match answer {
                Answer::Swapped => Progress::Done(offset),
                Answer::Conflict => Progress::Done(offset),
                _ => Progress::Failed,
            },
        }
    }
}

/// An append in progress.
#[derive(Debug)]
pub struct SendOp {
    key: String,
    value: i64,
    phase: Phase,
}

/// What `SendOp::resume` hands back.
#[derive(Debug)]
pub enum Step {
    /// The append goes on: send `request()` of the new state to the store.
    Ask(SendOp),
    /// The append is complete; the value stands at this offset.
    Done(i64),
    /// No further offset can be written as an `i64`.
    Exhausted,
    /// The store gave an answer that the append cannot go on from.
    Failed,
}

impl View for SendOp {
    type V = SendModel;

    closed spec fn view(&self) -> SendModel {
        SendModel { key: self.key@, value: self.value, phase: self.phase }
    }
}

impl View for Step {
    type V = Progress;

    open spec fn view(&self) -> Progress {
        match *self {
            Step::Ask(op) => Progress::Ask(op@),
            Step::Done(offset) => Progress::Done(offset),
            Step::Exhausted => Progress::Exhausted,
            Step::Failed => Progress::Failed,
        }
    }
}

impl SendOp {
    /// A candidate always has a predecessor to swap from.
    #[verifier::type_invariant]
    spec fn inv(self) -> bool {
        self@.wf()
    }

    /// Starts the append of `value` to the log `key`.
    pub fn begin(key: String, value: i64) -> (op: SendOp)
        ensures
            op@ == SendModel::fresh(key@, value),
    {
        SendOp { key, value, phase: Phase::Locate }
    }

    /// The log that is appended to.
    pub fn key(&self) -> (key: &String)
        ensures
            key@ == self@.key,
    {
        &self.key
    }

    /// The value that is appended.
    pub fn value(&self) -> (value: i64)
        ensures
            value == self@.value,
    {
        self.value
    }

    /// Which request is outstanding.
    pub fn phase(&self) -> (phase: Phase)
        ensures
            phase == self@.phase,
            self@.wf(),
    {
        proof {
            use_type_invariant(self);
        }
        self.phase
    }

    /// The request to send to the store.
    pub fn request(&self) -> (request: Request)
        ensures
            request@ == self@.pending(),
    {
        proof {
            use_type_invariant(self);
        }
        match self.phase {
            Phase::Locate => Request::Read { key: latest_key(&self.key) },
            Phase::Claim { candidate } => Request::Cas {
                key: latest_key(&self.key),
                from: candidate - 1,
                to: candidate,
                put: candidate == 0,
            },
            Phase::Record { offset } => Request::Write {
                key: entry_key(&self.key, offset),
                value: self.value,
            },
            Phase::Confirm { .. } => Request::Read { key: latest_key(&self.key) },
            Phase::Raise { offset, seen } => Request::Cas {
                key: latest_key(&self.key),
                from: seen,
                to: offset,
                put: false,
            },
        }
    }

    /// Goes on to claim `candidate`, unless it has no predecessor.
    fn claim(self, candidate: i64) -> (step: Step)
        ensures
            step@ == self@.try_for(candidate as int),
    {
        if candidate == i64::MIN {
            Step::Exhausted
        } else {
            Step::Ask(SendOp { key: self.key, value: self.value, phase: Phase::Claim { candidate } })
        }
    }

    /// Takes the store's answer to the outstanding request.
    pub fn resume(self, answer: Answer) -> (step: Step)
        ensures
            step@ == self@.advance(answer),
    {
        match self.phase {
            Phase::Locate => match answer {
                Answer::Value(latest) => self.claim(latest),
                Answer::Missing => self.claim(0),
                _ => Step::Failed,
            },
            Phase::Claim { candidate } => match answer {
                Answer::Swapped => Step::Ask(
                    SendOp {
                        key: self.key,
                        value: self.value,
                        phase: Phase::Record { offset: candidate },
                    },
                ),
                Answer::Conflict => if candidate == i64::MAX {
                    Step::Exhausted
                } else {
                    self.claim(candidate + 1)
                },
                _ => Step::Failed,
            },
            Phase::Record { offset } => match answer {
                Answer::Written => Step::Ask(
                    SendOp { key: self.key, value: self.value, phase: Phase::Confirm { offset } },
                ),
                _ => Step::Failed,
            },
            Phase::Confirm { offset } => match answer {
                Answer::Value(seen) => if seen < offset {
                    Step::Ask(
                        SendOp {
                            key: self.key,
                            value: self.value,
                            phase: Phase::Raise { offset, seen },
                        },
                    )
                } else {
                    Step::Done(offset)
                },
                Answer::Missing => Step::Done(offset),
                _ => Step::Failed,
            },
            Phase::Raise { offset, .. } => match answer {
                Answer::Swapped => Step::Done(offset),
                Answer::Conflict => Step::Done(offset),
                _ => Step::Failed,
            },
        }
    }
}

} // verus!

//! The offsets that clients have declared committed, one for each log.
//! They are bookkeeping only: nothing else in the log depends on them.

use crate::names::names_view;
use crate::poll::{wanted_view, Wanted};
use vstd::prelude::*;

verus! {

/// The marks after each of `offsets` was recorded in turn; a later mark for
/// a log replaces an earlier one.
pub open spec fn marked(marks: Map<Seq<char>, i64>, offsets: Seq<Wanted>) -> Map<Seq<char>, i64>
    decreases offsets.len(),
{
    if offsets.len() == 0 {
        marks
    } else {
        marked(marks, offsets.drop_last()).insert(offsets.last().0, offsets.last().1)
    }
}

/// The marks of those of `keys` that have one, in the order of `keys`.
pub open spec fn listed(marks: Map<Seq<char>, i64>, keys: Seq<Seq<char>>) -> Seq<Wanted>
    decreases keys.len(),
{
    if keys.len() == 0 {
        Seq::empty()
    } else if marks.contains_key(keys.last()) {
        listed(marks, keys.drop_last()).push((keys.last(), marks[keys.last()]))
    } else {
        listed(marks, keys.drop_last())
    }
}

/// The committed offset of each log that has one.
#[derive(Debug)]
pub struct Committed {
    entries: Vec<(String, i64)>,
}

impl Committed {
    /// No log occurs twice.
    #[verifier::type_invariant]
    spec fn inv(self) -> bool {
        forall|i: int, j: int|
            0 <= i < j < self.entries.len() ==> (#[trigger] self.entries[i]).0@ != (
            #[trigger] self.entries[j]).0@
    }

    /// Whether the log `key` stands at `i`.
    spec fn at(self, key: Seq<char>, i: int) -> bool {
        0 <= i < self.entries.len() && self.entries[i].0@ == key
    }

    /// Where the log `key` stands, if it has a mark.
    spec fn place(self, key: Seq<char>) -> int {
        choose|i: int| self.at(key, i)
    }
}

impl View for Committed {
    type V = Map<Seq<char>, i64>;

    closed spec fn view(&self) -> Map<Seq<char>, i64> {
        Map::new(
            |key: Seq<char>| exists|i: int| self.at(key, i),
            |key: Seq<char>| self.entries[self.place(key)].1,
        )
    }
}

impl Committed {
    /// No marks at all.
    pub fn new() -> (c: Committed)
        ensures
            c@ == Map::<Seq<char>, i64>::empty(),
    {
        let c = Committed { entries: Vec::new() };
        assert(c@ =~= Map::<Seq<char>, i64>::empty());
        c
    }

    /// Where the log `key` stands among the entries.
    fn find(&self, key: &String) -> (r: Option<usize>)
        ensures
            match r {
                Some(i) => self.at(key@, i as int),
                None => forall|i: int| !self.at(key@, i),
            },
    {
        let mut i: usize = 0;
        while i < self.entries.len()
            invariant
                i <= self.entries.len(),
                forall|j: int| 0 <= j < i ==> self.entries[j].0@ != key@,
            decreases self.entries.len() - i,
        {
            if self.entries[i].0 == *key {
                return Some(i);
            }
            i += 1;
        }
        None
    }

    /// The committed offset of the log `key`, if one was recorded.
    pub fn get(&self, key: &String) -> (r: Option<i64>)
        ensures
            r == (if self@.contains_key(key@) {
                Some(self@[key@])
            } else {
                None
            }),
    {
        proof {
            use_type_invariant(self);
        }
        match self.find(key) {
            Some(i) => {
                assert(self.at(key@, i as int));
                assert(self.at(key@, self.place(key@)));
                Some(self.entries[i].1)
            },
            None => None,
        }
    }

    /// Records `offset` as the committed offset of the log `key`, in place
    /// of the one recorded before, if any.
    pub fn set(&mut self, key: String, offset: i64)
        ensures
            final(self)@ == old(self)@.insert(key@, offset),
    {
        proof {
            use_type_invariant(&*self);
        }
        let ghost before = *self;
        let found = self.find(&key);
        let mut taken = Committed { entries: Vec::new() };
        std::mem::swap(self, &mut taken);
        let Committed { entries } = taken;
        let mut entries = entries;
        match found {
            Some(i) => {
                entries.set(i, (key, offset));
                *self = Committed { entries };
                proof {
                    let now = *self;
                    assert forall|k: Seq<char>, j: int| now.at(k, j) <==> before.at(k, j) by {}
                    assert forall|k: Seq<char>| now@.contains_key(k) implies #[trigger] now@[k] == (
                    if k == key@ {
                        offset
                    } else {
                        before@[k]
                    }) by {
                        assert(now.at(k, now.place(k)));
                        assert(before.at(k, before.place(k)));
                        if k == key@ {
                            assert(now.at(k, i as int));
                        }
                    }
                    assert(now@.contains_key(key@)) by {
                        assert(now.at(key@, i as int));
                    }
                    assert(now@ =~= before@.insert(key@, offset));
                }
            },
            None => {
                entries.push((key, offset));
                assert forall|i: int, j: int| 0 <= i < j < entries.len() implies (
                #[trigger] entries[i]).0@ != (#[trigger] entries[j]).0@ by {
                    if j == before.entries.len() {
                        assert(!before.at(key@, i));
                    }
                }
                *self = Committed { entries };
                proof {
                    let now = *self;
                    let last = before.entries.len() as int;
                    assert forall|k: Seq<char>, j: int| before.at(k, j) implies now.at(k, j) by {}
                    assert forall|k: Seq<char>, j: int| now.at(k, j) implies before.at(k, j) || (j
                        == last && k == key@) by {}
                    assert(now.at(key@, last));
                    assert forall|k: Seq<char>| now@.contains_key(k) implies #[trigger] now@[k] == (
                    if k == key@ {
                        offset
                    } else {
                        before@[k]
                    }) by {
                        assert(now.at(k, now.place(k)));
                        if k != key@ {
                            assert(before.at(k, now.place(k)));
                            assert(before.at(k, before.place(k)));
                        }
                    }
                    assert forall|k: Seq<char>| before@.contains_key(k) implies now@.contains_key(
                        k,
                    ) by {
                        assert(now.at(k, before.place(k)));
                    }
                    assert(now@ =~= before@.insert(key@, offset));
                }
            },
        }
    }

    /// Records each of `offsets` in turn.
    pub fn commit(&mut self, offsets: &Vec<(String, i64)>)
        ensures
            final(self)@ == marked(old(self)@, wanted_view(offsets@)),
    {
        let ghost all = wanted_view(offsets@);
        let ghost begin = self@;
        let mut i: usize = 0;
        assert(all.take(0) =~= Seq::empty());
        while i < offsets.len()
            invariant
                i <= offsets.len(),
                all == wanted_view(offsets@),
                self@ == marked(begin, all.take(i as int)),
            decreases offsets.len() - i,
        {
            assert(all.take(i + 1).drop_last() =~= all.take(i as int));
            assert(all.take(i + 1).last() == (offsets[i as int].0@, offsets[i as int].1));
            self.set(offsets[i].0.clone(), offsets[i].1);
            i += 1;
        }
        assert(all.take(offsets.len() as int) =~= all);
    }

    /// The committed offsets of those of `keys` that have one, in the order
    /// of `keys`.
    pub fn list(&self, keys: &Vec<String>) -> (r: Vec<(String, i64)>)
        ensures
            wanted_view(r@) == listed(self@, names_view(keys@)),
    {
        let ghost all = names_view(keys@);
        let mut r: Vec<(String, i64)> = Vec::new();
        let mut i: usize = 0;
        assert(all.take(0) =~= Seq::empty());
        assert(wanted_view(r@) =~= Seq::empty());
        while i < keys.len()
            invariant
                i <= keys.len(),
                all == names_view(keys@),
                wanted_view(r@) == listed(self@, all.take(i as int)),
            decreases keys.len() - i,
        {
            let ghost before = wanted_view(r@);
            assert(all.take(i + 1).drop_last() =~= all.take(i as int));
            assert(all.take(i + 1).last() == keys[i as int]@);
            match self.get(&keys[i]) {
                Some(offset) => {
                    r.push((keys[i].clone(), offset));
                    assert(wanted_view(r@) =~= before.push((keys[i as int]@, offset)));
                },
                None => {},
            }
            i += 1;
        }
        assert(all.take(keys.len() as int) =~= all);
        r
    }
}

/// The offset that `offsets` records last for the log `key`, if any.
pub open spec fn last_mark(offsets: Seq<Wanted>, key: Seq<char>) -> Option<i64>
    decreases offsets.len(),
{
    if offsets.len() == 0 {
        None
    } else if offsets.last().0 == key {
        Some(offsets.last().1)
    } else {
        last_mark(offsets.drop_last(), key)
    }
}

/// The last mark stands. After any marks are recorded, the mark of a log
/// is the one recorded last for it, and a log for which none was recorded
/// keeps the mark it had, or stays without one.
pub proof fn law_last_mark_stands(marks: Map<Seq<char>, i64>, offsets: Seq<Wanted>, key: Seq<char>)
    ensures
        marked(marks, offsets).contains_key(key) <==> last_mark(offsets, key) is Some
            || marks.contains_key(key),
        last_mark(offsets, key) matches Some(offset) ==> marked(marks, offsets)[key] == offset,
        last_mark(offsets, key) is None && marks.contains_key(key) ==> marked(marks, offsets)[key]
            == marks[key],
    decreases offsets.len(),
{
    if offsets.len() > 0 {
        law_last_mark_stands(marks, offsets.drop_last(), key);
    }
}

} // verus!

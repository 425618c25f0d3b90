//! Sets of values, as the gossip needs them.

use std::collections::HashSet;
use vstd::prelude::*;

verus! {

broadcast use vstd::std_specs::hash::group_hash_axioms;

/// Whether `kept` holds just those of `passed` that are not in `b`.
spec fn sifted(kept: Set<usize>, b: Set<usize>, passed: Seq<usize>) -> bool {
    forall|v: usize| kept.contains(v) <==> !b.contains(v) && passed.contains(v)
}

/// The values of `a` that are not in `b`.
pub fn difference(a: &HashSet<usize>, b: &HashSet<usize>) -> (r: HashSet<usize>)
    ensures
        r@ == a@.difference(b@),
{
    let mut r: HashSet<usize> = HashSet::new();
    let ghost mut passed: Seq<usize> = Seq::empty();
    for x in it: a.iter()
        invariant
            it.seq().unref().to_set() == a@,
            passed == it.seq().unref().take(it.index() as int),
            it.index() == it.seq().len() ==> passed.to_set() == a@,
            sifted(r@, b@, passed),
    {
        let ghost earlier = passed;
        let ghost before = r@;
        proof {
            passed = passed.push(*x);
        }
        assert(passed =~= it.seq().unref().take(it.index() + 1));
        assert(it.index() + 1 == it.seq().len() ==> it.seq().unref().take(it.index() + 1)
            =~= it.seq().unref());
        if !b.contains(x) {
            r.insert(*x);
        }
        assert forall|v: usize| r@.contains(v) <==> !b@.contains(v) && passed.contains(v) by {
            if earlier.contains(v) {
                let j = choose|j: int| 0 <= j < earlier.len() && earlier[j] == v;
                assert(passed[j] == v);
            }
            if v == *x {
                assert(passed[passed.len() - 1] == v);
            }
            if passed.contains(v) {
                let j = choose|j: int| 0 <= j < passed.len() && passed[j] == v;
                if j < earlier.len() {
                    assert(earlier[j] == v);
                }
            }
            assert(r@.contains(v) <==> before.contains(v) || (v == *x && !b@.contains(*x)));
        }
        assert(sifted(r@, b@, passed));
    }
    assert(r@ =~= a@.difference(b@));
    r
}

/// Whether `grown` holds what `base` holds and all of `passed`.
spec fn gathered(grown: Set<usize>, base: Set<usize>, passed: Seq<usize>) -> bool {
    forall|v: usize| grown.contains(v) <==> base.contains(v) || passed.contains(v)
}

/// Puts every value of `from` into `into`.
pub fn absorb(into: &mut HashSet<usize>, from: &HashSet<usize>)
    ensures
        final(into)@ == old(into)@.union(from@),
{
    let ghost base = into@;
    let ghost mut passed: Seq<usize> = Seq::empty();
    for x in it: from.iter()
        invariant
            it.seq().unref().to_set() == from@,
            passed == it.seq().unref().take(it.index() as int),
            it.index() == it.seq().len() ==> passed.to_set() == from@,
            gathered(into@, base, passed),
    {
        let ghost earlier = passed;
        let ghost before = into@;
        proof {
            passed = passed.push(*x);
        }
        assert(passed =~= it.seq().unref().take(it.index() + 1));
        assert(it.index() + 1 == it.seq().len() ==> it.seq().unref().take(it.index() + 1)
            =~= it.seq().unref());
        into.insert(*x);
        assert forall|v: usize| into@.contains(v) <==> base.contains(v) || passed.contains(v) by {
            if earlier.contains(v) {
                let j = choose|j: int| 0 <= j < earlier.len() && earlier[j] == v;
                assert(passed[j] == v);
            }
            if v == *x {
                assert(passed[passed.len() - 1] == v);
            }
            if passed.contains(v) {
                let j = choose|j: int| 0 <= j < passed.len() && passed[j] == v;
                if j < earlier.len() {
                    assert(earlier[j] == v);
                }
            }
            assert(into@.contains(v) <==> before.contains(v) || v == *x);
        }
        assert(gathered(into@, base, passed));
    }
    assert(into@ =~= base.union(from@));
}

/// A set with the values of `a`.
pub fn copy_of(a: &HashSet<usize>) -> (r: HashSet<usize>)
    ensures
        r@ == a@,
{
    let mut r: HashSet<usize> = HashSet::new();
    absorb(&mut r, a);
    assert(r@ =~= a@);
    r
}

} // verus!

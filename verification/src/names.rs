//! Looking names up in a list of names.

use vstd::prelude::*;

verus! {

/// The sequence of characters of each of `names`.
pub open spec fn names_view(names: Seq<String>) -> Seq<Seq<char>> {
    Seq::new(names.len(), |i: int| names[i]@)
}

/// Whether `i` is the first place at which `name` stands in `names`.
pub open spec fn first_at(names: Seq<Seq<char>>, name: Seq<char>, i: int) -> bool {
    &&& 0 <= i < names.len()
    &&& names[i] == name
    &&& forall|j: int| 0 <= j < i ==> names[j] != name
}

/// The first place at which `name` stands in `names`, if it stands there
/// at all.
pub open spec fn index_of(names: Seq<Seq<char>>, name: Seq<char>) -> Option<int> {
    if exists|i: int| first_at(names, name, i) {
        Some(choose|i: int| first_at(names, name, i))
    } else {
        None
    }
}

/// A name has one first place at most, and has one if it stands anywhere.
pub proof fn lemma_index_of(names: Seq<Seq<char>>, name: Seq<char>)
    ensures
        match index_of(names, name) {
            Some(i) => first_at(names, name, i),
            None => forall|j: int| 0 <= j < names.len() ==> names[j] != name,
        },
        forall|i: int| first_at(names, name, i) ==> index_of(names, name) == Some(i),
{
    if exists|i: int| first_at(names, name, i) {
        let c = choose|i: int| first_at(names, name, i);
        assert forall|i: int| first_at(names, name, i) implies i == c by {
            if i < c {
                assert(names[i] == name);
            } else if c < i {
                assert(names[c] == name);
            }
        }
    } else {
        assert forall|j: int| 0 <= j < names.len() implies names[j] != name by {
            if names[j] == name {
                lemma_first_exists(names, name, j);
            }
        }
    }
}

/// A name that stands somewhere has a first place.
proof fn lemma_first_exists(names: Seq<Seq<char>>, name: Seq<char>, at: int)
    requires
        0 <= at < names.len(),
        names[at] == name,
    ensures
        exists|i: int| first_at(names, name, i),
    decreases at,
{
    if forall|j: int| 0 <= j < at ==> names[j] != name {
        assert(first_at(names, name, at));
    } else {
        let j = choose|j: int| 0 <= j < at && names[j] == name;
        lemma_first_exists(names, name, j);
    }
}

/// Whether no name stands twice in `names`.
pub open spec fn distinct(names: Seq<Seq<char>>) -> bool {
    forall|i: int, j: int| 0 <= i < j < names.len() ==> names[i] != names[j]
}

/// The first place at which `name` stands in `names`.
pub fn position(names: &Vec<String>, name: &String) -> (r: Option<usize>)
    ensures
        match r {
            Some(i) => index_of(names_view(names@), name@) == Some(i as int),
            None => index_of(names_view(names@), name@) is None,
        },
{
    let mut i: usize = 0;
    while i < names.len()
        invariant
            i <= names.len(),
            forall|j: int| 0 <= j < i ==> names_view(names@)[j] != name@,
        decreases names.len() - i,
    {
        if names[i] == *name {
            proof {
                assert(first_at(names_view(names@), name@, i as int));
                lemma_index_of(names_view(names@), name@);
            }
            return Some(i);
        }
        i += 1;
    }
    proof {
        lemma_index_of(names_view(names@), name@);
        if index_of(names_view(names@), name@) is Some {
            let at = index_of(names_view(names@), name@)->0;
            assert(names_view(names@)[at] == name@);
        }
    }
    None
}

} // verus!

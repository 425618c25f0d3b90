use gossip_glomers::names::position;
use gossip_glomers::offsets::Committed;
use gossip_glomers::sets::{absorb, copy_of, difference};
use std::collections::HashSet;

fn names(all: &[&str]) -> Vec<String> {
    all.iter().map(|n| n.to_string()).collect()
}

fn values(all: &[usize]) -> HashSet<usize> {
    all.iter().copied().collect()
}

#[test]
fn position_is_the_first_place_of_a_name() {
    let list = names(&["a", "b", "a", "c"]);
    assert_eq!(position(&list, &"a".to_string()), Some(0));
    assert_eq!(position(&list, &"c".to_string()), Some(3));
    assert_eq!(position(&list, &"d".to_string()), None);
    assert_eq!(position(&names(&[]), &"a".to_string()), None);
}

#[test]
fn difference_keeps_what_is_only_in_the_first() {
    assert_eq!(difference(&values(&[1, 2, 3]), &values(&[2, 4])), values(&[1, 3]));
    assert_eq!(difference(&values(&[1, 2]), &values(&[1, 2, 3])), values(&[]));
    assert_eq!(difference(&values(&[]), &values(&[1])), values(&[]));
    assert_eq!(difference(&values(&[5]), &values(&[])), values(&[5]));
}

#[test]
fn absorb_is_a_union() {
    let mut into = values(&[1, 2]);
    absorb(&mut into, &values(&[2, 3]));
    assert_eq!(into, values(&[1, 2, 3]));
    absorb(&mut into, &values(&[]));
    assert_eq!(into, values(&[1, 2, 3]));
}

#[test]
fn copy_of_has_the_same_values() {
    let first = values(&[4, 8, 15]);
    assert_eq!(copy_of(&first), first);
    assert_eq!(copy_of(&values(&[])), values(&[]));
}

#[test]
fn committed_offsets_keep_the_last_mark_of_each_log() {
    let mut marks = Committed::new();
    assert_eq!(marks.get(&"a".to_string()), None);
    marks.set("a".to_string(), 3);
    marks.set("b".to_string(), 4);
    marks.set("a".to_string(), 1);
    assert_eq!(marks.get(&"a".to_string()), Some(1));
    assert_eq!(marks.get(&"b".to_string()), Some(4));
    marks.commit(&vec![("c".to_string(), 9), ("b".to_string(), 0), ("c".to_string(), 10)]);
    assert_eq!(marks.get(&"b".to_string()), Some(0));
    assert_eq!(marks.get(&"c".to_string()), Some(10));
}

#[test]
fn committed_offsets_are_listed_in_the_order_asked() {
    let mut marks = Committed::new();
    marks.commit(&vec![("a".to_string(), 1), ("b".to_string(), 2)]);
    let listed = marks.list(&names(&["b", "x", "a", "b"]));
    assert_eq!(
        listed,
        vec![("b".to_string(), 2), ("a".to_string(), 1), ("b".to_string(), 2)]
    );
    assert!(marks.list(&names(&[])).is_empty());
}

use gossip_glomers::counter::{CounterError, CounterNode, Payload, Tick};
use gossip_glomers::message::{Body, Event, Init, Message};

fn counter_node(me: &str, all: &[&str]) -> CounterNode {
    CounterNode::from_init(Init {
        node_id: me.to_string(),
        node_ids: all.iter().map(|n| n.to_string()).collect(),
    })
    .unwrap()
}

fn letter(src: &str, dest: &str, id: Option<usize>, payload: Payload) -> Message<Payload> {
    Message {
        src: src.to_string(),
        dest: dest.to_string(),
        body: Body { id, in_reply_to: None, payload },
    }
}

fn message(src: &str, dest: &str, id: Option<usize>, payload: Payload) -> Event<Payload, Tick> {
    Event::Message(letter(src, dest, id, payload))
}

fn read_of(node: &mut CounterNode) -> u64 {
    let out = node.handle(message("c1", "n1", Some(1), Payload::Read)).unwrap();
    match out[0].body.payload {
        Payload::ReadOk { value } => value,
        other => panic!("no answer to a read: {:?}", other),
    }
}

#[test]
fn counter_starts_at_zero() {
    let mut node = counter_node("n1", &["n1", "n2", "n3"]);
    assert_eq!(node.read(), Ok(0));
    assert_eq!(node.own(), 0);
    assert_eq!(read_of(&mut node), 0);
}

#[test]
fn counter_refuses_a_node_that_is_not_a_member() {
    let r = CounterNode::from_init(Init {
        node_id: "n9".to_string(),
        node_ids: vec!["n1".to_string(), "n2".to_string()],
    });
    assert_eq!(r.err(), Some(CounterError::NotAMember));
}

#[test]
fn add_five_then_three_reads_eight_and_syncs_never_lower_it() {
    let mut n1 = counter_node("n1", &["n1", "n2"]);
    let mut n2 = counter_node("n2", &["n1", "n2"]);
    let out = n1.handle(message("c1", "n1", Some(1), Payload::Add { delta: 5 })).unwrap();
    assert_eq!(out.len(), 1);
    assert_eq!(out[0].src, "n1");
    assert_eq!(out[0].dest, "c1");
    assert_eq!(out[0].body.id, Some(1));
    assert_eq!(out[0].body.in_reply_to, Some(1));
    assert_eq!(out[0].body.payload, Payload::AddOk);
    n1.handle(message("c1", "n1", Some(2), Payload::Add { delta: 3 })).unwrap();
    assert_eq!(n1.read(), Ok(8));

    let syncs = n1.handle(Event::Injected(Tick::Sync)).unwrap();
    assert_eq!(syncs, vec![letter("n1", "n2", None, Payload::Sync { value: 8 })]);
    for sync in syncs {
        assert_eq!(n2.handle(Event::Message(sync)), Ok(vec![]));
    }
    assert_eq!(n2.read(), Ok(8));
    assert_eq!(n1.read(), Ok(8));
    assert_eq!(read_of(&mut n1), 8);
}

#[test]
fn add_raises_only_the_own_shard() {
    let mut node = counter_node("n2", &["n1", "n2", "n3"]);
    node.add(4).unwrap();
    node.add(0).unwrap();
    node.add(6).unwrap();
    assert_eq!(node.own(), 10);
    assert_eq!(node.read(), Ok(10));
    let syncs = node.sync_messages();
    assert_eq!(
        syncs,
        vec![
            letter("n2", "n1", None, Payload::Sync { value: 10 }),
            letter("n2", "n3", None, Payload::Sync { value: 10 }),
        ]
    );
}

#[test]
fn merge_keeps_the_larger_value() {
    let mut node = counter_node("n1", &["n1", "n2"]);
    node.merge(&"n2".to_string(), 7);
    assert_eq!(node.read(), Ok(7));
    node.merge(&"n2".to_string(), 3);
    assert_eq!(node.read(), Ok(7));
    node.merge(&"n2".to_string(), 7);
    assert_eq!(node.read(), Ok(7));
    node.merge(&"n2".to_string(), 9);
    assert_eq!(node.read(), Ok(9));
}

#[test]
fn merge_of_an_unknown_node_changes_nothing() {
    let mut node = counter_node("n1", &["n1", "n2"]);
    node.add(2).unwrap();
    node.merge(&"n7".to_string(), 100);
    assert_eq!(node.read(), Ok(2));
}

#[test]
fn syncs_in_any_order_and_number_give_the_same_reading() {
    let told = [("n2", 4u64), ("n3", 9), ("n2", 6), ("n3", 2), ("n2", 6), ("n3", 9)];
    let orders: [[usize; 6]; 4] =
        [[0, 1, 2, 3, 4, 5], [5, 4, 3, 2, 1, 0], [2, 0, 5, 1, 3, 4], [3, 3, 2, 5, 0, 2]];
    for order in orders {
        let mut node = counter_node("n1", &["n1", "n2", "n3"]);
        node.add(1).unwrap();
        for i in order {
            let (from, value) = told[i];
            let sync = message(from, "n1", None, Payload::Sync { value });
            assert_eq!(node.handle(sync), Ok(vec![]));
        }
        for i in 0..told.len() {
            let (from, value) = told[i];
            node.handle(message(from, "n1", None, Payload::Sync { value })).unwrap();
        }
        assert_eq!(node.read(), Ok(1 + 6 + 9));
    }
}

#[test]
fn every_node_reads_the_sum_of_all_adds_once_synced() {
    let names = ["n1", "n2", "n3"];
    let mut nodes: Vec<CounterNode> = names.iter().map(|n| counter_node(n, &names)).collect();
    let adds = [(0usize, 5u64), (1, 7), (0, 2), (2, 11), (1, 1), (2, 0)];
    let mut in_flight = Vec::new();
    for (round, (who, delta)) in adds.iter().enumerate() {
        nodes[*who].add(*delta).unwrap();
        if round % 2 == 1 {
            for node in nodes.iter() {
                in_flight.extend(node.sync_messages());
            }
        }
    }
    for node in nodes.iter() {
        in_flight.extend(node.sync_messages());
    }
    in_flight.reverse();
    let twice: Vec<Message<Payload>> = in_flight.iter().chain(in_flight.iter()).cloned().collect();
    for sync in twice {
        let to = names.iter().position(|n| *n == sync.dest).unwrap();
        nodes[to].handle(Event::Message(sync)).unwrap();
    }
    for node in nodes.iter() {
        assert_eq!(node.read(), Ok(5 + 7 + 2 + 11 + 1));
    }
}

#[test]
fn add_that_overflows_the_shard_is_refused_and_changes_nothing() {
    let mut node = counter_node("n1", &["n1", "n2"]);
    node.add(u64::MAX - 1).unwrap();
    assert_eq!(node.add(2), Err(CounterError::Overflow));
    assert_eq!(node.own(), u64::MAX - 1);
    assert_eq!(node.add(1), Ok(()));
    assert_eq!(node.own(), u64::MAX);
    let r = node.handle(message("c1", "n1", Some(1), Payload::Add { delta: 1 }));
    assert_eq!(r, Err(CounterError::Overflow));
}

#[test]
fn read_that_overflows_is_refused() {
    let mut node = counter_node("n1", &["n1", "n2"]);
    node.add(u64::MAX).unwrap();
    assert_eq!(node.read(), Ok(u64::MAX));
    node.merge(&"n2".to_string(), 1);
    assert_eq!(node.read(), Err(CounterError::Overflow));
    let r = node.handle(message("c1", "n1", Some(1), Payload::Read));
    assert_eq!(r, Err(CounterError::Overflow));
}

#[test]
fn counter_replies_take_increasing_ids() {
    let mut node = counter_node("n1", &["n1", "n2"]);
    let first = node.handle(message("c1", "n1", Some(10), Payload::Read)).unwrap();
    node.handle(message("n2", "n1", None, Payload::Sync { value: 1 })).unwrap();
    node.handle(message("c1", "n1", Some(11), Payload::AddOk)).unwrap();
    let second = node.handle(message("c1", "n1", Some(12), Payload::Read)).unwrap();
    assert_eq!(first[0].body.id, Some(1));
    assert_eq!(first[0].body.in_reply_to, Some(10));
    assert_eq!(second[0].body.id, Some(4));
    assert_eq!(second[0].body.payload, Payload::ReadOk { value: 1 });
}

#[test]
fn counter_has_nothing_to_say_at_the_end_of_the_stream() {
    let mut node = counter_node("n1", &["n1", "n2"]);
    assert_eq!(node.handle(Event::EOF), Ok(vec![]));
}

#[test]
fn a_lone_node_syncs_with_nobody() {
    let node = counter_node("n1", &["n1"]);
    assert!(node.sync_messages().is_empty());
}

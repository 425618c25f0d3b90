use gossip_glomers::gossip::{BroadcastError, BroadcastNode, Payload, Tick};
use gossip_glomers::message::{Body, Event, Init, Message};
use std::collections::HashSet;

fn gossip_node(me: &str, all: &[&str]) -> BroadcastNode {
    BroadcastNode::from_init(Init {
        node_id: me.to_string(),
        node_ids: all.iter().map(|n| n.to_string()).collect(),
    })
}

fn set(values: &[usize]) -> HashSet<usize> {
    values.iter().copied().collect()
}

fn envelope(src: &str, dest: &str, id: Option<usize>, payload: Payload) -> Message<Payload> {
    Message {
        src: src.to_string(),
        dest: dest.to_string(),
        body: Body { id, in_reply_to: None, payload },
    }
}

fn incoming(src: &str, dest: &str, id: Option<usize>, payload: Payload) -> Event<Payload, Tick> {
    Event::Message(envelope(src, dest, id, payload))
}

fn topology(links: &[(&str, &[&str])]) -> Payload {
    Payload::Topology {
        topo: links
            .iter()
            .map(|(n, ns)| (n.to_string(), ns.iter().map(|x| x.to_string()).collect()))
            .collect(),
    }
}

fn linked(me: &str, all: &[&str], neighbours: &[&str]) -> BroadcastNode {
    let mut node = gossip_node(me, all);
    let out = node.handle(incoming("c0", me, Some(1), topology(&[(me, neighbours)]))).unwrap();
    assert_eq!(out[0].body.payload, Payload::TopologyOk);
    node
}

#[test]
fn broadcast_is_acknowledged_and_read_back() {
    let mut node = gossip_node("n1", &["n1", "n2"]);
    let out = node.handle(incoming("c1", "n1", Some(4), Payload::Broadcast { msg: 17 })).unwrap();
    let mut expected = envelope("n1", "c1", Some(1), Payload::BroadcastOk);
    expected.body.in_reply_to = Some(4);
    assert_eq!(out, vec![expected]);
    node.handle(incoming("c1", "n1", Some(5), Payload::Broadcast { msg: 3 })).unwrap();
    let out = node.handle(incoming("c1", "n1", Some(6), Payload::Read)).unwrap();
    assert_eq!(out[0].body.payload, Payload::ReadOk { msgs: set(&[3, 17]) });
    assert_eq!(out[0].body.id, Some(3));
    assert_eq!(out[0].body.in_reply_to, Some(6));
}

#[test]
fn observe_is_idempotent() {
    let mut node = gossip_node("n1", &["n1"]);
    node.observe(5);
    node.observe(5);
    node.observe(6);
    assert_eq!(node.messages(), set(&[5, 6]));
}

#[test]
fn tick_without_neighbours_sends_nothing() {
    let mut node = gossip_node("n1", &["n1", "n2"]);
    node.observe(1);
    assert_eq!(node.handle(Event::Injected(Tick::Gossip)), Ok(vec![]));
}

#[test]
fn tick_sends_each_neighbour_what_it_is_not_known_to_have() {
    let mut node = linked("n1", &["n1", "n2", "n3"], &["n2", "n3"]);
    node.observe(1);
    node.observe(2);
    node.handle(incoming("n3", "n1", None, Payload::Gossip { seen: set(&[2, 9]) })).unwrap();
    let out = node.handle(Event::Injected(Tick::Gossip)).unwrap();
    assert_eq!(
        out,
        vec![
            envelope("n1", "n2", None, Payload::Gossip { seen: set(&[1, 2, 9]) }),
            envelope("n1", "n3", None, Payload::Gossip { seen: set(&[1]) }),
        ]
    );
}

#[test]
fn tick_sends_nothing_to_a_neighbour_without_news() {
    let mut node = linked("n1", &["n1", "n2", "n3"], &["n2", "n3"]);
    node.handle(incoming("n2", "n1", None, Payload::Gossip { seen: set(&[4, 5]) })).unwrap();
    let out = node.gossip_messages().unwrap();
    assert_eq!(out, vec![envelope("n1", "n3", None, Payload::Gossip { seen: set(&[4, 5]) })]);
}

#[test]
fn sending_does_not_count_as_knowing() {
    let mut node = linked("n1", &["n1", "n2"], &["n2"]);
    node.observe(1);
    let first = node.handle(Event::Injected(Tick::Gossip)).unwrap();
    node.observe(2);
    let second = node.handle(Event::Injected(Tick::Gossip)).unwrap();
    assert_eq!(first, vec![envelope("n1", "n2", None, Payload::Gossip { seen: set(&[1]) })]);
    assert_eq!(second, vec![envelope("n1", "n2", None, Payload::Gossip { seen: set(&[1, 2]) })]);
}

#[test]
fn gossip_is_taken_in_and_has_no_answer() {
    let mut node = gossip_node("n1", &["n1", "n2"]);
    node.observe(1);
    let out = node.handle(incoming("n2", "n1", None, Payload::Gossip { seen: set(&[1, 8]) }));
    assert_eq!(out, Ok(vec![]));
    assert_eq!(node.messages(), set(&[1, 8]));
}

#[test]
fn gossip_from_an_unknown_node_is_an_error() {
    let mut node = gossip_node("n1", &["n1", "n2"]);
    let r = node.handle(incoming("n7", "n1", None, Payload::Gossip { seen: set(&[1]) }));
    assert_eq!(r, Err(BroadcastError::UnknownPeer));
    assert_eq!(node.messages(), set(&[]));
}

#[test]
fn topology_that_leaves_the_node_out_is_an_error() {
    let mut node = gossip_node("n1", &["n1", "n2"]);
    let r = node.handle(incoming("c0", "n1", Some(1), topology(&[("n2", &["n1"])])));
    assert_eq!(r, Err(BroadcastError::NotInTopology));
}

#[test]
fn topology_with_an_unknown_neighbour_is_taken_and_fails_the_next_tick() {
    let mut node = gossip_node("n1", &["n1", "n2"]);
    node.observe(1);
    let out = node.handle(incoming("c0", "n1", Some(7), topology(&[("n1", &["n2", "n5"])]))).unwrap();
    assert_eq!(out.len(), 1);
    assert_eq!(out[0].dest, "c0");
    assert_eq!(out[0].body.in_reply_to, Some(7));
    assert_eq!(out[0].body.payload, Payload::TopologyOk);
    assert_eq!(node.messages(), set(&[1]));
    assert_eq!(node.handle(Event::Injected(Tick::Gossip)), Err(BroadcastError::UnknownPeer));
    assert_eq!(node.gossip_messages(), Err(BroadcastError::UnknownPeer));
    let out = node.handle(incoming("c0", "n1", Some(8), topology(&[("n1", &["n2"])]))).unwrap();
    assert_eq!(out[0].body.payload, Payload::TopologyOk);
    assert_eq!(
        node.handle(Event::Injected(Tick::Gossip)),
        Ok(vec![envelope("n1", "n2", None, Payload::Gossip { seen: set(&[1]) })])
    );
}

#[test]
fn a_later_topology_replaces_the_neighbours() {
    let mut node = linked("n1", &["n1", "n2", "n3"], &["n2"]);
    node.observe(4);
    node.handle(incoming("c0", "n1", Some(2), topology(&[("n1", &["n3"])]))).unwrap();
    assert_eq!(
        node.gossip_messages(),
        Ok(vec![envelope("n1", "n3", None, Payload::Gossip { seen: set(&[4]) })])
    );
}

#[test]
fn a_gossip_handed_over_twice_changes_nothing_more() {
    let mut once = gossip_node("n1", &["n1", "n2"]);
    let mut twice = gossip_node("n1", &["n1", "n2"]);
    once.observe(1);
    twice.observe(1);
    once.handle(incoming("n2", "n1", None, Payload::Gossip { seen: set(&[1, 5]) })).unwrap();
    twice.handle(incoming("n2", "n1", None, Payload::Gossip { seen: set(&[1, 5]) })).unwrap();
    twice.handle(incoming("n2", "n1", None, Payload::Gossip { seen: set(&[1, 5]) })).unwrap();
    assert_eq!(once.messages(), twice.messages());
    for node in [&mut once, &mut twice] {
        node.handle(incoming("c0", "n1", Some(1), topology(&[("n1", &["n2"])]))).unwrap();
        assert_eq!(node.gossip_messages(), Ok(vec![]));
    }
}

#[test]
fn the_order_of_delivery_does_not_matter() {
    let letters = || {
        vec![
            incoming("n2", "n1", None, Payload::Gossip { seen: set(&[1, 5]) }),
            incoming("c1", "n1", Some(3), Payload::Broadcast { msg: 9 }),
            incoming("n3", "n1", None, Payload::Gossip { seen: set(&[5, 6]) }),
        ]
    };
    let mut results = Vec::new();
    for order in [[0usize, 1, 2], [2, 1, 0], [1, 0, 2], [1, 2, 0]] {
        let mut node = linked("n1", &["n1", "n2", "n3"], &["n2", "n3"]);
        let mut batch: Vec<Option<Event<Payload, Tick>>> = letters().into_iter().map(Some).collect();
        for i in order {
            node.handle(batch[i].take().unwrap()).unwrap();
        }
        results.push((node.messages(), node.gossip_messages()));
    }
    for result in results.iter() {
        assert_eq!(result, &results[0]);
    }
    assert_eq!(results[0].0, set(&[1, 5, 6, 9]));
}

#[test]
fn topology_need_not_name_all_nodes_as_neighbours() {
    let mut node = gossip_node("n1", &["n1", "n2", "n3", "n4"]);
    let links: [(&str, &[&str]); 2] = [("n3", &["n1"]), ("n1", &["n4"])];
    let out = node.handle(incoming("c0", "n1", Some(1), topology(&links))).unwrap();
    assert_eq!(out[0].body.payload, Payload::TopologyOk);
    node.observe(6);
    let out = node.gossip_messages().unwrap();
    assert_eq!(out, vec![envelope("n1", "n4", None, Payload::Gossip { seen: set(&[6]) })]);
}

#[test]
fn answers_that_arrive_unasked_change_nothing() {
    let mut node = gossip_node("n1", &["n1", "n2"]);
    for payload in [Payload::BroadcastOk, Payload::ReadOk { msgs: set(&[4]) }, Payload::TopologyOk] {
        assert_eq!(node.handle(incoming("n2", "n1", Some(1), payload)), Ok(vec![]));
    }
    assert_eq!(node.messages(), set(&[]));
    assert_eq!(node.handle(Event::EOF), Ok(vec![]));
}

fn round(nodes: &mut Vec<BroadcastNode>, names: &[&str], twice: bool, backwards: bool) {
    let mut letters = Vec::new();
    for node in nodes.iter_mut() {
        letters.extend(node.handle(Event::Injected(Tick::Gossip)).unwrap());
    }
    if backwards {
        letters.reverse();
    }
    let mut deliveries = Vec::new();
    for letter in letters {
        let to = names.iter().position(|n| *n == letter.dest).unwrap();
        if let Payload::Gossip { seen } = &letter.body.payload {
            deliveries.push((to, letter.src.clone(), seen.clone()));
        }
    }
    let times = if twice { 2 } else { 1 };
    for _ in 0..times {
        for (to, src, seen) in deliveries.iter() {
            let gossip = incoming(src, names[*to], None, Payload::Gossip { seen: seen.clone() });
            assert_eq!(nodes[*to].handle(gossip), Ok(vec![]));
        }
    }
}

#[test]
fn values_reach_every_node_of_a_line_within_as_many_rounds_as_links() {
    let names = ["n1", "n2", "n3", "n4"];
    for (twice, backwards) in [(false, false), (true, false), (false, true), (true, true)] {
        let mut nodes = vec![
            linked("n1", &names, &["n2"]),
            linked("n2", &names, &["n1", "n3"]),
            linked("n3", &names, &["n2", "n4"]),
            linked("n4", &names, &["n3"]),
        ];
        nodes[0].observe(100);
        nodes[3].observe(400);
        nodes[1].observe(200);
        round(&mut nodes, &names, twice, backwards);
        assert!(nodes[1].messages().contains(&100));
        assert!(nodes[2].messages().contains(&400));
        round(&mut nodes, &names, twice, backwards);
        round(&mut nodes, &names, twice, backwards);
        for node in nodes.iter() {
            assert_eq!(node.messages(), set(&[100, 200, 400]));
        }
    }
}

#[test]
fn a_neighbour_that_never_answers_is_sent_the_growing_difference() {
    let mut node = linked("n1", &["n1", "n2"], &["n2"]);
    let mut sizes = Vec::new();
    for value in 0..5 {
        node.observe(value);
        let out = node.gossip_messages().unwrap();
        match &out[0].body.payload {
            Payload::Gossip { seen } => sizes.push(seen.len()),
            other => panic!("no gossip: {:?}", other),
        }
    }
    assert_eq!(sizes, vec![1, 2, 3, 4, 5]);
    let all = Payload::Gossip { seen: set(&[0, 1, 2, 3, 4]) };
    node.handle(incoming("n2", "n1", None, all)).unwrap();
    assert!(node.gossip_messages().unwrap().is_empty());
}

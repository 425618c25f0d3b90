use gossip_glomers::echo::{EchoNode, Payload as Echo};
use gossip_glomers::message::{Body, Event, Init, Message};
use gossip_glomers::txn::{Payload as Txn, TxnNode};
use gossip_glomers::unique_ids::{Payload as Ids, UniqueIdsNode};

fn asked<P>(id: usize, payload: P) -> Event<P, ()> {
    Event::Message(Message {
        src: "c1".to_string(),
        dest: "n1".to_string(),
        body: Body { id: Some(id), in_reply_to: None, payload },
    })
}

fn ids_node(name: &str) -> UniqueIdsNode {
    UniqueIdsNode::from_init(Init { node_id: name.to_string(), node_ids: vec![name.to_string()] })
}

fn op(kind: &str, key: u32, value: Option<u32>) -> (String, u32, Option<u32>) {
    (kind.to_string(), key, value)
}

#[test]
fn echo_sends_the_text_back() {
    let mut node = EchoNode::new();
    let out = node.handle(asked(5, Echo::Echo { echo: "hello".to_string() })).unwrap();
    assert_eq!(out.len(), 1);
    assert_eq!(out[0].src, "n1");
    assert_eq!(out[0].dest, "c1");
    assert_eq!(out[0].body.id, Some(1));
    assert_eq!(out[0].body.in_reply_to, Some(5));
    assert_eq!(out[0].body.payload, Echo::EchoOk { echo: "hello".to_string() });
    let out = node.handle(asked(6, Echo::Echo { echo: String::new() })).unwrap();
    assert_eq!(out[0].body.id, Some(2));
    assert_eq!(out[0].body.payload, Echo::EchoOk { echo: String::new() });
}

#[test]
fn echo_passes_over_an_answer_but_counts_it() {
    let mut node = EchoNode::new();
    assert_eq!(node.handle(asked(1, Echo::EchoOk { echo: "x".to_string() })), Ok(vec![]));
    let out = node.handle(asked(2, Echo::Echo { echo: "y".to_string() })).unwrap();
    assert_eq!(out[0].body.id, Some(2));
}

#[test]
fn echo_refuses_events_that_are_no_messages() {
    let mut node = EchoNode::new();
    assert!(node.handle(Event::<Echo, ()>::EOF).is_err());
    assert!(node.handle(Event::<Echo, ()>::Injected(())).is_err());
    let out = node.handle(asked(2, Echo::Echo { echo: "y".to_string() })).unwrap();
    assert_eq!(out[0].body.id, Some(1));
}

#[test]
fn unique_ids_are_made_of_the_name_and_the_next_message_id() {
    let mut node = ids_node("n1");
    let first = node.handle(asked(1, Ids::Generate)).unwrap();
    let second = node.handle(asked(2, Ids::Generate)).unwrap();
    assert_eq!(first[0].body.payload, Ids::GenerateOk { guid: "n1-2".to_string() });
    assert_eq!(second[0].body.payload, Ids::GenerateOk { guid: "n1-3".to_string() });
    assert_eq!(first[0].body.id, Some(1));
    assert_eq!(first[0].body.in_reply_to, Some(1));
    assert_eq!(second[0].body.id, Some(2));
}

#[test]
fn unique_ids_do_not_repeat_within_or_across_nodes() {
    let mut seen = std::collections::HashSet::new();
    for name in ["n1", "n2", "n11"] {
        let mut node = ids_node(name);
        for id in 0..200 {
            let out = node.handle(asked(id, Ids::Generate)).unwrap();
            match &out[0].body.payload {
                Ids::GenerateOk { guid } => assert!(seen.insert(guid.clone())),
                other => panic!("no id: {:?}", other),
            }
        }
    }
    assert_eq!(seen.len(), 600);
}

#[test]
fn unique_ids_node_refuses_events_that_are_no_messages() {
    let mut node = ids_node("n1");
    assert!(node.handle(Event::<Ids, ()>::EOF).is_err());
    assert_eq!(node.handle(asked(1, Ids::GenerateOk { guid: "x".to_string() })), Ok(vec![]));
}

#[test]
fn txn_reads_what_was_written() {
    let mut node = TxnNode::new();
    let txn = vec![op("r", 1, None), op("w", 1, Some(6)), op("r", 1, None), op("w", 2, Some(9))];
    let out = node.handle(asked(3, Txn::Txn { txn }));
    assert_eq!(out.len(), 1);
    assert_eq!(out[0].body.id, Some(1));
    assert_eq!(out[0].body.in_reply_to, Some(3));
    assert_eq!(
        out[0].body.payload,
        Txn::TxnOk {
            txn: vec![op("r", 1, None), op("w", 1, Some(6)), op("r", 1, Some(6)), op("w", 2, Some(9))]
        }
    );
    let out = node.handle(asked(4, Txn::Txn { txn: vec![op("r", 2, None), op("r", 3, Some(1))] }));
    assert_eq!(out[0].body.payload, Txn::TxnOk { txn: vec![op("r", 2, Some(9)), op("r", 3, None)] });
}

#[test]
fn txn_passes_over_steps_of_unknown_kind_and_writes_without_value() {
    let mut node = TxnNode::new();
    let txn = vec![op("w", 1, Some(1)), op("x", 1, Some(5)), op("w", 1, None), op("", 2, None)];
    let done = node.carry_out(&txn);
    assert_eq!(done, vec![op("w", 1, Some(1)), op("w", 1, None)]);
    assert_eq!(node.carry_out(&vec![op("r", 1, None)]), vec![op("r", 1, Some(1))]);
}

#[test]
fn txn_node_has_no_answer_to_an_answer_or_to_the_end() {
    let mut node = TxnNode::new();
    assert!(node.handle(asked(1, Txn::TxnOk { txn: vec![] })).is_empty());
    assert!(node.handle(Event::<Txn, ()>::EOF).is_empty());
    let out = node.handle(asked(2, Txn::Txn { txn: vec![] }));
    assert_eq!(out[0].body.id, Some(2));
    assert_eq!(out[0].body.payload, Txn::TxnOk { txn: vec![] });
}

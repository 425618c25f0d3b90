use gossip_glomers::message::{
    handshake, is_ref_false, Body, HandshakeError, Init, InitPayload, Message,
};
use std::sync::atomic::{AtomicUsize, Ordering};

fn request(id: Option<usize>) -> Message<u32> {
    Message {
        src: "c1".to_string(),
        dest: "n1".to_string(),
        body: Body { id, in_reply_to: None, payload: 7 },
    }
}

#[test]
fn into_reply_swaps_the_ends_and_echoes_the_id() {
    let counter = AtomicUsize::new(41);
    let reply = request(Some(9)).into_reply(Some(&counter));
    assert_eq!(reply.src, "n1");
    assert_eq!(reply.dest, "c1");
    assert_eq!(reply.body.in_reply_to, Some(9));
    assert_eq!(reply.body.id, Some(41));
    assert_eq!(reply.body.payload, 7);
    assert_eq!(counter.load(Ordering::SeqCst), 42);
}

#[test]
fn into_reply_without_a_counter_has_no_id() {
    let reply = request(None).into_reply(None);
    assert_eq!(reply.body.id, None);
    assert_eq!(reply.body.in_reply_to, None);
    assert_eq!(reply.src, "n1");
    assert_eq!(reply.dest, "c1");
}

#[test]
fn into_reply_takes_ids_in_order() {
    let counter = AtomicUsize::new(1);
    let first = request(Some(1)).into_reply(Some(&counter));
    let second = request(Some(2)).into_reply(Some(&counter));
    assert_eq!(first.body.id, Some(1));
    assert_eq!(second.body.id, Some(2));
}

#[test]
fn reply_with_carries_the_given_id() {
    let reply = request(Some(3)).reply_with(Some(10));
    assert_eq!(reply.body.id, Some(10));
    assert_eq!(reply.body.in_reply_to, Some(3));
    assert_eq!(reply.src, "n1");
    assert_eq!(reply.dest, "c1");
}

#[test]
fn exchange_replaces_the_payload() {
    let (changed, taken) = request(Some(3)).exchange("text".to_string());
    assert_eq!(taken, 7);
    assert_eq!(changed.body.payload, "text");
    assert_eq!(changed.src, "c1");
    assert_eq!(changed.dest, "n1");
    assert_eq!(changed.body.id, Some(3));
}

#[test]
fn handshake_answers_init_with_init_ok() {
    let first = Message {
        src: "c0".to_string(),
        dest: "n1".to_string(),
        body: Body {
            id: Some(1),
            in_reply_to: None,
            payload: InitPayload::Init(Init {
                node_id: "n1".to_string(),
                node_ids: vec!["n1".to_string(), "n2".to_string()],
            }),
        },
    };
    let (init, reply) = handshake(first).unwrap();
    assert_eq!(init.node_id, "n1");
    assert_eq!(init.node_ids, vec!["n1".to_string(), "n2".to_string()]);
    assert_eq!(reply.src, "n1");
    assert_eq!(reply.dest, "c0");
    assert_eq!(reply.body.id, Some(0));
    assert_eq!(reply.body.in_reply_to, Some(1));
    assert!(matches!(reply.body.payload, InitPayload::InitOk));
}

#[test]
fn handshake_refuses_anything_but_init() {
    let first = Message {
        src: "c0".to_string(),
        dest: "n1".to_string(),
        body: Body { id: Some(1), in_reply_to: None, payload: InitPayload::InitOk },
    };
    assert_eq!(handshake(first).err(), Some(HandshakeError::ExpectedInit));
}

#[test]
fn is_ref_false_negates() {
    assert!(is_ref_false(&false));
    assert!(!is_ref_false(&true));
}

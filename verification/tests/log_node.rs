use gossip_glomers::log::{LogError, LogNode, Payload};
use gossip_glomers::message::{Body, Event, Init, Message};
use gossip_glomers::store::{Answer, Request};
use std::collections::HashMap;

fn node() -> LogNode {
    LogNode::from_init(Init {
        node_id: "n1".to_string(),
        node_ids: vec!["n1".to_string(), "n2".to_string()],
    })
}

fn from_client(id: usize, payload: Payload) -> Event<Payload, ()> {
    Event::Message(Message {
        src: "c1".to_string(),
        dest: "n1".to_string(),
        body: Body { id: Some(id), in_reply_to: None, payload },
    })
}

fn from_store(in_reply_to: usize, payload: Payload) -> Event<Payload, ()> {
    Event::Message(Message {
        src: "lin-kv".to_string(),
        dest: "n1".to_string(),
        body: Body { id: Some(1000 + in_reply_to), in_reply_to: Some(in_reply_to), payload },
    })
}

fn to_store(id: usize, payload: Payload) -> Message<Payload> {
    Message {
        src: "n1".to_string(),
        dest: "lin-kv".to_string(),
        body: Body { id: Some(id), in_reply_to: None, payload },
    }
}

fn to_client(id: usize, in_reply_to: usize, payload: Payload) -> Message<Payload> {
    Message {
        src: "n1".to_string(),
        dest: "c1".to_string(),
        body: Body { id: Some(id), in_reply_to: Some(in_reply_to), payload },
    }
}

fn missing() -> Payload {
    Payload::Error { code: 20, text: "key does not exist".to_string() }
}

fn conflict() -> Payload {
    Payload::Error { code: 22, text: "precondition failed".to_string() }
}

/// A node with one append that has claimed offset 0 and waits for the
/// write of its value, which went out under the id 4.
fn node_waiting_for_the_write() -> LogNode {
    let mut node = node();
    node.handle(from_client(1, Payload::Send { key: "k1".to_string(), msg: 123 })).unwrap();
    node.handle(from_store(2, missing())).unwrap();
    let out = node.handle(from_store(3, Payload::CasOk {})).unwrap();
    assert_eq!(out, vec![to_store(4, Payload::Write { key: "k1:0".to_string(), value: 123 })]);
    node
}

fn store_answer(store: &mut HashMap<String, i64>, request: &Payload) -> Payload {
    match request {
        Payload::Read { key } => match store.get(key) {
            Some(value) => Payload::ReadOk { value: *value },
            None => missing(),
        },
        Payload::Write { key, value } => {
            store.insert(key.clone(), *value);
            Payload::WriteOk {}
        }
        Payload::Cas { key, from, to, put } => match store.get(key) {
            Some(value) if value == from => {
                store.insert(key.clone(), *to);
                Payload::CasOk {}
            }
            Some(_) => conflict(),
            None => {
                if *put {
                    store.insert(key.clone(), *to);
                    Payload::CasOk {}
                } else {
                    missing()
                }
            }
        },
        other => panic!("no request to the store: {:?}", other),
    }
}

/// Hands `event` to the node and serves every request to the store until
/// none is left; hands back what the node sent to clients.
fn settle(
    node: &mut LogNode,
    store: &mut HashMap<String, i64>,
    event: Event<Payload, ()>,
) -> Vec<Message<Payload>> {
    let mut queue = node.handle(event).unwrap();
    let mut out = Vec::new();
    while !queue.is_empty() {
        let message = queue.remove(0);
        if message.dest == "lin-kv" {
            assert_eq!(message.src, "n1");
            assert_eq!(message.body.in_reply_to, None);
            let answer = store_answer(store, &message.body.payload);
            let reply = from_store(message.body.id.unwrap(), answer);
            queue.extend(node.handle(reply).unwrap());
        } else {
            out.push(message);
        }
    }
    out
}

#[test]
fn send_runs_through_read_claim_write_and_check() {
    let mut node = node();
    let send = Payload::Send { key: "k1".to_string(), msg: 123 };
    let out = node.handle(from_client(1, send)).unwrap();
    assert_eq!(out, vec![to_store(2, Payload::Read { key: "latest:k1".to_string() })]);
    assert_eq!(node.outstanding(), 1);

    let out = node.handle(from_store(2, missing())).unwrap();
    let claim = Payload::Cas { key: "latest:k1".to_string(), from: -1, to: 0, put: true };
    assert_eq!(out, vec![to_store(3, claim)]);

    let out = node.handle(from_store(3, Payload::CasOk {})).unwrap();
    assert_eq!(out, vec![to_store(4, Payload::Write { key: "k1:0".to_string(), value: 123 })]);

    let out = node.handle(from_store(4, Payload::WriteOk {})).unwrap();
    assert_eq!(out, vec![to_store(5, Payload::Read { key: "latest:k1".to_string() })]);

    let out = node.handle(from_store(5, Payload::ReadOk { value: 0 })).unwrap();
    assert_eq!(out, vec![to_client(1, 1, Payload::SendOk { offset: 0 })]);
    assert_eq!(node.outstanding(), 0);
}

#[test]
fn send_retries_the_claim_with_the_next_offset() {
    let mut node = node();
    node.handle(from_client(7, Payload::Send { key: "k".to_string(), msg: 1 })).unwrap();
    let out = node.handle(from_store(2, Payload::ReadOk { value: 4 })).unwrap();
    let first = Payload::Cas { key: "latest:k".to_string(), from: 3, to: 4, put: false };
    assert_eq!(out, vec![to_store(3, first)]);
    let out = node.handle(from_store(3, conflict())).unwrap();
    let second = Payload::Cas { key: "latest:k".to_string(), from: 4, to: 5, put: false };
    assert_eq!(out, vec![to_store(4, second)]);
    let out = node.handle(from_store(4, Payload::CasOk {})).unwrap();
    assert_eq!(out, vec![to_store(5, Payload::Write { key: "k:5".to_string(), value: 1 })]);
}

#[test]
fn a_reply_to_no_request_is_reported() {
    let mut node = node();
    let r = node.handle(from_store(99, Payload::ReadOk { value: 1 }));
    assert_eq!(r, Err(LogError::Unmatched { id: 99 }));
}

#[test]
fn a_duplicate_reply_is_reported() {
    let mut node = node();
    node.handle(from_client(1, Payload::Send { key: "k".to_string(), msg: 1 })).unwrap();
    node.handle(from_store(2, missing())).unwrap();
    assert_eq!(node.handle(from_store(2, missing())), Err(LogError::Unmatched { id: 2 }));
}

#[test]
fn send_fails_when_the_offsets_run_out() {
    let mut node = node();
    node.handle(from_client(1, Payload::Send { key: "k".to_string(), msg: 1 })).unwrap();
    node.handle(from_store(2, Payload::ReadOk { value: i64::MAX })).unwrap();
    let r = node.handle(from_store(3, conflict()));
    assert_eq!(r, Err(LogError::OffsetsExhausted));
}

#[test]
fn sends_interleaved_on_one_node_get_distinct_offsets() {
    let mut node = node();
    let mut store = HashMap::new();
    let mut queue = Vec::new();
    queue.extend(node.handle(from_client(1, Payload::Send { key: "k".to_string(), msg: 10 })).unwrap());
    queue.extend(node.handle(from_client(2, Payload::Send { key: "k".to_string(), msg: 20 })).unwrap());
    queue.extend(node.handle(from_client(3, Payload::Send { key: "k".to_string(), msg: 30 })).unwrap());
    assert_eq!(node.outstanding(), 3);
    let mut answers = Vec::new();
    while !queue.is_empty() {
        let message = queue.pop().unwrap();
        if message.dest == "lin-kv" {
            let answer = store_answer(&mut store, &message.body.payload);
            let reply = from_store(message.body.id.unwrap(), answer);
            let mut more = node.handle(reply).unwrap();
            more.extend(queue);
            queue = more;
        } else {
            answers.push(message);
        }
    }
    assert_eq!(answers.len(), 3);
    let mut offsets = Vec::new();
    for answer in &answers {
        assert_eq!(answer.dest, "c1");
        assert_eq!(answer.src, "n1");
        match answer.body.payload {
            Payload::SendOk { offset } => offsets.push((answer.body.in_reply_to.unwrap(), offset)),
            ref other => panic!("no answer to a send: {:?}", other),
        }
    }
    offsets.sort();
    let mut claimed: Vec<i64> = offsets.iter().map(|(_, o)| *o).collect();
    claimed.sort();
    assert_eq!(claimed, vec![0, 1, 2]);
    for (request, offset) in offsets {
        assert_eq!(store.get(&format!("k:{}", offset)), Some(&(request as i64 * 10)));
    }
    assert_eq!(node.outstanding(), 0);
}

#[test]
fn poll_returns_what_was_sent_in_order_of_offset() {
    let mut node = node();
    let mut store = HashMap::new();
    for (id, value) in [(1, 5), (2, 6), (3, 7)] {
        settle(&mut node, &mut store, from_client(id, Payload::Send { key: "k".to_string(), msg: value }));
    }
    settle(&mut node, &mut store, from_client(4, Payload::Send { key: "other".to_string(), msg: 9 }));
    let poll = Payload::Poll { offsets: vec![("k".to_string(), 1), ("other".to_string(), 0), ("none".to_string(), 0)] };
    let out = settle(&mut node, &mut store, from_client(5, poll));
    assert_eq!(out.len(), 1);
    assert_eq!(out[0].dest, "c1");
    assert_eq!(out[0].body.in_reply_to, Some(5));
    assert_eq!(
        out[0].body.payload,
        Payload::PollOk {
            msgs: vec![
                ("k".to_string(), vec![(1, 6), (2, 7)]),
                ("other".to_string(), vec![(0, 9)]),
                ("none".to_string(), vec![]),
            ]
        }
    );
}

#[test]
fn poll_of_no_log_is_answered_at_once() {
    let mut node = node();
    let out = node.handle(from_client(3, Payload::Poll { offsets: vec![] })).unwrap();
    assert_eq!(out, vec![to_client(1, 3, Payload::PollOk { msgs: vec![] })]);
    assert_eq!(node.outstanding(), 0);
}

#[test]
fn commit_records_and_list_reports_the_marks() {
    let mut node = node();
    let commit = Payload::CommitOffsets {
        offsets: vec![("a".to_string(), 3), ("b".to_string(), 7), ("a".to_string(), 5)],
    };
    let out = node.handle(from_client(1, commit)).unwrap();
    assert_eq!(out, vec![to_client(1, 1, Payload::CommitOffsetsOk)]);
    assert_eq!(node.committed(&"a".to_string()), Some(5));
    assert_eq!(node.committed(&"b".to_string()), Some(7));
    assert_eq!(node.committed(&"c".to_string()), None);
    let list = Payload::ListCommittedOffsets {
        keys: vec!["b".to_string(), "c".to_string(), "a".to_string()],
    };
    let out = node.handle(from_client(2, list)).unwrap();
    let expected = Payload::ListCommittedOffsetsOk {
        offsets: vec![("b".to_string(), 7), ("a".to_string(), 5)],
    };
    assert_eq!(out, vec![to_client(2, 2, expected)]);
}

#[test]
fn commit_has_no_effect_on_what_is_sent_or_polled() {
    let mut node = node();
    let mut store = HashMap::new();
    settle(&mut node, &mut store, from_client(1, Payload::Send { key: "k".to_string(), msg: 5 }));
    let before = store.clone();
    let commit = Payload::CommitOffsets { offsets: vec![("k".to_string(), 100)] };
    settle(&mut node, &mut store, from_client(2, commit));
    assert_eq!(store, before);
    let out = settle(&mut node, &mut store, from_client(3, Payload::Send { key: "k".to_string(), msg: 6 }));
    assert_eq!(out[0].body.payload, Payload::SendOk { offset: 1 });
}

#[test]
fn answers_that_arrive_unasked_are_passed_over_but_take_an_id() {
    let mut node = node();
    for payload in [
        Payload::SendOk { offset: 1 },
        Payload::PollOk { msgs: vec![] },
        Payload::CommitOffsetsOk,
        Payload::ListCommittedOffsetsOk { offsets: vec![] },
        Payload::Read { key: "k".to_string() },
        Payload::ReadOk { value: 1 },
        Payload::Write { key: "k".to_string(), value: 1 },
        Payload::WriteOk {},
        Payload::Cas { key: "k".to_string(), from: 0, to: 1, put: false },
        Payload::CasOk {},
        Payload::Error { code: 13, text: "crash".to_string() },
    ] {
        assert_eq!(node.handle(from_client(1, payload)), Ok(vec![]));
    }
    let out = node.handle(from_client(1, Payload::Poll { offsets: vec![] })).unwrap();
    assert_eq!(out[0].body.id, Some(12));
}

#[test]
fn end_of_stream_and_timer_call_for_nothing() {
    let mut node = node();
    assert_eq!(node.handle(Event::EOF), Ok(vec![]));
    assert_eq!(node.handle(Event::Injected(())), Ok(vec![]));
    let out = node.handle(from_client(1, Payload::Poll { offsets: vec![] })).unwrap();
    assert_eq!(out[0].body.id, Some(1));
}

#[test]
fn payload_classifies_the_replies_of_the_store() {
    assert_eq!(Payload::ReadOk { value: 4 }.answer(), Answer::Value(4));
    assert_eq!(Payload::CasOk {}.answer(), Answer::Swapped);
    assert_eq!(Payload::WriteOk {}.answer(), Answer::Written);
    assert_eq!(missing().answer(), Answer::Missing);
    assert_eq!(conflict().answer(), Answer::Conflict);
    for code in [0, 1, 10, 11, 13, 14, 21, 23, 30] {
        let error = Payload::Error { code, text: "no".to_string() };
        assert_eq!(error.answer(), Answer::Failed);
    }
    assert_eq!(Payload::SendOk { offset: 1 }.answer(), Answer::Failed);
    assert_eq!(Payload::Read { key: "k".to_string() }.answer(), Answer::Failed);
    assert_eq!(
        Payload::asking(Request::Cas { key: "k".to_string(), from: 1, to: 2, put: true }),
        Payload::Cas { key: "k".to_string(), from: 1, to: 2, put: true }
    );
    assert_eq!(
        Payload::asking(Request::Read { key: "k".to_string() }),
        Payload::Read { key: "k".to_string() }
    );
    assert_eq!(
        Payload::asking(Request::Write { key: "k".to_string(), value: 3 }),
        Payload::Write { key: "k".to_string(), value: 3 }
    );
}

#[test]
fn a_write_that_the_store_refuses_ends_the_node_without_send_ok() {
    for reply in [
        Payload::Error { code: 11, text: "temporarily unavailable".to_string() },
        Payload::Error { code: 13, text: "crash".to_string() },
        missing(),
        conflict(),
        Payload::CasOk {},
        Payload::ReadOk { value: 123 },
    ] {
        let mut node = node_waiting_for_the_write();
        assert_eq!(node.handle(from_store(4, reply)), Err(LogError::StoreFailed));
    }
}

#[test]
fn a_write_ok_in_answer_to_a_claim_claims_nothing() {
    let mut node = node();
    node.handle(from_client(1, Payload::Send { key: "k1".to_string(), msg: 123 })).unwrap();
    node.handle(from_store(2, missing())).unwrap();
    assert_eq!(node.handle(from_store(3, Payload::WriteOk {})), Err(LogError::StoreFailed));
}

#[test]
fn a_claim_goes_on_only_from_a_conflict() {
    for reply in [
        missing(),
        Payload::Error { code: 11, text: "temporarily unavailable".to_string() },
        Payload::ReadOk { value: 0 },
        Payload::SendOk { offset: 0 },
    ] {
        let mut node = node();
        node.handle(from_client(1, Payload::Send { key: "k1".to_string(), msg: 123 })).unwrap();
        node.handle(from_store(2, Payload::ReadOk { value: 3 })).unwrap();
        assert_eq!(node.handle(from_store(3, reply)), Err(LogError::StoreFailed));
    }
}

#[test]
fn the_first_read_goes_on_only_from_a_value_or_a_missing_key() {
    for reply in [
        conflict(),
        Payload::Error { code: 13, text: "crash".to_string() },
        Payload::WriteOk {},
        Payload::CasOk {},
        Payload::PollOk { msgs: vec![] },
    ] {
        let mut node = node();
        node.handle(from_client(1, Payload::Send { key: "k1".to_string(), msg: 123 })).unwrap();
        assert_eq!(node.handle(from_store(2, reply)), Err(LogError::StoreFailed));
    }
}

#[test]
fn a_poll_ends_the_node_on_an_error_that_is_no_missing_key() {
    let mut node = node();
    let poll = Payload::Poll { offsets: vec![("k".to_string(), 0)] };
    let out = node.handle(from_client(1, poll)).unwrap();
    assert_eq!(out, vec![to_store(2, Payload::Read { key: "latest:k".to_string() })]);
    let crash = Payload::Error { code: 13, text: "crash".to_string() };
    assert_eq!(node.handle(from_store(2, crash)), Err(LogError::StoreFailed));
}

#[test]
fn a_poll_returns_only_what_appends_have_written() {
    let mut node = node();
    let mut store = HashMap::new();
    let first = settle(&mut node, &mut store, from_client(1, Payload::Send { key: "k".to_string(), msg: 41 }));
    let second = settle(&mut node, &mut store, from_client(2, Payload::Send { key: "k".to_string(), msg: 42 }));
    assert_eq!(first[0].body.payload, Payload::SendOk { offset: 0 });
    assert_eq!(second[0].body.payload, Payload::SendOk { offset: 1 });
    let poll = Payload::Poll { offsets: vec![("k".to_string(), 0)] };
    let out = settle(&mut node, &mut store, from_client(3, poll));
    assert_eq!(
        out[0].body.payload,
        Payload::PollOk { msgs: vec![("k".to_string(), vec![(0, 41), (1, 42)])] }
    );
}

use gossip_glomers::poll::{PollOp, PollStep};
use gossip_glomers::send::{SendOp, Step};
use gossip_glomers::store::{Answer, Request};
use std::collections::HashMap;

fn serve(store: &mut HashMap<String, i64>, request: &Request) -> Answer {
    match request {
        Request::Read { key } => match store.get(key) {
            Some(value) => Answer::Value(*value),
            None => Answer::Missing,
        },
        Request::Write { key, value } => {
            store.insert(key.clone(), *value);
            Answer::Written
        }
        Request::Cas { key, from, to, put } => match store.get(key) {
            Some(value) if value == from => {
                store.insert(key.clone(), *to);
                Answer::Swapped
            }
            Some(_) => Answer::Conflict,
            None => {
                if *put {
                    store.insert(key.clone(), *to);
                    Answer::Swapped
                } else {
                    Answer::Missing
                }
            }
        },
    }
}

/// Runs the appends of `values` to the log `k`, giving the turn to the
/// append that `pick` names among those still busy, and hands back the
/// offset of each and the number of turns taken.
fn run_appends(
    store: &mut HashMap<String, i64>,
    values: &[i64],
    mut pick: impl FnMut(usize, usize) -> usize,
) -> (Vec<i64>, usize) {
    let mut busy: Vec<(usize, SendOp)> = values
        .iter()
        .enumerate()
        .map(|(i, v)| (i, SendOp::begin("k".to_string(), *v)))
        .collect();
    let mut offsets = vec![None; values.len()];
    let mut turns = 0;
    while !busy.is_empty() {
        let at = pick(turns, busy.len()) % busy.len();
        let (who, op) = busy.swap_remove(at);
        let answer = serve(store, &op.request());
        turns += 1;
        match op.resume(answer) {
            Step::Ask(next) => busy.push((who, next)),
            Step::Done(offset) => offsets[who] = Some(offset),
            other => panic!("the append cannot give up here: {:?}", other),
        }
    }
    (offsets.into_iter().map(|o| o.unwrap()).collect(), turns)
}

fn poll_log(store: &HashMap<String, i64>, start: i64) -> Vec<(i64, i64)> {
    let mut step = PollOp::begin(vec![("k".to_string(), start)]);
    loop {
        match step {
            PollStep::Finished(mut found) => return found.remove(0).1,
            PollStep::Failed => panic!("the poll cannot fail here"),
            PollStep::Ask(op) => {
                let answer = match op.request() {
                    Request::Read { key } => match store.get(&key) {
                        Some(value) => Answer::Value(*value),
                        None => Answer::Missing,
                    },
                    other => panic!("a poll only reads, but asked {:?}", other),
                };
                step = op.resume(answer);
            }
        }
    }
}

#[test]
fn one_append_to_an_empty_store_gets_offset_zero() {
    let mut store = HashMap::new();
    let (offsets, turns) = run_appends(&mut store, &[5], |_, _| 0);
    assert_eq!(offsets, vec![0]);
    assert_eq!(turns, 4);
    assert_eq!(store.get("latest:k"), Some(&0));
    assert_eq!(store.get("k:0"), Some(&5));
}

#[test]
fn appends_one_after_another_get_consecutive_offsets() {
    let mut store = HashMap::new();
    for (n, value) in [10, 20, 30].into_iter().enumerate() {
        let (offsets, _) = run_appends(&mut store, &[value], |_, _| 0);
        assert_eq!(offsets, vec![n as i64]);
    }
    assert_eq!(poll_log(&store, 0), vec![(0, 10), (1, 20), (2, 30)]);
}

#[test]
fn two_concurrent_appends_get_distinct_offsets_and_both_are_polled() {
    for order in 0..64usize {
        let mut store = HashMap::new();
        let (offsets, _) = run_appends(&mut store, &[111, 222], |turn, _| (order >> turn) & 1);
        assert_ne!(offsets[0], offsets[1]);
        let polled = poll_log(&store, 0);
        assert!(polled.contains(&(offsets[0], 111)));
        assert!(polled.contains(&(offsets[1], 222)));
        assert!(polled.windows(2).all(|w| w[0].0 < w[1].0));
        assert_eq!(polled.len(), 2);
    }
}

#[test]
fn many_concurrent_claimants_all_succeed_with_distinct_offsets() {
    let values: Vec<i64> = (0..12).map(|v| 1000 + v).collect();
    for seed in 1..40u64 {
        let mut state = seed.wrapping_mul(0x9E3779B97F4A7C15);
        let mut store = HashMap::new();
        let (offsets, turns) = run_appends(&mut store, &values, |_, _| {
            state ^= state << 13;
            state ^= state >> 7;
            state ^= state << 17;
            (state % 1_000_003) as usize
        });
        let mut sorted = offsets.clone();
        sorted.sort();
        assert_eq!(sorted, (0..12).collect::<Vec<i64>>());
        assert!(turns <= 12 * (12 + 6));
        assert_eq!(store.get("latest:k"), Some(&11));
        for (who, offset) in offsets.iter().enumerate() {
            assert_eq!(store.get(&format!("k:{}", offset)), Some(&values[who]));
        }
    }
}

#[test]
fn appends_after_a_prior_offset_go_on_from_it() {
    let mut store = HashMap::new();
    store.insert("latest:k".to_string(), 41);
    let (offsets, _) = run_appends(&mut store, &[1, 2, 3], |turn, _| turn);
    let mut sorted = offsets.clone();
    sorted.sort();
    assert_eq!(sorted, vec![42, 43, 44]);
    assert_eq!(store.get("latest:k"), Some(&44));
}

#[test]
fn a_slow_append_does_not_lower_the_latest_offset() {
    let mut store = HashMap::new();
    let slow = SendOp::begin("k".to_string(), 1);
    let slow = match slow.resume(serve(&mut store, &Request::Read { key: "latest:k".to_string() })) {
        Step::Ask(op) => op,
        _ => panic!("the append should go on"),
    };
    let request = slow.request();
    let slow = match slow.resume(serve(&mut store, &request)) {
        Step::Ask(op) => op,
        _ => panic!("the append should go on"),
    };
    let values = [2, 3, 4];
    let (others, _) = run_appends(&mut store, &values, |_, _| 0);
    let mut sorted = others.clone();
    sorted.sort();
    assert_eq!(sorted, vec![1, 2, 3]);
    let mut op = slow;
    let offset = loop {
        let request = op.request();
        match op.resume(serve(&mut store, &request)) {
            Step::Ask(next) => op = next,
            Step::Done(offset) => break offset,
            other => panic!("the append cannot give up here: {:?}", other),
        }
    };
    assert_eq!(offset, 0);
    assert_eq!(store.get("latest:k"), Some(&3));
    let mut expected = vec![(0, 1)];
    for (who, offset) in others.iter().enumerate() {
        expected.push((*offset, values[who]));
    }
    expected.sort();
    assert_eq!(poll_log(&store, 0), expected);
}

use gossip_glomers::message::KVPayload;
use gossip_glomers::store::{entry_key, latest_key, Request};
use gossip_glomers::text::{push_decimal_i64, push_decimal_u64};

fn decimal_i64(v: i64) -> String {
    let mut out = String::new();
    push_decimal_i64(&mut out, v);
    out
}

fn decimal_u64(v: u64) -> String {
    let mut out = String::new();
    push_decimal_u64(&mut out, v);
    out
}

#[test]
fn decimal_of_zero_is_one_digit() {
    assert_eq!(decimal_u64(0), "0");
    assert_eq!(decimal_i64(0), "0");
}

#[test]
fn decimal_of_small_numbers() {
    assert_eq!(decimal_u64(7), "7");
    assert_eq!(decimal_u64(10), "10");
    assert_eq!(decimal_u64(1234567890), "1234567890");
    assert_eq!(decimal_i64(42), "42");
    assert_eq!(decimal_i64(-1), "-1");
    assert_eq!(decimal_i64(-907), "-907");
}

#[test]
fn decimal_of_the_largest_and_smallest() {
    assert_eq!(decimal_u64(u64::MAX), "18446744073709551615");
    assert_eq!(decimal_i64(i64::MAX), "9223372036854775807");
    assert_eq!(decimal_i64(i64::MIN), "-9223372036854775808");
}

#[test]
fn decimal_agrees_with_the_standard_notation() {
    for v in [0i64, 1, 9, 10, 99, 100, 101, 65535, -65536, 1_000_000_007] {
        assert_eq!(decimal_i64(v), v.to_string());
    }
}

#[test]
fn push_decimal_appends_to_what_is_there() {
    let mut out = String::from("offset=");
    push_decimal_i64(&mut out, -12);
    assert_eq!(out, "offset=-12");
    push_decimal_u64(&mut out, 3);
    assert_eq!(out, "offset=-123");
}

#[test]
fn latest_key_puts_the_prefix_before_the_log() {
    assert_eq!(latest_key(&"k1".to_string()), "latest:k1");
    assert_eq!(latest_key(&String::new()), "latest:");
}

#[test]
fn entry_key_joins_log_and_offset() {
    assert_eq!(entry_key(&"k1".to_string(), 0), "k1:0");
    assert_eq!(entry_key(&"k1".to_string(), 12), "k1:12");
    assert_eq!(entry_key(&"orders".to_string(), -3), "orders:-3");
}

#[test]
fn entry_keys_of_one_log_differ_from_each_other_and_from_latest() {
    let log = "latest".to_string();
    let latest = latest_key(&log);
    let mut seen = std::collections::HashSet::new();
    for offset in -20..200 {
        let name = entry_key(&log, offset);
        assert_ne!(name, latest);
        assert!(seen.insert(name));
    }
}

#[test]
fn request_turns_into_the_payload_of_its_kind() {
    assert_eq!(
        Request::Read { key: "a".to_string() }.into_payload(),
        KVPayload::Read { key: "a".to_string() }
    );
    assert_eq!(
        Request::Write { key: "a".to_string(), value: 5 }.into_payload(),
        KVPayload::Write { key: "a".to_string(), value: 5 }
    );
    assert_eq!(
        Request::Cas { key: "a".to_string(), from: 1, to: 2, put: true }.into_payload(),
        KVPayload::Cas { key: "a".to_string(), from: 1, to: 2, put: true }
    );
}

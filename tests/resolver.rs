use std::cmp::Ordering;

use lww_client::clock::ClientVectorClock;
use lww_client::order::str_less;
use lww_client::resolve::{compare_lww, resolve_lww_client};
use lww_client::version::ClientVersion;

fn version(value: &str, timestamp: u64, writer: &str) -> ClientVersion {
    ClientVersion {
        value: value.to_string(),
        vector_clock: ClientVectorClock::new(),
        timestamp,
        writer_node_id: writer.to_string(),
    }
}

fn winner_key(r: Option<ClientVersion>) -> (String, u64, String) {
    let w = r.expect("a winner");
    (w.value, w.timestamp, w.writer_node_id)
}

#[test]
fn resolve_empty_is_none() {
    assert_eq!(resolve_lww_client(Vec::new()), None);
}

#[test]
fn resolve_single_returns_it() {
    let v = version("only", 7, "n1");
    assert_eq!(resolve_lww_client(vec![v.clone()]), Some(v));
}

#[test]
fn later_timestamp_wins_either_order() {
    let v1 = version("a", 10, "zz");
    let v2 = version("zzz", 9, "a");
    assert_eq!(resolve_lww_client(vec![v1.clone(), v2.clone()]), Some(v1.clone()));
    assert_eq!(resolve_lww_client(vec![v2, v1.clone()]), Some(v1));
}

#[test]
fn smaller_writer_wins_on_timestamp_tie() {
    let v1 = version("a", 5, "node1");
    let v2 = version("z", 5, "node2");
    assert_eq!(resolve_lww_client(vec![v1.clone(), v2.clone()]), Some(v1.clone()));
    assert_eq!(resolve_lww_client(vec![v2, v1.clone()]), Some(v1));
}

#[test]
fn larger_value_wins_on_timestamp_and_writer_tie() {
    let v1 = version("b", 5, "node1");
    let v2 = version("a", 5, "node1");
    assert_eq!(resolve_lww_client(vec![v1.clone(), v2.clone()]), Some(v1.clone()));
    assert_eq!(resolve_lww_client(vec![v2, v1.clone()]), Some(v1));
}

#[test]
fn concrete_scenario_picks_node1() {
    let vs = vec![version("x", 5, "node2"), version("y", 5, "node1"), version("z", 3, "node0")];
    assert_eq!(resolve_lww_client(vs), Some(version("y", 5, "node1")));
}

#[test]
fn every_order_gives_the_same_winner() {
    let base = [version("x", 5, "node2"), version("y", 5, "node1"), version("z", 3, "node0")];
    let orders = [[0, 1, 2], [0, 2, 1], [1, 0, 2], [1, 2, 0], [2, 0, 1], [2, 1, 0]];
    for order in orders.iter() {
        let vs: Vec<ClientVersion> = order.iter().map(|&i| base[i].clone()).collect();
        assert_eq!(resolve_lww_client(vs), Some(version("y", 5, "node1")));
    }
}

#[test]
fn resolving_the_winner_again_is_idempotent() {
    let vs = vec![version("p", 1, "b"), version("q", 4, "c"), version("r", 4, "a")];
    let first = resolve_lww_client(vs.clone());
    let again = resolve_lww_client(vec![first.clone().unwrap()]);
    assert_eq!(again, first);
    assert_eq!(winner_key(first), ("r".to_string(), 4, "a".to_string()));
}

#[test]
fn equal_rank_keeps_the_last_one() {
    let mut c1 = ClientVectorClock::new();
    c1.insert("A".to_string(), 1);
    let mut c2 = ClientVectorClock::new();
    c2.insert("B".to_string(), 2);
    let v1 = ClientVersion { vector_clock: c1, ..version("v", 3, "n") };
    let v2 = ClientVersion { vector_clock: c2, ..version("v", 3, "n") };
    assert_eq!(resolve_lww_client(vec![v1.clone(), v2.clone()]), Some(v2.clone()));
    assert_eq!(resolve_lww_client(vec![v2, v1.clone()]), Some(v1));
}

#[test]
fn largest_timestamp_wins() {
    let vs = vec![version("old", 0, "a"), version("new", u64::MAX, "z"), version("mid", 1, "a")];
    assert_eq!(winner_key(resolve_lww_client(vs)), ("new".to_string(), u64::MAX, "z".to_string()));
}

#[test]
fn empty_strings_are_accepted() {
    let vs = vec![version("", 2, ""), version("x", 2, "a")];
    assert_eq!(winner_key(resolve_lww_client(vs)), (String::new(), 2, String::new()));
}

#[test]
fn compare_orders_by_timestamp_writer_then_value() {
    assert_eq!(compare_lww(&version("a", 1, "n"), &version("a", 2, "n")), Ordering::Less);
    assert_eq!(compare_lww(&version("a", 2, "n"), &version("a", 1, "n")), Ordering::Greater);
    assert_eq!(compare_lww(&version("a", 1, "n2"), &version("a", 1, "n1")), Ordering::Less);
    assert_eq!(compare_lww(&version("a", 1, "n1"), &version("a", 1, "n2")), Ordering::Greater);
    assert_eq!(compare_lww(&version("a", 1, "n"), &version("b", 1, "n")), Ordering::Less);
    assert_eq!(compare_lww(&version("b", 1, "n"), &version("a", 1, "n")), Ordering::Greater);
    assert_eq!(compare_lww(&version("b", 1, "n"), &version("b", 1, "n")), Ordering::Equal);
}

#[test]
fn strings_compare_by_utf8_bytes() {
    assert!(str_less("a", "ab"));
    assert!(!str_less("ab", "a"));
    assert!(!str_less("", ""));
    assert!(str_less("", "a"));
    assert!(str_less("Z", "a"));
    assert!(str_less("z", "é"));
    assert!(!str_less("é", "z"));
    assert!(str_less("node10", "node2"));
}

#[test]
fn non_ascii_writer_loses_to_ascii_one() {
    let vs = vec![version("x", 1, "é"), version("y", 1, "z")];
    assert_eq!(winner_key(resolve_lww_client(vs)), ("y".to_string(), 1, "z".to_string()));
}

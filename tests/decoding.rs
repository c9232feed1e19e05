use lww_client::clock::ClientVectorClock;
use lww_client::version::ClientVersion;
use lww_client::wire::{WireClockEntry, WireVectorClock, WireVersion};

fn entry(node_id: &str, counter: u64) -> WireClockEntry {
    WireClockEntry { node_id: node_id.to_string(), counter }
}

fn wire(clock: Option<Vec<WireClockEntry>>) -> WireVersion {
    WireVersion {
        value: "val".to_string(),
        vector_clock: clock.map(|entries| WireVectorClock { entries }),
        timestamp: 42,
        writer_node_id: "node7".to_string(),
    }
}

#[test]
fn absent_clock_decodes_to_empty() {
    let v = ClientVersion::from_wire(wire(None));
    assert!(v.vector_clock.is_empty());
    assert_eq!(v.vector_clock.entries().len(), 0);
}

#[test]
fn present_but_empty_clock_decodes_to_empty() {
    let v = ClientVersion::from_wire(wire(Some(Vec::new())));
    assert!(v.vector_clock.is_empty());
}

#[test]
fn fields_are_carried_over() {
    let v = ClientVersion::from_wire(wire(None));
    assert_eq!(v.value, "val");
    assert_eq!(v.timestamp, 42);
    assert_eq!(v.writer_node_id, "node7");
}

#[test]
fn clock_entries_decode_to_a_map() {
    let v = ClientVersion::from_wire(wire(Some(vec![entry("A", 1), entry("B", 2)])));
    let c = &v.vector_clock;
    assert!(!c.is_empty());
    assert_eq!(c.get("A"), Some(1));
    assert_eq!(c.get("B"), Some(2));
    assert_eq!(c.get("C"), None);
    assert_eq!(c.entries().len(), 2);
}

#[test]
fn duplicate_node_last_entry_wins() {
    let v = ClientVersion::from_wire(wire(Some(vec![entry("A", 1), entry("A", 2)])));
    let c = &v.vector_clock;
    assert_eq!(c.get("A"), Some(2));
    assert_eq!(c.entries(), &[("A".to_string(), 2)][..]);
}

#[test]
fn duplicate_node_last_wins_even_when_smaller() {
    let c = ClientVectorClock::from_wire(WireVectorClock {
        entries: vec![entry("A", 9), entry("B", 1), entry("A", 3)],
    });
    assert_eq!(c.get("A"), Some(3));
    assert_eq!(c.get("B"), Some(1));
    assert_eq!(c.entries().len(), 2);
}

#[test]
fn insert_replaces_and_adds() {
    let mut c = ClientVectorClock::new();
    assert!(c.is_empty());
    c.insert("n1".to_string(), 4);
    c.insert("n2".to_string(), 5);
    c.insert("n1".to_string(), 6);
    assert_eq!(c.get("n1"), Some(6));
    assert_eq!(c.get("n2"), Some(5));
    assert_eq!(c.entries(), &[("n1".to_string(), 6), ("n2".to_string(), 5)][..]);
}

#[test]
fn decoded_versions_resolve() {
    let a = ClientVersion::from_wire(WireVersion {
        value: "x".to_string(),
        vector_clock: Some(WireVectorClock { entries: vec![entry("node2", 1)] }),
        timestamp: 5,
        writer_node_id: "node2".to_string(),
    });
    let b = ClientVersion::from_wire(WireVersion {
        value: "y".to_string(),
        vector_clock: Some(WireVectorClock { entries: vec![entry("node1", 1)] }),
        timestamp: 5,
        writer_node_id: "node1".to_string(),
    });
    let w = lww_client::resolve::resolve_lww_client(vec![a, b]).unwrap();
    assert_eq!(w.value, "y");
    assert_eq!(w.vector_clock.get("node1"), Some(1));
}

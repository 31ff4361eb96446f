use spiro::ingest::decode_payload;
use spiro::interval::{Dur, Interval};
use spiro::registry::{add_to_client_data, snapshot, ClientId, Clients};
use spiro::server::{check_interval, merge, process_turn, timeout, TurnEvent, UpdateEvent};

const SEC: u64 = 1_000_000_000;

fn addr(n: u16) -> ClientId {
    ClientId { host: 0x0a_00_00_01, port: n }
}

/// The embedding program's numeric reading of a decoded payload: the
/// first two fields as IEEE-754 doubles, where both read as numbers.
fn interpret(fields: &Vec<String>) -> Option<(u64, u64)> {
    if fields.len() < 2 {
        return None;
    }
    match (fields[0].parse::<f64>(), fields[1].parse::<f64>()) {
        (Ok(x), Ok(y)) => Some((x.to_bits(), y.to_bits())),
        _ => None,
    }
}

#[test]
fn decode_trims_and_splits_on_tabs() {
    let fields = decode_payload(b" 3.5\t-2.25\n".to_vec()).unwrap();
    assert_eq!(fields, vec!["3.5".to_string(), "-2.25".to_string()]);
}

#[test]
fn decode_rejects_invalid_utf8() {
    assert_eq!(decode_payload(vec![0xff, 0xfe, 0x35]), None);
}

#[test]
fn decode_of_untabbed_text_is_one_field() {
    assert_eq!(decode_payload(b"hello\n".to_vec()).unwrap(), vec!["hello".to_string()]);
    assert_eq!(decode_payload(b"".to_vec()).unwrap(), vec!["".to_string()]);
}

#[test]
fn round_trip_datagram_to_registry() {
    // Datagram payload "3.5\t-2.25\n" from address A yields A -> (3.5, -2.25).
    let a = addr(1);
    let fields = decode_payload(b"3.5\t-2.25\n".to_vec()).unwrap();
    let parsed = interpret(&fields);
    assert_eq!(parsed, Some((3.5f64.to_bits(), (-2.25f64).to_bits())));

    let mut reg: Clients = Vec::new();
    let snap = process_turn(
        &mut reg,
        TurnEvent::Ingest(UpdateEvent { source: a, fields }),
        parsed,
        0,
        30 * SEC,
    );
    assert_eq!(reg.len(), 1);
    assert_eq!(reg[0].addr, a);
    assert_eq!(snap, vec![(3.5f64.to_bits(), (-2.25f64).to_bits())]);
    assert_eq!(f64::from_bits(snap[0].0), 3.5);
    assert_eq!(f64::from_bits(snap[0].1), -2.25);
}

#[test]
fn merge_prefers_neither_and_drops_nothing() {
    let u = UpdateEvent { source: addr(1), fields: vec!["1".to_string()] };
    assert!(matches!(merge(Some(u), true), Some(TurnEvent::Both(_))));
    let u = UpdateEvent { source: addr(1), fields: vec!["1".to_string()] };
    assert!(matches!(merge(Some(u), false), Some(TurnEvent::Ingest(_))));
    assert!(matches!(merge(None, true), Some(TurnEvent::Tick)));
    assert!(matches!(merge(None, false), None));
}

#[test]
fn silent_client_outlives_twenty_seconds_and_not_thirty() {
    // Empty registry, timeout 30 s, eviction check every 5 s.  A reports
    // (1.0, 1.0) at t = 0 s and then falls silent.
    let timeout_ns = spiro::interval::duration_to_nanos(timeout()).unwrap();
    let mut timer = Interval::new(check_interval(), 0).unwrap();
    let mut reg: Clients = Vec::new();

    let fields = decode_payload(b"1.0\t1.0".to_vec()).unwrap();
    let parsed = interpret(&fields);
    let snap = process_turn(
        &mut reg,
        TurnEvent::Ingest(UpdateEvent { source: addr(1), fields }),
        parsed,
        0,
        timeout_ns,
    );
    assert_eq!(snap.len(), 1);

    // Eviction passes fire at 5 s intervals; at t = 20 s the snapshot
    // still contains A.
    let mut snap_at_20 = Vec::new();
    for t in [5u64, 10, 15, 20] {
        let tick = timer.poll(t * SEC).unwrap();
        assert!(tick.is_some());
        snap_at_20 = process_turn(&mut reg, TurnEvent::Tick, None, t * SEC, timeout_ns);
    }
    assert_eq!(snap_at_20, vec![(1.0f64.to_bits(), 1.0f64.to_bits())]);

    // The pass at t = 30 s evicts A; the next snapshot no longer has it.
    assert!(timer.poll(25 * SEC).unwrap().is_some());
    let _ = process_turn(&mut reg, TurnEvent::Tick, None, 25 * SEC, timeout_ns);
    assert!(timer.poll(30 * SEC).unwrap().is_some());
    let snap_at_30 = process_turn(&mut reg, TurnEvent::Tick, None, 30 * SEC, timeout_ns);
    assert_eq!(snap_at_30.len(), 0);
}

#[test]
fn simultaneous_events_both_take_effect_before_the_snapshot() {
    // A stale record and a due tick meet a fresh update for B in one
    // turn: the snapshot shows B's new record and the eviction.
    let timeout_ns = 30 * SEC;
    let mut reg: Clients = Vec::new();
    add_to_client_data(&mut reg, addr(9), (1, 2), 0);

    let fields = decode_payload(b"2.0\t3.0".to_vec()).unwrap();
    let parsed = interpret(&fields);
    let now = 35 * SEC;
    let snap = process_turn(
        &mut reg,
        TurnEvent::Both(UpdateEvent { source: addr(2), fields }),
        parsed,
        now,
        timeout_ns,
    );
    assert_eq!(snap, vec![(2.0f64.to_bits(), 3.0f64.to_bits())]);
    assert_eq!(reg.len(), 1);
    assert_eq!(reg[0].addr, addr(2));
    assert_eq!(snapshot(&reg), snap);
}

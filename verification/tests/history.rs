//! Samples of the past.

use control_ofc_daemon::health::history::HistoryRing;

#[test]
fn push_and_retrieve() {
    let mut ring: HistoryRing<f64> = HistoryRing::new(5);
    ring.record("cpu", 42.0, Some(1_000));
    ring.record("cpu", 43.0, Some(1_000));
    ring.record("cpu", 44.0, Some(1_000));

    let samples = ring.get_last("cpu", 10);
    assert_eq!(samples.len(), 3);
    assert!((samples[0].v - 42.0).abs() < f64::EPSILON);
    assert!((samples[2].v - 44.0).abs() < f64::EPSILON);
}

#[test]
fn evicts_oldest_when_full() {
    let mut ring: HistoryRing<f64> = HistoryRing::new(3);
    for i in 0..5 {
        ring.record("s", i as f64, Some(1_000));
    }
    let samples = ring.get_last("s", 10);
    assert_eq!(samples.len(), 3);
    assert!((samples[0].v - 2.0).abs() < f64::EPSILON);
    assert!((samples[2].v - 4.0).abs() < f64::EPSILON);
}

#[test]
fn get_last_fewer_than_available() {
    let mut ring: HistoryRing<f64> = HistoryRing::new(10);
    for i in 0..10 {
        ring.record("s", i as f64, Some(1_000));
    }
    let samples = ring.get_last("s", 3);
    assert_eq!(samples.len(), 3);
    assert!((samples[0].v - 7.0).abs() < f64::EPSILON);
}

#[test]
fn empty_entity_returns_empty() {
    let ring: HistoryRing<f64> = HistoryRing::new(10);
    assert!(ring.get_last("nonexistent", 10).is_empty());
}

#[test]
fn entity_ids_lists_recorded() {
    let mut ring: HistoryRing<f64> = HistoryRing::new(10);
    ring.record("a", 1.0, Some(1_000));
    ring.record("b", 2.0, Some(1_000));
    let mut ids = ring.entity_ids();
    ids.sort();
    assert_eq!(ids, vec!["a", "b"]);
}

#[test]
fn a_store_without_room_keeps_nothing() {
    let mut ring: HistoryRing<f64> = HistoryRing::new(0);
    ring.record("s", 1.0, Some(1_000));
    ring.record("s", 2.0, Some(2_000));
    assert!(ring.get_last("s", 10).is_empty());
    assert_eq!(ring.entity_ids(), vec!["s"]);
}

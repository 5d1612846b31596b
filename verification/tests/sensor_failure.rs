//! Sensors that fail to read.

use control_ofc_daemon::clock::Instant;
use control_ofc_daemon::health::sensor_failure::{SensorFailureTracker, TrackerEvent};
use control_ofc_daemon::hwmon::types::{SensorDescriptor, SensorKind, SensorSource};
use control_ofc_daemon::hwmon::SensorReadFailure;

const THRESHOLD: u32 = 5;

fn descriptor(id: &str) -> SensorDescriptor {
    SensorDescriptor {
        id: id.to_string(),
        kind: SensorKind::MbTemp,
        label: format!("{id}-label"),
        source: SensorSource::Hwmon,
        input_path: format!("/sys/class/hwmon/hwmon6/{id}_input"),
        chip_name: "ath12k_hwmon".to_string(),
        temp_type: None,
        thresholds: None,
    }
}

fn failure(id: &str) -> SensorReadFailure {
    SensorReadFailure {
        id: id.to_string(),
        label: format!("{id}-label"),
        reason: format!("read error: /sys/.../{id}_input: Network is down (os error 100)"),
    }
}

fn run_failing(tracker: &mut SensorFailureTracker, id: &str, ticks: usize) -> RunLog {
    let descs = vec![descriptor(id)];
    let fails = vec![failure(id)];
    let now = Instant::from_millis(5_000);
    let mut log = RunLog::default();
    for _ in 0..ticks {
        if tracker.wants_rediscovery() {
            log.rediscovery_requests += 1;
        }
        for ev in tracker.record_tick(&descs, &fails, now) {
            match ev {
                TrackerEvent::Quarantined { .. } => log.quarantine_events += 1,
                TrackerEvent::Recovered { .. } => log.recovered_events += 1,
            }
        }
    }
    log
}

#[derive(Default)]
struct RunLog {
    rediscovery_requests: usize,
    quarantine_events: usize,
    recovered_events: usize,
}

#[test]
fn persistent_present_unreadable_sensor_logs_a_bounded_story() {
    let mut tracker = SensorFailureTracker::new(THRESHOLD);
    let log = run_failing(&mut tracker, "wifi", 1000);

    assert_eq!(
        log.rediscovery_requests, 1,
        "a still-present unreadable sensor must trigger re-discovery only once, \
         not once per {THRESHOLD} ticks"
    );
    assert_eq!(
        log.quarantine_events, 1,
        "quarantine must be logged exactly once, not every tick"
    );
    assert_eq!(log.recovered_events, 0);
    let unavailable = tracker.unavailable();
    assert_eq!(unavailable.len(), 1);
    assert_eq!(unavailable[0].id, "wifi");
    assert!(unavailable[0].reason.contains("Network is down"));
}

#[test]
fn rediscovery_then_quarantine_timing() {
    let mut tracker = SensorFailureTracker::new(THRESHOLD);
    let descs = vec![descriptor("wifi")];
    let fails = vec![failure("wifi")];
    let now = Instant::from_millis(5_000);

    for _ in 0..THRESHOLD {
        assert!(!tracker.wants_rediscovery());
        assert!(tracker.record_tick(&descs, &fails, now).is_empty());
    }
    assert!(tracker.wants_rediscovery());
    assert_eq!(tracker.rediscovery_ids(), vec!["wifi".to_string()]);
    let events = tracker.record_tick(&descs, &fails, now);
    assert_eq!(events.len(), 1);
    assert!(matches!(events[0], TrackerEvent::Quarantined { .. }));
    assert!(!tracker.wants_rediscovery());
}

#[test]
fn recovery_unquarantines_once() {
    let mut tracker = SensorFailureTracker::new(THRESHOLD);
    run_failing(&mut tracker, "wifi", 20);
    assert_eq!(tracker.unavailable().len(), 1);

    let descs = vec![descriptor("wifi")];
    let events = tracker.record_tick(&descs, &vec![], Instant::from_millis(5_000));
    assert_eq!(events, vec![TrackerEvent::Recovered { id: "wifi".into() }]);
    assert!(tracker.unavailable().is_empty());
    assert!(!tracker.wants_rediscovery());

    assert!(tracker.record_tick(&descs, &vec![], Instant::from_millis(5_000)).is_empty());
}

#[test]
fn vanished_descriptor_is_reconciled_not_quarantined() {
    let mut tracker = SensorFailureTracker::new(THRESHOLD);
    let descs = vec![descriptor("wifi")];
    let fails = vec![failure("wifi")];
    let now = Instant::from_millis(5_000);
    for _ in 0..THRESHOLD {
        tracker.record_tick(&descs, &fails, now);
    }
    assert!(tracker.wants_rediscovery());

    let events = tracker.record_tick(&vec![], &vec![], now);
    assert!(events.is_empty());
    assert!(tracker.unavailable().is_empty());
    assert!(!tracker.wants_rediscovery());
}

#[test]
fn quarantined_descriptor_that_vanishes_is_reconciled_out_silently() {
    let mut tracker = SensorFailureTracker::new(THRESHOLD);
    run_failing(&mut tracker, "wifi", 20);
    assert_eq!(tracker.unavailable().len(), 1);

    let events = tracker.record_tick(&vec![], &vec![], Instant::from_millis(5_000));

    assert!(
        events.is_empty(),
        "a vanished quarantined sensor emits no Recovered event"
    );
    assert!(
        tracker.unavailable().is_empty(),
        "quarantined.retain must drop the absent id"
    );
    assert!(!tracker.wants_rediscovery());
}

#[test]
fn transient_failures_below_threshold_are_silent() {
    let mut tracker = SensorFailureTracker::new(THRESHOLD);
    let descs = vec![descriptor("nvme")];
    let fails = vec![failure("nvme")];
    let now = Instant::from_millis(5_000);

    for _ in 0..(THRESHOLD - 1) {
        assert!(tracker.record_tick(&descs, &fails, now).is_empty());
        assert!(!tracker.wants_rediscovery());
    }
    assert!(tracker.record_tick(&descs, &vec![], now).is_empty());
    assert!(tracker.unavailable().is_empty());
    assert!(!tracker.wants_rediscovery());
}

#[test]
fn multiple_failing_sensors_tracked_independently() {
    let mut tracker = SensorFailureTracker::new(THRESHOLD);
    let descs = vec![descriptor("wifi"), descriptor("probe")];
    let fails = vec![failure("wifi"), failure("probe")];
    let now = Instant::from_millis(5_000);

    for _ in 0..THRESHOLD {
        tracker.record_tick(&descs, &fails, now);
    }
    assert_eq!(tracker.rediscovery_ids(), vec!["probe".to_string(), "wifi".to_string()]);

    let events = tracker.record_tick(&descs, &fails, now);
    assert_eq!(events.len(), 2, "both quarantine on the same tick");
    assert_eq!(tracker.unavailable().len(), 2);
}

#[test]
fn a_threshold_of_zero_quarantines_at_the_first_failure() {
    let mut tracker = SensorFailureTracker::new(0);
    let log = run_failing(&mut tracker, "wifi", 10);
    assert_eq!(log.rediscovery_requests, 0);
    assert_eq!(log.quarantine_events, 1);
    assert_eq!(tracker.unavailable().len(), 1);
}

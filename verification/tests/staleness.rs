//! Health by age of data.

use control_ofc_daemon::clock::{Duration, Instant};
use control_ofc_daemon::health::staleness::{
    compute_health, controls_health, engine_health, evaluate_staleness, poll_subsystem_health,
    HealthStatus, HealthSummary, OpenFanPresence, StalenessConfig,
    SubsystemHealth, WEDGED_TICK_MULTIPLE,
};
use control_ofc_daemon::health::state::{
    CachedSensorReading, DaemonState, DeviceLabel, OpenFanState, SkipReason, SkippedControl,
    SubsystemTimestamps,
};
use control_ofc_daemon::hwmon::types::SensorKind;

fn base_state() -> DaemonState<f64> {
    DaemonState::new(Instant::from_millis(10_000_000))
}

fn state_with_live_engine(now: Instant) -> DaemonState<f64> {
    let mut state = DaemonState::new(now);
    state.subsystem_timestamps.engine_started = Some(now);
    state.subsystem_timestamps.engine_completed = Some(now);
    state
}

fn openfan_at(channel: u8, when: Instant) -> OpenFanState {
    OpenFanState {
        channel,
        rpm: 900,
        last_commanded_pwm: Some(128),
        updated_at: when,
        rpm_polled: true,
    }
}

fn sensor_at(id: &str, when: Instant) -> CachedSensorReading<f64> {
    CachedSensorReading {
        id: id.into(),
        kind: SensorKind::CpuTemp,
        label: id.into(),
        value_mc: 45_000,
        source: DeviceLabel::Hwmon,
        updated_at: when,
        rate_c_per_s: None,
        session_min_mc: None,
        session_max_mc: None,
        chip_name: "k10temp".into(),
        temp_type: None,
        thresholds: None,
    }
}

fn named<'a>(h: &'a HealthSummary, name: &str) -> &'a SubsystemHealth {
    h.subsystems
        .iter()
        .find(|s| s.name == name)
        .expect("subsystem is part of the wire shape")
}

fn default_config() -> StalenessConfig {
    StalenessConfig::default()
}

fn engine_of(h: &HealthSummary) -> &SubsystemHealth {
    h.subsystems
        .iter()
        .find(|s| s.name == "engine")
        .expect("engine is part of the wire shape")
}

#[test]
fn a_wedged_writer_is_unhealthy_even_while_the_loop_ticks_normally() {
    let now = Instant::from_millis(10_000_000);
    let cfg = default_config();

    let control = compute_health(
        &state_with_live_engine(now),
        &cfg,
        now,
        OpenFanPresence::Present,
    );
    assert_eq!(
        engine_of(&control).status,
        HealthStatus::Okay,
        "control must be healthy or the assertion below proves nothing"
    );

    let mut state = state_with_live_engine(now);
    state.subsystem_timestamps.engine_writes_stalled_since = Some(
        now.before(Duration::from_millis(
            cfg.engine_interval_ms * ((WEDGED_TICK_MULTIPLE as u64) + 10),
        )),
    );
    let health = compute_health(&state, &cfg, now, OpenFanPresence::Present);
    assert_eq!(
        engine_of(&health).status,
        HealthStatus::Crit,
        "a wedged writer reported as healthy: {}",
        engine_of(&health).reason
    );
    assert!(engine_of(&health).reason.contains("wedged"));
}

#[test]
fn a_briefly_stalled_write_warns_rather_than_alarming() {
    let now = Instant::from_millis(10_000_000);
    let cfg = default_config();
    let mut state = state_with_live_engine(now);
    let mid = 2 + ((WEDGED_TICK_MULTIPLE as u64) - 2) / 2;
    assert!(
        mid > 2 && mid < (WEDGED_TICK_MULTIPLE as u64),
        "band is empty"
    );
    state.subsystem_timestamps.engine_writes_stalled_since =
        Some(now.before(Duration::from_millis(cfg.engine_interval_ms * mid)));
    assert_eq!(
        engine_of(&compute_health(&state, &cfg, now, OpenFanPresence::Present)).status,
        HealthStatus::Warn
    );
}

#[test]
fn never_updated_is_crit() {
    let state = base_state();
    let now = Instant::from_millis(10_000_000);
    let health = compute_health(&state, &default_config(), now, OpenFanPresence::Present);

    assert_eq!(health.overall, HealthStatus::Crit);

    let openfan = &health.subsystems[0];
    assert_eq!(openfan.name, "openfan");
    assert_eq!(openfan.status, HealthStatus::Crit);
    assert!(openfan.reason.contains("never"));
}

#[test]
fn fresh_data_is_ok() {
    let now = Instant::from_millis(10_000_000);
    let mut state = base_state();
    state.subsystem_timestamps = SubsystemTimestamps {
        openfan: Some(now),
        hwmon: Some(now),
        aio: None,
        engine_started: Some(now),
        engine_completed: Some(now),
        engine_writes_stalled_since: None,
    };

    let health = compute_health(&state, &default_config(), now, OpenFanPresence::Present);
    assert_eq!(health.overall, HealthStatus::Okay);
    assert_eq!(health.subsystems[0].status, HealthStatus::Okay);
    assert_eq!(health.subsystems[1].status, HealthStatus::Okay);
    assert_eq!(health.subsystems[2].status, HealthStatus::Okay);
}

#[test]
fn stale_at_2x_boundary_is_ok() {
    let now = Instant::from_millis(10_000_000);
    let config = default_config();
    let update_time = now.before(Duration::from_millis(2000));
    let mut state = base_state();
    state.subsystem_timestamps.openfan = Some(update_time);
    state.subsystem_timestamps.hwmon = Some(now);

    let health = compute_health(&state, &config, now, OpenFanPresence::Present);
    assert_eq!(health.subsystems[0].status, HealthStatus::Okay);
}

#[test]
fn stale_just_past_2x_is_warn() {
    let now = Instant::from_millis(10_000_000);
    let config = default_config();
    let update_time = now.before(Duration::from_millis(2001));
    let mut state = state_with_live_engine(now);
    state.subsystem_timestamps.openfan = Some(update_time);
    state.subsystem_timestamps.hwmon = Some(now);

    let health = compute_health(&state, &config, now, OpenFanPresence::Present);
    assert_eq!(health.subsystems[0].status, HealthStatus::Warn);
    assert_eq!(health.overall, HealthStatus::Warn);
}

#[test]
fn stale_at_5x_boundary_is_warn() {
    let now = Instant::from_millis(10_000_000);
    let config = default_config();
    let update_time = now.before(Duration::from_millis(5000));
    let mut state = base_state();
    state.subsystem_timestamps.openfan = Some(update_time);
    state.subsystem_timestamps.hwmon = Some(now);

    let health = compute_health(&state, &config, now, OpenFanPresence::Present);
    assert_eq!(health.subsystems[0].status, HealthStatus::Warn);
}

#[test]
fn stale_past_5x_is_crit() {
    let now = Instant::from_millis(10_000_000);
    let config = default_config();
    let update_time = now.before(Duration::from_millis(5001));
    let mut state = state_with_live_engine(now);
    state.subsystem_timestamps.openfan = Some(update_time);
    state.subsystem_timestamps.hwmon = Some(now);

    let health = compute_health(&state, &config, now, OpenFanPresence::Present);
    assert_eq!(health.subsystems[0].status, HealthStatus::Crit);
    assert_eq!(health.overall, HealthStatus::Crit);
}

#[test]
fn engine_is_reported_as_a_subsystem() {
    let now = Instant::from_millis(10_000_000);
    let mut state = state_with_live_engine(now);
    state.subsystem_timestamps.openfan = Some(now);
    state.subsystem_timestamps.hwmon = Some(now);

    let health = compute_health(&state, &default_config(), now, OpenFanPresence::Present);

    assert_eq!(health.subsystems.len(), 4);
    assert_eq!(health.subsystems[0].name, "openfan");
    assert_eq!(health.subsystems[1].name, "hwmon");
    let engine = &health.subsystems[2];
    assert_eq!(engine.name, "engine");
    assert_eq!(engine.status, HealthStatus::Okay);
    assert_eq!(engine.reason, "evaluating on schedule");
    assert_eq!(health.subsystems[3].name, "controls");
}

#[test]
fn a_skipped_control_degrades_overall_status() {
    let now = Instant::from_millis(10_000_000);
    let mut state = state_with_live_engine(now);
    state.subsystem_timestamps.openfan = Some(now);
    state.subsystem_timestamps.hwmon = Some(now);

    let healthy = compute_health(&state, &default_config(), now, OpenFanPresence::Present);
    assert_eq!(
        healthy.overall,
        HealthStatus::Okay,
        "precondition: with nothing skipped this state must be fully green"
    );

    state.skipped_controls = vec![SkippedControl {
        control_id: "ctl".into(),
        control_name: "Front intake".into(),
        reason: SkipReason::CurveNotFound,
        since: now.before(Duration::from_secs(30)),
    }];

    let health = compute_health(&state, &default_config(), now, OpenFanPresence::Present);
    let controls = health
        .subsystems
        .iter()
        .find(|s| s.name == "controls")
        .expect("the controls subsystem must be present");

    assert_eq!(controls.status, HealthStatus::Warn);
    assert_eq!(
        health.overall,
        HealthStatus::Warn,
        "the rollup must carry it — an entry that never reaches `overall` \
         leaves every existing consumer just as blind as before"
    );
    assert!(
        controls.reason.contains("not being commanded"),
        "the reason must say what is wrong in the operator's terms: {}",
        controls.reason
    );
    assert_eq!(
        controls.age_ms,
        Some(30_000),
        "age is the LONGEST skipped_for_ms — a flapping control must not \
         mask one that has been sitting unresolved"
    );
}

#[test]
fn a_skipped_control_does_not_report_as_a_failed_subsystem() {
    let now = Instant::from_millis(10_000_000);
    let mut state = state_with_live_engine(now);
    state.subsystem_timestamps.openfan = Some(now);
    state.subsystem_timestamps.hwmon = Some(now);
    state.skipped_controls = (0..5)
        .map(|i| SkippedControl {
            control_id: format!("ctl{i}"),
            control_name: format!("Control {i}"),
            reason: SkipReason::SensorUnavailable,
            since: now.before(Duration::from_secs(3600)),
        })
        .collect();

    let health = compute_health(&state, &default_config(), now, OpenFanPresence::Present);
    assert_ne!(
        health.overall,
        HealthStatus::Crit,
        "five controls skipped for an hour is still not a FAILED daemon — \
         Crit is reserved for a subsystem that has stopped working"
    );
}

#[test]
fn controls_age_reports_the_oldest_skip() {
    let now = Instant::from_millis(10_000_000);
    let mut state = state_with_live_engine(now);
    state.skipped_controls = vec![
        SkippedControl {
            control_id: "recent".into(),
            control_name: "Recent".into(),
            reason: SkipReason::CurveNotFound,
            since: now.before(Duration::from_secs(2)),
        },
        SkippedControl {
            control_id: "old".into(),
            control_name: "Old".into(),
            reason: SkipReason::CurveNotFound,
            since: now.before(Duration::from_secs(900)),
        },
    ];

    let controls = controls_health(&state.skipped_controls, now);
    assert_eq!(controls.age_ms, Some(900_000));
    assert!(
        controls.reason.starts_with("2 controls"),
        "the count must be plural and accurate: {}",
        controls.reason
    );
}

#[test]
fn stalled_engine_escalates_overall_despite_fresh_poll_data() {
    let now = Instant::from_millis(10_000_000);
    let mut state = base_state();
    state.subsystem_timestamps.openfan = Some(now);
    state.subsystem_timestamps.hwmon = Some(now);
    state.subsystem_timestamps.engine_started = Some(now.before(Duration::from_millis(6100)));
    state.subsystem_timestamps.engine_completed = Some(now.before(Duration::from_millis(6000)));

    let health = compute_health(&state, &default_config(), now, OpenFanPresence::Present);

    assert_eq!(health.subsystems[0].status, HealthStatus::Okay);
    assert_eq!(health.subsystems[1].status, HealthStatus::Okay);
    assert_eq!(health.subsystems[2].status, HealthStatus::Crit);
    assert_eq!(
        health.subsystems[2].reason,
        "not ticking — fan control and thermal safety are stalled"
    );
    assert_eq!(health.overall, HealthStatus::Crit);
}

#[test]
fn a_slow_tick_is_reported_as_busy_not_stalled() {
    let now = Instant::from_millis(10_000_000);
    let mut state = base_state();
    state.subsystem_timestamps.openfan = Some(now);
    state.subsystem_timestamps.hwmon = Some(now);
    state.subsystem_timestamps.engine_started = Some(now.before(Duration::from_millis(8000)));
    state.subsystem_timestamps.engine_completed = Some(now.before(Duration::from_millis(9000)));

    let engine =
        &compute_health(&state, &default_config(), now, OpenFanPresence::Present).subsystems[2];

    assert_eq!(
        engine.status,
        HealthStatus::Warn,
        "a slow tick is busy, not dead — reporting crit here is a false alarm \
         during a thermal emergency"
    );
    assert!(
        engine.reason.contains("still running"),
        "and it must say so: {}",
        engine.reason
    );
}

#[test]
fn a_tick_that_never_finishes_still_escalates_eventually() {
    let now = Instant::from_millis(10_000_000);
    let mut state = base_state();
    state.subsystem_timestamps.openfan = Some(now);
    state.subsystem_timestamps.hwmon = Some(now);
    let ms = (WEDGED_TICK_MULTIPLE as u64) * 1000 + 1;
    state.subsystem_timestamps.engine_started = Some(now.before(Duration::from_millis(ms)));
    state.subsystem_timestamps.engine_completed = Some(now.before(Duration::from_millis(ms + 1000)));

    let engine =
        &compute_health(&state, &default_config(), now, OpenFanPresence::Present).subsystems[2];
    assert_eq!(engine.status, HealthStatus::Crit);
    assert!(engine.reason.contains("stuck"), "{}", engine.reason);
}

#[test]
fn a_tick_in_flight_right_now_is_not_an_alarm() {
    let now = Instant::from_millis(10_000_000);
    let mut state = base_state();
    state.subsystem_timestamps.openfan = Some(now);
    state.subsystem_timestamps.hwmon = Some(now);
    state.subsystem_timestamps.engine_started = Some(now.before(Duration::from_millis(5)));
    state.subsystem_timestamps.engine_completed = Some(now.before(Duration::from_millis(1005)));

    let engine =
        &compute_health(&state, &default_config(), now, OpenFanPresence::Present).subsystems[2];
    assert_eq!(engine.status, HealthStatus::Okay, "{}", engine.reason);
}

#[test]
fn engine_uses_its_own_threshold_not_the_poll_interval() {
    let now = Instant::from_millis(10_000_000);
    let config = StalenessConfig {
        openfan_interval_ms: 2000,
        hwmon_interval_ms: 2000,
        ..StalenessConfig::default()
    };
    let mut state = base_state();
    let stamp = now.before(Duration::from_millis(3000));
    state.subsystem_timestamps.openfan = Some(stamp);
    state.subsystem_timestamps.hwmon = Some(stamp);
    state.subsystem_timestamps.engine_started = Some(stamp);
    state.subsystem_timestamps.engine_completed = Some(stamp);

    let health = compute_health(&state, &config, now, OpenFanPresence::Present);

    assert_eq!(health.subsystems[0].status, HealthStatus::Okay);
    assert_eq!(health.subsystems[2].status, HealthStatus::Warn);
}

#[test]
fn overall_is_worst_of_subsystems() {
    let now = Instant::from_millis(10_000_000);
    let config = default_config();
    let mut state = state_with_live_engine(now);
    state.subsystem_timestamps.openfan = Some(now);
    state.subsystem_timestamps.hwmon = Some(now.before(Duration::from_millis(6000)));

    let health = compute_health(&state, &config, now, OpenFanPresence::Present);
    assert_eq!(health.subsystems[0].status, HealthStatus::Okay);
    assert_eq!(health.subsystems[1].status, HealthStatus::Crit);
    assert_eq!(health.overall, HealthStatus::Crit);
}

#[test]
fn age_ms_reported_correctly() {
    let now = Instant::from_millis(10_000_000);
    let update_time = now.before(Duration::from_millis(1500));
    let mut state = base_state();
    state.subsystem_timestamps.openfan = Some(update_time);
    state.subsystem_timestamps.hwmon = Some(now);

    let health = compute_health(&state, &default_config(), now, OpenFanPresence::Present);
    let openfan_age = health.subsystems[0].age_ms.unwrap();
    assert!((1499..=1510).contains(&openfan_age));
}

#[test]
fn never_updated_has_no_age() {
    let state = base_state();
    let now = Instant::from_millis(10_000_000);
    let health = compute_health(&state, &default_config(), now, OpenFanPresence::Present);
    assert!(health.subsystems[0].age_ms.is_none());
}

#[test]
fn health_status_ordering() {
    assert!(HealthStatus::Okay < HealthStatus::Warn);
    assert!(HealthStatus::Warn < HealthStatus::Crit);
}

#[test]
fn health_status_display_wire_strings() {
    assert_eq!(HealthStatus::Okay.as_str(), "ok");
    assert_eq!(HealthStatus::Warn.as_str(), "warn");
    assert_eq!(HealthStatus::Crit.as_str(), "crit");
}

#[test]
fn a_short_frame_leaves_uncovered_channels_ageing_and_openfan_reports_it() {
    let now = Instant::from_millis(10_000_000);
    let mut state = state_with_live_engine(now);
    for ch in 0..10u8 {
        let when = if ch < 3 {
            now
        } else {
            now.before(Duration::from_millis(4000))
        };
        state.openfan_fans.insert(ch, openfan_at(ch, when));
    }
    state.subsystem_timestamps.openfan = Some(now);
    state.subsystem_timestamps.hwmon = Some(now);

    let health = compute_health(&state, &default_config(), now, OpenFanPresence::Present);
    let openfan = named(&health, "openfan");

    assert_eq!(
        openfan.status,
        HealthStatus::Warn,
        "seven channels 4 s stale must not report as fresh; reason was {:?}",
        openfan.reason
    );
    assert_eq!(
        openfan.age_ms,
        Some(4000),
        "age must be the oldest READING, not the poll stamp"
    );
    assert!(
        openfan.reason.contains("7 of 10"),
        "the reason must name the uncovered channels, got {:?}",
        openfan.reason
    );
    assert!(
        openfan.reason.contains("poll loop is running"),
        "the reason must not send the reader to the link, got {:?}",
        openfan.reason
    );
}

#[test]
fn a_full_frame_still_reports_fresh() {
    let now = Instant::from_millis(10_000_000);
    let mut state = state_with_live_engine(now);
    for ch in 0..10u8 {
        state.openfan_fans.insert(ch, openfan_at(ch, now));
    }
    state.subsystem_timestamps.openfan = Some(now);
    state.subsystem_timestamps.hwmon = Some(now);

    let health = compute_health(&state, &default_config(), now, OpenFanPresence::Present);
    assert_eq!(named(&health, "openfan").status, HealthStatus::Okay);
    assert_eq!(health.overall, HealthStatus::Okay);
}

#[test]
fn an_empty_item_set_does_not_manufacture_staleness() {
    let now = Instant::from_millis(10_000_000);
    let mut state = state_with_live_engine(now);
    state.subsystem_timestamps.openfan = Some(now);
    state.subsystem_timestamps.hwmon = Some(now);
    assert!(state.openfan_fans.is_empty() && state.sensors.is_empty());

    let health = compute_health(&state, &default_config(), now, OpenFanPresence::Present);
    assert_eq!(named(&health, "openfan").status, HealthStatus::Okay);
    assert_eq!(named(&health, "hwmon").status, HealthStatus::Okay);
}

#[test]
fn hwmon_is_judged_on_poll_liveness_alone_not_on_cached_reading_age() {
    let now = Instant::from_millis(10_000_000);
    let mut state = state_with_live_engine(now);
    state.subsystem_timestamps.openfan = Some(now);
    state.subsystem_timestamps.hwmon = Some(now);
    state.sensors.insert("good".into(), sensor_at("good", now));
    state.sensors.insert(
        "ath12k".into(),
        sensor_at("ath12k", now.before(Duration::from_millis(4000))),
    );
    state.sensors.insert(
        "protected".into(),
        sensor_at("protected", now.before(Duration::from_millis(600_000))),
    );

    let health = compute_health(&state, &default_config(), now, OpenFanPresence::Present);
    let hwmon = named(&health, "hwmon");

    assert_eq!(
        hwmon.status,
        HealthStatus::Okay,
        "a deliberately frozen reading must not degrade hwmon — it is \
         reported as an unavailable sensor; got {:?}",
        hwmon.reason
    );
    assert_eq!(
        hwmon.age_ms,
        Some(0),
        "hwmon age is the POLL's age, not the oldest reading's"
    );
    assert_eq!(health.overall, HealthStatus::Okay);

    state.subsystem_timestamps.hwmon = Some(now.before(Duration::from_millis(9000)));
    let dead = compute_health(&state, &default_config(), now, OpenFanPresence::Present);
    assert_eq!(named(&dead, "hwmon").status, HealthStatus::Crit);
}

#[test]
fn a_channel_only_ever_written_never_counts_as_a_stale_reading() {
    let now = Instant::from_millis(10_000_000);
    let mut state = state_with_live_engine(now);
    state.subsystem_timestamps.openfan = Some(now);
    state.subsystem_timestamps.hwmon = Some(now);
    state.openfan_fans.insert(0, openfan_at(0, now));
    state.openfan_fans.insert(1, openfan_at(1, now));
    let mut written = openfan_at(7, now.before(Duration::from_millis(600_000)));
    written.rpm_polled = false;
    state.openfan_fans.insert(7, written);

    let health = compute_health(&state, &default_config(), now, OpenFanPresence::Present);
    assert_eq!(
        named(&health, "openfan").status,
        HealthStatus::Okay,
        "a never-measured channel is not a stale reading; got {:?}",
        named(&health, "openfan").reason
    );

    let mut polled = openfan_at(7, now.before(Duration::from_millis(600_000)));
    polled.rpm_polled = true;
    state.openfan_fans.insert(7, polled);
    assert_eq!(
        named(
            &compute_health(&state, &default_config(), now, OpenFanPresence::Present),
            "openfan"
        )
        .status,
        HealthStatus::Crit,
    );
}

#[test]
fn a_degraded_link_is_not_described_as_a_running_poll_loop() {
    let now = Instant::from_millis(10_000_000);
    let mut state = state_with_live_engine(now);
    state.subsystem_timestamps.hwmon = Some(now);
    state.subsystem_timestamps.openfan = Some(now.before(Duration::from_millis(3000)));
    state
        .openfan_fans
        .insert(0, openfan_at(0, now.before(Duration::from_millis(9000))));

    let health = compute_health(&state, &default_config(), now, OpenFanPresence::Present);
    let openfan = named(&health, "openfan");

    assert_eq!(openfan.status, HealthStatus::Crit);
    assert!(
        !openfan.reason.contains("poll loop is running"),
        "the poll loop is NOT running normally here — got {:?}",
        openfan.reason
    );
    assert!(
        openfan.reason.contains("older than the poll itself"),
        "it should still say the readings outrank the poll — got {:?}",
        openfan.reason
    );
}

#[test]
fn a_tie_reports_the_larger_age_not_the_polls() {
    let now = Instant::from_millis(10_000_000);
    let mut state = state_with_live_engine(now);
    state.subsystem_timestamps.hwmon = Some(now);
    state.subsystem_timestamps.openfan = Some(now.before(Duration::from_millis(5100)));
    state
        .openfan_fans
        .insert(0, openfan_at(0, now.before(Duration::from_millis(300_000))));

    let health = compute_health(&state, &default_config(), now, OpenFanPresence::Present);
    let openfan = named(&health, "openfan");

    assert_eq!(openfan.status, HealthStatus::Crit, "both limbs are Crit");
    assert_eq!(
        openfan.age_ms,
        Some(300_000),
        "the tie must not hide the data age behind the poll's"
    );
}

#[test]
fn a_never_polled_subsystem_reports_no_age_even_when_a_write_cached_an_item() {
    let now = Instant::from_millis(10_000_000);
    let mut state = state_with_live_engine(now);
    state.subsystem_timestamps.hwmon = Some(now);
    state.openfan_fans.insert(0, openfan_at(0, now));
    assert!(state.subsystem_timestamps.openfan.is_none());

    let health = compute_health(&state, &default_config(), now, OpenFanPresence::Present);
    let openfan = named(&health, "openfan");

    assert_eq!(openfan.status, HealthStatus::Crit);
    assert_eq!(
        openfan.reason, "never received data",
        "the poll loop is what has never reported"
    );
    assert_eq!(
        openfan.age_ms, None,
        "\"never received data\" must not be paired with an age — there is no \
         poll to age, and the cached item's age is answering a different question"
    );
}

#[test]
fn with_no_controller_openfan_is_not_a_dead_subsystem() {
    let now = Instant::from_millis(10_000_000);
    let mut state = state_with_live_engine(now);
    state.subsystem_timestamps.hwmon = Some(now);

    let absent = compute_health(&state, &default_config(), now, OpenFanPresence::Absent);
    assert_eq!(absent.subsystems[0].name, "openfan", "wire shape: index 0");
    assert_eq!(absent.subsystems[0].status, HealthStatus::Okay);
    assert_eq!(absent.subsystems[0].age_ms, None);
    assert_eq!(
        absent.overall,
        HealthStatus::Okay,
        "an absent controller must not pin overall_status to crit"
    );

    let present = compute_health(&state, &default_config(), now, OpenFanPresence::Present);
    assert_eq!(
        present.subsystems[0].status,
        HealthStatus::Crit,
        "with a controller attached the same state is genuinely unhealthy"
    );
}

#[test]
fn the_bounds_of_staleness_are_inclusive() {
    let now = Instant::from_millis(10_000_000);
    let at = |ms: u64| evaluate_staleness(Some(now.before(Duration::from_millis(ms))), now, 1_000);
    assert_eq!(at(2_000), HealthStatus::Okay);
    assert_eq!(at(2_001), HealthStatus::Warn);
    assert_eq!(at(5_000), HealthStatus::Warn);
    assert_eq!(at(5_001), HealthStatus::Crit);
    assert_eq!(evaluate_staleness(None, now, 1_000), HealthStatus::Crit);
}

#[test]
fn the_worse_status_counts() {
    assert_eq!(
        HealthStatus::Okay.worst(HealthStatus::Warn),
        HealthStatus::Warn
    );
    assert_eq!(
        HealthStatus::Crit.worst(HealthStatus::Warn),
        HealthStatus::Crit
    );
    assert_eq!(
        HealthStatus::Okay.worst(HealthStatus::Okay),
        HealthStatus::Okay
    );
}

#[test]
fn an_engine_is_told_apart_by_what_it_does() {
    let now = Instant::from_millis(10_000_000);
    let ago = |ms: u64| Some(now.before(Duration::from_millis(ms)));
    let told = |started, completed, stalled| {
        let h = engine_health(started, completed, stalled, now, 1_000);
        (h.status, h.age_ms, h.reason)
    };
    assert_eq!(
        told(None, None, None),
        (HealthStatus::Crit, None, "never ticked".to_string())
    );
    assert_eq!(
        told(ago(30_000), ago(40_000), None),
        (
            HealthStatus::Warn,
            Some(40_000),
            "tick still running \u{2014} a slow write is holding it up".to_string()
        )
    );
    assert_eq!(told(ago(30_001), None, None).0, HealthStatus::Crit);
    assert_eq!(
        told(ago(3_000), ago(2_500), None),
        (HealthStatus::Warn, Some(2_500), "tick overdue".to_string())
    );
    assert_eq!(told(ago(500), ago(400), ago(2_001)).0, HealthStatus::Warn);
    assert_eq!(told(ago(500), ago(400), ago(30_001)).0, HealthStatus::Crit);
}

#[test]
fn a_poll_is_no_better_than_its_oldest_reading() {
    let now = Instant::from_millis(10_000_000);
    let ago = |ms: u64| now.before(Duration::from_millis(ms));
    let h = poll_subsystem_health("openfan", Some(ago(0)), &vec![ago(0), ago(9_000)], now, 1_000);
    assert_eq!(h.status, HealthStatus::Crit);
    assert_eq!(h.age_ms, Some(9_000));
    assert_eq!(
        h.reason,
        "1 of 2 readings stale \u{2014} the poll loop is running but is not refreshing them"
    );
    let h = poll_subsystem_health("openfan", Some(ago(3_000)), &vec![ago(9_000)], now, 1_000);
    assert_eq!(h.reason, "1 of 1 readings older than the poll itself");
    let h = poll_subsystem_health("hwmon", Some(ago(3_000)), &Vec::new(), now, 1_000);
    assert_eq!((h.status, h.age_ms), (HealthStatus::Warn, Some(3_000)));
    assert_eq!(h.reason, "readings stale");
}

#[test]
fn every_reason_to_skip_a_control_has_its_words() {
    for (reason, token) in [
        (SkipReason::CurveNotFound, "curve_not_found"),
        (SkipReason::SensorUnavailable, "sensor_unavailable"),
        (SkipReason::MixUnresolvable, "mix_unresolvable"),
        (SkipReason::SyncUnresolvable, "sync_unresolvable"),
    ] {
        assert_eq!(reason.as_token(), token);
        assert!(!reason.describe().is_empty());
    }
}

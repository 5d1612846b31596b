//! The state cache.

use control_ofc_daemon::clock::{Duration, Instant};
use control_ofc_daemon::collections::StringSet;
use control_ofc_daemon::health::cache::{
    RateStep, StateCache, CPU_TEMP_STALE_CEILING_MS, CPU_TEMP_STALE_INTERVALS,
    MAX_SUPERVISABLE_POLL_INTERVAL_MS,
};
use control_ofc_daemon::health::state::{
    AioPumpState, AmdGpuFanState, CachedSensorReading, ControlOutput, DeviceLabel, HwmonFanState,
    OpenFanState, SkipReason, SkippedControl, UnavailableSensor,
};
use control_ofc_daemon::hwmon::types::SensorKind;

const THERMAL_EMERGENCY_TRIGGER_C: f64 = 105.0;

fn now() -> Instant {
    Instant::from_millis(1_000_000)
}

fn new_cache() -> StateCache<f64> {
    StateCache::new(now())
}

fn make_openfan(channel: u8, rpm: u16) -> OpenFanState {
    OpenFanState {
        channel,
        rpm,
        last_commanded_pwm: None,
        updated_at: now(),
        rpm_polled: true,
    }
}

fn make_sensor(id: &str, value_c: f64) -> CachedSensorReading<f64> {
    CachedSensorReading {
        id: id.to_string(),
        kind: SensorKind::CpuTemp,
        label: "test".into(),
        value_mc: (value_c * 1000.0) as i32,
        source: DeviceLabel::Hwmon,
        updated_at: now(),
        rate_c_per_s: None,
        session_min_mc: None,
        session_max_mc: None,
        chip_name: "k10temp".into(),
        temp_type: None,
        thresholds: None,
    }
}

/// Three tenths of the new rate and seven tenths of the one before, to two decimals.
fn smoothed(step: RateStep<f64>) -> f64 {
    let celsius = |mc: i32| f64::from(mc) / 1000.0;
    let seconds = step.elapsed.nanos as f64 / 1e9;
    let raw = (celsius(step.value_mc) - celsius(step.previous_mc)) / seconds;
    let smoothed = match step.previous_rate {
        Some(before) => 0.3 * raw + 0.7 * before,
        None => raw,
    };
    (smoothed * 100.0).round() / 100.0
}

#[test]
fn empty_cache_snapshot() {
    let mut cache = new_cache();
    let snap = cache.snapshot();
    assert!(snap.openfan_fans.is_empty());
    assert!(snap.hwmon_fans.is_empty());
    assert!(snap.sensors.is_empty());
    assert!(!snap.aio.detected);
}

#[test]
fn update_openfan_fans_preserves_commanded_pwm_on_none() {
    let mut cache = new_cache();
    let mut written = make_openfan(0, 800);
    written.last_commanded_pwm = Some(40);
    cache.update_openfan_fans(vec![written], now());

    cache.update_openfan_fans(vec![make_openfan(0, 820)], now());
    let snap = cache.snapshot();
    assert_eq!(snap.openfan_fans[&0].last_commanded_pwm, Some(40));
    assert_eq!(snap.openfan_fans[&0].rpm, 820);

    let mut rewritten = make_openfan(0, 830);
    rewritten.last_commanded_pwm = Some(60);
    cache.update_openfan_fans(vec![rewritten], now());
    let snap = cache.snapshot();
    assert_eq!(snap.openfan_fans[&0].last_commanded_pwm, Some(60));
}

#[test]
fn read_with_observes_live_state_without_snapshot() {
    let mut cache = new_cache();
    cache.record_engine_tick("emergency", THERMAL_EMERGENCY_TRIGGER_C, now());
    cache.update_sensors(vec![], smoothed, now());

    let via_read_with = cache.read_with(|s| s.thermal_override_state.clone());
    let via_snapshot = cache.snapshot().thermal_override_state;
    assert_eq!(via_read_with, via_snapshot);
    assert_eq!(via_read_with.as_deref(), Some("emergency"));
}

#[test]
fn set_thermal_override_state_applies_changes_and_is_idempotent() {
    let mut cache = new_cache();
    assert_eq!(cache.snapshot().thermal_override_state, None);

    cache.record_engine_tick("normal", THERMAL_EMERGENCY_TRIGGER_C, now());
    assert_eq!(
        cache.snapshot().thermal_override_state.as_deref(),
        Some("normal")
    );

    cache.record_engine_tick("normal", THERMAL_EMERGENCY_TRIGGER_C, now());
    assert_eq!(
        cache.snapshot().thermal_override_state.as_deref(),
        Some("normal")
    );

    cache.record_engine_tick("emergency", THERMAL_EMERGENCY_TRIGGER_C, now());
    assert_eq!(
        cache.snapshot().thermal_override_state.as_deref(),
        Some("emergency")
    );
    cache.record_engine_tick("recovery", THERMAL_EMERGENCY_TRIGGER_C, now());
    assert_eq!(
        cache.snapshot().thermal_override_state.as_deref(),
        Some("recovery")
    );
}

#[test]
fn record_engine_tick_stamps_the_heartbeat_with_the_thermal_state() {
    let mut cache = new_cache();
    assert!(
        cache
            .snapshot()
            .subsystem_timestamps
            .engine_started
            .is_none(),
        "a cache that has seen no tick must not look alive"
    );

    cache.record_engine_tick("normal", THERMAL_EMERGENCY_TRIGGER_C, now());
    let first = cache
        .snapshot()
        .subsystem_timestamps
        .engine_started
        .expect("tick must stamp the heartbeat");

    cache.record_engine_tick("emergency", THERMAL_EMERGENCY_TRIGGER_C, now());
    let snap = cache.snapshot();
    assert!(
        snap.subsystem_timestamps.engine_started.unwrap() >= first,
        "heartbeat must advance monotonically"
    );
    assert_eq!(
        snap.thermal_override_state.as_deref(),
        Some("emergency"),
        "the same call must publish the thermal state"
    );
}

#[test]
fn relinquish_reports_whether_this_call_claimed() {
    let mut cache = new_cache();
    assert!(
        cache.relinquish_gpu_fan("amd_gpu:0000:03:00.0"),
        "first claim"
    );
    assert!(
        !cache.relinquish_gpu_fan("amd_gpu:0000:03:00.0"),
        "second call must report that it did NOT claim"
    );
}

#[test]
fn profile_activation_epoch_starts_zero_and_increments() {
    let mut cache = new_cache();
    assert_eq!(cache.profile_activation_epoch(), 0);
    cache.bump_profile_activation_epoch();
    assert_eq!(cache.profile_activation_epoch(), 1);
    cache.bump_profile_activation_epoch();
    assert_eq!(cache.profile_activation_epoch(), 2);
}

#[test]
fn update_openfan_fans_batch() {
    let mut cache = new_cache();
    cache.update_openfan_fans(vec![make_openfan(0, 1200), make_openfan(1, 1100)], now());

    let snap = cache.snapshot();
    assert_eq!(snap.openfan_fans.len(), 2);
    assert_eq!(snap.openfan_fans[&0].rpm, 1200);
    assert_eq!(snap.openfan_fans[&1].rpm, 1100);
    assert!(snap.subsystem_timestamps.openfan.is_some());
}

#[test]
fn update_openfan_overwrites_existing() {
    let mut cache = new_cache();
    cache.update_openfan_fans(vec![make_openfan(0, 1200)], now());
    cache.update_openfan_fans(vec![make_openfan(0, 1500)], now());

    let snap = cache.snapshot();
    assert_eq!(snap.openfan_fans.len(), 1);
    assert_eq!(snap.openfan_fans[&0].rpm, 1500);
}

#[test]
fn update_sensors_batch() {
    let mut cache = new_cache();
    cache.update_sensors(vec![
        make_sensor("hwmon:k10temp:0000:00:18.3:Tctl", 55.0),
        make_sensor("hwmon:amdgpu:0000:03:00.0:edge", 42.0),
    ], smoothed, now());

    let snap = cache.snapshot();
    assert_eq!(snap.sensors.len(), 2);
    assert!(
        snap.sensors.get("hwmon:k10temp:0000:00:18.3:Tctl").unwrap().value_mc == 55_000
    );
    assert!(snap.subsystem_timestamps.hwmon.is_some());
}

#[test]
fn update_hwmon_fans() {
    let mut cache = new_cache();
    cache.update_hwmon_fans(vec![HwmonFanState {
        id: "it8696:fan1".into(),
        rpm: Some(800),
        last_commanded_pwm: None,
        pwm_readback_pct: None,
        updated_at: now(),
        alarm: None,
        pwm_enable_mode: None,
    }], now());

    let snap = cache.snapshot();
    assert_eq!(snap.hwmon_fans.len(), 1);
    assert_eq!(snap.hwmon_fans.get("it8696:fan1").unwrap().rpm, Some(800));
}

#[test]
fn a_gpu_command_does_not_refresh_the_telemetry_timestamp() {
    let mut cache = new_cache();
    cache.update_gpu_fans(vec![AmdGpuFanState {
        id: "amd_gpu:0000:2d:00.0".into(),
        rpm: Some(1200),
        last_commanded_pct: None,
        duty_pct: Some(40),
        updated_at: now().before(Duration::from_secs(30)),
    }], now());
    let before = cache.gpu_fans_snapshot().get("amd_gpu:0000:2d:00.0").unwrap().updated_at;

    cache.set_gpu_fan_commanded_pct("amd_gpu:0000:2d:00.0", 75, now());

    let snap = cache.gpu_fans_snapshot();
    let after = snap.get("amd_gpu:0000:2d:00.0").unwrap();
    assert_eq!(
        after.updated_at, before,
        "a command must leave the READING's timestamp alone — the rpm beside \
         it is still 30s old, and age_ms is computed from this field"
    );
    assert_eq!(
        after.last_commanded_pct,
        Some(75),
        "precondition: the command itself must still have been recorded, or \
         this test would pass against a no-op"
    );
}

#[test]
fn a_first_ever_gpu_command_still_stamps_the_new_entry() {
    let mut cache = new_cache();
    cache.set_gpu_fan_commanded_pct("amd_gpu:0000:2d:00.0", 60, now());
    let snap = cache.gpu_fans_snapshot();
    let fan = snap.get("amd_gpu:0000:2d:00.0").unwrap();
    assert!(fan.rpm.is_none(), "nothing has measured this fan");
    assert!(
        now().saturating_duration_since(fan.updated_at)
            < Duration::from_secs(5),
        "a newly-created entry is not stale — there is no older reading to \
         misrepresent"
    );
}

#[test]
fn a_frozen_hwmon_fan_is_evicted_and_a_refreshed_one_is_not() {
    let mut cache = new_cache();
    let stale = Duration::from_secs(60);
    cache.update_hwmon_fans(vec![
        HwmonFanState {
            id: "it8696:pwm1".into(),
            rpm: Some(800),
            last_commanded_pwm: Some(40),
            pwm_readback_pct: None,
            updated_at: now().before(stale),
            alarm: None,
            pwm_enable_mode: None,
        },
        HwmonFanState {
            id: "it8696:pwm2".into(),
            rpm: Some(900),
            last_commanded_pwm: Some(50),
            pwm_readback_pct: None,
            updated_at: now(),
            alarm: None,
            pwm_enable_mode: None,
        },
    ], now());

    cache.retain_fresh_hwmon_fans(Duration::from_secs(5), now());

    let fans = cache.snapshot().hwmon_fans;
    assert!(
        !fans.contains_key("it8696:pwm1"),
        "a header nothing has refreshed for 60s must not keep being published \
         with an age_ms that climbs forever"
    );
    assert!(
        fans.contains_key("it8696:pwm2"),
        "a header something IS refreshing must survive — this is the write-path \
         case a poll-failure streak would have flapped"
    );
}

#[test]
fn an_engine_write_does_not_erase_the_polls_alarm_or_enable_mode() {
    let mut cache = new_cache();
    let at = now();
    cache.update_hwmon_fans(vec![HwmonFanState {
        id: "hwmon:it8696:isa-0a40:pwm5:PUMP".into(),
        rpm: Some(1200),
        last_commanded_pwm: Some(40),
        pwm_readback_pct: None,
        alarm: Some(true),
        pwm_enable_mode: Some(1),
        updated_at: at,
    }], now());

    cache.update_hwmon_fans(vec![HwmonFanState {
        id: "hwmon:it8696:isa-0a40:pwm5:PUMP".into(),
        rpm: Some(1350),
        last_commanded_pwm: Some(45),
        pwm_readback_pct: None,
        alarm: None,
        pwm_enable_mode: None,
        updated_at: at,
    }], now());

    let fans = cache.snapshot().hwmon_fans;
    let fan = fans.get("hwmon:it8696:isa-0a40:pwm5:PUMP").unwrap();
    assert_eq!(
        fan.alarm,
        Some(true),
        "the poll's alarm must survive an engine write"
    );
    assert_eq!(fan.pwm_enable_mode, Some(1), "so must the live enable mode");
    assert_eq!(fan.rpm, Some(1350));
    assert_eq!(fan.last_commanded_pwm, Some(45));
}

#[test]
fn an_engine_write_does_not_erase_the_polls_pwm_readback() {
    let mut cache = new_cache();
    let at = now();
    cache.update_hwmon_fans(vec![HwmonFanState {
        id: "hwmon:it8696:isa-0a40:pwm5:PUMP".into(),
        rpm: Some(1200),
        last_commanded_pwm: Some(40),
        pwm_readback_pct: Some(40),
        alarm: None,
        pwm_enable_mode: None,
        updated_at: at,
    }], now());

    cache.update_hwmon_fans(vec![HwmonFanState {
        id: "hwmon:it8696:isa-0a40:pwm5:PUMP".into(),
        rpm: Some(1350),
        last_commanded_pwm: Some(45),
        pwm_readback_pct: None,
        alarm: None,
        pwm_enable_mode: None,
        updated_at: at,
    }], now());

    let fans = cache.snapshot().hwmon_fans;
    let fan = fans.get("hwmon:it8696:isa-0a40:pwm5:PUMP").unwrap();
    assert_eq!(
        fan.pwm_readback_pct,
        Some(40),
        "the poll's readback must survive an engine write"
    );
    assert_eq!(fan.last_commanded_pwm, Some(45));
    assert_eq!(fan.rpm, Some(1350));
}

#[test]
fn a_later_poll_updates_the_pwm_readback() {
    let mut cache = new_cache();
    let at = now();
    for pct in [40u8, 55] {
        cache.update_hwmon_fans(vec![HwmonFanState {
            id: "h1".into(),
            rpm: Some(1000),
            last_commanded_pwm: Some(pct),
            pwm_readback_pct: Some(pct),
            alarm: None,
            pwm_enable_mode: None,
            updated_at: at,
        }], now());
    }
    assert_eq!(cache.snapshot().hwmon_fans.get("h1").unwrap().pwm_readback_pct, Some(55));
}

#[test]
fn a_later_poll_can_still_clear_an_alarm() {
    let mut cache = new_cache();
    let at = now();
    cache.update_hwmon_fans(vec![HwmonFanState {
        id: "h".into(),
        rpm: Some(0),
        last_commanded_pwm: Some(40),
        pwm_readback_pct: None,
        alarm: Some(true),
        pwm_enable_mode: Some(1),
        updated_at: at,
    }], now());
    cache.update_hwmon_fans(vec![HwmonFanState {
        id: "h".into(),
        rpm: Some(900),
        last_commanded_pwm: Some(40),
        pwm_readback_pct: None,
        alarm: Some(false),
        pwm_enable_mode: Some(2),
        updated_at: at,
    }], now());
    let fans = cache.snapshot().hwmon_fans;
    assert_eq!(fans.get("h").unwrap().alarm, Some(false));
    assert_eq!(fans.get("h").unwrap().pwm_enable_mode, Some(2));
}

#[test]
fn retain_fresh_hwmon_fans_is_a_no_op_when_everything_is_fresh() {
    let mut cache = new_cache();
    cache.update_hwmon_fans(vec![HwmonFanState {
        id: "it8696:pwm1".into(),
        rpm: Some(800),
        last_commanded_pwm: Some(40),
        pwm_readback_pct: None,
        updated_at: now(),
        alarm: None,
        pwm_enable_mode: None,
    }], now());
    cache.retain_fresh_hwmon_fans(Duration::from_secs(5), now());
    assert_eq!(cache.snapshot().hwmon_fans.len(), 1);
}

#[test]
fn update_aio() {
    let mut cache = new_cache();
    cache.update_aio(AioPumpState {
        detected: true,
        pump_rpm: Some(2400),
        coolant_temp_c: Some(32.5),
        ..Default::default()
    }, now());

    let snap = cache.snapshot();
    assert!(snap.aio.detected);
    assert_eq!(snap.aio.pump_rpm, Some(2400));
    assert!(snap.subsystem_timestamps.aio.is_some());
}

#[test]
fn set_gpu_fan_creates_entry_if_missing() {
    let mut cache = new_cache();

    let snap = cache.snapshot();
    assert!(snap.gpu_fans.is_empty());

    cache.set_gpu_fan_commanded_pct("amd_gpu:0000:2d:00.0", 75, now());

    let snap = cache.snapshot();
    assert_eq!(snap.gpu_fans.len(), 1);
    let fan = snap.gpu_fans.get("amd_gpu:0000:2d:00.0").unwrap();
    assert_eq!(fan.id, "amd_gpu:0000:2d:00.0");
    assert_eq!(fan.last_commanded_pct, Some(75));
    assert_eq!(fan.rpm, None);
}

#[test]
fn set_gpu_fan_updates_existing_entry() {
    let mut cache = new_cache();

    cache.update_gpu_fans(vec![AmdGpuFanState {
        id: "amd_gpu:0000:2d:00.0".into(),
        rpm: Some(1800),
        last_commanded_pct: Some(50),
        duty_pct: None,
        updated_at: now(),
    }], now());

    cache.set_gpu_fan_commanded_pct("amd_gpu:0000:2d:00.0", 90, now());

    let snap = cache.snapshot();
    let fan = snap.gpu_fans.get("amd_gpu:0000:2d:00.0").unwrap();
    assert_eq!(fan.last_commanded_pct, Some(90));
    assert_eq!(fan.rpm, Some(1800));
}

#[test]
fn snapshot_is_consistent_clone() {
    let mut cache = new_cache();
    cache.update_openfan_fans(vec![make_openfan(0, 1200)], now());

    let snap1 = cache.snapshot();

    cache.update_openfan_fans(vec![make_openfan(0, 9999)], now());

    assert_eq!(snap1.openfan_fans[&0].rpm, 1200);

    let snap2 = cache.snapshot();
    assert_eq!(snap2.openfan_fans[&0].rpm, 9999);
}

#[test]
fn verify_active_lifecycle_deadman_and_single_flight() {
    let mut cache = new_cache();
    assert!(!cache.verify_active(now()));
    let e1 = cache
        .try_begin_verify(Duration::from_secs(60), now())
        .expect("free slot must be claimable");
    assert!(cache.verify_active(now()));
    assert!(
        cache.try_begin_verify(Duration::from_secs(60), now()).is_none(),
        "a second concurrent verify must be rejected (single-flight)"
    );
    cache.end_verify(e1);
    assert!(!cache.verify_active(now()));
    let e2 = cache
        .try_begin_verify(Duration::from_secs(60), now())
        .expect("released slot must be re-claimable");
    cache.end_verify(e2);
    cache.inner.verify_in_progress = true;
    cache.inner.verify_active_until = Some(now().before(Duration::from_secs(1)));
    assert!(
        !cache.verify_active(now()),
        "an expired verify deadman must read inactive even with the flag set"
    );
    assert!(
        cache.try_begin_verify(Duration::from_secs(60), now()).is_some(),
        "an expired deadman must free the SLOT too, not only the pause"
    );
}

#[test]
fn an_expired_verify_deadman_frees_the_slot_for_the_next_claimant() {
    let mut cache = new_cache();
    let _stranded = cache
        .try_begin_verify(Duration::from_millis(0), now())
        .expect("first claim must succeed");
    assert!(!cache.verify_active(now()));
    assert!(
        cache.try_begin_verify(Duration::from_secs(60), now()).is_some(),
        "the next verify must be able to claim the slot once the deadman expired"
    );
    assert!(cache.verify_active(now()), "the new claim must pause the engine");
}

#[test]
fn renewing_keeps_a_slow_but_live_claim_and_a_stale_renew_is_refused() {
    let mut cache = new_cache();
    let slow = cache
        .try_begin_verify(Duration::from_millis(0), now())
        .expect("first claim must succeed");
    assert!(!cache.verify_active(now()));
    assert!(
        cache.renew_verify(slow, Duration::from_secs(60), now()),
        "the owner must be able to prove it is alive and keep its slot"
    );
    assert!(cache.verify_active(now()), "renewing must re-arm the pause");
    assert!(
        cache.try_begin_verify(Duration::from_secs(60), now()).is_none(),
        "a renewed claim must NOT be stealable — this is the whole point"
    );

    let mut cache2 = new_cache();
    let stranded = cache2
        .try_begin_verify(Duration::from_millis(0), now())
        .expect("first claim");
    let _live = cache2
        .try_begin_verify(Duration::from_secs(60), now())
        .expect("expired slot is claimable");
    assert!(
        !cache2.renew_verify(stranded, Duration::from_secs(60), now()),
        "a superseded claimant must not be able to re-arm the slot it lost"
    );
}

#[test]
fn a_stranded_verify_returning_late_cannot_release_its_successors_pause() {
    let mut cache = new_cache();
    let stranded = cache
        .try_begin_verify(Duration::from_millis(0), now())
        .expect("first claim must succeed");
    let live = cache
        .try_begin_verify(Duration::from_secs(60), now())
        .expect("expired slot must be claimable");
    assert_ne!(stranded, live, "each claim must get a distinct epoch");
    assert!(cache.verify_active(now()));

    cache.end_verify(stranded);

    assert!(
        cache.verify_active(now()),
        "a stale release must NOT clear the live claimant's pause — the engine \
         would resume writing over its test duty and its verdict would be false"
    );
    cache.end_verify(live);
    assert!(!cache.verify_active(now()));
}

#[test]
fn sensors_snapshot_returns_sensor_map() {
    let mut cache = new_cache();
    cache.update_sensors(vec![
        make_sensor("hwmon:k10temp:0000:00:18.3:Tctl", 55.0),
        make_sensor("hwmon:nct6799:isa:fan", 30.0),
    ], smoothed, now());
    let sensors = cache.sensors_snapshot();
    assert_eq!(sensors.len(), 2);
    assert_eq!(sensors.len(), cache.snapshot().sensors.len());
    assert!(sensors.get("hwmon:k10temp:0000:00:18.3:Tctl").unwrap().value_mc == 55_000);
}

#[test]
fn retain_sensors_evicts_only_what_is_no_longer_live() {
    let mut cache = new_cache();
    cache.update_sensors(vec![
        make_sensor("hwmon:k10temp:nodev:Tctl", 55.0),
        make_sensor("hwmon:nvme:nodev:Composite", 38.0),
    ], smoothed, now());

    let mut live = StringSet::new();
    live.insert("hwmon:k10temp:nodev:Tctl".to_string());
    cache.retain_sensors(&live);

    let sensors = cache.sensors_snapshot();
    assert_eq!(sensors.len(), 1, "the vanished sensor must be evicted");
    assert!(
        sensors.contains_key("hwmon:k10temp:nodev:Tctl"),
        "the live sensor must survive"
    );
}

#[test]
fn retain_sensors_is_a_no_op_when_every_sensor_is_live() {
    let mut cache = new_cache();
    cache.update_sensors(vec![
        make_sensor("hwmon:k10temp:nodev:Tctl", 55.0),
        make_sensor("nvidia_gpu:0000:03:00.0:temp", 61.0),
    ], smoothed, now());

    let mut live = StringSet::new();
    let sensors = cache.sensors_snapshot();
    for i in 0..sensors.len() {
        live.insert(sensors.key_at(i).to_string());
    }
    cache.retain_sensors(&live);

    assert_eq!(cache.sensors_snapshot().len(), 2);
}

#[test]
fn retain_sensors_with_an_empty_live_set_clears_the_map() {
    let mut cache = new_cache();
    cache.update_sensors(vec![make_sensor("hwmon:k10temp:nodev:Tctl", 55.0)], smoothed, now());
    cache.retain_sensors(&StringSet::new());
    assert!(cache.sensors_snapshot().is_empty());
}

#[test]
fn gpu_fans_snapshot_returns_gpu_fan_map() {
    let mut cache = new_cache();
    assert!(cache.gpu_fans_snapshot().is_empty());
    cache.set_gpu_fan_commanded_pct("amd_gpu:0000:2d:00.0", 75, now());
    let gpu_fans = cache.gpu_fans_snapshot();
    assert_eq!(gpu_fans.len(), 1);
    assert_eq!(
        gpu_fans.get("amd_gpu:0000:2d:00.0").unwrap().last_commanded_pct,
        Some(75)
    );
}

#[test]
fn update_unavailable_sensors_evicts_stale_reading_and_recovers() {
    let mut cache = new_cache();
    cache.update_sensors(vec![make_sensor("hwmon:ath12k_hwmon:phy0:temp1", 48.0)], smoothed, now());
    assert!(cache
        .snapshot()
        .sensors
        .contains_key("hwmon:ath12k_hwmon:phy0:temp1"));

    cache.update_unavailable_sensors(vec![UnavailableSensor {
        id: "hwmon:ath12k_hwmon:phy0:temp1".into(),
        label: "temp1".into(),
        reason: "read error: Network is down (os error 100)".into(),
        since: now(),
    }]);

    let snap = cache.snapshot();
    assert!(
        !snap.sensors.contains_key("hwmon:ath12k_hwmon:phy0:temp1"),
        "stale reading must be evicted while unavailable"
    );
    assert_eq!(snap.unavailable_sensors.len(), 1);
    assert_eq!(snap.unavailable_sensors[0].label, "temp1");

    cache.update_unavailable_sensors(vec![]);
    cache.update_sensors(vec![make_sensor("hwmon:ath12k_hwmon:phy0:temp1", 50.0)], smoothed, now());
    let snap = cache.snapshot();
    assert!(snap.unavailable_sensors.is_empty());
    assert!(snap.sensors.contains_key("hwmon:ath12k_hwmon:phy0:temp1"));
}

#[test]
fn update_unavailable_sensors_empty_is_noop_fast_path() {
    let mut cache = new_cache();
    cache.update_sensors(vec![make_sensor("hwmon:k10temp:nodev:Tctl", 55.0)], smoothed, now());
    cache.update_unavailable_sensors(vec![]);
    let snap = cache.snapshot();
    assert!(snap.unavailable_sensors.is_empty());
    assert!(snap.sensors.contains_key("hwmon:k10temp:nodev:Tctl"));
}

#[test]
fn take_resume_flag_swaps_and_clears() {
    let mut cache = new_cache();
    assert!(!cache.take_resume_flag(), "fresh cache: no resume pending");
    cache.set_resume_detected();
    assert!(cache.take_resume_flag(), "first take after resume is true");
    assert!(!cache.take_resume_flag(), "flag cleared after take");
}

#[test]
fn a_pwm_command_does_not_make_a_stale_rpm_reading_look_fresh() {
    let mut cache = new_cache();
    cache.update_openfan_fans(vec![make_openfan(3, 1200)], now());
    let before = cache.snapshot().openfan_fans[&3].updated_at;

    cache.set_openfan_commanded_pwm(3, 200, now());

    let snap = cache.snapshot();
    let after = snap.openfan_fans[&3].updated_at;
    assert_eq!(
        before, after,
        "a command must not move the timestamp of a reading it did not take"
    );

    let fan = &snap.openfan_fans[&3];
    assert_eq!(fan.last_commanded_pwm, Some(200));
    assert_eq!(
        fan.rpm, 1200,
        "the reading is unchanged — nothing new was measured"
    );

    let later = before.after(Duration::from_millis(4000));
    assert_eq!(
        later.saturating_duration_since(fan.updated_at).as_millis(),
        4000
    );
}

#[test]
fn update_openfan_fans_reports_how_many_known_channels_a_frame_missed() {
    let mut cache = new_cache();
    let all: Vec<OpenFanState> = (0..10u8).map(|ch| make_openfan(ch, 900)).collect();
    assert_eq!(
        cache.update_openfan_fans(all, now()),
        0,
        "the first full frame covers everything it knows about"
    );

    let short: Vec<OpenFanState> = (0..3u8).map(|ch| make_openfan(ch, 900)).collect();
    assert_eq!(
        cache.update_openfan_fans(short, now()),
        7,
        "three of ten leaves seven known channels unrefreshed"
    );

    let mut cache2 = new_cache();
    assert_eq!(cache2.update_openfan_fans(vec![make_openfan(0, 900)], now()), 0);
}

#[test]
fn a_write_created_channel_is_not_counted_as_a_missed_reading() {
    let mut cache = new_cache();
    cache.update_openfan_fans(vec![make_openfan(0, 900), make_openfan(1, 900)], now());
    cache.set_openfan_commanded_pwm(9, 255, now());
    assert!(!cache.snapshot().openfan_fans[&9].rpm_polled);

    assert_eq!(
        cache.update_openfan_fans(vec![make_openfan(0, 900), make_openfan(1, 900)], now()),
        0,
        "a full frame must report zero missed even with a write-only channel cached"
    );

    assert_eq!(
        cache.update_openfan_fans(vec![make_openfan(0, 900)], now()),
        1,
        "channel 1 was measured before and is missing now"
    );
}

#[test]
fn a_cpu_reading_stays_current_for_five_polls() {
    let mut cache = new_cache();
    assert_eq!(cache.cpu_temp_stale_after(), Duration::from_secs(5));
    for (interval_ms, budget_ms) in [
        (100, 5_000),
        (2_000, 10_000),
        (6_000, 30_000),
        (10_000, 30_000),
        (45_000, 45_000),
        (18_446_744_073_710, 18_446_744_073_710),
        (u64::MAX, u64::MAX),
    ] {
        cache.set_hwmon_poll_interval_ms(interval_ms);
        assert_eq!(cache.cpu_temp_stale_after(), Duration::from_millis(budget_ms));
        assert_eq!(cache.cpu_temp_stale_after().as_millis(), u128::from(budget_ms));
    }
    assert_eq!(
        MAX_SUPERVISABLE_POLL_INTERVAL_MS * u64::from(CPU_TEMP_STALE_INTERVALS),
        CPU_TEMP_STALE_CEILING_MS
    );
}

#[test]
fn the_rate_of_change_is_smoothed() {
    let mut cache = new_cache();
    let rate = |cache: &StateCache<f64>| cache.snapshot().sensors.get("cpu").unwrap().rate_c_per_s;
    let at = |value_c: f64, ms: u64| {
        let mut r = make_sensor("cpu", value_c);
        r.updated_at = now().after(Duration::from_millis(ms));
        r
    };
    cache.update_sensors(vec![at(40.0, 0)], smoothed, now());
    assert_eq!(rate(&cache), None);
    cache.update_sensors(vec![at(42.0, 1_000)], smoothed, now().after(Duration::from_millis(1_000)));
    assert_eq!(rate(&cache), Some(2.0));
    cache.update_sensors(vec![at(42.0, 2_000)], smoothed, now().after(Duration::from_millis(2_000)));
    assert_eq!(rate(&cache), Some(1.4));
    cache.update_sensors(vec![at(41.0, 3_000)], smoothed, now().after(Duration::from_millis(3_000)));
    assert_eq!(rate(&cache), Some(0.68));
}

#[test]
fn a_rate_is_computed_from_the_reading_before() {
    let mut cache = new_cache();
    let mut first = make_sensor("cpu", 40.0);
    first.rate_c_per_s = Some(0.05);
    assert_eq!(cache.sensor_rate_step(&first, now()), None);
    cache.update_sensors(vec![first], smoothed, now());
    let later = now().after(Duration { nanos: 100_000_001 });
    assert_eq!(
        cache.sensor_rate_step(&make_sensor("cpu", 40.5), later),
        Some(RateStep {
            value_mc: 40_500,
            previous_mc: 40_000,
            elapsed: Duration { nanos: 100_000_001 },
            previous_rate: Some(0.05),
        })
    );
    cache.update_sensors(vec![make_sensor("cpu", 40.0)], smoothed, later);
    assert_eq!(cache.snapshot().sensors.get("cpu").unwrap().rate_c_per_s, Some(0.03));
}

#[test]
fn a_rate_has_no_bound() {
    let mut cache = new_cache();
    let mut low = make_sensor("cpu", 0.0);
    low.value_mc = i32::MIN;
    let mut high = make_sensor("cpu", 0.0);
    high.value_mc = i32::MAX;
    cache.update_sensors(vec![low], smoothed, now());
    cache.update_sensors(vec![high], smoothed, now().after(Duration::from_millis(125)));
    assert_eq!(
        cache.snapshot().sensors.get("cpu").unwrap().rate_c_per_s,
        Some(34_359_738.36)
    );
}

#[test]
fn a_reading_is_measured_by_the_one_before_it_in_the_same_batch() {
    let mut cache = new_cache();
    let later = now().after(Duration::from_secs(2));
    cache.update_sensors(
        vec![make_sensor("cpu", 40.0), make_sensor("cpu", 44.0)],
        smoothed,
        later,
    );
    let snap = cache.snapshot();
    let cpu = snap.sensors.get("cpu").unwrap();
    assert_eq!(cpu.rate_c_per_s, Some(2.0));
    assert_eq!(cpu.session_min_mc, Some(40_000));
    assert_eq!(cpu.session_max_mc, Some(44_000));
}

#[test]
fn a_stored_reading_keeps_its_own_rate_where_none_was_computed() {
    let mut cache = new_cache();
    let mut reading = make_sensor("cpu", 40.0);
    reading.rate_c_per_s = Some(0.5);
    cache.store_sensor(reading.clone(), None);
    assert_eq!(cache.snapshot().sensors.get("cpu").unwrap().rate_c_per_s, Some(0.5));
    cache.store_sensor(reading, Some(1.5));
    assert_eq!(cache.snapshot().sensors.get("cpu").unwrap().rate_c_per_s, Some(1.5));
}

#[test]
fn readings_close_together_give_no_rate() {
    let mut cache = new_cache();
    cache.update_sensors(vec![make_sensor("cpu", 40.0)], smoothed, now());
    cache.update_sensors(
        vec![make_sensor("cpu", 50.0)],
        smoothed,
        now().after(Duration::from_millis(100)),
    );
    let snap = cache.snapshot();
    let cpu = snap.sensors.get("cpu").unwrap();
    assert_eq!(cpu.rate_c_per_s, None);
    assert_eq!(cpu.session_min_mc, Some(40_000));
    assert_eq!(cpu.session_max_mc, Some(50_000));
}

#[test]
fn a_fan_that_was_given_back_can_be_taken_again() {
    let mut cache = new_cache();
    assert!(cache.relinquish_gpu_fan("a"));
    assert!(cache.relinquish_gpu_fan("b"));
    assert!(!cache.relinquish_gpu_fan("a"));
    cache.unrelinquish_gpu_fan("a");
    assert!(!cache.is_gpu_fan_relinquished("a"));
    assert!(cache.is_gpu_fan_relinquished("b"));
    cache.clear_relinquished_gpu_fans();
    assert!(!cache.is_gpu_fan_relinquished("b"));
}

#[test]
fn an_outstanding_write_keeps_its_first_stamp() {
    let mut cache = new_cache();
    let later = now().after(Duration::from_secs(3));
    cache.record_engine_write_stall(true, now());
    cache.record_engine_write_stall(true, later);
    let since = |c: &StateCache<f64>| c.read_with(|s| s.subsystem_timestamps.engine_writes_stalled_since);
    assert_eq!(since(&cache), Some(now()));
    cache.record_engine_write_stall(false, later);
    assert_eq!(since(&cache), None);
    cache.record_engine_tick_complete(later);
    assert_eq!(
        cache.snapshot().subsystem_timestamps.engine_completed,
        Some(later)
    );
}

#[test]
fn skipped_and_computed_controls_change_together() {
    let skip = |id: &str| SkippedControl {
        control_id: id.to_string(),
        control_name: id.to_string(),
        reason: SkipReason::CurveNotFound,
        since: now(),
    };
    let mut cache = new_cache();
    cache.update_skipped_controls(vec![skip("a"), skip("b")]);
    assert_eq!(cache.snapshot().skipped_controls.len(), 2);
    cache.update_control_state(
        vec![skip("b")],
        vec![ControlOutput {
            control_id: "a".to_string(),
            output_pct: 40.0,
        }],
    );
    let snap = cache.snapshot();
    assert_eq!(snap.skipped_controls[0].control_id, "b");
    assert_eq!(snap.control_outputs[0].control_id, "a");
    assert_eq!(snap.control_outputs[0].output_pct, 40.0);
}

#[test]
fn a_resume_is_counted_and_may_have_reset_the_fan_controller() {
    let mut cache = new_cache();
    cache.set_resume_detected();
    assert_eq!(cache.resume_generation(), 1);
    assert_eq!(cache.openfan_write_generation(), 1);
    cache.invalidate_openfan_writes();
    assert_eq!(cache.resume_generation(), 1);
    assert_eq!(cache.openfan_write_generation(), 2);
}

//! Policies for classes of cooling devices.

use control_ofc_daemon::hwmon::device_policy::{
    generic_fan, generic_pump, policies, resolve, resolve_policy_floor, stop_permitted,
    DevicePolicy, ABSOLUTE_PUMP_FLOOR_PCT, DEFAULT_POLICY_ID,
};
use control_ofc_daemon::profile::HARD_PUMP_CPU_FLOOR_PCT;
use std::marker::PhantomData;

#[test]
fn generic_pump_floor_is_the_engine_floor() {
    assert_eq!(
        generic_pump().minimum_safe_pwm,
        HARD_PUMP_CPU_FLOOR_PCT
    );
    assert!(
        !generic_pump().supports_stop,
        "a pump must never be stoppable"
    );
}

#[test]
fn no_shipped_policy_is_below_the_absolute_pump_floor() {
    for p in &policies() {
        if !p.supports_stop {
            assert!(
                p.minimum_safe_pwm >= ABSOLUTE_PUMP_FLOOR_PCT,
                "policy {} declares {} which is below the absolute pump floor {}",
                p.id,
                p.minimum_safe_pwm,
                ABSOLUTE_PUMP_FLOOR_PCT
            );
        }
    }
}

#[test]
fn reported_floor_matches_enforced_floor_for_every_shipped_policy() {
    for p in &policies() {
        let reported = resolve_policy_floor(p, true);
        assert_eq!(
            reported,
            HARD_PUMP_CPU_FLOOR_PCT,
            "policy {} reports a pump floor of {reported} but the engine enforces {}",
            p.id,
            HARD_PUMP_CPU_FLOOR_PCT
        );
    }
}

#[test]
fn a_trusted_policy_may_tighten_the_range_down_to_the_backstop() {
    let validated = DevicePolicy {
        id: "test_validated_pump",
        display_name: "Validated pump",
        minimum_safe_pwm: 25,
        supports_stop: false,
        ..generic_pump()
    };
    assert_eq!(resolve_policy_floor(&validated, true), 25);

    let tighter = DevicePolicy {
        minimum_safe_pwm: 45,
        ..validated
    };
    assert_eq!(
        resolve_policy_floor(&tighter, true),
        45,
        "a policy above the generic floor must raise it"
    );
}

#[test]
fn a_policy_below_the_backstop_is_clamped_not_honoured() {
    let reckless = DevicePolicy {
        id: "test_reckless",
        minimum_safe_pwm: 5,
        supports_stop: false,
        ..generic_pump()
    };
    assert_eq!(
        resolve_policy_floor(&reckless, true),
        ABSOLUTE_PUMP_FLOOR_PCT,
        "a policy below the backstop must be clamped up to it"
    );
}

#[test]
fn a_fan_policy_cannot_lower_a_pump_protected_header() {
    assert_eq!(
        resolve_policy_floor(&generic_fan(), true),
        HARD_PUMP_CPU_FLOOR_PCT,
        "a stoppable policy must not move a pump's floor"
    );
    assert_eq!(resolve_policy_floor(&generic_fan(), false), 0);
}

#[test]
fn an_unknown_policy_id_falls_back_to_the_conservative_default() {
    assert_eq!(resolve("generic_pump").id, "generic_pump");
    assert_eq!(resolve("generic_fan").id, "generic_fan");
    assert_eq!(resolve("nl-lc1-validated").id, "generic_pump");
    assert_eq!(resolve("").id, "generic_pump");
    assert_eq!(resolve(DEFAULT_POLICY_ID).id, "generic_pump");
}

#[test]
fn pump_protection_outranks_a_permissive_policy() {
    assert!(!stop_permitted(&generic_fan(), true));
    assert!(stop_permitted(&generic_fan(), false));
    assert!(!stop_permitted(&generic_pump(), false));
}

struct Probe<T>(PhantomData<T>);

impl<T: serde::Deserialize<'static>> Probe<T> {
    fn reads_from_a_payload(&self) -> bool {
        true
    }
}

trait NotRead {
    fn reads_from_a_payload(&self) -> bool;
}

impl<T> NotRead for Probe<T> {
    fn reads_from_a_payload(&self) -> bool {
        false
    }
}

#[test]
fn device_policy_derives_no_deserialize() {
    assert!(
        Probe::<&'static str>(PhantomData).reads_from_a_payload(),
        "the probe sees what can be read"
    );
    assert!(
        !Probe::<DevicePolicy>(PhantomData).reads_from_a_payload(),
        "safety numbers must not be constructible from an inbound payload"
    );
}

//! Cooling devices.

use control_ofc_daemon::collections::StringSet;
use control_ofc_daemon::hwmon::cooling_device::{
    sanitize, unknown_member, validate_device, CoolingDeviceConfig, CoolingDeviceKind,
    MAX_COOLING_DEVICES, MAX_DEVICE_ID_BYTES, MAX_DEVICE_TEXT_BYTES, MAX_MEMBERS_PER_LIST,
};

fn ids(v: &[&str]) -> StringSet {
    let mut set = StringSet::new();
    for s in v {
        set.insert(s.to_string());
    }
    set
}

#[test]
fn an_openfan_member_is_accepted_when_hwmon_is_also_discovered() {
    let hwmon = ids(&["hwmon:it8696:isa-0a40:pwm5:PUMP"]);
    let openfan = ids(&["openfan:ch00", "openfan:ch01"]);
    assert_eq!(
        unknown_member(
            &vec!["hwmon:it8696:isa-0a40:pwm5:PUMP", "openfan:ch00"],
            &hwmon,
            &openfan
        ),
        None
    );
}

#[test]
fn an_unknown_id_is_still_rejected_in_either_source() {
    let hwmon = ids(&["hwmon:a"]);
    let openfan = ids(&["openfan:ch00"]);
    assert_eq!(
        unknown_member(&vec!["openfan:ch07"], &hwmon, &openfan),
        Some("openfan:ch07")
    );
    assert_eq!(
        unknown_member(&vec!["hwmon:b"], &hwmon, &openfan),
        Some("hwmon:b")
    );
}

#[test]
fn an_undiscovered_source_does_not_judge_its_members() {
    let none = ids(&[]);
    let openfan = ids(&["openfan:ch00"]);
    assert_eq!(unknown_member(&vec!["hwmon:anything"], &none, &openfan), None);
    assert_eq!(
        unknown_member(&vec!["openfan:ch09"], &none, &openfan),
        Some("openfan:ch09")
    );
    let hwmon = ids(&["hwmon:a"]);
    assert_eq!(unknown_member(&vec!["openfan:ch09"], &hwmon, &none), None);
    assert_eq!(unknown_member(&vec!["hwmon:z"], &hwmon, &none), Some("hwmon:z"));
}

#[test]
fn a_gpu_fan_is_not_an_acceptable_cooling_device_member() {
    let hwmon = ids(&["hwmon:a"]);
    let openfan = ids(&["openfan:ch00"]);
    assert_eq!(
        unknown_member(&vec!["amd_gpu:0000:03:00.0:fan0"], &hwmon, &openfan),
        Some("amd_gpu:0000:03:00.0:fan0")
    );
}

fn aio() -> CoolingDeviceConfig {
    CoolingDeviceConfig {
        id: "aio-1".into(),
        name: "AIO Cooling System".into(),
        kind: "aio_liquid".into(),
        pump_member: Some("hwmon:it8696:isa-0a40:pwm5:PUMP".into()),
        radiator_members: vec![
            "hwmon:it8696:isa-0a40:pwm1:CPU_FAN".into(),
            "hwmon:it8696:isa-0a40:pwm2:CPU_OPT".into(),
        ],
        ..Default::default()
    }
}

#[test]
fn a_device_represents_a_pump_and_several_radiator_fans() {
    let d = aio();
    assert!(validate_device(&d).is_ok());
    assert_eq!(d.radiator_members.len(), 2);
    assert_eq!(d.all_members().len(), 3);
    assert!(d.claims("hwmon:it8696:isa-0a40:pwm2:CPU_OPT"));
    assert!(!d.claims("hwmon:it8696:isa-0a40:pwm4:SYS_FAN"));
    assert_eq!(d.resolved_kind(), CoolingDeviceKind::AioLiquid);
}

#[test]
fn missing_coolant_telemetry_is_supported_not_an_error() {
    let d = aio();
    assert_eq!(d.coolant_sensor, None);
    assert_eq!(d.coolant_telemetry(), "unavailable");
    assert!(
        validate_device(&d).is_ok(),
        "a device with no coolant sensor must remain valid"
    );

    let with = CoolingDeviceConfig {
        coolant_sensor: Some("hwmon:z53:coolant".into()),
        ..aio()
    };
    assert_eq!(with.coolant_telemetry(), "available");
    let blank = CoolingDeviceConfig {
        coolant_sensor: Some(String::new()),
        ..aio()
    };
    assert_eq!(blank.coolant_telemetry(), "unavailable");
}

#[test]
fn a_device_resolves_a_compiled_in_policy() {
    let d = aio();
    assert_eq!(d.resolved_policy().id, "generic_pump");

    let named = CoolingDeviceConfig {
        device_policy_id: "generic_fan".into(),
        ..aio()
    };
    assert_eq!(named.resolved_policy().id, "generic_fan");

    let future = CoolingDeviceConfig {
        device_policy_id: "some-future-validated-pump".into(),
        ..aio()
    };
    assert_eq!(future.resolved_policy().id, "generic_pump");
}

#[test]
fn an_unrecognised_kind_degrades_to_unknown() {
    let d = CoolingDeviceConfig {
        kind: "thermosiphon".into(),
        ..aio()
    };
    assert_eq!(d.resolved_kind(), CoolingDeviceKind::Unknown);
    let blank = CoolingDeviceConfig {
        kind: String::new(),
        ..aio()
    };
    assert_eq!(blank.resolved_kind(), CoolingDeviceKind::Unknown);
}

#[test]
fn validation_rejects_unusable_ids_and_duplicate_members() {
    let bad_id = CoolingDeviceConfig {
        id: "aio/1".into(),
        ..aio()
    };
    assert!(validate_device(&bad_id).is_err());

    let empty = CoolingDeviceConfig {
        id: String::new(),
        ..aio()
    };
    assert!(validate_device(&empty).is_err());

    let dotdot = CoolingDeviceConfig {
        id: "..".into(),
        ..aio()
    };
    assert!(validate_device(&dotdot).is_err());

    let long = CoolingDeviceConfig {
        id: "a".repeat(MAX_DEVICE_ID_BYTES + 1),
        ..aio()
    };
    assert!(validate_device(&long).is_err());

    let dup = CoolingDeviceConfig {
        radiator_members: vec!["hwmon:it8696:isa-0a40:pwm5:PUMP".into()],
        ..aio()
    };
    assert!(validate_device(&dup).is_err());

    let too_many = CoolingDeviceConfig {
        radiator_members: (0..MAX_MEMBERS_PER_LIST + 1)
            .map(|i| format!("hwmon:x:y:pwm{i}:L"))
            .collect(),
        ..aio()
    };
    assert!(validate_device(&too_many).is_err());
}

#[test]
fn sanitize_drops_only_the_invalid() {
    let good = aio();
    let bad = CoolingDeviceConfig {
        id: "has/slash".into(),
        ..Default::default()
    };
    let second = CoolingDeviceConfig {
        id: "loop-1".into(),
        ..Default::default()
    };
    let out = sanitize(vec![good.clone(), bad, second]);
    assert_eq!(out.len(), 2);
    assert_eq!(out[0].id, "aio-1");
    assert_eq!(out[1].id, "loop-1");
}

#[test]
fn sanitize_dedupes_ids_and_bounds_the_count() {
    let a = aio();
    let dupe = CoolingDeviceConfig {
        name: "Impostor".into(),
        ..aio()
    };
    let out = sanitize(vec![a, dupe]);
    assert_eq!(out.len(), 1);
    assert_eq!(out[0].name, "AIO Cooling System", "the first must win");

    let many: Vec<_> = (0..MAX_COOLING_DEVICES + 5)
        .map(|i| CoolingDeviceConfig {
            id: format!("dev-{i}"),
            ..Default::default()
        })
        .collect();
    assert_eq!(sanitize(many).len(), MAX_COOLING_DEVICES);
}

#[test]
fn kind_tokens_match_serde() {
    for (k, token) in [
        (CoolingDeviceKind::Unknown, "unknown"),
        (CoolingDeviceKind::AioLiquid, "aio_liquid"),
        (CoolingDeviceKind::AirCooler, "air_cooler"),
        (CoolingDeviceKind::CustomLoop, "custom_loop"),
    ] {
        assert_eq!(token, k.as_str());
        assert_eq!(CoolingDeviceKind::from_token(token), Some(k));
    }
    assert_eq!(CoolingDeviceKind::from_token("AIO_LIQUID"), None);
}

#[test]
fn each_fault_of_a_device_is_named() {
    let id = |id: &str| CoolingDeviceConfig {
        id: id.into(),
        ..Default::default()
    };
    let fault = |d: &CoolingDeviceConfig| validate_device(d).unwrap_err();
    assert_eq!(fault(&id("")), "device id must not be empty");
    assert_eq!(
        fault(&id(&"x".repeat(MAX_DEVICE_ID_BYTES + 1))),
        "device id exceeds 64 bytes"
    );
    assert_eq!(
        fault(&id("p\u{fc}mp")),
        "device id may contain only ASCII letters, digits, '-', '_' and '.'"
    );
    assert_eq!(fault(&id("..")), "device id must not be '.' or '..'");
    let long = Some("s".repeat(MAX_DEVICE_TEXT_BYTES + 1));
    assert_eq!(
        fault(&CoolingDeviceConfig {
            preferred_sensor: long.clone(),
            fallback_sensor: long.clone(),
            ..id("d")
        }),
        "preferred_sensor exceeds 256 bytes"
    );
    assert_eq!(
        fault(&CoolingDeviceConfig {
            coolant_sensor: long,
            ..id("d")
        }),
        "coolant_sensor exceeds 256 bytes"
    );
    assert_eq!(
        fault(&CoolingDeviceConfig {
            auxiliary_members: vec![String::from("x"); MAX_MEMBERS_PER_LIST + 1],
            ..id("d")
        }),
        "a member list exceeds 32 entries"
    );
    assert_eq!(
        fault(&CoolingDeviceConfig {
            radiator_members: vec![String::new()],
            ..id("d")
        }),
        "member ids must not be empty"
    );
}

#[test]
fn a_member_that_comes_twice_is_quoted() {
    let twice = |m: &str| {
        validate_device(&CoolingDeviceConfig {
            id: "d".into(),
            radiator_members: vec![m.to_string()],
            auxiliary_members: vec![m.to_string()],
            ..Default::default()
        })
        .unwrap_err()
    };
    for m in ["plain", "a\"b", "back\\slash", "line\nfeed", "caf\u{e9}\u{7}"] {
        assert_eq!(
            twice(m),
            format!("member {m:?} appears more than once in this device")
        );
    }
}

#[test]
fn keeping_the_sound_devices_again_changes_nothing() {
    let kept = sanitize(vec![
        aio(),
        CoolingDeviceConfig {
            id: "a b".into(),
            ..Default::default()
        },
        CoolingDeviceConfig {
            id: "loop".into(),
            ..Default::default()
        },
    ]);
    let ids: Vec<String> = kept.iter().map(|d| d.id.clone()).collect();
    let again: Vec<String> = sanitize(kept).iter().map(|d| d.id.clone()).collect();
    assert_eq!(ids, vec!["aio-1".to_string(), "loop".to_string()]);
    assert_eq!(again, ids);
}

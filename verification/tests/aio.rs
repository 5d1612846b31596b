//! Liquid coolers.

use control_ofc_daemon::hwmon::aio::{is_coolant_sensor, is_liquid_cooler_chip};

#[test]
fn kraken_chips_are_liquid_coolers() {
    for chip in ["x53", "z53", "kraken2023", "kraken2023elite", "kraken2"] {
        assert!(is_liquid_cooler_chip(chip), "{chip} should be a cooler");
    }
}

#[test]
fn aquacomputer_liquid_devices_are_coolers() {
    for chip in ["d5next", "highflownext", "leakshield"] {
        assert!(is_liquid_cooler_chip(chip), "{chip} should be a cooler");
    }
}

#[test]
fn fan_controllers_are_not_coolers() {
    for chip in [
        "corsaircpro",
        "nzxtsmart2",
        "octo",
        "quadro",
        "aquaero",
        "farbwerk",
        "it8696",
        "nct6798",
        "k10temp",
    ] {
        assert!(!is_liquid_cooler_chip(chip), "{chip} is not a cooler");
    }
}

#[test]
fn cooler_match_is_case_insensitive() {
    assert!(is_liquid_cooler_chip("Z53"));
    assert!(is_liquid_cooler_chip("Kraken2023"));
}

#[test]
fn kraken_temp_classifies_coolant_from_chip() {
    assert!(is_coolant_sensor("z53", "temp1"));
    assert!(is_coolant_sensor("kraken2", ""));
}

#[test]
fn coolant_label_classifies_on_any_chip() {
    assert!(is_coolant_sensor("d5next", "Coolant temp"));
    assert!(is_coolant_sensor("asus_ec_sensors", "Water In"));
    assert!(is_coolant_sensor("nct6798", "Liquid"));
}

#[test]
fn aquacomputer_external_probe_is_not_coolant() {
    assert!(!is_coolant_sensor("d5next", "External sensor 1"));
    assert!(!is_coolant_sensor("quadro", "Sensor 3"));
}

#[test]
fn ordinary_sensors_are_not_coolant() {
    assert!(!is_coolant_sensor("k10temp", "Tctl"));
    assert!(!is_coolant_sensor("it8696", "temp1"));
    assert!(!is_coolant_sensor("amdgpu", "edge"));
}

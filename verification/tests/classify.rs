//! Classes of temperature sensors, and the default processor sensor.

use control_ofc_daemon::hwmon::classify::{
    classify_temp_sensor, select_default_cpu, Confidence, DefaultCpuRecommendation, TempClass,
    TempClassification,
};

fn cls(chip: &str, label: &str) -> TempClassification {
    classify_temp_sensor(chip, label)
}

#[test]
fn classifies_amd_cpu_subclasses() {
    assert_eq!(cls("k10temp", "Tctl").class, TempClass::CpuTctl);
    assert_eq!(cls("k10temp", "Tctl").confidence, Confidence::High);
    assert_eq!(cls("k10temp", "Tdie").class, TempClass::CpuTdie);
    assert_eq!(cls("k10temp", "Tccd1").class, TempClass::CpuCore);
    let u = cls("k10temp", "");
    assert_eq!(u.class, TempClass::CpuPackage);
    assert_eq!(u.confidence, Confidence::High);
}

#[test]
fn classifies_intel_cpu_subclasses() {
    let pkg = cls("coretemp", "Package id 0");
    assert_eq!(pkg.class, TempClass::CpuPackage);
    assert_eq!(pkg.confidence, Confidence::High);
    assert_eq!(cls("coretemp", "Core 3").class, TempClass::CpuCore);
}

#[test]
fn sbtsi_is_high_confidence_cpu() {
    let c = cls("sbtsi_temp", "");
    assert_eq!(c.class, TempClass::CpuPackage);
    assert_eq!(c.confidence, Confidence::High);
}

#[test]
fn superio_cpu_reading_is_medium() {
    let c = cls("nct6798", "CPU");
    assert_eq!(c.class, TempClass::CpuPackage);
    assert_eq!(c.confidence, Confidence::Medium);
}

#[test]
fn motherboard_vrm_and_chipset() {
    assert_eq!(cls("it8696", "VRM").class, TempClass::VrmTemp);
    assert_eq!(cls("nct6798", "PCH_CHIP").class, TempClass::ChipsetTemp);
    assert_eq!(cls("nct6798", "SYSTIN").class, TempClass::MotherboardTemp);
    assert_eq!(cls("it8696", "System").class, TempClass::MotherboardTemp);
}

#[test]
fn gpu_disk_coolant_echo_coarse_kind() {
    assert_eq!(cls("amdgpu", "edge").class, TempClass::GpuTemp);
    assert_eq!(cls("nvme", "Composite").class, TempClass::DiskTemp);
    assert_eq!(cls("z53", "").class, TempClass::CoolantTemp);
}

#[test]
fn unknown_chip_cpu_label_is_low_confidence_cpu() {
    let c = cls("mystery_chip", "CPU Core Temp");
    assert!(matches!(
        c.class,
        TempClass::CpuCore | TempClass::CpuPackage
    ));
    assert_eq!(c.confidence, Confidence::Low);
}

#[test]
fn genuinely_unknown_sensor_is_unknown_temp() {
    let c = cls("mystery_chip", "TEMP1");
    assert_eq!(c.class, TempClass::UnknownTemp);
    assert_eq!(c.confidence, Confidence::Unknown);
}

#[test]
fn class_and_confidence_display_snake_lower() {
    assert_eq!(TempClass::CpuTctl.as_str(), "cpu_tctl");
    assert_eq!(TempClass::MotherboardTemp.as_str(), "motherboard_temp");
    assert_eq!(TempClass::UnknownTemp.as_str(), "unknown_temp");
    assert_eq!(Confidence::High.as_str(), "high");
    assert_eq!(Confidence::Unknown.as_str(), "unknown");
}

fn tc(class: TempClass, confidence: Confidence) -> TempClassification {
    TempClassification::new(class, confidence, "test")
}

fn pick(items: &[(&str, TempClassification)]) -> Option<DefaultCpuRecommendation> {
    let list: Vec<(&str, &TempClassification)> = items.iter().map(|(id, c)| (*id, c)).collect();
    select_default_cpu(&list)
}

#[test]
fn default_cpu_none_when_no_cpu_sensor() {
    let items = [
        ("mb", tc(TempClass::MotherboardTemp, Confidence::Medium)),
        ("gpu", tc(TempClass::GpuTemp, Confidence::High)),
    ];
    assert!(pick(&items).is_none());
}

#[test]
fn default_cpu_prefers_tctl_over_core_regardless_of_id() {
    let items = [
        ("a_tccd", tc(TempClass::CpuCore, Confidence::High)),
        ("z_tctl", tc(TempClass::CpuTctl, Confidence::High)),
    ];
    let r = pick(&items).unwrap();
    assert_eq!(r.sensor_id, "z_tctl");
    assert_eq!(r.confidence, Confidence::High);
}

#[test]
fn default_cpu_prefers_package_over_cores_on_intel() {
    let items = [
        ("core0", tc(TempClass::CpuCore, Confidence::High)),
        ("core1", tc(TempClass::CpuCore, Confidence::High)),
        ("pkg", tc(TempClass::CpuPackage, Confidence::High)),
    ];
    assert_eq!(pick(&items).unwrap().sensor_id, "pkg");
}

#[test]
fn default_cpu_confidence_tiebreak_prefers_authoritative() {
    let items = [
        ("a_superio", tc(TempClass::CpuPackage, Confidence::Medium)),
        ("z_coretemp", tc(TempClass::CpuPackage, Confidence::High)),
    ];
    let r = pick(&items).unwrap();
    assert_eq!(r.sensor_id, "z_coretemp");
    assert_eq!(r.confidence, Confidence::High);
}

#[test]
fn default_cpu_is_stable_by_id_on_full_tie() {
    let items = [
        ("m_tctl", tc(TempClass::CpuTctl, Confidence::High)),
        ("a_tctl", tc(TempClass::CpuTctl, Confidence::High)),
        ("z_tctl", tc(TempClass::CpuTctl, Confidence::High)),
    ];
    assert_eq!(pick(&items).unwrap().sensor_id, "a_tctl");
}

#[test]
fn default_cpu_rationale_notes_candidate_count() {
    let one = [("t", tc(TempClass::CpuTctl, Confidence::High))];
    assert!(pick(&one).unwrap().rationale.contains("the only CPU"));
    let many = [
        ("a", tc(TempClass::CpuTctl, Confidence::High)),
        ("b", tc(TempClass::CpuCore, Confidence::High)),
    ];
    assert!(pick(&many)
        .unwrap()
        .rationale
        .contains("most representative"));
}

#[test]
fn the_default_does_not_depend_on_the_order_of_the_sensors() {
    let mut items = vec![
        ("c_core", tc(TempClass::CpuCore, Confidence::High)),
        ("b_pkg", tc(TempClass::CpuPackage, Confidence::Medium)),
        ("a_pkg", tc(TempClass::CpuPackage, Confidence::Medium)),
        ("nvme", tc(TempClass::UnknownTemp, Confidence::Low)),
    ];
    let first = pick(&items).unwrap().sensor_id;
    items.reverse();
    assert_eq!(pick(&items).unwrap().sensor_id, first);
    assert_eq!(first, "a_pkg");
}

//! Tachometers without a control.

use control_ofc_daemon::error::HwmonError;
use control_ofc_daemon::hwmon::inventory::discover_monitor_only_fans;
use control_ofc_daemon::hwmon::util::{DeviceLink, HwmonDevice, SysfsFile};

fn file(name: &str, content: &str) -> SysfsFile {
    SysfsFile {
        name: name.to_string(),
        content: Ok(content.to_string()),
    }
}

fn device(dir_name: &str, chip_name: &str, files: Vec<SysfsFile>) -> HwmonDevice {
    HwmonDevice {
        name: dir_name.to_string(),
        path: format!("/root/{dir_name}"),
        chip: Ok(chip_name.to_string()),
        device: DeviceLink::Absent,
        files: Ok(files),
        still_there: true,
    }
}

fn create_fan_fixture(
    root: &mut Vec<HwmonDevice>,
    dir_name: &str,
    chip_name: &str,
    fans: &[(u8, Option<&str>, bool)],
) {
    let mut files = Vec::new();
    for &(index, label, has_pwm) in fans {
        files.push(file(&format!("fan{index}_input"), "1200\n"));
        if let Some(lbl) = label {
            files.push(file(&format!("fan{index}_label"), &format!("{lbl}\n")));
        }
        if has_pwm {
            files.push(file(&format!("pwm{index}"), "128\n"));
        }
    }
    root.push(device(dir_name, chip_name, files));
}

#[test]
fn discovers_orphan_fan_with_no_pwm() {
    let mut tmp: Vec<HwmonDevice> = Vec::new();
    create_fan_fixture(
        &mut tmp,
        "hwmon0",
        "nct6798",
        &[(2, Some("AUX_FAN"), false)],
    );

    let fans = discover_monitor_only_fans("/root", &Ok(tmp)).unwrap();
    assert_eq!(fans.len(), 1);
    assert_eq!(fans[0].fan_index, 2);
    assert_eq!(fans[0].label, "AUX_FAN");
    assert_eq!(fans[0].chip_name, "nct6798");
    assert!(fans[0].id.starts_with("hwmon:nct6798:"));
    assert!(fans[0].id.contains("fan2"));
    assert!(fans[0].id.contains("AUX_FAN"));
}

#[test]
fn skips_fan_with_matching_pwm() {
    let mut tmp: Vec<HwmonDevice> = Vec::new();
    create_fan_fixture(
        &mut tmp,
        "hwmon0",
        "it8696",
        &[(1, Some("CPU_FAN"), true)],
    );

    let fans = discover_monitor_only_fans("/root", &Ok(tmp)).unwrap();
    assert!(
        fans.is_empty(),
        "a fan with a matching pwm must be excluded: {fans:#?}"
    );
}

#[test]
fn mixed_pairing_returns_only_orphans() {
    let mut tmp: Vec<HwmonDevice> = Vec::new();
    create_fan_fixture(
        &mut tmp,
        "hwmon0",
        "nct6798",
        &[(1, Some("CPU_FAN"), true), (3, Some("PUMP_TACH"), false)],
    );

    let fans = discover_monitor_only_fans("/root", &Ok(tmp)).unwrap();
    assert_eq!(fans.len(), 1);
    assert_eq!(fans[0].fan_index, 3);
    assert_eq!(fans[0].label, "PUMP_TACH");
}

#[test]
fn different_index_pwm_does_not_cover_fan() {
    let mut tmp: Vec<HwmonDevice> = Vec::new();
    tmp.push(device(
        "hwmon0",
        "nct6798",
        vec![
            file("pwm1", "128\n"),
            file("fan1_input", "1000\n"),
            file("fan3_input", "800\n"),
        ],
    ));

    let fans = discover_monitor_only_fans("/root", &Ok(tmp)).unwrap();
    assert_eq!(fans.len(), 1);
    assert_eq!(fans[0].fan_index, 3);
}

#[test]
fn missing_label_falls_back_to_fan_index() {
    let mut tmp: Vec<HwmonDevice> = Vec::new();
    create_fan_fixture(&mut tmp, "hwmon0", "nct6798", &[(2, None, false)]);

    let fans = discover_monitor_only_fans("/root", &Ok(tmp)).unwrap();
    assert_eq!(fans.len(), 1);
    assert_eq!(fans[0].label, "fan2");
}

#[test]
fn amdgpu_fans_excluded() {
    let mut tmp: Vec<HwmonDevice> = Vec::new();
    create_fan_fixture(&mut tmp, "hwmon0", "amdgpu", &[(1, None, false)]);

    let fans = discover_monitor_only_fans("/root", &Ok(tmp)).unwrap();
    assert!(fans.is_empty(), "amdgpu fans must be excluded: {fans:#?}");
}

#[test]
fn nouveau_fans_excluded() {
    let mut tmp: Vec<HwmonDevice> = Vec::new();
    create_fan_fixture(&mut tmp, "hwmon0", "nouveau", &[(1, None, false)]);

    let fans = discover_monitor_only_fans("/root", &Ok(tmp)).unwrap();
    assert!(fans.is_empty(), "nouveau fans must be excluded: {fans:#?}");
}

#[test]
fn malformed_name_skips_directory_not_fatal() {
    let mut tmp: Vec<HwmonDevice> = Vec::new();
    let mut bad = device("hwmon0", "", vec![file("fan1_input", "1000\n")]);
    bad.chip = Err("No such file or directory (os error 2)".to_string());
    tmp.push(bad);
    create_fan_fixture(
        &mut tmp,
        "hwmon1",
        "nct6798",
        &[(2, Some("SYS_FAN"), false)],
    );

    let fans = discover_monitor_only_fans("/root", &Ok(tmp)).unwrap();
    assert_eq!(fans.len(), 1);
    assert_eq!(fans[0].chip_name, "nct6798");
}

#[test]
fn results_sorted_by_id_across_chips() {
    let mut tmp: Vec<HwmonDevice> = Vec::new();
    create_fan_fixture(&mut tmp, "hwmon0", "nct6798", &[(2, Some("zzz"), false)]);
    create_fan_fixture(&mut tmp, "hwmon1", "it8696", &[(2, Some("aaa"), false)]);

    let fans = discover_monitor_only_fans("/root", &Ok(tmp)).unwrap();
    assert_eq!(fans.len(), 2);
    assert!(fans[0].id < fans[1].id);
    assert_eq!(fans[0].chip_name, "it8696");
}

#[test]
fn stable_id_omits_hwmon_index() {
    let mut tmp: Vec<HwmonDevice> = Vec::new();
    create_fan_fixture(
        &mut tmp,
        "hwmon7",
        "nct6798",
        &[(2, Some("SYS_FAN"), false)],
    );

    let fans = discover_monitor_only_fans("/root", &Ok(tmp)).unwrap();
    assert_eq!(fans.len(), 1);
    assert!(!fans[0].id.contains("hwmon7"));
    assert!(fans[0].id.starts_with("hwmon:nct6798:"));
}

#[test]
fn empty_root_yields_nothing() {
    let tmp: Vec<HwmonDevice> = Vec::new();
    let fans = discover_monitor_only_fans("/root", &Ok(tmp)).unwrap();
    assert!(fans.is_empty());
}

#[test]
fn all_fans_pwm_paired_yields_nothing() {
    let mut tmp: Vec<HwmonDevice> = Vec::new();
    create_fan_fixture(
        &mut tmp,
        "hwmon0",
        "it8696",
        &[(1, Some("CPU_FAN"), true), (2, Some("SYS_FAN"), true)],
    );
    let fans = discover_monitor_only_fans("/root", &Ok(tmp)).unwrap();
    assert!(fans.is_empty());
}

#[test]
fn an_unreadable_root_is_told() {
    let error = discover_monitor_only_fans("/root", &Err("gone".to_string())).unwrap_err();
    assert!(matches!(error, HwmonError::ReadError { .. }));
    assert_eq!(error.message(), "gone");
}

#[test]
fn a_blank_label_is_no_label() {
    let mut tmp: Vec<HwmonDevice> = Vec::new();
    create_fan_fixture(&mut tmp, "hwmon0", "nct6798", &[(4, Some("  "), false)]);
    let fans = discover_monitor_only_fans("/root", &Ok(tmp)).unwrap();
    assert_eq!(fans[0].label, "fan4");
    assert_eq!(fans[0].id, "hwmon:nct6798:nodev:fan4:fan4");
    assert_eq!(fans[0].input_path, "/root/hwmon0/fan4_input");
}

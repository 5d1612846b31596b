//! Reading sensors, and what chip names tell.

use control_ofc_daemon::hwmon::discovery::discover_sensors;
use control_ofc_daemon::hwmon::util::{DeviceLink, HwmonDevice, SysfsFile};
use control_ofc_daemon::hwmon::{
    is_gpu_owned_hwmon_chip, is_wireless_phy_chip, read_sensor_values, HWMON_SYSFS_ROOT,
};

fn file(name: &str, content: &str) -> SysfsFile {
    SysfsFile {
        name: name.to_string(),
        content: Ok(content.to_string()),
    }
}

#[test]
fn read_sensor_values_reports_failures_without_dropping_them() {
    let hwmon0 = HwmonDevice {
        name: "hwmon0".to_string(),
        path: "/sys/class/hwmon/hwmon0".to_string(),
        chip: Ok("k10temp\n".to_string()),
        device: DeviceLink::Absent,
        files: Ok(vec![
            file("name", "k10temp\n"),
            file("temp1_input", "55000\n"),
            file("temp1_label", "Tctl\n"),
            file("temp2_input", "garbage\n"),
            file("temp2_label", "Bad\n"),
        ]),
        still_there: true,
    };

    let descriptors = discover_sensors(HWMON_SYSFS_ROOT, &Ok(vec![hwmon0])).unwrap();
    let contents = vec![Ok("55000\n".to_string()), Ok("garbage\n".to_string())];
    let outcome = read_sensor_values(&descriptors, &contents);

    assert_eq!(outcome.readings.len(), 1);
    assert_eq!(outcome.failures.len(), 1);
    assert_eq!(outcome.failures[0].label, "Bad");
    assert!(outcome.failures[0].reason.contains("invalid temperature"));
    assert_eq!(outcome.readings[0].value_mc, 55_000);
    assert_eq!(
        outcome.failures[0].reason,
        "read error: /sys/class/hwmon/hwmon0/temp2_input: invalid temperature 'garbage'"
    );
}

#[test]
fn is_wireless_phy_chip_recognises_radio_thermals() {
    assert!(is_wireless_phy_chip("ath12k_hwmon"));
    assert!(is_wireless_phy_chip("ath11k_hwmon"));
    assert!(is_wireless_phy_chip("ath10k_hwmon"));
    assert!(is_wireless_phy_chip("iwlwifi_1"));
    assert!(!is_wireless_phy_chip("k10temp"));
    assert!(!is_wireless_phy_chip("nct6798"));
    assert!(!is_wireless_phy_chip("amdgpu"));
    assert!(!is_wireless_phy_chip("z53"));
}

#[test]
fn the_fans_of_graphics_cards_are_not_the_boards() {
    assert!(is_gpu_owned_hwmon_chip("amdgpu"));
    assert!(is_gpu_owned_hwmon_chip("nouveau"));
    assert!(!is_gpu_owned_hwmon_chip("it8696"));
}

//! Device directories, PCI devices and single readings.

use control_ofc_daemon::error::HwmonError;
use control_ofc_daemon::hwmon::pci::{
    directory_order, extract_pci_bdf, is_pci_bdf, is_vga_class, pci_hex_or_zero, rank_text,
    read_pci_hex, GpuDirectory,
};
use control_ofc_daemon::hwmon::reader::read_temp;
use control_ofc_daemon::hwmon::types::{SensorDescriptor, SensorKind, SensorSource};
use control_ofc_daemon::hwmon::util::{
    device_id_from_path, device_order, file_name, file_named, names_in_order, parent_path,
    resolve_device_id, text_of_file, DeviceLink, HwmonDevice, SysfsFile,
};

fn file(name: &str, content: Result<&str, &str>) -> SysfsFile {
    SysfsFile {
        name: name.to_string(),
        content: content.map(String::from).map_err(String::from),
    }
}

fn device(name: &str) -> HwmonDevice {
    HwmonDevice {
        name: name.to_string(),
        path: format!("/sys/class/hwmon/{name}"),
        chip: Ok("k10temp\n".to_string()),
        device: DeviceLink::Absent,
        files: Ok(Vec::new()),
        still_there: true,
    }
}

fn gpu_directory(name: &str) -> GpuDirectory {
    GpuDirectory {
        name: name.to_string(),
        path: format!("/sys/class/hwmon/{name}"),
        chip: None,
        pci: None,
        fan1_input: false,
        pwm1: false,
        pwm1_enable: false,
    }
}

#[test]
fn the_last_component_names_a_device() {
    assert_eq!(file_name("/sys/devices/pci0000:00/0000:00:18.3"), Some("0000:00:18.3"));
    assert_eq!(file_name("/a/b/"), Some("b"));
    assert_eq!(file_name("/a/b/."), Some("b"));
    assert_eq!(file_name("/a/.."), None);
    assert_eq!(file_name("/"), None);
    assert_eq!(device_id_from_path("/sys/devices/platform/it87.2624"), "it87.2624");
    assert_eq!(device_id_from_path(""), "unknown");
}

#[test]
fn the_parent_is_the_path_without_its_last_component() {
    assert_eq!(parent_path("/a/b").as_deref(), Some("/a"));
    assert_eq!(parent_path("/a//b/").as_deref(), Some("/a"));
    assert_eq!(parent_path("/a").as_deref(), Some("/"));
    assert_eq!(parent_path("a").as_deref(), Some(""));
    assert_eq!(parent_path("/"), None);
    for path in [
        "a/b/.", "a/b/./", "a/./b", "./a", ".", "./.", "/.", "/./a", "a/..", "//a", "a/...", "", "..",
    ] {
        assert_eq!(
            parent_path(path).as_deref(),
            std::path::Path::new(path).parent().and_then(|p| p.to_str()),
            "{path:?}"
        );
    }
}

#[test]
fn a_device_link_gives_an_identifier() {
    assert_eq!(resolve_device_id(&DeviceLink::Absent), "nodev");
    assert_eq!(resolve_device_id(&DeviceLink::Unresolved), "unknown");
    assert_eq!(
        resolve_device_id(&DeviceLink::Target("/sys/devices/0000:03:00.0".to_string())),
        "0000:03:00.0"
    );
}

#[test]
fn files_are_found_by_name() {
    let files = vec![
        file("temp2_input", Ok("1\n")),
        file("name", Err("denied")),
        file("temp1_input", Ok("2\n")),
    ];
    assert_eq!(text_of_file(&files, "temp1_input"), Some("2\n"));
    assert_eq!(text_of_file(&files, "name"), None);
    assert!(file_named(&files, "name").is_some());
    assert!(file_named(&files, "nope").is_none());
    assert_eq!(
        names_in_order(&files),
        vec!["name", "temp1_input", "temp2_input"]
    );
}

#[test]
fn directories_come_in_the_order_of_their_names() {
    let devices = vec![device("hwmon2"), device("hwmon10"), device("hwmon1")];
    assert_eq!(device_order(&devices), vec![2, 1, 0]);
    let dirs = vec![gpu_directory("hwmon2"), gpu_directory("hwmon0")];
    assert_eq!(directory_order(&dirs), vec![1, 0]);
}

#[test]
fn the_last_pci_address_of_a_path_counts() {
    assert!(is_pci_bdf("0000:03:00.0"));
    assert!(!is_pci_bdf("0000:03:00"));
    assert!(!is_pci_bdf("pci0000:00"));
    assert_eq!(
        extract_pci_bdf("/sys/devices/pci0000:00/0000:00:01.1/0000:03:00.0/hwmon").as_deref(),
        Some("0000:03:00.0")
    );
    assert_eq!(extract_pci_bdf("/sys/devices/platform"), None);
}

#[test]
fn hexadecimal_attributes_are_read_with_or_without_their_prefix() {
    assert_eq!(read_pci_hex(&Some("0x7550\n".to_string()), 0xffff), Some(0x7550));
    assert_eq!(read_pci_hex(&Some("7550".to_string()), 0xffff), Some(0x7550));
    assert_eq!(read_pci_hex(&Some("0x17550".to_string()), 0xffff), None);
    assert_eq!(read_pci_hex(&None, 0xffff), None);
    assert_eq!(pci_hex_or_zero(&Some("zz".to_string()), 0xffff), 0);
    assert!(is_vga_class(0x030000));
    assert!(is_vga_class(0x0300ff));
    assert!(!is_vga_class(0x038000));
}

#[test]
fn a_card_with_a_fan_ranks_before_one_without() {
    let best = rank_text(true, true, "0000:09:00.0");
    assert!(best < rank_text(true, false, "0000:03:00.0"));
    assert!(rank_text(true, false, "0000:03:00.0") < rank_text(false, true, "0000:01:00.0"));
    assert!(rank_text(true, true, "0000:03:00.0") < best);
}

#[test]
fn a_reading_is_taken_from_the_input_file() {
    let d = SensorDescriptor {
        id: "hwmon:k10temp:nodev:Tctl".to_string(),
        kind: SensorKind::CpuTemp,
        label: "Tctl".to_string(),
        source: SensorSource::Hwmon,
        input_path: "/sys/class/hwmon/hwmon0/temp1_input".to_string(),
        chip_name: "k10temp".to_string(),
        temp_type: None,
        thresholds: None,
    };
    let reading = read_temp(&d, &Ok(" 45500\n".to_string())).unwrap();
    assert_eq!(reading.value_mc, 45_500);
    assert_eq!(reading.id, d.id);
    assert_eq!(read_temp(&d, &Ok("-5000\n".to_string())).unwrap().value_mc, -5_000);
    let junk = read_temp(&d, &Ok("warm\n".to_string())).unwrap_err();
    assert!(matches!(junk, HwmonError::ReadError { .. }));
    assert_eq!(junk.message(), "invalid temperature 'warm'");
    let gone = read_temp(&d, &Err("No such device".to_string())).unwrap_err();
    assert_eq!(
        gone.describe(),
        "read error: /sys/class/hwmon/hwmon0/temp1_input: No such device"
    );
}

//! Intel graphics cards.

use control_ofc_daemon::hwmon::intel_gpu_detect::{
    detect_intel_gpus, lookup_marketing_name, select_primary_intel_gpu,
};
use control_ofc_daemon::hwmon::pci::{is_pci_bdf, GpuDirectory, PciDirectory};

fn bare(name: &str, chip: &str) -> GpuDirectory {
    GpuDirectory {
        name: name.to_string(),
        path: format!("/root/{name}"),
        chip: Some(chip.to_string()),
        pci: None,
        fan1_input: false,
        pwm1: false,
        pwm1_enable: false,
    }
}

#[allow(clippy::too_many_arguments)]
fn create_fake_intel_gpu(
    root: &mut Vec<GpuDirectory>,
    hwmon_name: &str,
    driver: &str,
    pci_bdf: &str,
    device_id: &str,
    revision: &str,
    class: &str,
    fan_rpm: bool,
) {
    let mut dir = bare(hwmon_name, &format!("{driver}\n"));
    dir.pci = Some(PciDirectory {
        path: format!("/root/pci_devices/{pci_bdf}"),
        device: Some(format!("{device_id}\n")),
        revision: Some(format!("{revision}\n")),
        class: Some(format!("{class}\n")),
        fan_curve: false,
        fan_zero_rpm: false,
    });
    dir.fan1_input = fan_rpm;
    root.push(dir);
}

#[test]
fn b580_device_id_maps_to_name() {
    assert_eq!(lookup_marketing_name(0xE20B), Some("Arc B580".to_string()));
}

#[test]
fn other_battlemage_ids_fall_back_to_generic() {
    for id in [0xE202u16, 0xE209, 0xE20C, 0xE210, 0xE216, 0xE220, 0xE223] {
        assert_eq!(lookup_marketing_name(id), None, "id {id:#06x}");
    }
}

#[test]
fn intel_gpu_detect_unknown_id_returns_none() {
    assert_eq!(lookup_marketing_name(0x1234), None);
}

#[test]
fn detect_battlemage_b580_via_xe() {
    let mut tmp: Vec<GpuDirectory> = Vec::new();
    create_fake_intel_gpu(
        &mut tmp,
        "hwmon3",
        "xe",
        "0000:03:00.0",
        "0xe20b",
        "0x00",
        "0x030000",
        true,
    );

    let gpus = detect_intel_gpus(&Ok(tmp));
    assert_eq!(gpus.len(), 1);
    let gpu = &gpus[0];
    assert_eq!(gpu.pci_device_id, 0xE20B);
    assert_eq!(gpu.driver, "xe");
    assert_eq!(gpu.marketing_name.as_deref(), Some("Arc B580"));
    assert_eq!(gpu.display_label(), "Arc B580");
    assert!(gpu.is_discrete);
    assert!(gpu.has_fan_rpm);
    assert_eq!(gpu.fan_control_method(), "read_only");
    assert_eq!(gpu.pci_bdf, "0000:03:00.0");
}

#[test]
fn detect_alchemist_via_i915() {
    let mut tmp: Vec<GpuDirectory> = Vec::new();
    create_fake_intel_gpu(
        &mut tmp,
        "hwmon2",
        "i915",
        "0000:03:00.0",
        "0x56a0",
        "0x08",
        "0x030000",
        true,
    );

    let gpus = detect_intel_gpus(&Ok(tmp));
    assert_eq!(gpus.len(), 1);
    let gpu = &gpus[0];
    assert_eq!(gpu.driver, "i915");
    assert!(gpu.marketing_name.is_none());
    assert_eq!(gpu.display_label(), "Intel D-GPU");
    assert!(gpu.has_fan_rpm);
    assert_eq!(gpu.fan_control_method(), "read_only");
}

#[test]
fn detect_intel_gpu_without_fan_is_none_method() {
    let mut tmp: Vec<GpuDirectory> = Vec::new();
    create_fake_intel_gpu(
        &mut tmp,
        "hwmon3",
        "xe",
        "0000:03:00.0",
        "0xe20b",
        "0x00",
        "0x030000",
        false,
    );

    let gpus = detect_intel_gpus(&Ok(tmp));
    assert_eq!(gpus.len(), 1);
    assert!(!gpus[0].has_fan_rpm);
    assert_eq!(gpus[0].fan_control_method(), "none");
}

#[test]
fn skips_non_intel_devices() {
    let mut tmp: Vec<GpuDirectory> = Vec::new();
    tmp.push(bare("hwmon0", "amdgpu\n"));
    tmp.push(bare("hwmon1", "k10temp\n"));

    let gpus = detect_intel_gpus(&Ok(tmp));
    assert!(gpus.is_empty());
}

#[test]
fn intel_gpu_detect_no_device_symlink_skipped() {
    let mut tmp: Vec<GpuDirectory> = Vec::new();
    tmp.push(bare("hwmon0", "xe\n"));

    let gpus = detect_intel_gpus(&Ok(tmp));
    assert!(gpus.is_empty());
}

#[test]
fn fan_bearing_gpu_preferred_as_primary() {
    let mut tmp: Vec<GpuDirectory> = Vec::new();
    create_fake_intel_gpu(
        &mut tmp,
        "hwmon0",
        "xe",
        "0000:01:00.0",
        "0xe202",
        "0x00",
        "0x030000",
        false,
    );
    create_fake_intel_gpu(
        &mut tmp,
        "hwmon1",
        "xe",
        "0000:03:00.0",
        "0xe20b",
        "0x00",
        "0x030000",
        true,
    );

    let gpus = detect_intel_gpus(&Ok(tmp));
    assert_eq!(gpus.len(), 2);
    let primary = select_primary_intel_gpu(&gpus).unwrap();
    assert!(primary.has_fan_rpm);
    assert_eq!(primary.pci_bdf, "0000:03:00.0");
}

#[test]
fn select_primary_empty_is_none() {
    assert!(select_primary_intel_gpu(&Vec::new()).is_none());
}

#[test]
fn intel_gpu_detect_pci_bdf_format_check() {
    assert!(is_pci_bdf("0000:03:00.0"));
    assert!(!is_pci_bdf("short"));
}

#[test]
fn an_unreadable_root_shows_no_intel_cards() {
    assert!(detect_intel_gpus(&Err("gone".to_string())).is_empty());
}

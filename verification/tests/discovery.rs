//! Discovery of temperature sensors.

use control_ofc_daemon::error::HwmonError;
use control_ofc_daemon::hwmon::discovery::{
    classify_chip, discover_sensors, discover_sensors_reporting_skips,
};
use control_ofc_daemon::hwmon::types::{SensorDescriptor, SensorKind, SensorSource};
use control_ofc_daemon::hwmon::util::{
    device_id_from_path, DeviceLink, HwmonDevice, SysfsFile,
};

/// A hwmon root in memory.
struct Root {
    devices: Vec<HwmonDevice>,
}

struct Dir<'a> {
    device: &'a mut HwmonDevice,
}

impl Dir<'_> {
    fn write(&mut self, name: &str, content: &str) {
        if name == "name" {
            self.device.chip = Ok(content.to_string());
        }
        if let Ok(files) = &mut self.device.files {
            files.push(SysfsFile {
                name: name.to_string(),
                content: Ok(content.to_string()),
            });
        }
    }

    fn unreadable(&mut self, name: &str, reason: &str) {
        if let Ok(files) = &mut self.device.files {
            files.push(SysfsFile {
                name: name.to_string(),
                content: Err(reason.to_string()),
            });
        }
    }
}

impl Root {
    fn new() -> Self {
        Root {
            devices: Vec::new(),
        }
    }

    fn dir(&mut self, name: &str) -> Dir<'_> {
        self.devices.push(HwmonDevice {
            name: name.to_string(),
            path: format!("/root/{name}"),
            chip: Err("No such file or directory (os error 2)".to_string()),
            device: DeviceLink::Absent,
            files: Ok(Vec::new()),
            still_there: true,
        });
        Dir {
            device: self.devices.last_mut().unwrap(),
        }
    }

    fn discover(self) -> Result<Vec<SensorDescriptor>, HwmonError> {
        discover_sensors("/root", &Ok(self.devices))
    }
}

fn create_fixture_with_chip_name(
    root: &mut Root,
    dir_name: &str,
    chip_name: &str,
    temps: &[(&str, Option<&str>)],
) {
    let mut hwmon_dir = root.dir(dir_name);
    hwmon_dir.write("name", chip_name);
    for (index, label) in temps {
        hwmon_dir.write(&format!("temp{index}_input"), "45000\n");
        if let Some(lbl) = label {
            hwmon_dir.write(&format!("temp{index}_label"), &format!("{lbl}\n"));
        }
    }
}

#[test]
fn discover_cpu_sensor_k10temp() {
    let mut tmp = Root::new();
    create_fixture_with_chip_name(
            &mut tmp,
        "hwmon0",
        "k10temp",
        &[("1", Some("Tctl")), ("3", Some("Tccd1"))],
    );

    let sensors = tmp.discover().unwrap();
    assert_eq!(sensors.len(), 2);
    assert_eq!(sensors[0].kind, SensorKind::CpuTemp);
    assert_eq!(sensors[0].label, "Tctl");
    assert!(sensors[0].id.contains("k10temp"));
    assert!(sensors[0].id.contains("Tctl"));
    assert_eq!(sensors[1].label, "Tccd1");
}

#[test]
fn discover_gpu_sensor_amdgpu() {
    let mut tmp = Root::new();
    create_fixture_with_chip_name(
            &mut tmp,
        "hwmon0",
        "amdgpu",
        &[
            ("1", Some("edge")),
            ("2", Some("junction")),
            ("3", Some("mem")),
        ],
    );

    let sensors = tmp.discover().unwrap();
    assert_eq!(sensors.len(), 3);
    for s in &sensors {
        assert_eq!(s.kind, SensorKind::GpuTemp);
    }
    assert_eq!(sensors[0].label, "edge");
}

#[test]
fn discover_intel_gpu_xe_source_and_kind() {
    let mut tmp = Root::new();
    create_fixture_with_chip_name(&mut tmp, "hwmon0", "xe", &[("2", None), ("3", None)]);

    let sensors = tmp.discover().unwrap();
    assert_eq!(sensors.len(), 2);
    for s in &sensors {
        assert_eq!(s.kind, SensorKind::GpuTemp);
        assert_eq!(s.source, SensorSource::IntelGpu);
        assert_eq!(s.chip_name, "xe");
    }
    assert_eq!(sensors[0].label, "temp2");
}

#[test]
fn discover_intel_gpu_i915_source_and_kind() {
    let mut tmp = Root::new();
    create_fixture_with_chip_name(&mut tmp, "hwmon0", "i915", &[("1", None)]);

    let sensors = tmp.discover().unwrap();
    assert_eq!(sensors.len(), 1);
    assert_eq!(sensors[0].kind, SensorKind::GpuTemp);
    assert_eq!(sensors[0].source, SensorSource::IntelGpu);
}

#[test]
fn discover_amdgpu_source_is_amd_not_intel() {
    let mut tmp = Root::new();
    create_fixture_with_chip_name(&mut tmp, "hwmon0", "amdgpu", &[("1", Some("edge"))]);

    let sensors = tmp.discover().unwrap();
    assert_eq!(sensors[0].source, SensorSource::AmdGpu);
}

#[test]
fn discover_nvidia_gpu_nouveau_source_and_kind() {
    let mut tmp = Root::new();
    create_fixture_with_chip_name(&mut tmp, "hwmon0", "nouveau", &[("1", None)]);

    let sensors = tmp.discover().unwrap();
    assert_eq!(sensors.len(), 1);
    assert_eq!(sensors[0].kind, SensorKind::GpuTemp);
    assert_eq!(sensors[0].source, SensorSource::NvidiaGpu);
    assert_eq!(sensors[0].chip_name, "nouveau");
}

#[test]
fn discover_nvme_disk_sensor() {
    let mut tmp = Root::new();
    create_fixture_with_chip_name(&mut tmp, "hwmon0", "nvme", &[("1", Some("Composite"))]);

    let sensors = tmp.discover().unwrap();
    assert_eq!(sensors.len(), 1);
    assert_eq!(sensors[0].kind, SensorKind::DiskTemp);
    assert!(sensors[0].id.contains("nvme"));
}

#[test]
fn discover_motherboard_sensor_ite() {
    let mut tmp = Root::new();
    create_fixture_with_chip_name(&mut tmp, "hwmon0", "it8696", &[("1", None), ("2", None)]);

    let sensors = tmp.discover().unwrap();
    assert_eq!(sensors.len(), 2);
    for s in &sensors {
        assert_eq!(s.kind, SensorKind::MbTemp);
    }
    assert_eq!(sensors[0].label, "temp1");
}

#[test]
fn discover_missing_label_uses_fallback() {
    let mut tmp = Root::new();
    create_fixture_with_chip_name(
            &mut tmp,
        "hwmon0",
        "k10temp",
        &[("1", None)],
    );

    let sensors = tmp.discover().unwrap();
    assert_eq!(sensors.len(), 1);
    assert_eq!(sensors[0].label, "temp1");
    assert_eq!(sensors[0].kind, SensorKind::CpuTemp);
}

#[test]
fn discover_multiple_devices() {
    let mut tmp = Root::new();
    create_fixture_with_chip_name(&mut tmp, "hwmon0", "k10temp", &[("1", Some("Tctl"))]);
    create_fixture_with_chip_name(&mut tmp, "hwmon1", "amdgpu", &[("1", Some("edge"))]);
    create_fixture_with_chip_name(&mut tmp, "hwmon2", "it8696", &[("1", None)]);

    let sensors = tmp.discover().unwrap();
    assert_eq!(sensors.len(), 3);

    let kinds: Vec<_> = sensors.iter().map(|s| s.kind).collect();
    assert!(kinds.contains(&SensorKind::CpuTemp));
    assert!(kinds.contains(&SensorKind::GpuTemp));
    assert!(kinds.contains(&SensorKind::MbTemp));
}

#[test]
fn discover_empty_directory() {
    let mut tmp = Root::new();
    let sensors = tmp.discover().unwrap();
    assert!(sensors.is_empty());
}

#[test]
fn discover_skips_non_hwmon_entries() {
    let mut tmp = Root::new();
    tmp.dir("notahwmon");
    create_fixture_with_chip_name(&mut tmp, "hwmon0", "k10temp", &[("1", Some("Tctl"))]);

    let sensors = tmp.discover().unwrap();
    assert_eq!(sensors.len(), 1);
}

#[test]
fn stable_id_does_not_contain_hwmon_index() {
    let mut tmp = Root::new();
    create_fixture_with_chip_name(&mut tmp, "hwmon5", "k10temp", &[("1", Some("Tctl"))]);

    let sensors = tmp.discover().unwrap();
    assert!(!sensors[0].id.contains("hwmon5"));
    assert!(sensors[0].id.starts_with("hwmon:k10temp:"));
}

#[test]
fn device_id_extracts_pci_address() {
    let path = "/sys/devices/pci0000:00/0000:00:01.1/0000:01:00.0/0000:02:00.0/0000:03:00.0";
    let id = device_id_from_path(path);
    assert_eq!(id, "0000:03:00.0");
}

#[test]
fn device_id_extracts_platform_id() {
    let path = "/sys/devices/platform/it87.2624";
    let id = device_id_from_path(path);
    assert_eq!(id, "it87.2624");
}

#[test]
fn discover_nct6775_default_mbtemp() {
    let mut tmp = Root::new();
    create_fixture_with_chip_name(
            &mut tmp,
        "hwmon0",
        "nct6775",
        &[("1", Some("SYSTIN")), ("2", Some("AUXTIN0"))],
    );

    let sensors = tmp.discover().unwrap();
    assert_eq!(sensors.len(), 2);
    for s in &sensors {
        assert_eq!(s.kind, SensorKind::MbTemp);
        assert_eq!(s.chip_name, "nct6775");
    }
}

#[test]
fn discover_nct6775_tsi_label_is_cpu() {
    let mut tmp = Root::new();
    create_fixture_with_chip_name(
            &mut tmp,
        "hwmon0",
        "nct6775",
        &[("1", Some("AMD TSI Addr 98h")), ("2", Some("SYSTIN"))],
    );

    let sensors = tmp.discover().unwrap();
    assert_eq!(sensors.len(), 2);
    assert_eq!(sensors[0].kind, SensorKind::CpuTemp);
    assert_eq!(sensors[1].kind, SensorKind::MbTemp);
}

#[test]
fn discover_nct6683_peci_label_is_cpu() {
    let mut tmp = Root::new();
    create_fixture_with_chip_name(
            &mut tmp,
        "hwmon0",
        "nct6683",
        &[("1", Some("PECI Agent 0")), ("2", Some("PCH_CHIP"))],
    );

    let sensors = tmp.discover().unwrap();
    assert_eq!(sensors.len(), 2);
    assert_eq!(sensors[0].kind, SensorKind::CpuTemp);
    assert_eq!(sensors[1].kind, SensorKind::MbTemp);
}

#[test]
fn discover_nct6687_family_handled() {
    let mut tmp = Root::new();
    create_fixture_with_chip_name(&mut tmp, "hwmon0", "nct6687", &[("1", Some("CPU"))]);

    let sensors = tmp.discover().unwrap();
    assert_eq!(sensors.len(), 1);
    assert_eq!(sensors[0].kind, SensorKind::CpuTemp);
}

#[test]
fn discover_asus_ec_sensors_classifies_by_label() {
    let mut tmp = Root::new();
    create_fixture_with_chip_name(
            &mut tmp,
        "hwmon0",
        "asus_ec_sensors",
        &[
            ("1", Some("CPU")),
            ("2", Some("GPU")),
            ("3", Some("Chipset")),
            ("4", Some("Motherboard")),
        ],
    );

    let sensors = tmp.discover().unwrap();
    assert_eq!(sensors.len(), 4);
    assert_eq!(sensors[0].kind, SensorKind::CpuTemp);
    assert_eq!(sensors[1].kind, SensorKind::GpuTemp);
    assert_eq!(sensors[2].kind, SensorKind::MbTemp);
    assert_eq!(sensors[3].kind, SensorKind::MbTemp);
}

#[test]
fn discover_asus_wmi_sensors_classifies_by_label() {
    let mut tmp = Root::new();
    create_fixture_with_chip_name(
            &mut tmp,
        "hwmon0",
        "asus_wmi_sensors",
        &[("1", Some("CPU Package Temp")), ("2", Some("VRM"))],
    );

    let sensors = tmp.discover().unwrap();
    assert_eq!(sensors.len(), 2);
    assert_eq!(sensors[0].kind, SensorKind::CpuTemp);
    assert_eq!(sensors[1].kind, SensorKind::MbTemp);
}

#[test]
fn discover_gigabyte_wmi_is_mbtemp() {
    let mut tmp = Root::new();
    create_fixture_with_chip_name(
            &mut tmp,
        "hwmon0",
        "gigabyte_wmi",
        &[("1", Some("temp1")), ("2", Some("temp2"))],
    );

    let sensors = tmp.discover().unwrap();
    assert_eq!(sensors.len(), 2);
    for s in &sensors {
        assert_eq!(s.kind, SensorKind::MbTemp);
    }
}

#[test]
fn discover_sbtsi_temp_is_cpu() {
    let mut tmp = Root::new();
    create_fixture_with_chip_name(&mut tmp, "hwmon0", "sbtsi_temp", &[("1", None)]);

    let sensors = tmp.discover().unwrap();
    assert_eq!(sensors.len(), 1);
    assert_eq!(sensors[0].kind, SensorKind::CpuTemp);
}

#[test]
fn discover_kraken3_coolant_from_chip_name() {
    let mut tmp = Root::new();
    create_fixture_with_chip_name(&mut tmp, "hwmon0", "z53", &[("1", None)]);

    let sensors = tmp.discover().unwrap();
    assert_eq!(sensors.len(), 1);
    assert_eq!(sensors[0].kind, SensorKind::CoolantTemp);
    assert_eq!(sensors[0].kind.as_str(), "coolant_temp");
}

#[test]
fn discover_kraken2_coolant_from_chip_name() {
    let mut tmp = Root::new();
    create_fixture_with_chip_name(&mut tmp, "hwmon0", "kraken2", &[("1", None)]);

    let sensors = tmp.discover().unwrap();
    assert_eq!(sensors[0].kind, SensorKind::CoolantTemp);
}

#[test]
fn discover_aquacomputer_coolant_by_label_not_external_probe() {
    let mut tmp = Root::new();
    create_fixture_with_chip_name(
            &mut tmp,
        "hwmon0",
        "d5next",
        &[
            ("1", Some("Coolant temp")),
            ("2", Some("External sensor 1")),
        ],
    );

    let sensors = tmp.discover().unwrap();
    assert_eq!(sensors.len(), 2);
    assert_eq!(sensors[0].kind, SensorKind::CoolantTemp);
    assert_eq!(sensors[1].kind, SensorKind::MbTemp);
}

#[test]
fn discover_asus_ec_water_now_classifies_coolant() {
    let mut tmp = Root::new();
    create_fixture_with_chip_name(
            &mut tmp,
        "hwmon0",
        "asus_ec_sensors",
        &[
            ("1", Some("Water In")),
            ("2", Some("Water Out")),
            ("3", Some("CPU")),
        ],
    );

    let sensors = tmp.discover().unwrap();
    assert_eq!(sensors[0].kind, SensorKind::CoolantTemp);
    assert_eq!(sensors[1].kind, SensorKind::CoolantTemp);
    assert_eq!(sensors[2].kind, SensorKind::CpuTemp);
}

#[test]
fn discover_reads_temp_type() {
    let mut tmp = Root::new();
    let mut hwmon_dir = tmp.dir("hwmon0");
    hwmon_dir.write("name", "nct6683\n");
    hwmon_dir.write("temp1_input", "45000\n");
    hwmon_dir.write("temp1_label", "SYSTIN\n");
    hwmon_dir.write("temp1_type", "3\n");
    hwmon_dir.write("temp2_input", "50000\n");
    hwmon_dir.write("temp2_label", "AMD TSI Addr 98h\n");
    hwmon_dir.write("temp2_type", "5\n");

    let sensors = tmp.discover().unwrap();
    assert_eq!(sensors.len(), 2);

    assert_eq!(sensors[0].temp_type, Some(3));
    assert_eq!(sensors[0].chip_name, "nct6683");
    assert_eq!(sensors[0].kind, SensorKind::MbTemp);

    assert_eq!(sensors[1].temp_type, Some(5));
    assert_eq!(sensors[1].kind, SensorKind::CpuTemp);
}

#[test]
fn discover_missing_temp_type_is_none() {
    let mut tmp = Root::new();
    create_fixture_with_chip_name(&mut tmp, "hwmon0", "k10temp", &[("1", Some("Tctl"))]);

    let sensors = tmp.discover().unwrap();
    assert_eq!(sensors.len(), 1);
    assert_eq!(sensors[0].temp_type, None);
}

#[test]
fn discover_reads_curated_threshold_attributes() {
    let mut tmp = Root::new();
    let mut hwmon_dir = tmp.dir("hwmon0");
    hwmon_dir.write("name", "nct6798\n");
    hwmon_dir.write("temp1_input", "55000\n");
    hwmon_dir.write("temp1_label", "CPUTIN\n");
    hwmon_dir.write("temp1_max", "95000\n");
    hwmon_dir.write("temp1_crit", "105000\n");
    hwmon_dir.write("temp1_crit_hyst", "100000\n");
    hwmon_dir.write("temp1_max_alarm", "0\n");
    hwmon_dir.write("temp1_crit_alarm", "0\n");

    let sensors = tmp.discover().unwrap();
    assert_eq!(sensors.len(), 1);
    let t = sensors[0]
        .thresholds
        .as_ref()
        .expect("thresholds populated");
    assert_eq!(t.max_mc, Some(95_000));
    assert_eq!(t.crit_mc, Some(105_000));
    assert_eq!(t.crit_hyst_mc, Some(100_000));
    assert_eq!(t.max_alarm, Some(false));
    assert_eq!(t.crit_alarm, Some(false));
    assert!(t.emergency_mc.is_none());
    assert!(t.lcrit_mc.is_none());
    assert!(t.alarm.is_none());
    assert!(t.fault.is_none());
}

#[test]
fn discover_thresholds_none_when_chip_exposes_nothing() {
    let mut tmp = Root::new();
    create_fixture_with_chip_name(&mut tmp, "hwmon0", "k10temp", &[("1", Some("Tctl"))]);
    let sensors = tmp.discover().unwrap();
    assert_eq!(sensors.len(), 1);
    assert!(sensors[0].thresholds.is_none());
}

#[test]
fn discover_filters_implausible_threshold_values() {
    let mut tmp = Root::new();
    let mut hwmon_dir = tmp.dir("hwmon0");
    hwmon_dir.write("name", "nct6798\n");
    hwmon_dir.write("temp1_input", "45000\n");
    hwmon_dir.write("temp1_label", "CPUTIN\n");
    hwmon_dir.write("temp1_max", "-2147000000\n");
    hwmon_dir.write("temp1_crit", "250000\n");
    hwmon_dir.write("temp1_emergency", "115000\n");

    let sensors = tmp.discover().unwrap();
    let t = sensors[0]
        .thresholds
        .as_ref()
        .expect("emergency keeps thresholds non-empty");
    assert!(t.max_mc.is_none(), "INT_MIN-scale value should be dropped");
    assert!(t.crit_mc.is_none(), "out-of-range value should be dropped");
    assert_eq!(t.emergency_mc, Some(115_000));
}

#[test]
fn discover_drops_it87_max_zero_placeholder() {
    let mut tmp = Root::new();
    let mut hwmon_dir = tmp.dir("hwmon0");
    hwmon_dir.write("name", "it8689\n");
    hwmon_dir.write("temp1_input", "40000\n");
    hwmon_dir.write("temp1_label", "temp1\n");
    hwmon_dir.write("temp1_max", "0\n");
    hwmon_dir.write("temp1_crit", "100000\n");

    let sensors = tmp.discover().unwrap();
    let t = sensors[0]
        .thresholds
        .as_ref()
        .expect("crit keeps non-empty");
    assert!(
        t.max_mc.is_none(),
        "it87 max=0 must be dropped as placeholder"
    );
    assert_eq!(t.crit_mc, Some(100_000));
}

#[test]
fn discover_keeps_zero_max_for_non_it87_chips() {
    let mut tmp = Root::new();
    let mut hwmon_dir = tmp.dir("hwmon0");
    hwmon_dir.write("name", "nct6798\n");
    hwmon_dir.write("temp1_input", "30000\n");
    hwmon_dir.write("temp1_label", "AUXTIN0\n");
    hwmon_dir.write("temp1_max", "0\n");

    let sensors = tmp.discover().unwrap();
    let t = sensors[0].thresholds.as_ref().unwrap();
    assert_eq!(t.max_mc, Some(0));
}

#[test]
fn discover_reads_alarm_bits() {
    let mut tmp = Root::new();
    let mut hwmon_dir = tmp.dir("hwmon0");
    hwmon_dir.write("name", "amdgpu\n");
    hwmon_dir.write("temp1_input", "85000\n");
    hwmon_dir.write("temp1_label", "edge\n");
    hwmon_dir.write("temp1_alarm", "1\n");
    hwmon_dir.write("temp1_fault", "0\n");

    let sensors = tmp.discover().unwrap();
    let t = sensors[0].thresholds.as_ref().unwrap();
    assert_eq!(t.alarm, Some(true));
    assert_eq!(t.fault, Some(false));
}

#[test]
fn discover_ignores_malformed_alarm_bit() {
    let mut tmp = Root::new();
    let mut hwmon_dir = tmp.dir("hwmon0");
    hwmon_dir.write("name", "nct6798\n");
    hwmon_dir.write("temp1_input", "40000\n");
    hwmon_dir.write("temp1_label", "CPUTIN\n");
    hwmon_dir.write("temp1_alarm", "garbage\n");
    hwmon_dir.write("temp1_max", "95000\n");

    let sensors = tmp.discover().unwrap();
    let t = sensors[0].thresholds.as_ref().unwrap();
    assert!(t.alarm.is_none());
    assert_eq!(t.max_mc, Some(95_000));
}

#[test]
fn chip_name_propagated_to_descriptor() {
    let mut tmp = Root::new();
    create_fixture_with_chip_name(&mut tmp, "hwmon0", "it8696", &[("1", None)]);

    let sensors = tmp.discover().unwrap();
    assert_eq!(sensors.len(), 1);
    assert_eq!(sensors[0].chip_name, "it8696");
}

#[test]
fn classify_chip_table_driven_all_arms_and_subbranches() {
    let cases: &[(&str, &str, SensorKind)] = &[
        ("k10temp", "Tctl", SensorKind::CpuTemp),
        ("k10temp", "anything", SensorKind::CpuTemp),
        ("coretemp", "Package id 0", SensorKind::CpuTemp),
        ("coretemp", "Core 3", SensorKind::CpuTemp),
        ("amdgpu", "edge", SensorKind::GpuTemp),
        ("amdgpu", "junction", SensorKind::GpuTemp),
        ("amdgpu", "mem", SensorKind::GpuTemp),
        ("xe", "", SensorKind::GpuTemp),
        ("xe", "temp2", SensorKind::GpuTemp),
        ("i915", "", SensorKind::GpuTemp),
        ("i915", "temp1", SensorKind::GpuTemp),
        ("nouveau", "", SensorKind::GpuTemp),
        ("nouveau", "temp1", SensorKind::GpuTemp),
        ("nvme", "Composite", SensorKind::DiskTemp),
        ("nvme", "Sensor 1", SensorKind::DiskTemp),
        ("sbtsi_temp", "", SensorKind::CpuTemp),
        ("it8696", "AUXTIN0", SensorKind::MbTemp),
        ("it8772", "anything", SensorKind::MbTemp),
        ("it8728", "", SensorKind::MbTemp),
        ("nct6775", "SYSTIN", SensorKind::MbTemp),
        ("nct6683", "AUXTIN0", SensorKind::MbTemp),
        ("nct6686", "PCH_CHIP", SensorKind::MbTemp),
        ("nct6687", "VRM", SensorKind::MbTemp),
        ("nct6775", "AMD TSI Addr 98h", SensorKind::CpuTemp),
        ("nct6683", "TSI", SensorKind::CpuTemp),
        ("nct6686", "PECI Agent 0", SensorKind::CpuTemp),
        ("nct6687", "CPU", SensorKind::CpuTemp),
        ("nct6775", "cpu temp", SensorKind::CpuTemp),
        ("asus_ec_sensors", "CPU", SensorKind::CpuTemp),
        ("asus_ec_sensors", "GPU", SensorKind::GpuTemp),
        ("asus_ec_sensors", "Chipset", SensorKind::MbTemp),
        ("asus_wmi_sensors", "CPU Package Temp", SensorKind::CpuTemp),
        ("asus_wmi_sensors", "GPU Hotspot", SensorKind::GpuTemp),
        ("asus_wmi_sensors", "VRM", SensorKind::MbTemp),
        ("gigabyte_wmi", "temp1", SensorKind::MbTemp),
        ("gigabyte_wmi", "anything", SensorKind::MbTemp),
        ("unknown_chip", "CPU package", SensorKind::CpuTemp),
        ("unknown_chip", "Tctl", SensorKind::CpuTemp),
        ("unknown_chip", "Tccd1", SensorKind::CpuTemp),
        ("unknown_chip", "GPU edge", SensorKind::GpuTemp),
        ("unknown_chip", "edge", SensorKind::GpuTemp),
        ("unknown_chip", "junction", SensorKind::GpuTemp),
        ("unknown_chip", "VRM", SensorKind::MbTemp),
        ("unknown_chip", "", SensorKind::MbTemp),
    ];

    for (chip, label, expected) in cases {
        let got = classify_chip(chip, label);
        assert_eq!(
            got, *expected,
            "classify_chip({chip:?}, {label:?}) expected {expected:?}, got {got:?}",
        );
    }
}

#[test]
fn classify_chip_fallback_cpu_keyword_wins_over_gpu_keyword() {
    assert_eq!(
        classify_chip("unknown_chip", "CPU and GPU combined sensor"),
        SensorKind::CpuTemp,
    );
    assert_eq!(
        classify_chip("unknown_chip", "Tctl-edge"),
        SensorKind::CpuTemp,
    );
}

#[test]
fn a_device_that_cannot_be_read_is_named_and_one_that_is_gone_is_not() {
    let mut root = Root::new();
    create_fixture_with_chip_name(&mut root, "hwmon2", "k10temp", &[("1", Some("Tctl"))]);
    root.dir("hwmon1");
    root.dir("hwmon0").device.still_there = false;
    let found = discover_sensors_reporting_skips("/root", &Ok(root.devices)).unwrap();
    assert_eq!(found.unreadable_dirs, vec!["/root/hwmon1".to_string()]);
    assert_eq!(found.descriptors.len(), 1);
    assert_eq!(found.descriptors[0].input_path, "/root/hwmon2/temp1_input");
}

#[test]
fn an_unreadable_label_fails_the_whole_device() {
    let mut root = Root::new();
    create_fixture_with_chip_name(&mut root, "hwmon0", "k10temp", &[("1", Some("Tctl"))]);
    let mut dir = Dir {
        device: &mut root.devices[0],
    };
    dir.write("temp2_input", "45000\n");
    dir.unreadable("temp2_label", "Input/output error (os error 5)");
    let found = discover_sensors_reporting_skips("/root", &Ok(root.devices)).unwrap();
    assert!(found.descriptors.is_empty());
    assert_eq!(found.unreadable_dirs, vec!["/root/hwmon0".to_string()]);
}

#[test]
fn an_unreadable_root_is_an_error() {
    let error = discover_sensors("/root", &Err("Permission denied".to_string())).unwrap_err();
    assert!(matches!(error, HwmonError::ReadError { .. }));
    assert_eq!(error.describe(), "read error: /root: Permission denied");
}

#[test]
fn ids_hold_the_device_and_not_its_number() {
    let ids = |name: &str| {
        let mut root = Root::new();
        create_fixture_with_chip_name(&mut root, name, "nvme", &[("1", Some("Composite"))]);
        root.devices[0].device = DeviceLink::Target("../../0000:03:00.0".to_string());
        root.discover().unwrap()[0].id.clone()
    };
    assert_eq!(ids("hwmon0"), "hwmon:nvme:0000:03:00.0:Composite");
    assert_eq!(ids("hwmon0"), ids("hwmon7"));
}

#[test]
fn inputs_come_in_the_order_of_their_names() {
    let mut root = Root::new();
    create_fixture_with_chip_name(
        &mut root,
        "hwmon0",
        "k10temp",
        &[("2", None), ("10", None), ("1", None)],
    );
    let labels: Vec<String> = root
        .discover()
        .unwrap()
        .into_iter()
        .map(|s| s.label)
        .collect();
    assert_eq!(labels, vec!["temp10", "temp1", "temp2"]);
}

#[test]
fn letter_case_of_labels_does_not_matter_beyond_ascii() {
    assert_eq!(classify_chip("unknown_chip", "ÜCPU"), SensorKind::CpuTemp);
}

#[test]
fn the_case_of_a_label_makes_no_difference() {
    for chip in ["nct6775", "asus_ec_sensors", "k10temp", "nvme", "acpitz"] {
        for label in ["CPUTIN", "Tsi0", "GPU edge", "Water In", "temp1", "\u{dc}cpu", "GPU \u{3a3}"] {
            assert_eq!(
                classify_chip(chip, &label.to_ascii_uppercase()),
                classify_chip(chip, &label.to_ascii_lowercase()),
                "{chip} {label}"
            );
        }
    }
}

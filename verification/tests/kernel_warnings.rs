//! Kernel versions and warnings.

use control_ofc_daemon::hwmon::gpu_detect::AmdGpuInfo;
use control_ofc_daemon::hwmon::kernel_warnings::{
    detect_kernel_warnings, parse_kernel_version, read_kernel_release_from, KernelWarningSeverity,
    MES_HANG_4765_ID,
};

fn make_gpu(device_id: u16, fan_curve: bool) -> AmdGpuInfo {
    AmdGpuInfo {
        pci_bdf: "0000:03:00.0".into(),
        pci_device_id: device_id,
        pci_revision: 0xC0,
        pci_class: 0x030000,
        marketing_name: None,
        hwmon_path: "/tmp".to_string(),
        fan_curve_path: if fan_curve {
            Some("/tmp/fan_curve".to_string())
        } else {
            None
        },
        fan_zero_rpm_path: None,
        is_discrete: true,
        has_fan_rpm: true,
        has_pwm: true,
        has_pwm_enable: false,
        overdrive_enabled: fan_curve,
    }
}

#[test]
fn parse_cachyos_release() {
    assert_eq!(parse_kernel_version("7.0.3-1-cachyos"), Some((7, 0, 3)));
}

#[test]
fn parse_simple_release() {
    assert_eq!(parse_kernel_version("6.19.7"), Some((6, 19, 7)));
}

#[test]
fn parse_two_part_release_implies_zero_patch() {
    assert_eq!(parse_kernel_version("7.0"), Some((7, 0, 0)));
}

#[test]
fn parse_with_trailing_newline() {
    assert_eq!(parse_kernel_version("6.18.0-1-cachyos\n"), Some((6, 18, 0)));
}

#[test]
fn parse_garbage_returns_none() {
    assert!(parse_kernel_version("not-a-kernel").is_none());
    assert!(parse_kernel_version("").is_none());
    assert!(parse_kernel_version("6").is_none());
}

const RETIRED: [&str; 2] = ["rdna_hang_kernel_6_18_6_19", "smu_mismatch_navi48_r9700"];

fn ids(release: &str, gpu: &AmdGpuInfo) -> Vec<String> {
    detect_kernel_warnings(release, gpu)
        .into_iter()
        .map(|w| w.id)
        .collect()
}

#[test]
fn mes_hang_fires_across_6_18_0_to_6_18_6_and_clears_at_6_18_7() {
    let gpu = make_gpu(0x7550, true);
    for release in ["6.18.0", "6.18.3-2-cachyos", "6.18.6"] {
        let warnings = detect_kernel_warnings(release, &gpu);
        assert_eq!(warnings.len(), 1, "{release}");
        assert_eq!(warnings[0].id, MES_HANG_4765_ID, "{release}");
        assert_eq!(warnings[0].severity, KernelWarningSeverity::Critical);
    }
    for release in ["6.18.7", "6.18.46", "6.18.53-1-cachyos"] {
        assert!(ids(release, &gpu).is_empty(), "{release} carries the fix");
    }
}

#[test]
fn mes_hang_fires_on_the_6_17_backport_and_not_before_it() {
    let gpu = make_gpu(0x744C, true);
    for release in ["6.17.9", "6.17.13"] {
        assert_eq!(
            ids(release, &gpu),
            vec![MES_HANG_4765_ID.to_string()],
            "{release}"
        );
    }
    for release in ["6.17.0", "6.17.8", "6.16.12", "6.15.11"] {
        assert!(
            ids(release, &gpu).is_empty(),
            "{release} predates the backport"
        );
    }
}

#[test]
fn fixed_and_never_affected_lines_do_not_warn() {
    let gpu = make_gpu(0x7550, true);
    for release in [
        "6.19.0",
        "6.19.10",
        "7.0.3-1-cachyos",
        "7.2.6-1-cachyos",
        "6.12.105",
        "6.6.153",
    ] {
        assert!(ids(release, &gpu).is_empty(), "{release}");
    }
}

#[test]
fn mes_hang_reaches_every_mes_era_gpu_and_no_rdna2() {
    for (id, what) in [
        (0x7590, "RX 9060 XT"),
        (0x7551, "R9700"),
        (0x7480, "RX 7600"),
        (0x15BF, "Radeon 780M iGPU"),
        (0x150E, "Radeon 890M iGPU"),
    ] {
        assert_eq!(
            ids("6.18.2", &make_gpu(id, false)),
            vec![MES_HANG_4765_ID.to_string()],
            "{what}"
        );
    }
    assert!(
        ids("6.18.2", &make_gpu(0x73BF, false)).is_empty(),
        "RX 6900 XT has no MES"
    );
}

#[test]
fn retired_ids_are_never_emitted() {
    let mut raised = 0;
    for release in [
        "6.17.9", "6.18.5", "6.18.7", "6.19.10", "7.0.3", "7.1.0", "7.2.6",
    ] {
        for (id, curve) in [
            (0x7551, true),
            (0x7551, false),
            (0x7550, true),
            (0x744C, true),
        ] {
            for got in ids(release, &make_gpu(id, curve)) {
                assert!(
                    !RETIRED.contains(&got.as_str()),
                    "{release} {id:#06x} raised {got}"
                );
                raised += 1;
            }
        }
    }
    assert!(
        raised > 0,
        "the matrix must raise the live advisory at least once"
    );
}

#[test]
fn r9700_with_a_fan_curve_is_not_told_its_curve_cannot_work() {
    let gpu = make_gpu(0x7551, true);
    assert!(ids("7.0.3-1-cachyos", &gpu).is_empty());
    assert!(ids("7.1.0", &gpu).is_empty());
    assert_eq!(ids("6.17.9", &gpu), vec![MES_HANG_4765_ID.to_string()]);
}

#[test]
fn the_message_gives_the_fixed_releases_and_never_the_eol_ones() {
    let w = &detect_kernel_warnings("6.18.4", &make_gpu(0x7550, true))[0];
    assert!(w.message.contains("#4765"));
    assert!(w.message.contains("6.18.7") && w.message.contains("6.19"));
    assert!(w.message.contains("6.18.4"), "names the running release");
    assert!(!w.message.contains("6.15"));
    assert!(!w.message.to_lowercase().contains("pin to"));
}

#[test]
fn read_kernel_release_strips_trailing_newline() {
    assert_eq!(
        read_kernel_release_from(Some("7.0.3-1-cachyos\n")),
        Some("7.0.3-1-cachyos".to_string())
    );
}

#[test]
fn read_kernel_release_missing_returns_none() {
    assert!(read_kernel_release_from(None).is_none());
}

#[test]
fn read_kernel_release_empty_returns_none() {
    assert!(read_kernel_release_from(Some("\n")).is_none());
}

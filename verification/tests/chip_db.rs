//! Chips, drivers, modules and boards.

use control_ofc_daemon::hwmon::chip_db::{
    absorb_kmsg_read, board_expects_only_ite_chips, cap_env_fact, chip_driver_in_mainline, conflicting_loaded_module,
    detect_acpi_conflicts_from, detect_loaded_modules_from, detect_module_collisions_from,
    expected_chips_for_board, expected_driver, expected_driver_for_chip, is_known_superio_chip,
    is_module_loaded,
    parse_kmsg_for_it87_chips, read_board_info_from, read_cpu_vendor_from,
    read_kernel_detected_chips_from, read_ppfeaturemask_from, ChipBinding, ModuleFiles,
    ENV_FACT_MAX_BYTES, GIGABYTE_DUAL_CHIP_BOARDS, KMSG_MAX_BYTES, KNOWN_MODULES,
};

#[test]
fn expected_driver_mapping() {
    assert_eq!(expected_driver("nct6798"), "nct6775");
    assert_eq!(expected_driver("nct6687"), "nct6687");
    assert_eq!(expected_driver("it8696"), "it87");
    assert_eq!(expected_driver("it8688"), "it87");
    assert_eq!(expected_driver("f71882fg"), "f71882fg");
    assert_eq!(expected_driver("unknown_chip"), "unknown");
}

#[test]
fn is_known_superio_chip_accepts_families_and_rejects_sensor_chips() {
    for c in [
        "it8688",
        "nct6799",
        "nct6687",
        "nct6683",
        "f71882fg",
        "f71805f",
        "w83627ehf",
        "w83627hf",
        "smsc47m1",
        "smsc47b397",
        "dme1737",
        "sch5627",
        "sch5636",
        "pc87360",
        "pc87427",
    ] {
        assert!(
            is_known_superio_chip(c),
            "{c} should be a known Super-I/O chip"
        );
    }
    for c in [
        "amdgpu", "k10temp", "coretemp", "nvme", "spd5118", "zenpower", "",
    ] {
        assert!(
            !is_known_superio_chip(c),
            "{c} must NOT be a Super-I/O chip"
        );
    }
}

#[test]
fn mainline_detection() {
    assert!(chip_driver_in_mainline("nct6798"));
    assert!(!chip_driver_in_mainline("nct6687"));
    assert!(!chip_driver_in_mainline("it8688"));
    assert!(chip_driver_in_mainline("it8628"));
}

#[test]
fn it8622_is_mainline() {
    assert!(chip_driver_in_mainline("it8622"));
}

#[test]
fn it8689_stays_out_of_mainline_pending_common_7_1() {
    assert!(!chip_driver_in_mainline("it8689"));
}

#[test]
fn it8665_not_in_mainline() {
    assert!(!chip_driver_in_mainline("it8665"));
}

#[test]
fn detect_modules_from_proc() {
    let modules_path = "nct6775 28672 0 - Live 0xffffffffc0a00000\n\
         k10temp 16384 0 - Live 0xffffffffc0980000\n\
         amdgpu 8388608 12 - Live 0xffffffffc1000000\n";

    let modules = detect_loaded_modules_from(Some(modules_path), &vec![]);
    let nct = modules.iter().find(|m| m.name == "nct6775").unwrap();
    assert!(nct.loaded);
    assert!(nct.in_mainline);

    let it87 = modules.iter().find(|m| m.name == "it87").unwrap();
    assert!(!it87.loaded);

    let nct6687 = modules.iter().find(|m| m.name == "nct6687").unwrap();
    assert!(!nct6687.loaded);
    assert!(!nct6687.in_mainline);
}

#[test]
fn detect_acpi_conflict() {
    let ioports_path = "0000-0cf7 : PCI Bus 0000:00\n\
         0290-0299 : ACPI OpRegion AMW0.SHWM\n\
         0cf8-0cff : PCI conf1\n";

    let conflicts = detect_acpi_conflicts_from(Some(ioports_path));
    assert_eq!(conflicts.len(), 2);
    assert!(conflicts
        .iter()
        .any(|c| c.conflicts_with_driver == "nct6775"));
}

#[test]
fn no_acpi_conflict_when_no_overlap() {
    let ioports_path = "0000-001f : ACPI something\n\
         0400-040f : ACPI PM_TMR\n";

    let conflicts = detect_acpi_conflicts_from(Some(ioports_path));
    assert!(conflicts.is_empty());
}

#[test]
fn ppfeaturemask_hex() {
    let path = "0xffffffff\n";
    assert_eq!(read_ppfeaturemask_from(Some(path)), Some("0xffffffff".into()));
}

#[test]
fn ppfeaturemask_decimal() {
    let path = "4294967295\n";
    assert_eq!(read_ppfeaturemask_from(Some(path)), Some("0xffffffff".into()));
}

#[test]
fn ppfeaturemask_missing() {
    assert_eq!(read_ppfeaturemask_from(None), None);
}

#[test]
fn read_board_info_from_sysfs() {
    let info = read_board_info_from(
        Some("Gigabyte Technology Co., Ltd.\n"),
        Some("X870E AORUS MASTER\n"),
        Some("F13a\n"),
        Some("08/14/2025\n"),
    );
    assert_eq!(info.vendor, "Gigabyte Technology Co., Ltd.");
    assert_eq!(info.name, "X870E AORUS MASTER");
    assert_eq!(info.bios_version, "F13a");
    assert_eq!(info.bios_date.as_deref(), Some("08/14/2025"));
}

#[test]
fn loaded_modules_publish_their_build_facts_and_absent_ones_are_none() {
    let proc_modules = "it87 90112 0 - Live 0x0 (OE)\nnct6775 28672 0 - Live 0x0\n";
    let sys = vec![
        ModuleFiles {
            module: "it87".to_string(),
            version: Some("v1.0-202509\n".to_string()),
            srcversion: Some("A1B2C3D4E5F6A7B8C9D0E1F\n".to_string()),
            taint: Some("OE\n".to_string()),
        },
        ModuleFiles {
            module: "nct6775".to_string(),
            version: None,
            srcversion: None,
            taint: Some("\n".to_string()),
        },
        ModuleFiles {
            module: "nct6687".to_string(),
            version: Some("stale\n".to_string()),
            srcversion: None,
            taint: None,
        },
    ];

    let mods = detect_loaded_modules_from(Some(proc_modules), &sys);
    let get = |n: &str| mods.iter().find(|m| m.name == n).unwrap();
    let a = get("it87");
    assert_eq!(a.version.as_deref(), Some("v1.0-202509"));
    assert_eq!(a.srcversion.as_deref(), Some("A1B2C3D4E5F6A7B8C9D0E1F"));
    assert_eq!(a.out_of_tree, Some(true));
    let b = get("nct6775");
    assert_eq!(
        (b.version.as_deref(), b.srcversion.as_deref(), b.out_of_tree),
        (None, None, Some(false))
    );
    let c = get("nct6687");
    assert!(!c.loaded);
    assert_eq!(
        (c.version.as_deref(), c.srcversion.as_deref(), c.out_of_tree),
        (None, None, None)
    );
}

#[test]
fn an_environment_fact_is_capped_on_a_char_boundary_and_empty_is_none() {
    assert_eq!(cap_env_fact("  \n"), None);
    let long = "é".repeat(ENV_FACT_MAX_BYTES);
    let capped = cap_env_fact(&long).unwrap();
    assert!(capped.len() <= ENV_FACT_MAX_BYTES);
    assert!(capped.chars().all(|c| c == 'é'));
}

#[test]
fn read_board_info_missing_files() {
    let info = read_board_info_from(None, None, None, None);
    assert_eq!(info.vendor, "");
    assert_eq!(info.name, "");
    assert_eq!(info.bios_version, "");
    assert_eq!(
        info.bios_date, None,
        "absent is None, never an empty string"
    );
}

#[test]
fn expected_chips_x870e_aorus_master() {
    let chips = expected_chips_for_board("Gigabyte Technology Co., Ltd.", "X870E AORUS MASTER");
    assert!(chips.contains(&"it8696".to_string()));
    assert!(chips.contains(&"it87952".to_string()));
    assert_eq!(chips.len(), 2);
}

#[test]
fn expected_chips_handles_empty_board_name() {
    assert!(expected_chips_for_board("Gigabyte", "").is_empty());
    assert!(expected_chips_for_board("", "").is_empty());
}

#[test]
fn expected_chips_skips_non_gigabyte_vendor() {
    assert!(expected_chips_for_board("ASUSTeK COMPUTER INC.", "X870E AORUS MASTER").is_empty());
}

#[test]
fn expected_chips_unknown_board_returns_empty() {
    assert!(
        expected_chips_for_board("Gigabyte Technology Co., Ltd.", "B650 AORUS ELITE AX")
            .is_empty()
    );
}

#[test]
fn expected_chips_substring_match_tolerates_dmi_suffix() {
    let chips = expected_chips_for_board(
        "Gigabyte Technology Co., Ltd.",
        "Z790 AORUS MASTER  Rev 1.0",
    );
    assert_eq!(chips, vec!["it8689".to_string(), "it87952".to_string()]);
}

#[test]
fn expected_chips_x570_aorus_master_secondary_is_it8792() {
    let chips = expected_chips_for_board("Gigabyte Technology Co., Ltd.", "X570 AORUS MASTER");
    assert_eq!(chips, vec!["it8688".to_string(), "it8792".to_string()]);
}

#[test]
fn expected_chips_x470_aorus_ultra_gaming_pairs_it8686_with_it8792() {
    let chips =
        expected_chips_for_board("Gigabyte Technology Co., Ltd.", "X470 AORUS ULTRA GAMING");
    assert_eq!(chips, vec!["it8686".to_string(), "it8792".to_string()]);
}

#[test]
fn expected_chips_b450_aorus_pro_uses_am4_400_chip_pair() {
    let chips = expected_chips_for_board("Gigabyte Technology Co., Ltd.", "B450 AORUS PRO");
    assert_eq!(chips, vec!["it8686".to_string(), "it8792".to_string()]);
}

#[test]
fn expected_chips_b450_aorus_pro_wifi_resolves_via_substring() {
    let chips =
        expected_chips_for_board("Gigabyte Technology Co., Ltd.", "B450 AORUS PRO WIFI");
    assert_eq!(chips, vec!["it8686".to_string(), "it8792".to_string()]);
}

#[test]
fn expected_chips_b550_vision_d_pairs_it8688_with_it8792() {
    let chips = expected_chips_for_board("Gigabyte Technology Co., Ltd.", "B550 VISION D");
    assert_eq!(chips, vec!["it8688".to_string(), "it8792".to_string()]);
}

#[test]
fn expected_chips_b850_ai_top_pairs_it8696_with_it87952() {
    let chips = expected_chips_for_board("Gigabyte Technology Co., Ltd.", "B850 AI TOP");
    assert_eq!(chips, vec!["it8696".to_string(), "it87952".to_string()]);
}

#[test]
fn expected_chips_x870e_aorus_elite_x3d_is_dual_and_the_wifi7_is_single() {
    let gb = "Gigabyte Technology Co., Ltd.";
    assert_eq!(
        expected_chips_for_board(gb, "X870E AORUS ELITE X3D"),
        vec!["it8696".to_string(), "it87952".to_string()]
    );
    assert_eq!(
        expected_chips_for_board(gb, "X870E AORUS ELITE X3D ICE"),
        vec!["it8696".to_string(), "it87952".to_string()]
    );
    assert_eq!(
        expected_chips_for_board(gb, "X870E AORUS ELITE WIFI7"),
        vec!["it8696".to_string()],
        "the WIFI7 is single-chip: expecting a second chip is a false alarm"
    );
}

#[test]
fn expected_chips_x670_aorus_elite_ax_is_single_chip() {
    let chips =
        expected_chips_for_board("Gigabyte Technology Co., Ltd.", "X670 AORUS ELITE AX");
    assert_eq!(chips, vec!["it8689".to_string()]);
}

#[test]
fn expected_chips_x670e_aorus_master_secondary_is_it8792_not_it87952() {
    let chips = expected_chips_for_board("Gigabyte Technology Co., Ltd.", "X670E AORUS MASTER");
    assert_eq!(chips, vec!["it8689".to_string(), "it8792".to_string()]);
    assert!(!chips.iter().any(|c| c == "it87952"));
}

#[test]
fn expected_chips_z790_aorus_elite_ax_is_single_chip() {
    let gb = "Gigabyte Technology Co., Ltd.";
    for name in [
        "Z790 AORUS ELITE AX",
        "Z790 AORUS ELITE AX-W",
        "Z790 AORUS ELITE AX ICE",
    ] {
        assert_eq!(
            expected_chips_for_board(gb, name),
            vec!["it8689".to_string()],
            "{name}"
        );
    }
}

#[test]
fn expected_chips_resolves_the_2026_09_additions() {
    let gb = "Gigabyte Technology Co., Ltd.";
    let cases: &[(&str, &[&str])] = &[
        ("X870E AORUS XTREME AI TOP", &["it8696", "it87952"]),
        ("Z890 AORUS MASTER", &["it8696", "it87952"]),
        ("Z890 AORUS MASTER AI TOP", &["it8696", "it87952"]),
        ("Z790 AORUS PRO X WIFI7", &["it8689", "it87952"]),
        ("Z690 AORUS MASTER", &["it8689", "it87952"]),
        ("Z390 AORUS PRO WIFI", &["it8688", "it8792"]),
        ("Z390 AORUS ULTRA-CF", &["it8688", "it8792"]),
        ("Z490 AORUS MASTER", &["it8688", "it8792"]),
        ("X570S AERO G", &["it8689", "it87952"]),
        ("X570S AORUS MASTER", &["it8689", "it87952"]),
        ("X570 AORUS XTREME", &["it8688", "it8792"]),
        ("B550 AORUS MASTER", &["it8688", "it8792"]),
        ("B550 AORUS PRO AX", &["it8688", "it8792"]),
        ("TRX40 AORUS PRO WIFI", &["it8688", "it8792"]),
        ("TRX40 DESIGNARE", &["it8688", "it8792"]),
        ("X399 AORUS PRO-CF", &["it8686", "it8792"]),
        ("X399 AORUS GAMING 7", &["it8686", "it8792"]),
        ("X399 DESIGNARE EX", &["it8686", "it8792"]),
        ("X399 DESIGNARE EX-CF", &["it8686", "it8792"]),
    ];
    for (board, want) in cases {
        let got = expected_chips_for_board(gb, board);
        let want: Vec<String> = want.iter().map(|s| (*s).to_string()).collect();
        assert_eq!(got, want, "{board}");
    }
    assert!(expected_chips_for_board(gb, "B550M AORUS PRO").is_empty());
    assert!(expected_chips_for_board(gb, "B550I AORUS PRO AX").is_empty());
    assert!(expected_chips_for_board(gb, "Z890 AORUS ELITE WIFI7").is_empty());
}

#[test]
fn no_row_shadows_a_later_row_with_a_different_complement() {
    let rows = GIGABYTE_DUAL_CHIP_BOARDS;
    let mut shadowed = 0;
    for (i, early) in rows.iter().enumerate() {
        for late in &rows[i + 1..] {
            if late.0.contains(early.0) {
                shadowed += 1;
                assert_eq!(
                    (early.1, early.2), (late.1, late.2),
                    "{:?} shadows {:?} with a different complement",
                    early.0, late.0
                );
            }
        }
    }
    assert!(
        shadowed >= 3,
        "expected the known shadowed rows, found {shadowed}"
    );
}

#[test]
fn expected_chips_x670_elite_entry_does_not_claim_x670e_skus() {
    assert!(
        expected_chips_for_board("Gigabyte Technology Co., Ltd.", "X670E AORUS ELITE AX")
            .is_empty()
    );
}

#[test]
fn expected_chips_x870_aorus_stealth_ice_is_enrolled() {
    let chips =
        expected_chips_for_board("Gigabyte Technology Co., Ltd.", "X870 AORUS STEALTH ICE");
    assert_eq!(
        chips,
        vec!["it8696".to_string(), "it87952".to_string()],
        "STEALTH ICE owners must get the dual-chip warning that explains \
         their missing headers, and enrolment is also what puts the board \
         behind the modprobe guard"
    );
}

#[test]
fn expected_chips_x470_aorus_gaming_7_wifi_pairs_match() {
    let chips =
        expected_chips_for_board("Gigabyte Technology Co., Ltd.", "X470 AORUS GAMING 7 WIFI");
    assert_eq!(chips, vec!["it8686".to_string(), "it8792".to_string()]);
}

#[test]
fn detect_module_collisions_flags_nct6687_with_nct6775() {
    let modules_path = "nct6775 28672 0 - Live 0xffffffffc0a00000\n\
         nct6687 32768 0 - Live 0xffffffffc0b00000\n\
         k10temp 16384 0 - Live 0xffffffffc0980000\n";

    let chips = vec![ChipBinding {
        chip_name: "nct6797",
        device_id: "isa-0290",
    }];
    let collisions = detect_module_collisions_from(Some(modules_path), &chips);
    assert_eq!(collisions.len(), 1);
    let entry = &collisions[0];
    assert_eq!(entry.module_a, "nct6687");
    assert_eq!(entry.module_b, "nct6775");
    assert_eq!(entry.severity, "critical");
    assert!(entry.summary.contains("0xd450"));
    assert!(entry.remediation.contains("blacklist"));
}

#[test]
fn detect_module_collisions_silent_when_only_nct6687_loaded() {
    let modules_path = "nct6687 32768 0 - Live 0xffffffffc0b00000\n\
         k10temp 16384 0 - Live 0xffffffffc0980000\n";

    assert!(detect_module_collisions_from(Some(modules_path), &vec![]).is_empty());
}

#[test]
fn detect_module_collisions_silent_when_only_nct6775_loaded() {
    let modules_path = "nct6775 28672 0 - Live 0xffffffffc0a00000\n\
         nct6775_core 16384 1 nct6775, Live 0xffffffffc0a01000\n";

    assert!(detect_module_collisions_from(Some(modules_path), &vec![]).is_empty());
}

#[test]
fn detect_module_collisions_returns_empty_on_unreadable_path() {
    assert!(detect_module_collisions_from(None, &vec![]).is_empty());
}

#[test]
fn detect_module_collisions_suppressed_on_legitimate_dual_nuvoton_board() {
    let modules_path = "nct6775 28672 0 - Live 0xffffffffc0a00000\n\
         nct6687 32768 0 - Live 0xffffffffc0b00000\n";

    let chips = vec![
        ChipBinding {
            chip_name: "nct6686",
            device_id: "isa-0a20",
        },
        ChipBinding {
            chip_name: "nct6799",
            device_id: "isa-0290",
        },
    ];
    assert!(
        detect_module_collisions_from(Some(modules_path), &chips).is_empty(),
        "Legitimate dual-Nuvoton board (two distinct nct6 chips at \
         distinct device_ids) must not surface the CRITICAL collision"
    );
}

#[test]
fn detect_module_collisions_still_critical_for_single_chip_collision() {
    let modules_path = "nct6775 28672 0 - Live 0xffffffffc0a00000\n\
         nct6687 32768 0 - Live 0xffffffffc0b00000\n";
    let chips = vec![ChipBinding {
        chip_name: "nct6798",
        device_id: "isa-0290",
    }];
    let collisions = detect_module_collisions_from(Some(modules_path), &chips);
    assert_eq!(collisions.len(), 1);
    assert_eq!(collisions[0].severity, "critical");
}

#[test]
fn detect_module_collisions_critical_when_chips_unknown() {
    let modules_path = "nct6775 28672 0 - Live 0xffffffffc0a00000\n\
         nct6687 32768 0 - Live 0xffffffffc0b00000\n";
    let collisions = detect_module_collisions_from(Some(modules_path), &vec![]);
    assert_eq!(collisions.len(), 1);
    assert_eq!(collisions[0].severity, "critical");
}

#[test]
fn detect_module_collisions_non_nct6_chips_ignored_for_suppression() {
    let modules_path = "nct6775 28672 0 - Live 0xffffffffc0a00000\n\
         nct6687 32768 0 - Live 0xffffffffc0b00000\n";
    let chips = vec![
        ChipBinding {
            chip_name: "nct6798",
            device_id: "isa-0290",
        },
        ChipBinding {
            chip_name: "k10temp",
            device_id: "pci-00c3",
        },
        ChipBinding {
            chip_name: "amdgpu",
            device_id: "pci-0300",
        },
    ];
    let collisions = detect_module_collisions_from(Some(modules_path), &chips);
    assert_eq!(
        collisions.len(),
        1,
        "Non-nct6 chips must not count toward the dual-Nuvoton \
         suppression — only one nct6 chip present, so still CRITICAL"
    );
}

#[test]
fn asus_atk0110_recognised_in_known_modules() {
    let entry = KNOWN_MODULES.iter().find(|(n, _)| *n == "asus_atk0110");
    assert!(entry.is_some(), "asus_atk0110 must be in KNOWN_MODULES");
    assert!(
        entry.unwrap().1,
        "asus_atk0110 is in mainline — flag must be true"
    );
}

#[test]
fn parse_kmsg_extracts_it87_chip_names() {
    let text = "\
        6,1234,5,-;it87: Found IT8696E chip at 0xa40 [MMIO at 0x00000000fe100000], revision 0\n\
        6,1235,5,-;it87: Found IT87952E chip at 0xa60, revision 0\n";
    let chips = parse_kmsg_for_it87_chips(text);
    assert!(chips.contains(&"it8696".to_string()));
    assert!(chips.contains(&"it87952".to_string()));
    assert_eq!(chips.len(), 2);
}

#[test]
fn parse_kmsg_dedupes_repeated_lines() {
    let text = "\
        it87: Found IT8696E chip at 0xa40\n\
        it87: Found IT8696E chip at 0xa40 (re-init)\n";
    let chips = parse_kmsg_for_it87_chips(text);
    assert_eq!(chips, vec!["it8696".to_string()]);
}

#[test]
fn parse_kmsg_skips_lines_without_it87_module_tag() {
    let text = "udev: detected IT8696E reference in /etc/something\n";
    assert!(parse_kmsg_for_it87_chips(text).is_empty());
}

#[test]
fn parse_kmsg_handles_empty_input() {
    assert!(parse_kmsg_for_it87_chips("").is_empty());
}

#[test]
fn parse_kmsg_rejects_short_chip_codes() {
    let text = "it87: nonsense IT8 partial match IT82\n";
    assert!(parse_kmsg_for_it87_chips(text).is_empty());
}

#[test]
fn read_kernel_detected_chips_returns_empty_when_path_missing() {
    let result = read_kernel_detected_chips_from(&Vec::new());
    assert!(result.is_empty());
}

#[test]
fn read_kernel_detected_chips_parses_fixture_file() {
    let kmsg = "it87 driver version foo\n\
         it87: Found IT8696E chip at 0xa40, revision 0\n\
         it87: Found IT87952E chip at 0xa60, revision 0\n";
    let chips = read_kernel_detected_chips_from(&kmsg.as_bytes().to_vec());
    assert!(chips.contains(&"it8696".to_string()));
    assert!(chips.contains(&"it87952".to_string()));
}

#[test]
fn read_cpu_vendor_genuineintel_maps_to_intel() {
    let path = "processor\t: 0\n\
         vendor_id\t: GenuineIntel\n\
         cpu family\t: 6\n\
         model\t\t: 183\n\
         model name\t: 13th Gen Intel(R) Core(TM) i7-13700K\n";
    assert_eq!(read_cpu_vendor_from(Some(path)), "Intel");
}

#[test]
fn read_cpu_vendor_authenticamd_maps_to_amd() {
    let path = "processor\t: 0\n\
         vendor_id\t: AuthenticAMD\n\
         cpu family\t: 25\n\
         model\t\t: 116\n\
         model name\t: AMD Ryzen 9 7950X 16-Core Processor\n";
    assert_eq!(read_cpu_vendor_from(Some(path)), "AMD");
}

#[test]
fn read_cpu_vendor_hygon_maps_to_amd() {
    let path = "vendor_id\t: HygonGenuine\n";
    assert_eq!(read_cpu_vendor_from(Some(path)), "AMD");
}

#[test]
fn read_cpu_vendor_unknown_returns_empty() {
    let path = "vendor_id\t: KVMKVMKVM\n";
    assert_eq!(read_cpu_vendor_from(Some(path)), "");
}

#[test]
fn read_cpu_vendor_missing_vendor_id_returns_empty() {
    let path = "processor\t: 0\nmodel name\t: Generic CPU\n";
    assert_eq!(read_cpu_vendor_from(Some(path)), "");
}

#[test]
fn read_cpu_vendor_unreadable_file_returns_empty() {
    assert_eq!(
        read_cpu_vendor_from(None),
        ""
    );
}

#[test]
fn read_cpu_vendor_picks_first_vendor_id_line() {
    let path = "processor\t: 0\n\
         vendor_id\t: GenuineIntel\n\
         processor\t: 1\n\
         vendor_id\t: GenuineIntel\n";
    assert_eq!(read_cpu_vendor_from(Some(path)), "Intel");
}

#[test]
fn intel_pch_thermal_in_known_modules() {
    let entry = KNOWN_MODULES
        .iter()
        .find(|(n, _)| *n == "intel_pch_thermal");
    assert!(
        entry.is_some(),
        "intel_pch_thermal must be in KNOWN_MODULES"
    );
    assert!(
        entry.unwrap().1,
        "intel_pch_thermal is in mainline — flag must be true"
    );
}

#[test]
fn x86_pkg_temp_intentionally_excluded() {
    let entry = KNOWN_MODULES.iter().find(|(n, _)| *n == "x86_pkg_temp");
    assert!(
        entry.is_none(),
        "x86_pkg_temp must NOT be in KNOWN_MODULES — it is thermal_zone-only \
         (no_hwmon=true). coretemp is the correct hwmon source for Intel CPU package."
    );
}

#[test]
fn it87_module_marked_out_of_tree() {
    let entry = KNOWN_MODULES.iter().find(|(n, _)| *n == "it87");
    assert!(entry.is_some(), "it87 must remain in KNOWN_MODULES");
    assert!(
        !entry.unwrap().1,
        "it87 KNOWN_MODULES mainline flag must be false — every \
         chip we care about needs frankcrawford/it87 DKMS"
    );
}

#[test]
fn expected_driver_fintek_f71805_split_is_not_misrouted() {
    assert_eq!(expected_driver("f71805f"), "f71805f");
    assert_eq!(expected_driver("f71872f"), "f71805f");
    assert_eq!(expected_driver("f71806f"), "f71805f");
    assert_eq!(expected_driver("f71882fg"), "f71882fg");
    assert_eq!(expected_driver("f71869"), "f71882fg");
    assert_eq!(expected_driver("f8000"), "f71882fg");
}

#[test]
fn expected_driver_winbond_ehf_vs_hf_families() {
    assert_eq!(expected_driver("w83627ehf"), "w83627ehf");
    assert_eq!(expected_driver("w83627dhg"), "w83627ehf");
    assert_eq!(expected_driver("w83627uhg"), "w83627ehf");
    assert_eq!(expected_driver("w83667hg"), "w83627ehf");
    assert_eq!(expected_driver("w83627hf"), "w83627hf");
    assert_eq!(expected_driver("w83697hf"), "w83627hf");
    assert_eq!(expected_driver("w83687thf"), "w83627hf");
}

#[test]
fn expected_driver_smsc_family_and_sch_disambiguation() {
    assert_eq!(expected_driver("smsc47m1"), "smsc47m1");
    assert_eq!(expected_driver("smsc47m2"), "smsc47m1");
    assert_eq!(expected_driver("smsc47b397"), "smsc47b397");
    assert_eq!(expected_driver("dme1737"), "dme1737");
    assert_eq!(expected_driver("sch3114"), "dme1737");
    assert_eq!(expected_driver("sch5027"), "dme1737");
    assert_eq!(expected_driver("sch5127"), "dme1737");
    assert_eq!(expected_driver("sch5307"), "smsc47b397");
    assert_eq!(expected_driver("sch5317"), "smsc47b397");
    assert_eq!(expected_driver("sch5627"), "sch5627");
    assert_eq!(expected_driver("sch5636"), "sch5636");
}

#[test]
fn expected_driver_national_family() {
    assert_eq!(expected_driver("pc87360"), "pc87360");
    assert_eq!(expected_driver("pc87366"), "pc87360");
    assert_eq!(expected_driver("pc87427"), "pc87427");
}

#[test]
fn expected_driver_nuvoton_668x_not_misrouted_to_nct6775() {
    assert_eq!(expected_driver("nct6683"), "nct6683");
    assert_eq!(expected_driver("nct6686"), "nct6687");
    assert_eq!(expected_driver("nct6687"), "nct6687");
    assert_eq!(expected_driver("nct6799"), "nct6775");
    assert_eq!(expected_driver("nct6798"), "nct6775");
    assert!(chip_driver_in_mainline("nct6683"));
    assert!(!chip_driver_in_mainline("nct6686"));
    assert!(!chip_driver_in_mainline("nct6687"));
}

#[test]
fn new_superio_families_report_mainline() {
    for chip in [
        "w83627ehf",
        "w83627hf",
        "f71805f",
        "smsc47m1",
        "smsc47b397",
        "dme1737",
        "sch5627",
        "sch5636",
        "pc87360",
        "pc87427",
    ] {
        assert!(
            chip_driver_in_mainline(chip),
            "{chip} should report mainline=true"
        );
    }
}

#[test]
fn new_superio_modules_present_in_known_modules() {
    for module in [
        "f71805f",
        "w83627ehf",
        "w83627hf",
        "smsc47m1",
        "smsc47b397",
        "dme1737",
        "sch5627",
        "sch5636",
        "pc87360",
        "pc87427",
    ] {
        let entry = KNOWN_MODULES.iter().find(|(n, _)| *n == module);
        assert!(
            entry.is_some(),
            "{module} must be in KNOWN_MODULES"
        );
        assert!(entry.unwrap().1, "{module} is long-mainline → flag true");
    }
}

#[test]
fn conflicting_loaded_module_flags_dec106_pair() {
    let loaded = vec!["nct6687".to_string(), "coretemp".to_string()];
    assert_eq!(
        conflicting_loaded_module("nct6775", &loaded),
        Some("nct6687")
    );
    let loaded2 = vec!["nct6775".to_string()];
    assert_eq!(
        conflicting_loaded_module("nct6687", &loaded2),
        Some("nct6775")
    );
    assert_eq!(
        conflicting_loaded_module("nct6775", &vec!["k10temp".to_string()]),
        None
    );
    assert_eq!(conflicting_loaded_module("it87", &loaded), None);
}

#[test]
fn the_ite_only_predicate_agrees_with_every_row_of_its_own_table() {
    let mut ite_only_rows = 0;
    for entry in GIGABYTE_DUAL_CHIP_BOARDS {
        let table_says_ite_only = [entry.1, entry.2]
            .iter()
            .filter(|c| !c.is_empty())
            .all(|c| expected_driver_for_chip(c) == "it87");
        assert_eq!(
            board_expects_only_ite_chips("Gigabyte", entry.0),
            table_says_ite_only,
            "{}: the predicate disagrees with its own table row (chips {:?})",
            entry.0,
            (entry.1, entry.2)
        );
        if table_says_ite_only {
            ite_only_rows += 1;
        }
    }
    assert!(
        ite_only_rows > 0,
        "no ITE-only row exercised the predicate's true branch"
    );
}

#[test]
fn a_board_the_table_does_not_cover_is_not_ite_only() {
    let (vendor, listed) = ("Gigabyte Technology Co., Ltd.", "X870E AORUS MASTER");
    assert!(
        board_expects_only_ite_chips(vendor, listed),
        "control: a listed board must read as ITE-only"
    );

    assert!(
        !board_expects_only_ite_chips(vendor, "MEG X670E ACE"),
        "an unlisted board rules nothing out — the Nuvoton leg is what \
         diagnoses it"
    );
    assert!(!board_expects_only_ite_chips("", ""));
    assert!(
        !board_expects_only_ite_chips("ASUSTeK COMPUTER INC.", listed),
        "the table is vendor-gated; a same-named board from another vendor \
         is not covered by it"
    );
}

#[test]
fn reads_of_the_log_are_taken_up_to_the_limit() {
    let mut buf: Vec<u8> = Vec::new();
    assert!(absorb_kmsg_read(&mut buf, Some(b"abc".to_vec())));
    assert!(absorb_kmsg_read(&mut buf, Some(b"d".to_vec())));
    assert_eq!(buf, b"abcd");
    assert!(!absorb_kmsg_read(&mut buf, Some(Vec::new())));
    assert!(!absorb_kmsg_read(&mut buf, None));
    assert!(!absorb_kmsg_read(&mut buf, Some(vec![b'x'; KMSG_MAX_BYTES - 3])));
    assert_eq!(buf, b"abcd", "a read that does not fit is dropped");
    assert!(absorb_kmsg_read(&mut buf, Some(vec![b'x'; KMSG_MAX_BYTES - 4])));
    assert_eq!(buf.len(), KMSG_MAX_BYTES);
}

#[test]
fn bytes_that_are_no_text_do_not_hide_a_chip() {
    let log = b"6,1,1;\xff\xfe it87: Found IT8696E chip at 0xa40\n6,2,2;it87: Found IT87952\xc3".to_vec();
    assert_eq!(
        read_kernel_detected_chips_from(&log),
        vec!["it8696".to_string(), "it87952".to_string()]
    );
}

#[test]
fn letter_case_is_folded_beyond_ascii() {
    assert_eq!(expected_driver("NCT6798D"), "nct6775");
    assert_eq!(
        parse_kmsg_for_it87_chips("\u{c9}t\u{e9} IT87: Found IT8689E"),
        vec!["it8689".to_string()]
    );
    assert_eq!(
        expected_chips_for_board("GIGABYTE \u{130}", "stra\u{df}e x870e aorus master"),
        vec!["it8696".to_string(), "it87952".to_string()]
    );
}

#[test]
fn a_module_is_listed_by_the_first_word_of_a_line() {
    let modules = "it87 16384 0 - Live\nhwmon_vid 12288 1 it8x,\n";
    assert!(is_module_loaded(Some(modules), "it87"));
    assert!(!is_module_loaded(Some(modules), "it8x,"));
    assert!(!is_module_loaded(None, "it87"));
}

#[test]
fn collisions_go_both_ways() {
    let both = vec!["nct6687".to_string(), "nct6775".to_string()];
    assert_eq!(conflicting_loaded_module("nct6687", &both), Some("nct6775"));
    assert_eq!(conflicting_loaded_module("nct6775", &both), Some("nct6687"));
    assert_eq!(conflicting_loaded_module("it87", &both), None);
}

#[test]
fn an_overlap_by_one_port_is_a_conflict() {
    let at = |range: &str| {
        let line = format!("  {range} : ACPI PM\n");
        detect_acpi_conflicts_from(Some(&line))
            .into_iter()
            .map(|c| c.conflicts_with_driver)
            .collect::<Vec<_>>()
    };
    assert_eq!(at("0280-0290"), vec!["nct6775".to_string(), "it87".to_string()]);
    assert_eq!(at("029a-02ff"), vec!["it87".to_string()]);
    assert!(at("0280-028f").is_empty());
    assert!(at("0290").is_empty());
    assert!(at("10290-10299").is_empty(), "more than sixteen bits");
}

#[test]
fn only_the_driver_tells_of_a_chip() {
    for line in [
        "udev: detected IT87952E reference in /etc/something\n",
        "udev: Found IT87952E reference in /etc/something\n",
        "it87: it87952 is not what was asked for\n",
    ] {
        assert!(parse_kmsg_for_it87_chips(line).is_empty(), "{line:?}");
    }
    assert_eq!(
        parse_kmsg_for_it87_chips("it87 it87.2624: Found IT87952E chip at 0xa60, revision 1\n"),
        vec!["it87952".to_string()]
    );
    assert_eq!(
        parse_kmsg_for_it87_chips("it87: Found IT8696E chip beside IT87952E\n"),
        vec!["it8696".to_string(), "it87952".to_string()]
    );
}

#[test]
fn a_log_read_twice_gives_no_more_chips() {
    let log = "it87: Found IT8689E chip at 0xa40\nit87: Found IT8792E chip at 0xa60";
    let once = parse_kmsg_for_it87_chips(log);
    assert_eq!(once, vec!["it8689".to_string(), "it8792".to_string()]);
    assert_eq!(parse_kmsg_for_it87_chips(&format!("{log}\n{log}")), once);
    assert_eq!(
        parse_kmsg_for_it87_chips(&format!("{log}\r\n{log}\r")),
        once
    );
    let odd = "it87: Found IT8689E in der K\u{dc}CHE \u{3a3}\r\r";
    let once = parse_kmsg_for_it87_chips(odd);
    assert_eq!(once, vec!["it8689".to_string()]);
    assert_eq!(parse_kmsg_for_it87_chips(&format!("{odd}\n{odd}")), once);
}

#[test]
fn a_carriage_return_is_no_part_of_the_tag() {
    assert_eq!(
        parse_kmsg_for_it87_chips("Found IT8689E by it87 \r\r"),
        vec!["it8689".to_string()]
    );
    assert!(parse_kmsg_for_it87_chips("Found IT8689E by it87\r\r").is_empty());
}

#[test]
fn the_case_of_a_chip_name_makes_no_difference_beyond_ascii() {
    for name in ["nct6798\u{c9}", "IT8689\u{3a3}", "\u{130}t8689", "f71882\u{df}"] {
        let driver = expected_driver_for_chip(name);
        assert_eq!(expected_driver_for_chip(&name.to_ascii_uppercase()), driver);
        assert_eq!(expected_driver_for_chip(&name.to_ascii_lowercase()), driver);
    }
    assert_eq!(expected_driver_for_chip("nCt6798\u{c9}"), "nct6775");
    assert_eq!(expected_driver_for_chip("\u{c9}nct6798"), "unknown");
}

#[test]
fn a_driver_is_looked_up_as_itself_in_either_case() {
    for (_, driver) in control_ofc_daemon::hwmon::chip_db::DRIVER_RULES {
        assert_eq!(expected_driver_for_chip(driver), driver);
        assert_eq!(
            expected_driver_for_chip(&driver.to_ascii_uppercase()),
            driver
        );
    }
    assert_eq!(expected_driver_for_chip("unknown"), "unknown");
}

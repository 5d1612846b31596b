//! What drivers show about fan headers.

use control_ofc_daemon::hwmon::header_caps::{
    alarm_path, read_header_caps, supported_pwm_enable_modes, HeaderCaps,
};
use control_ofc_daemon::hwmon::util::SysfsFile;

fn file(name: &str, content: &str) -> SysfsFile {
    SysfsFile {
        name: name.to_string(),
        content: Ok(content.to_string()),
    }
}

fn fixture() -> Vec<SysfsFile> {
    vec![
        file("pwm1", "128\n"),
        file("pwm1_freq", "23437\n"),
        file("fan1_min", "300\n"),
        file("fan1_alarm", "0\n"),
    ]
}

#[test]
fn reads_the_attributes_a_driver_exposes() {
    let files = fixture();
    let caps = read_header_caps(&files, 1);
    assert_eq!(caps.pwm_freq_hz, Some(23437));
    assert_eq!(caps.rpm_min_threshold, Some(300));
}

#[test]
fn an_attribute_the_driver_lacks_reports_none_not_zero() {
    let files = fixture();
    let caps = read_header_caps(&files, 1);
    assert_eq!(
        caps.tach_pulses_per_rev, None,
        "it87 exposes no fanN_pulses"
    );
    assert_eq!(caps.rpm_max_threshold, None, "it87 exposes no fanN_max");
    assert!(alarm_path("/dev", &files, 1).is_some());
    assert_eq!(
        alarm_path("/dev", &files, 2),
        None,
        "no fan2_alarm in the fixture"
    );
}

#[test]
fn an_unparseable_attribute_reports_none() {
    let files = vec![file("pwm1_freq", "not-a-number\n"), file("fan1_min", "\n")];
    let caps = read_header_caps(&files, 1);
    assert_eq!(caps.pwm_freq_hz, None);
    assert_eq!(caps.rpm_min_threshold, None);
}

#[test]
fn a_driver_exposing_nothing_audits_to_all_none() {
    let files = Vec::new();
    assert_eq!(read_header_caps(&files, 1), HeaderCaps::default());
}

#[test]
fn supported_modes_come_from_the_driver_family() {
    assert_eq!(supported_pwm_enable_modes("it8696"), vec![0, 1, 2]);
    assert_eq!(supported_pwm_enable_modes("it8620"), vec![0, 1, 2]);
    assert_eq!(supported_pwm_enable_modes("nct6798"), vec![0, 1, 2, 3, 4, 5]);
    assert_eq!(supported_pwm_enable_modes("nct6775"), vec![0, 1, 2, 3, 4, 5]);
    assert!(supported_pwm_enable_modes("nct6683").is_empty());
    assert!(supported_pwm_enable_modes("nct6687").is_empty());
    assert!(supported_pwm_enable_modes("k10temp").is_empty());
    assert!(supported_pwm_enable_modes("").is_empty());
}

#[test]
fn every_attribute_is_read_from_its_own_file() {
    let files = vec![
        file("pwm7_freq", "25000"),
        file("fan7_min", "100"),
        file("fan7_max", "65535"),
        file("fan7_pulses", "2"),
        file("fan7_alarm", "1"),
    ];
    let caps = read_header_caps(&files, 7);
    assert_eq!(caps.pwm_freq_hz, Some(25000));
    assert_eq!(caps.rpm_min_threshold, Some(100));
    assert_eq!(caps.rpm_max_threshold, Some(65535));
    assert_eq!(caps.tach_pulses_per_rev, Some(2));
    assert_eq!(alarm_path("/dev", &files, 7), Some("/dev/fan7_alarm".to_string()));
}

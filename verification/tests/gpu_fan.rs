//! The fan curve of AMD graphics cards.

use control_ofc_daemon::error::HwmonError;
use control_ofc_daemon::hwmon::gpu_fan::{
    disable_zero_rpm, enable_zero_rpm, parse_fan_curve, reset_legacy_to_auto, reset_to_auto,
    set_legacy_pwm, set_static_speed, static_curve, write_fan_curve_with, zero_rpm_disabled,
    FanCurvePoint, FanCurveWriter,
};

/// Remembers what was written; a path that is listed as missing takes nothing.
struct RecordingWriter {
    writes: Vec<(String, String)>,
    missing: Vec<String>,
}

impl RecordingWriter {
    fn new() -> Self {
        Self {
            writes: Vec::new(),
            missing: Vec::new(),
        }
    }

    fn without(path: &str) -> Self {
        Self {
            writes: Vec::new(),
            missing: vec![path.to_string()],
        }
    }

    fn last(&self, path: &str) -> Option<&str> {
        self.writes
            .iter()
            .rev()
            .find(|(p, _)| p == path)
            .map(|(_, c)| c.as_str())
    }

    fn contents(&self) -> Vec<&str> {
        self.writes.iter().map(|(_, c)| c.as_str()).collect()
    }
}

impl FanCurveWriter for RecordingWriter {
    fn write(&mut self, path: &str, content: &str) -> Result<(), HwmonError> {
        if self.missing.iter().any(|p| p == path) {
            return Err(HwmonError::WriteError {
                path: path.to_string(),
                message: "No such file or directory (os error 2)".to_string(),
            });
        }
        self.writes.push((path.to_string(), content.to_string()));
        Ok(())
    }
}

const SAMPLE_CURVE: &str = "\
OD_FAN_CURVE:
0: 40C 30%
1: 50C 35%
2: 60C 50%
3: 70C 75%
4: 80C 100%
OD_RANGE:
FAN_CURVE(hotspot temp): 25C 100C
FAN_CURVE(fan speed): 15% 100%
";

const CURVE: &str = "/fake/fan_curve";
const ZERO: &str = "/fake/fan_zero_rpm_enable";

#[test]
fn parse_standard_curve() {
    let curve = parse_fan_curve(SAMPLE_CURVE).unwrap();
    assert_eq!(curve.points.len(), 5);
    assert_eq!(curve.points[0].index, 0);
    assert_eq!(curve.points[0].temp_c, 40);
    assert_eq!(curve.points[0].speed_pct, 30);
    assert_eq!(curve.points[4].temp_c, 80);
    assert_eq!(curve.points[4].speed_pct, 100);
}

#[test]
fn parse_ranges() {
    let curve = parse_fan_curve(SAMPLE_CURVE).unwrap();
    assert_eq!(curve.temp_range, Some((25, 100)));
    assert_eq!(curve.speed_range, Some((15, 100)));
}

#[test]
fn parse_empty_fails() {
    let result = parse_fan_curve("");
    assert!(result.is_err());
}

#[test]
fn parse_no_points_fails() {
    let result = parse_fan_curve("OD_FAN_CURVE:\nOD_RANGE:\n");
    assert!(result.is_err());
}

#[test]
fn parse_partial_curve() {
    let content = "OD_FAN_CURVE:\n0: 40C 30%\n2: 60C 50%\n";
    let curve = parse_fan_curve(content).unwrap();
    assert_eq!(curve.points.len(), 2);
    assert_eq!(curve.points[0].index, 0);
    assert_eq!(curve.points[1].index, 2);
}

#[test]
fn write_fan_curve_captures_all_intermediate_writes() {
    let mut writer = RecordingWriter::new();
    let points = vec![
        FanCurvePoint {
            index: 0,
            temp_c: 40,
            speed_pct: 30,
        },
        FanCurvePoint {
            index: 1,
            temp_c: 60,
            speed_pct: 50,
        },
    ];
    write_fan_curve_with(&mut writer, CURVE, &points).unwrap();

    assert_eq!(
        writer.writes.len(),
        3,
        "Expected 2 point writes + 1 commit"
    );
    assert_eq!(writer.writes[0].1, "0 40 30\n");
    assert_eq!(writer.writes[1].1, "1 60 50\n");
    assert_eq!(writer.writes[2].1, "c\n");
}

#[test]
fn set_static_speed_writes_flat_curve() {
    let mut writer = RecordingWriter::new();
    set_static_speed(&mut writer, CURVE, None, Some(SAMPLE_CURVE), 75, 5).unwrap();
    assert_eq!(writer.last(CURVE), Some("c\n"));
    assert_eq!(
        writer.contents(),
        vec!["0 25 75\n", "1 43 75\n", "2 62 75\n", "3 81 75\n", "4 100 75\n", "c\n"]
    );
}

#[test]
fn set_static_speed_clamps_below_od_range_minimum() {
    let mut writer = RecordingWriter::new();
    set_static_speed(&mut writer, CURVE, None, Some(SAMPLE_CURVE), 5, 5).unwrap();
    assert_eq!(writer.last(CURVE), Some("c\n"));
    assert_eq!(writer.writes[0].1, "0 25 15\n");
}

#[test]
fn set_static_speed_disables_zero_rpm() {
    let mut writer = RecordingWriter::new();
    set_static_speed(
        &mut writer,
        CURVE,
        Some((ZERO, Some("1\n"))),
        Some(SAMPLE_CURVE),
        50,
        5,
    )
    .unwrap();
    assert_eq!(writer.last(ZERO), Some("c\n"));
    assert_eq!(writer.writes[0], (ZERO.to_string(), "0\n".to_string()));
}

#[test]
fn reset_to_auto_writes_r_then_c() {
    let mut writer = RecordingWriter::new();
    reset_to_auto(&mut writer, CURVE, None).unwrap();
    assert_eq!(writer.last(CURVE), Some("c\n"));
    assert_eq!(writer.contents(), vec!["r\n", "c\n"]);
}

#[test]
fn reset_to_auto_reenables_zero_rpm() {
    let mut writer = RecordingWriter::new();
    reset_to_auto(&mut writer, CURVE, Some(ZERO)).unwrap();
    assert_eq!(writer.last(ZERO), Some("c\n"));
    assert!(writer
        .writes
        .contains(&(ZERO.to_string(), "1\n".to_string())));
}

#[test]
fn speed_clamped_to_100() {
    let content = "OD_FAN_CURVE:\n0: 40C 120%\n";
    let curve = parse_fan_curve(content).unwrap();
    assert_eq!(curve.points[0].speed_pct, 100);
}

#[test]
fn set_legacy_pwm_writes_enable_and_value() {
    let mut writer = RecordingWriter::new();
    set_legacy_pwm(&mut writer, "/fake/hwmon", 50).unwrap();
    assert_eq!(writer.last("/fake/hwmon/pwm1_enable"), Some("1\n"));
    assert_eq!(writer.last("/fake/hwmon/pwm1"), Some("128\n"));
}

#[test]
fn set_legacy_pwm_full_speed() {
    let mut writer = RecordingWriter::new();
    set_legacy_pwm(&mut writer, "/fake/hwmon", 100).unwrap();
    assert_eq!(writer.last("/fake/hwmon/pwm1"), Some("255\n"));
}

#[test]
fn reset_legacy_to_auto_writes_enable_2() {
    let mut writer = RecordingWriter::new();
    reset_legacy_to_auto(&mut writer, "/fake/hwmon").unwrap();
    assert_eq!(writer.last("/fake/hwmon/pwm1_enable"), Some("2\n"));
}

#[test]
fn set_legacy_pwm_missing_path_returns_error() {
    let mut writer = RecordingWriter::without("/nonexistent/hwmon99/pwm1_enable");
    let result = set_legacy_pwm(&mut writer, "/nonexistent/hwmon99", 50);
    assert!(result.is_err());
    assert!(writer.writes.is_empty(), "no duty without its mode");
}

#[test]
fn reset_legacy_missing_path_returns_error() {
    let mut writer = RecordingWriter::without("/nonexistent/hwmon99/pwm1_enable");
    let result = reset_legacy_to_auto(&mut writer, "/nonexistent/hwmon99");
    assert!(result.is_err());
}

#[test]
fn points_are_sorted_by_index_and_equal_indices_keep_their_order() {
    let content = "2: 60C 50%\n0: 40C 30%\n2: 61C 51%\n";
    let curve = parse_fan_curve(content).unwrap();
    let got: Vec<(u8, i32)> = curve.points.iter().map(|p| (p.index, p.temp_c)).collect();
    assert_eq!(got, vec![(0, 40), (2, 60), (2, 61)]);
}

#[test]
fn a_flat_curve_stays_within_the_limits_of_the_card() {
    let points = static_curve(Some(SAMPLE_CURVE), 5, 3);
    let got: Vec<(i32, u8)> = points.iter().map(|p| (p.temp_c, p.speed_pct)).collect();
    assert_eq!(got, vec![(25, 15), (62, 15), (100, 15)]);
}

#[test]
fn a_refused_point_stops_the_curve() {
    let mut writer = RecordingWriter::without(CURVE);
    let points = vec![FanCurvePoint {
        index: 0,
        temp_c: 40,
        speed_pct: 30,
    }];
    let error = write_fan_curve_with(&mut writer, CURVE, &points).unwrap_err();
    assert!(matches!(error, HwmonError::WriteError { .. }));
    assert_eq!(
        error.message(),
        "failed to write curve point 0 (40°C 30%)"
    );
}

#[test]
fn zero_rpm_state_is_read_from_the_file() {
    assert!(zero_rpm_disabled("FAN_ZERO_RPM_ENABLE:\n0\n"));
    assert!(!zero_rpm_disabled("FAN_ZERO_RPM_ENABLE:\n1\n"));
    let mut writer = RecordingWriter::new();
    disable_zero_rpm(&mut writer, ZERO, Some("FAN_ZERO_RPM_ENABLE:\n1\n")).unwrap();
    assert_eq!(writer.contents(), vec!["0\n", "c\n"]);
    let mut writer = RecordingWriter::new();
    enable_zero_rpm(&mut writer, ZERO).unwrap();
    assert_eq!(writer.contents(), vec!["1\n", "c\n"]);
}

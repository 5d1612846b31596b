//! Giving fan headers back.

use control_ofc_daemon::error::HwmonError;
use control_ofc_daemon::hwmon::handback::{
    hand_back, HandBack, HandBackLedger, HandBackOutcome, RECORD_FILE_NAME,
};
use control_ofc_daemon::hwmon::pwm_control::{PwmHeaderDescriptor, SysfsWriter};
use std::collections::HashMap;

#[derive(Default)]
struct FakeSysfs {
    files: HashMap<String, String>,
    refused: Vec<(String, String)>,
    remapped: Vec<(String, String, String)>,
    log: Vec<(String, String)>,
}

impl FakeSysfs {
    fn with(mut self, path: &str, value: &str) -> Self {
        self.files.insert(path.into(), value.into());
        self
    }
    fn refusing(mut self, path: &str, value: &str) -> Self {
        self.refused.push((path.into(), value.into()));
        self
    }
    fn storing_instead(mut self, path: &str, written: &str, stored: &str) -> Self {
        self.remapped
            .push((path.into(), written.into(), stored.into()));
        self
    }
    fn get(&self, path: &str) -> Option<&str> {
        self.files.get(path).map(String::as_str)
    }
}

impl SysfsWriter for FakeSysfs {
    fn write_file(&mut self, path: &str, value: &str) -> Result<(), HwmonError> {
        self.log.push((path.into(), value.into()));
        if self.refused.iter().any(|(p, v)| p == path && v == value) {
            return Err(HwmonError::WriteError {
                path: path.into(),
                message: "Invalid argument (os error 22)".into(),
            });
        }
        let stored = self
            .remapped
            .iter()
            .find(|(p, w, _)| p == path && w == value)
            .map_or(value.to_string(), |(_, _, s)| s.clone());
        self.files.insert(path.into(), stored);
        Ok(())
    }
    fn read_file(&mut self, path: &str) -> Result<String, HwmonError> {
        self.files
            .get(path)
            .map(|v| format!("{v}\n"))
            .ok_or_else(|| HwmonError::ReadError {
                path: path.into(),
                message: "No such file or directory (os error 2)".into(),
            })
    }
}

const EN: &str = "/sys/class/hwmon/hwmon3/pwm2_enable";
const PWM: &str = "/sys/class/hwmon/hwmon3/pwm2";

#[test]
fn the_original_is_whatever_the_header_reported_before_the_take() {
    assert_eq!(
        HandBack::from_reading("it8696", Some(2), Some(90)),
        HandBack::Mode(2)
    );
    assert_eq!(
        HandBack::from_reading("nct6798", Some(5), Some(90)),
        HandBack::Mode(5)
    );
    assert_eq!(
        HandBack::from_reading("nct6687", Some(99), None),
        HandBack::Mode(99)
    );
    assert_eq!(
        HandBack::from_reading("it8696", Some(1), Some(120)),
        HandBack::Manual(120)
    );
    assert_eq!(
        HandBack::from_reading("it8696", Some(1), None),
        HandBack::FullSpeed
    );
    assert_eq!(
        HandBack::from_reading("it8696", None, Some(120)),
        HandBack::FullSpeed
    );
}

#[test]
fn a_kraken_is_never_given_mode_2_back() {
    for chip in [
        "x53",
        "z53",
        "kraken2023",
        "kraken2023elite",
        "kraken2024elite",
    ] {
        assert_eq!(
            HandBack::from_reading(chip, Some(2), Some(128)),
            HandBack::FullSpeed,
            "{chip}: mode 2 uploads a curve buffer nothing filled"
        );
        assert_eq!(
            HandBack::from_reading(chip, Some(0), Some(128)),
            HandBack::Mode(0),
            "{chip}: the probe-time mode is given back as it was"
        );
    }
    assert_eq!(
        HandBack::from_reading("it8696", Some(2), Some(128)),
        HandBack::Mode(2)
    );
}

#[test]
fn a_recorded_mode_is_written_back_and_confirmed() {
    let mut sysfs = FakeSysfs::default().with(EN, "1").with(PWM, "255");
    let outcome = hand_back(&mut sysfs, EN, PWM, HandBack::Mode(5));
    assert_eq!(outcome, HandBackOutcome::Restored);
    assert_eq!(sysfs.get(EN), Some("5"));
}

#[test]
fn a_mode_that_does_not_read_back_falls_back_to_full_speed() {
    let mut sysfs = FakeSysfs::default()
        .with(EN, "1")
        .with(PWM, "80")
        .storing_instead(EN, "5", "2");
    let outcome = hand_back(&mut sysfs, EN, PWM, HandBack::Mode(5));
    assert_eq!(outcome, HandBackOutcome::FullSpeed);
    assert_eq!(sysfs.get(EN), Some("0"));
}

#[test]
fn a_driver_that_refuses_0_gets_manual_at_255() {
    let mut sysfs = FakeSysfs::default()
        .with(EN, "1")
        .with(PWM, "80")
        .refusing(EN, "0");
    let outcome = hand_back(&mut sysfs, EN, PWM, HandBack::FullSpeed);
    assert_eq!(outcome, HandBackOutcome::FullSpeed);
    assert_eq!(sysfs.get(EN), Some("1"));
    assert_eq!(sysfs.get(PWM), Some("255"));
}

#[test]
fn a_header_that_accepts_nothing_is_reported_failed() {
    let mut sysfs = FakeSysfs::default()
        .with(EN, "1")
        .with(PWM, "80")
        .refusing(EN, "5")
        .refusing(EN, "0")
        .refusing(EN, "1");
    let outcome = hand_back(&mut sysfs, EN, PWM, HandBack::Mode(5));
    assert_eq!(outcome, HandBackOutcome::Failed);
    assert!(!outcome.released());
    assert_eq!(sysfs.get(PWM), Some("80"), "nothing may be half-written");
}

#[test]
fn a_manual_original_gets_its_duty_back() {
    let mut sysfs = FakeSysfs::default().with(EN, "1").with(PWM, "255");
    let outcome = hand_back(&mut sysfs, EN, PWM, HandBack::Manual(120));
    assert_eq!(outcome, HandBackOutcome::Restored);
    assert_eq!(sysfs.get(EN), Some("1"));
    assert_eq!(sysfs.get(PWM), Some("120"));
}

#[test]
fn a_manual_original_at_full_scale_accepts_the_mode_0_alias() {
    let mut sysfs = FakeSysfs::default()
        .with(EN, "2")
        .with(PWM, "40")
        .storing_instead(EN, "1", "0");
    let outcome = hand_back(&mut sysfs, EN, PWM, HandBack::Manual(255));
    assert_eq!(outcome, HandBackOutcome::Restored);
}

fn header(id: &str, enable: Option<&str>) -> PwmHeaderDescriptor {
    PwmHeaderDescriptor {
        id: id.into(),
        chip_name: "it8696".into(),
        supports_enable: enable.is_some(),
        enable_path: enable.map(Into::into),
        pwm_path: format!("/sys/class/hwmon/hwmon3/{id}"),
        is_writable: true,
    }
}

#[test]
fn the_first_original_is_kept_across_every_later_take() {
    let mut ledger = HandBackLedger::new(&vec![header("pwm2", Some(EN))]);
    assert!(ledger.needs_original("pwm2"));
    ledger.note_take("pwm2", Some(HandBack::Mode(5)));
    assert!(!ledger.needs_original("pwm2"));
    ledger.note_handed_back("pwm2");
    ledger.note_take("pwm2", Some(HandBack::Mode(2)));
    assert_eq!(
        ledger.taken_header("pwm2").map(|t| t.action),
        Some(HandBack::Mode(5))
    );
}

#[test]
fn a_header_without_an_enable_file_is_never_tracked() {
    let mut ledger = HandBackLedger::new(&vec![header("pwm1", None)]);
    assert!(!ledger.needs_original("pwm1"));
    ledger.note_take("pwm1", Some(HandBack::Mode(2)));
    assert!(!ledger.is_taken("pwm1"));
    assert!(ledger.taken_ids().is_empty());
}

#[test]
fn a_take_whose_read_failed_gets_the_fallback() {
    let mut ledger = HandBackLedger::new(&vec![header("pwm2", Some(EN))]);
    ledger.note_take("pwm2", None);
    assert_eq!(
        ledger.taken_header("pwm2").map(|t| t.action),
        Some(HandBack::FullSpeed)
    );
}

#[test]
fn a_failed_hand_back_is_reported_once_until_one_succeeds() {
    let mut ledger = HandBackLedger::new(&vec![header("pwm2", Some(EN))]);
    ledger.note_take("pwm2", Some(HandBack::Mode(5)));
    assert!(ledger.note_hand_back_failed("pwm2"));
    assert!(!ledger.note_hand_back_failed("pwm2"));
    ledger.note_handed_back("pwm2");
    ledger.note_take("pwm2", None);
    assert!(ledger.note_hand_back_failed("pwm2"));
}

fn lines(body: &str) -> Vec<String> {
    body.lines()
        .filter(|l| !l.starts_with('#'))
        .map(String::from)
        .collect()
}

#[test]
fn the_record_names_exactly_the_headers_held_now() {
    let en1 = "/sys/class/hwmon/hwmon3/pwm1_enable";
    let mut ledger =
        HandBackLedger::new(&vec![header("pwm1", Some(en1)), header("pwm2", Some(EN))]);
    let record = format!("/run/{RECORD_FILE_NAME}");
    let body = ledger.set_record_path(record.clone());
    assert_eq!(ledger.record_path(), Some(record.as_str()));

    assert!(body.starts_with("# control-ofc hwmon hand-back record v1"));
    assert!(
        lines(&body).is_empty(),
        "nothing is held before the first take"
    );

    ledger.note_take("pwm2", Some(HandBack::Mode(5)));
    let body = ledger
        .note_take("pwm1", Some(HandBack::Manual(77)))
        .expect("a take must be recorded");
    assert_eq!(
        lines(&body),
        vec![
            format!("{en1}\t/sys/class/hwmon/hwmon3/pwm1\tmanual\t77"),
            format!("{EN}\t/sys/class/hwmon/hwmon3/pwm2\tmode\t5"),
        ]
    );

    let body = ledger
        .note_handed_back("pwm1")
        .expect("a hand-back must be recorded");
    assert_eq!(
        lines(&body),
        vec![format!("{EN}\t/sys/class/hwmon/hwmon3/pwm2\tmode\t5")]
    );
    assert_eq!(ledger.render_record(), body);
}

#[test]
fn an_unrecorded_take_is_written_as_the_fallback() {
    let mut ledger = HandBackLedger::new(&vec![header("pwm2", Some(EN))]);
    ledger.set_record_path(RECORD_FILE_NAME.to_string());
    let body = ledger.note_take("pwm2", None).expect("a take is recorded");
    assert!(
        body.lines()
            .any(|l| l == format!("{EN}\t/sys/class/hwmon/hwmon3/pwm2\tfull\t-")),
        "got {body:?}"
    );
}

#[test]
fn held_headers_come_in_the_order_of_their_ids() {
    let mut ledger =
        HandBackLedger::new(&vec![header("b", Some("/x/pwm2_enable")), header("a", Some(EN))]);
    ledger.note_take("b", Some(HandBack::Mode(2)));
    ledger.note_take("a", None);
    assert_eq!(ledger.taken_ids(), vec!["a".to_string(), "b".to_string()]);
    let held: Vec<(String, HandBack)> = ledger
        .taken()
        .into_iter()
        .map(|t| (t.id, t.action))
        .collect();
    assert_eq!(
        held,
        vec![
            ("a".to_string(), HandBack::FullSpeed),
            ("b".to_string(), HandBack::Mode(2)),
        ]
    );
}

#[test]
fn a_record_is_due_only_where_something_changed() {
    let mut ledger = HandBackLedger::new(&vec![header("pwm2", Some(EN))]);
    assert!(
        ledger.note_take("pwm2", Some(HandBack::Mode(5))).is_none(),
        "no record is kept yet"
    );
    ledger.set_record_path(RECORD_FILE_NAME.to_string());
    assert!(ledger.note_take("pwm2", Some(HandBack::Mode(2))).is_none());
    assert!(ledger.note_handed_back("pwm2").is_some());
    assert!(ledger.note_handed_back("pwm2").is_none());
    assert!(ledger.note_take("nope", None).is_none());
}

#[test]
fn a_path_with_a_separator_has_no_line() {
    let mut ledger = HandBackLedger::new(&vec![header("pwm2", Some("/x/a\tb"))]);
    ledger.note_take("pwm2", Some(HandBack::Mode(5)));
    assert!(lines(&ledger.render_record()).is_empty());
}

#[test]
fn a_record_that_cannot_be_stored_is_told_once() {
    let mut ledger = HandBackLedger::new(&Vec::new());
    assert!(!ledger.note_record_stored(true));
    assert!(ledger.note_record_stored(false));
    assert!(!ledger.note_record_stored(false));
    assert!(ledger.note_record_stored(true));
}

#[test]
fn nothing_but_the_recorded_mode_and_the_fallback_is_written() {
    let mut sysfs = FakeSysfs::default()
        .with(EN, "1")
        .with(PWM, "80")
        .storing_instead(EN, "2", "3");
    let outcome = hand_back(&mut sysfs, EN, PWM, HandBack::Mode(2));
    assert_eq!(outcome, HandBackOutcome::FullSpeed);
    assert_eq!(
        sysfs.log,
        vec![(EN.to_string(), "2".to_string()), (EN.to_string(), "0".to_string())]
    );
}

#[test]
fn a_duty_below_full_speed_is_no_full_speed() {
    let mut sysfs = FakeSysfs::default()
        .with(EN, "1")
        .with(PWM, "80")
        .refusing(EN, "0")
        .storing_instead(PWM, "255", "189");
    assert_eq!(
        hand_back(&mut sysfs, EN, PWM, HandBack::FullSpeed),
        HandBackOutcome::Failed
    );
}

#[test]
fn a_duty_that_the_driver_stores_otherwise_is_not_restored() {
    let mut sysfs = FakeSysfs::default()
        .with(EN, "1")
        .with(PWM, "255")
        .storing_instead(PWM, "120", "90");
    assert_eq!(
        hand_back(&mut sysfs, EN, PWM, HandBack::Manual(120)),
        HandBackOutcome::FullSpeed
    );
    assert_eq!(sysfs.get(EN), Some("0"));
}

//! Text, collections, points in time, duties.

use control_ofc_daemon::clock::{Duration, Instant, LONGEST_NANOS};
use control_ofc_daemon::collections::{StringMap, StringSet};
use control_ofc_daemon::error::HwmonError;
use control_ofc_daemon::pwm::{is_full_speed_alias, percent_to_raw, raw_to_percent};
use control_ofc_daemon::text::{
    byte_count, chars_of, comes_before, contains, decimal_of, ends_with, find, fitting_chars,
    hex_of, insertion_point, is_whitespace, join_path, lines, parse_radix, parse_signed, parse_u32,
    parse_u8, remove_all, signed_decimal_of, sorted_positions, split, split_whitespace,
    starts_with, str_eq, strip_prefix, strip_suffix, trim, trim_end, trim_start,
};

const SAMPLES: [&str; 12] = [
    "",
    " ",
    "a",
    "  a b  ",
    "a\nb\r\nc\n",
    "\n\n",
    "x\r",
    "\u{2003}wide\u{a0}space\u{85}",
    "no break\u{200b}here",
    "\u{b5}W 45\u{b0}C",
    "a:b::c:",
    "tab\tand\u{b}vt",
];

#[test]
fn white_space_is_what_the_standard_calls_so() {
    for c in '\u{0}'..='\u{3100}' {
        assert_eq!(is_whitespace(c), c.is_whitespace(), "{c:?}");
    }
    assert!(!is_whitespace('\u{feff}'));
}

#[test]
fn cutting_agrees_with_the_standard() {
    for s in SAMPLES {
        assert_eq!(trim(s), s.trim());
        assert_eq!(trim_start(s), s.trim_start());
        assert_eq!(trim_end(s), s.trim_end());
        assert_eq!(lines(s), s.lines().collect::<Vec<_>>());
        assert_eq!(split(s, ':'), s.split(':').collect::<Vec<_>>());
        assert_eq!(split_whitespace(s), s.split_whitespace().collect::<Vec<_>>());
        assert_eq!(chars_of(s), s.chars().collect::<Vec<_>>());
        assert_eq!(byte_count(s), s.len());
    }
}

#[test]
fn searching_agrees_with_the_standard() {
    for s in SAMPLES {
        for pat in ["", "a", " ", "b\n", "::", "45", "\u{b0}C", "zz"] {
            assert_eq!(starts_with(s, pat), s.starts_with(pat));
            assert_eq!(ends_with(s, pat), s.ends_with(pat));
            assert_eq!(contains(s, pat), s.contains(pat));
            assert_eq!(strip_prefix(s, pat), s.strip_prefix(pat));
            assert_eq!(strip_suffix(s, pat), s.strip_suffix(pat));
        }
        for other in SAMPLES {
            assert_eq!(str_eq(s, other), s == other);
            assert_eq!(comes_before(s, other), s < other);
        }
    }
    assert_eq!(find("\u{b0}\u{b0}ab", "ab"), Some(2));
    assert_eq!(find("ab", "ba"), None);
    assert_eq!(remove_all("a--b---c", "--"), "ab-c");
}

#[test]
fn paths_are_joined_with_one_slash() {
    assert_eq!(join_path("/sys", "pwm1"), "/sys/pwm1");
    assert_eq!(join_path("/sys/", "pwm1"), "/sys/pwm1");
}

#[test]
fn numbers_are_read_as_the_standard_reads_them() {
    for s in ["0", "7", "+7", "-7", "255", "256", "007", "", "+", "-", "1 ", "0x1", "1e3", "--1"] {
        assert_eq!(parse_u8(s), s.parse::<u8>().ok(), "{s:?}");
        assert_eq!(parse_u32(s), s.parse::<u32>().ok(), "{s:?}");
        assert_eq!(
            parse_signed(s, i64::from(i32::MIN), i64::from(i32::MAX)),
            s.parse::<i32>().ok().map(i64::from),
            "{s:?}"
        );
    }
    for s in ["ff", "FF", "0290", "10000", "g", "+a", ""] {
        assert_eq!(
            parse_radix(s, 16, 0xffff),
            u16::from_str_radix(s, 16).ok().map(u64::from),
            "{s:?}"
        );
    }
    assert_eq!(parse_signed("-2147483648", i64::from(i32::MIN), 0), Some(-2147483648));
    assert_eq!(parse_signed("-2147483649", i64::from(i32::MIN), 0), None);
}

#[test]
fn numbers_are_written_as_the_standard_writes_them() {
    for n in [0u64, 7, 10, 42, 255, 1_000_000, u64::MAX] {
        assert_eq!(decimal_of(n), n.to_string());
        assert_eq!(hex_of(n, 16), format!("{n:016x}"));
    }
    for n in [0u32, 0x1f, 0xdead_beef, u32::MAX] {
        assert_eq!(hex_of(u64::from(n), 8), format!("{n:08x}"));
    }
    assert_eq!(hex_of(0x1_2345, 4), "2345");
    for n in [0i64, -1, 5, i64::MAX, -123_456] {
        assert_eq!(signed_decimal_of(n), n.to_string());
    }
}

#[test]
fn a_cut_never_splits_a_character() {
    assert_eq!(fitting_chars("abc", 2), 2);
    assert_eq!(fitting_chars("abc", 9), 3);
    assert_eq!(fitting_chars("a\u{b0}c", 2), 1);
    assert_eq!(fitting_chars("a\u{b0}c", 3), 2);
}

#[test]
fn sorting_is_stable_and_loses_nothing() {
    let keys: Vec<String> = ["b", "a", "b", "", "a"].iter().map(|s| s.to_string()).collect();
    assert_eq!(sorted_positions(&keys), vec![3, 1, 4, 0, 2]);
    let sorted: Vec<String> = ["a", "c", "c", "e"].iter().map(|s| s.to_string()).collect();
    assert_eq!(insertion_point(&sorted, "b"), 1);
    assert_eq!(insertion_point(&sorted, "z"), 4);
}

#[test]
fn a_map_keeps_one_value_for_each_key() {
    let mut map: StringMap<u8> = StringMap::new();
    assert!(map.is_empty());
    map.insert("b".to_string(), 1);
    map.insert("a".to_string(), 2);
    map.insert("b".to_string(), 3);
    assert_eq!(map.len(), 2);
    assert_eq!(map.get("b"), Some(&3));
    assert!(!map.contains_key("c"));
    let mut seen: Vec<(String, u8)> = (0..map.len())
        .map(|i| (map.key_at(i).to_string(), *map.value_at(i)))
        .collect();
    seen.sort();
    assert_eq!(seen, vec![("a".to_string(), 2), ("b".to_string(), 3)]);
    assert_eq!(map.remove("b"), Some(3));
    assert_eq!(map.remove("b"), None);
    assert_eq!(map.len(), 1);
}

#[test]
fn a_set_keeps_each_member_once() {
    let mut set = StringSet::new();
    assert!(set.is_empty());
    assert!(set.insert("x".to_string()));
    assert!(!set.insert("x".to_string()));
    assert!(set.contains("x"));
    set.remove("x");
    assert!(!set.contains("x"));
    set.insert("y".to_string());
    set.clear();
    assert!(set.is_empty());
}

#[test]
fn spans_of_time_are_exact() {
    assert_eq!(Duration::from_secs(2), Duration::from_millis(2_000));
    assert_eq!(Duration::from_millis(1_999).as_secs(), 1);
    assert_eq!(Duration::from_millis(u64::MAX).nanos, u128::from(u64::MAX) * 1_000_000);
    assert_eq!(Duration::from_millis(u64::MAX).as_millis(), u128::from(u64::MAX));
    assert_eq!(Duration::from_secs(u64::MAX).as_secs(), u64::MAX);
    let t = Instant::from_millis(5_000);
    assert_eq!(t.saturating_duration_since(t.after(Duration::from_secs(1))).nanos, 0);
    assert_eq!(t.after(Duration::from_secs(1)).saturating_duration_since(t).as_millis(), 1_000);
    assert_eq!(
        t.after(Duration::from_secs(u64::MAX)).saturating_duration_since(t),
        Duration::from_secs(u64::MAX)
    );
    assert_eq!(t.before(Duration::from_secs(9)).nanos, 0);
}

#[test]
fn what_cannot_be_counted_is_capped() {
    assert_eq!(Duration::from_millis(u64::MAX).whole_millis(), u64::MAX);
    assert_eq!(Duration::from_secs(u64::MAX).whole_millis(), u64::MAX);
    assert_eq!(Duration { nanos: u128::MAX }.as_secs(), u64::MAX);
    let start = Instant::from_millis(0);
    let end = start.after(Duration { nanos: u128::MAX });
    assert_eq!(end.after(Duration::from_secs(1)), end);
    assert_eq!(end.saturating_duration_since(start).nanos, LONGEST_NANOS);
}

#[test]
fn duties_are_converted_to_the_nearest_value() {
    assert_eq!(percent_to_raw(0), 0);
    assert_eq!(percent_to_raw(20), 51);
    assert_eq!(percent_to_raw(50), 128);
    assert_eq!(percent_to_raw(100), 255);
    assert_eq!(percent_to_raw(200), 255);
    assert_eq!(raw_to_percent(128), 50);
    assert_eq!(raw_to_percent(254), 100);
    assert_eq!(raw_to_percent(1), 0);
}

#[test]
fn a_duty_survives_the_way_there_and_back() {
    for pct in 0..=100u8 {
        assert_eq!(raw_to_percent(percent_to_raw(pct)), pct);
    }
}

#[test]
fn mode_zero_at_full_scale_is_full_speed() {
    assert!(is_full_speed_alias(100, Some(100), Some(0)));
    assert!(!is_full_speed_alias(99, Some(100), Some(0)));
    assert!(!is_full_speed_alias(100, Some(99), Some(0)));
    assert!(!is_full_speed_alias(100, Some(100), Some(1)));
    assert!(!is_full_speed_alias(100, None, Some(0)));
    assert!(!is_full_speed_alias(100, Some(100), None));
}

#[test]
fn errors_say_what_failed_where() {
    let read = HwmonError::ReadError {
        path: "/a".to_string(),
        message: "gone".to_string(),
    };
    assert_eq!(read.describe(), "read error: /a: gone");
    let write = HwmonError::WriteError {
        path: "/b".to_string(),
        message: "busy".to_string(),
    };
    assert_eq!(write.describe(), "write error: /b: busy");
    assert_eq!(write.message(), "busy");
}

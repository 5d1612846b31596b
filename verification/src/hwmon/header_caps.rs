//! What the driver of a fan header shows about it. All of it is read; nothing is tried.
//!
//! An attribute that the driver does not have is `None`, never 0.

use crate::hwmon::chip_db;
use crate::hwmon::chip_db::expected_driver_for_chip;
use crate::hwmon::util;
use crate::hwmon::util::{file_named, text_of_file, SysfsFile};
use crate::text;
use crate::text::{decimal_of, join_path, parse_radix, str_eq, trim};
use vstd::prelude::*;
use vstd::string::*;

verus! {

/// What the driver of a header shows about it.
#[derive(Debug, Clone, Copy, PartialEq, Eq, Structural)]
pub struct HeaderCaps {
    /// The base frequency of the duty signal, from `pwmN_freq`.
    pub pwm_freq_hz: Option<u32>,
    /// The speed below which the driver raises an alarm, from `fanN_min`.
    pub rpm_min_threshold: Option<u16>,
    /// The speed above which the driver raises an alarm, from `fanN_max`.
    pub rpm_max_threshold: Option<u16>,
    /// Tachometer pulses for a turn, from `fanN_pulses`.
    pub tach_pulses_per_rev: Option<u8>,
}

impl Default for HeaderCaps {
    fn default() -> (r: Self)
        ensures
            r == (HeaderCaps {
                pwm_freq_hz: None,
                rpm_min_threshold: None,
                rpm_max_threshold: None,
                tach_pulses_per_rev: None,
            }),
    {
        HeaderCaps {
            pwm_freq_hz: None,
            rpm_min_threshold: None,
            rpm_max_threshold: None,
            tach_pulses_per_rev: None,
        }
    }
}

/// The name of a header's attribute file: what it is of, the header's number, and the
/// attribute.
pub open spec fn header_file(of: Seq<char>, index: u8, attr: Seq<char>) -> Seq<char> {
    of + text::decimal(index as nat) + attr
}

/// The number that an attribute file states, where it is at most `max`.
pub open spec fn stated_number(files: Seq<SysfsFile>, name: Seq<char>, max: int) -> Option<int> {
    match util::file_text(files, name) {
        Some(t) => text::parsed(text::trimmed(t), 10, max),
        None => None,
    }
}

fn header_file_name(of: &str, index: u8, attr: &str) -> (r: String)
    ensures
        r@ == header_file(of@, index, attr@),
{
    let mut s: String = of.to_owned();
    s.append(decimal_of(index as u64).as_str());
    s.append(attr);
    s
}

fn read_attr(files: &Vec<SysfsFile>, name: &str, max: u64) -> (r: Option<u64>)
    ensures
        match r {
            Some(n) => n <= max && stated_number(files@, name@, max as int) == Some(n as int),
            None => stated_number(files@, name@, max as int) is None,
        },
{
    match text_of_file(files, name) {
        Some(t) => parse_radix(trim(t), 10, max),
        None => None,
    }
}

/// What the driver shows about the header with a number; `files` are those of the
/// device.
pub fn read_header_caps(files: &Vec<SysfsFile>, pwm_index: u8) -> (r: HeaderCaps)
    ensures
        match stated_number(files@, header_file("pwm"@, pwm_index, "_freq"@), u32::MAX as int) {
            Some(n) => r.pwm_freq_hz == Some(n as u32),
            None => r.pwm_freq_hz is None,
        },
        match stated_number(files@, header_file("fan"@, pwm_index, "_min"@), u16::MAX as int) {
            Some(n) => r.rpm_min_threshold == Some(n as u16),
            None => r.rpm_min_threshold is None,
        },
        match stated_number(files@, header_file("fan"@, pwm_index, "_max"@), u16::MAX as int) {
            Some(n) => r.rpm_max_threshold == Some(n as u16),
            None => r.rpm_max_threshold is None,
        },
        match stated_number(files@, header_file("fan"@, pwm_index, "_pulses"@), u8::MAX as int) {
            Some(n) => r.tach_pulses_per_rev == Some(n as u8),
            None => r.tach_pulses_per_rev is None,
        },
{
    let freq: String = header_file_name("pwm", pwm_index, "_freq");
    let min: String = header_file_name("fan", pwm_index, "_min");
    let max: String = header_file_name("fan", pwm_index, "_max");
    let pulses: String = header_file_name("fan", pwm_index, "_pulses");
    HeaderCaps {
        pwm_freq_hz: match read_attr(files, freq.as_str(), u32::MAX as u64) {
            Some(n) => Some(n as u32),
            None => None,
        },
        rpm_min_threshold: match read_attr(files, min.as_str(), u16::MAX as u64) {
            Some(n) => Some(n as u16),
            None => None,
        },
        rpm_max_threshold: match read_attr(files, max.as_str(), u16::MAX as u64) {
            Some(n) => Some(n as u16),
            None => None,
        },
        tach_pulses_per_rev: match read_attr(files, pulses.as_str(), u8::MAX as u64) {
            Some(n) => Some(n as u8),
            None => None,
        },
    }
}

/// The path of the header's `fanN_alarm`, where the driver has one. The alarm itself
/// changes, so it is read with every poll.
pub fn alarm_path(dir: &str, files: &Vec<SysfsFile>, pwm_index: u8) -> (r: Option<String>)
    ensures
        text::opt_text(r) == (if util::find_file(
            files@,
            header_file("fan"@, pwm_index, "_alarm"@),
        ) is Some {
            Some(text::joined(dir@, header_file("fan"@, pwm_index, "_alarm"@)))
        } else {
            None
        }),
{
    let name: String = header_file_name("fan", pwm_index, "_alarm");
    match file_named(files, name.as_str()) {
        Some(_) => Some(join_path(dir, name.as_str())),
        None => None,
    }
}

/// The control modes that the driver of a chip takes; none where that is not known.
pub open spec fn modes_of(chip_name: Seq<char>) -> Seq<u8> {
    if chip_db::driver_of(chip_name) == "it87"@ {
        seq![0u8, 1, 2]
    } else if chip_db::driver_of(chip_name) == "nct6775"@ {
        seq![0u8, 1, 2, 3, 4, 5]
    } else {
        Seq::empty()
    }
}

/// The control modes that the driver of a chip takes. Nothing in sysfs tells them, so
/// they are those of the driver's family; an empty list says that they are not known.
pub fn supported_pwm_enable_modes(chip_name: &str) -> (r: Vec<u8>)
    ensures
        r@ == modes_of(chip_name@),
{
    let driver: &'static str = expected_driver_for_chip(chip_name);
    let r: Vec<u8> = if str_eq(driver, "it87") {
        vec![0, 1, 2]
    } else if str_eq(driver, "nct6775") {
        vec![0, 1, 2, 3, 4, 5]
    } else {
        Vec::new()
    };
    assert(r@ =~= modes_of(chip_name@));
    r
}

// ---------------------------------------------------------------------------
// Laws
// ---------------------------------------------------------------------------

/// A number that an attribute file states is read where it fits; a file that is not there,
/// cannot be read or states no number gives nothing, and never 0.
pub proof fn an_attribute_is_read_or_absent(
    files: Seq<SysfsFile>,
    name: Seq<char>,
    n: nat,
    max: int,
)
    ensures
        util::file_text(files, name) == Some(text::decimal(n)) ==> stated_number(files, name, max)
            == (if n <= max {
            Some(n as int)
        } else {
            None
        }),
        util::file_text(files, name) is None ==> stated_number(files, name, max) is None,
{
    text::a_written_number_is_read_back(n, max);
}

/// The files of a header have its number in their name, so that no two headers share one.
pub proof fn headers_do_not_share_files(of: Seq<char>, a: u8, b: u8, attr: Seq<char>)
    requires
        header_file(of, a, attr) == header_file(of, b, attr),
    ensures
        a == b,
{
    let x = text::decimal(a as nat);
    let y = text::decimal(b as nat);
    let p = of + x + attr;
    let q = of + y + attr;
    assert(p.len() == q.len());
    assert(p.subrange(of.len() as int, of.len() + x.len() as int) =~= x);
    assert(q.subrange(of.len() as int, of.len() + y.len() as int) =~= y);
    text::decimal_tells_numbers_apart(a as nat, b as nat);
}

/// Drivers of the ITE family take the modes 0 to 2, those of the Nuvoton `nct6775` family
/// the modes 0 to 5; of any other driver nothing is known.
pub proof fn modes_go_by_the_family(chip_name: Seq<char>, mode: u8)
    ensures
        chip_db::driver_of(chip_name) == "it87"@ ==> (modes_of(chip_name).contains(mode) <==> mode
            <= 2),
        chip_db::driver_of(chip_name) == "nct6775"@ ==> (modes_of(chip_name).contains(mode)
            <==> mode <= 5),
        chip_db::driver_of(chip_name) != "it87"@ && chip_db::driver_of(chip_name) != "nct6775"@
            ==> modes_of(chip_name).len() == 0,
        forall|i: int|
            0 <= i < modes_of(chip_name).len() ==> #[trigger] modes_of(chip_name)[i] == i,
{
    reveal_strlit("it87");
    reveal_strlit("nct6775");
    let d = chip_db::driver_of(chip_name);
    assert(d == "it87"@ ==> d.len() == 4);
    assert(d == "nct6775"@ ==> d.len() == 7);
    let m = modes_of(chip_name);
    if d == "it87"@ {
        if mode <= 2 {
            assert(m[mode as int] == mode);
        }
    } else if d == "nct6775"@ {
        if mode <= 5 {
            assert(m[mode as int] == mode);
        }
    }
}

} // verus!

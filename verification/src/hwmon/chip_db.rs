//! Which kernel module drives which Super-I/O chip, whether it is part of the
//! mainline kernel, which modules and port ranges collide, and which chips a board
//! carries.
//!
//! All of it works on text that the kernel shows: `/proc/modules`, `/proc/ioports`,
//! `/proc/cpuinfo`, `/dev/kmsg`, the DMI strings. A text that could not be read is
//! `None`.

use crate::api::responses::{
    AcpiConflictInfo, AcpiConflictView, BoardInfo, KernelModuleInfo, KernelModuleView,
    ModuleCollisionInfo, ModuleCollisionView,
};
use crate::text;
use crate::text::{
    chars_of, contains, find, fitting_chars, hex_of, lines, lossy, lowercase, parse_radix,
    parse_u32, split, split_whitespace, starts_with, str_eq, strip_crs, to_uppercase, trim,
    trim_start,
};
use vstd::prelude::*;
use vstd::string::*;
use vstd::utf8::*;

verus! {

// ---------------------------------------------------------------------------
// Chips and drivers
// ---------------------------------------------------------------------------

/// Known hwmon driver modules and whether they are in the mainline kernel.
///
/// `it87` counts as out of tree: the module name exists in mainline, but most chips
/// in use still want the out-of-tree build. `x86_pkg_temp` is not listed: it never
/// registers a hwmon device.
pub const KNOWN_MODULES: [(&'static str, bool); 25] = [
    ("nct6775", true),
    ("nct6775_core", true),
    ("nct6775_platform", true),
    ("nct6683", true),
    ("nct6687", false),
    ("it87", false),
    ("f71882fg", true),
    ("f71805f", true),
    ("w83627ehf", true),
    ("w83627hf", true),
    ("smsc47m1", true),
    ("smsc47b397", true),
    ("dme1737", true),
    ("pc87360", true),
    ("pc87427", true),
    ("asus_ec_sensors", true),
    ("asus_wmi_sensors", true),
    ("asus_wmi_ec_sensors", true),
    ("asus_atk0110", true),
    ("sch5627", true),
    ("sch5636", true),
    ("k10temp", true),
    ("coretemp", true),
    ("amdgpu", true),
    ("intel_pch_thermal", true),
];

/// Chip name prefixes and the driver module that binds such a chip. The first row
/// that matches decides, so a specific prefix stands before a general one.
pub const DRIVER_RULES: [(&'static str, &'static str); 33] = [
    ("nct6683", "nct6683"),
    ("nct6686", "nct6687"),
    ("nct6687", "nct6687"),
    ("nct6", "nct6775"),
    ("nct5", "nct6775"),
    ("it8", "it87"),
    ("f71805", "f71805f"),
    ("f71806", "f71805f"),
    ("f71872", "f71805f"),
    ("f718", "f71882fg"),
    ("f8000", "f71882fg"),
    ("f818", "f71882fg"),
    ("w83627ehf", "w83627ehf"),
    ("w83627dhg", "w83627ehf"),
    ("w83627uhg", "w83627ehf"),
    ("w83667hg", "w83627ehf"),
    ("w83627hf", "w83627hf"),
    ("w83627thf", "w83627hf"),
    ("w83637hf", "w83627hf"),
    ("w83687thf", "w83627hf"),
    ("w83697hf", "w83627hf"),
    ("smsc47b397", "smsc47b397"),
    ("sch5307", "smsc47b397"),
    ("sch5317", "smsc47b397"),
    ("smsc47m", "smsc47m1"),
    ("dme1737", "dme1737"),
    ("sch311", "dme1737"),
    ("sch5027", "dme1737"),
    ("sch5127", "dme1737"),
    ("sch5627", "sch5627"),
    ("sch5636", "sch5636"),
    ("pc8736", "pc87360"),
    ("pc87427", "pc87427"),
];

/// The ITE chips that the mainline `it87` module supports, by name prefix. `it8689`
/// is left out: few kernels in use can control its fans yet.
pub const MAINLINE_ITE_CHIPS: [&'static str; 25] = [
    "it8603", "it8620", "it8622", "it8623", "it8628", "it8705", "it8712", "it8716", "it8718",
    "it8720", "it8721", "it8726", "it8728", "it8732", "it8758", "it8771", "it8772", "it8781",
    "it8782", "it8783", "it8786", "it8790", "it8792", "it8795", "it87952",
];

/// The driver of the first rule from row `i` on whose prefix `name` begins with.
pub open spec fn driver_from(name: Seq<char>, i: int) -> Seq<char>
    decreases DRIVER_RULES@.len() - i,
{
    if i < 0 || i >= DRIVER_RULES@.len() {
        "unknown"@
    } else if text::starts(name, DRIVER_RULES@[i].0@) {
        DRIVER_RULES@[i].1@
    } else {
        driver_from(name, i + 1)
    }
}

/// The driver module that binds a chip of this name, whatever its letter case.
pub open spec fn driver_of(chip_name: Seq<char>) -> Seq<char> {
    driver_from(text::lower(chip_name), 0)
}

/// The driver module for a chip name in small letters, or `unknown`.
pub fn expected_driver_for_lowered(name: &str) -> (r: &'static str)
    ensures
        r@ == driver_from(name@, 0),
{
    let rules: [(&'static str, &'static str); 33] = DRIVER_RULES;
    let mut i: usize = 0;
    while i < rules.len()
        invariant
            i <= rules@.len(),
            rules == DRIVER_RULES,
            driver_from(name@, 0) == driver_from(name@, i as int),
        decreases rules@.len() - i,
    {
        if starts_with(name, rules[i].0) {
            return rules[i].1;
        }
        i += 1;
    }
    "unknown"
}

/// Maps the `name` of a hwmon chip to the kernel driver module that binds it.
///
/// The name does not tell the mainline `nct6683` driver from the out-of-tree
/// `nct6687`: both call their devices `nct6686` and `nct6687`.
pub fn expected_driver_for_chip(chip_name: &str) -> (r: &'static str)
    ensures
        r@ == driver_of(chip_name@),
{
    expected_driver_for_lowered(lowercase(chip_name).as_str())
}

/// The expected driver module for a chip.
pub fn expected_driver(chip_name: &str) -> (r: &'static str)
    ensures
        r@ == driver_of(chip_name@),
{
    expected_driver_for_chip(chip_name)
}

/// Whether a chip name belongs to a Super-I/O hardware monitor with a known driver,
/// and not to an ordinary sensor chip.
pub fn is_known_superio_chip(chip_name: &str) -> (r: bool)
    ensures
        r == (driver_of(chip_name@) != "unknown"@),
{
    !str_eq(expected_driver_for_chip(chip_name), "unknown")
}

/// Whether the table of known modules has a row for the module with that flag.
pub open spec fn known_module(name: Seq<char>, mainline: bool) -> bool {
    exists|i: int|
        0 <= i < KNOWN_MODULES@.len() && #[trigger] KNOWN_MODULES@[i].0@ == name
            && KNOWN_MODULES@[i].1 == mainline && forall|k: int|
            0 <= k < i ==> #[trigger] KNOWN_MODULES@[k].0@ != name
}

/// Whether a chip name in small letters begins with one of the mainline ITE names.
pub open spec fn is_mainline_ite(name: Seq<char>) -> bool {
    exists|i: int|
        0 <= i < MAINLINE_ITE_CHIPS@.len() && text::starts(name, #[trigger] MAINLINE_ITE_CHIPS@[i]@)
}

/// Whether the driver of a chip is in the mainline kernel. For an ITE chip the chip
/// decides, for any other its module.
pub open spec fn in_mainline(chip_name: Seq<char>) -> bool {
    if driver_of(chip_name) == "it87"@ {
        is_mainline_ite(text::lower(chip_name))
    } else {
        known_module(driver_of(chip_name), true)
    }
}

fn starts_with_mainline_ite(name: &str) -> (r: bool)
    ensures
        r == is_mainline_ite(name@),
{
    let chips: [&'static str; 25] = MAINLINE_ITE_CHIPS;
    let mut i: usize = 0;
    while i < chips.len()
        invariant
            i <= chips@.len(),
            chips == MAINLINE_ITE_CHIPS,
            forall|k: int| 0 <= k < i ==> !text::starts(name@, #[trigger] MAINLINE_ITE_CHIPS@[k]@),
        decreases chips@.len() - i,
    {
        if starts_with(name, chips[i]) {
            assert(text::starts(name@, MAINLINE_ITE_CHIPS@[i as int]@));
            return true;
        }
        i += 1;
    }
    false
}

/// Whether the driver of a chip is in the mainline kernel.
pub fn chip_driver_in_mainline(chip_name: &str) -> (r: bool)
    ensures
        r == in_mainline(chip_name@),
{
    let driver: &'static str = expected_driver_for_chip(chip_name);
    if str_eq(driver, "it87") {
        return starts_with_mainline_ite(lowercase(chip_name).as_str());
    }
    let modules: [(&'static str, bool); 25] = KNOWN_MODULES;
    let mut i: usize = 0;
    while i < modules.len()
        invariant
            i <= modules@.len(),
            modules == KNOWN_MODULES,
            driver@ == driver_of(chip_name@),
            driver@ != "it87"@,
            forall|k: int| 0 <= k < i ==> #[trigger] KNOWN_MODULES@[k].0@ != driver@,
        decreases modules@.len() - i,
    {
        if str_eq(modules[i].0, driver) {
            assert(KNOWN_MODULES@[i as int].0@ == driver@);
            return modules[i].1;
        }
        i += 1;
    }
    false
}

// ---------------------------------------------------------------------------
// Loaded modules
// ---------------------------------------------------------------------------

/// The most bytes that one fact passed through from firmware or a build may have.
pub const ENV_FACT_MAX_BYTES: usize = 128;

/// A fact as it is passed on: trimmed, absent where it is empty, and cut after as
/// many whole characters as fit into `ENV_FACT_MAX_BYTES` bytes.
pub open spec fn capped_fact(raw: Seq<char>) -> Option<Seq<char>> {
    let t = text::trimmed(raw);
    if t.len() == 0 {
        None
    } else {
        Some(t.take(text::fitting(t, ENV_FACT_MAX_BYTES as int)))
    }
}

/// A fact that may be absent, as it is passed on.
pub open spec fn capped_opt(raw: Option<Seq<char>>) -> Option<Seq<char>> {
    match raw {
        Some(s) => capped_fact(s),
        None => None,
    }
}

/// Trims a fact, drops an empty one, and caps it on a character boundary.
pub fn cap_env_fact(raw: &str) -> (r: Option<String>)
    ensures
        text::opt_text(r) == capped_fact(raw@),
        r is Some ==> text::byte_len(r->0@) <= ENV_FACT_MAX_BYTES,
{
    let t: &str = trim(raw);
    if t.is_empty() {
        return None;
    }
    let n: usize = fitting_chars(t, ENV_FACT_MAX_BYTES);
    Some(t.substring_char(0, n).to_owned())
}

/// One fact that may be absent.
fn cap_env_fact_opt(raw: &Option<String>) -> (r: Option<String>)
    ensures
        text::opt_text(r) == capped_opt(text::opt_text(*raw)),
{
    match raw {
        Some(s) => cap_env_fact(s.as_str()),
        None => None,
    }
}

/// What the files of a module's directory under `/sys/module` hold.
pub struct ModuleFiles {
    pub module: String,
    pub version: Option<String>,
    pub srcversion: Option<String>,
    pub taint: Option<String>,
}

/// Whether a line of `/proc/modules` is that of the module: its first word is the name.
pub open spec fn line_names_module(line: Seq<char>, name: Seq<char>) -> bool {
    text::words_of(line).len() > 0 && text::words_of(line)[0] == name
}

/// Whether the lines of `/proc/modules` list the module.
pub open spec fn lists_module(ls: Seq<Seq<char>>, name: Seq<char>) -> bool {
    exists|i: int| 0 <= i < ls.len() && #[trigger] line_names_module(ls[i], name)
}

/// Whether `/proc/modules` could be read and lists the module.
pub open spec fn module_loaded(proc_modules: Option<Seq<char>>, name: Seq<char>) -> bool {
    match proc_modules {
        Some(content) => lists_module(text::lines_of(content), name),
        None => false,
    }
}

/// Whether `/proc/modules` lists the module; a file that could not be read lists none.
pub fn is_module_loaded(proc_modules: Option<&str>, name: &str) -> (r: bool)
    ensures
        r == module_loaded(text::opt_str(proc_modules), name@),
{
    let content: &str = match proc_modules {
        Some(c) => c,
        None => {
            return false;
        },
    };
    let all: Vec<&str> = lines(content);
    let ghost ls = text::lines_of(content@);
    assert(text::texts(all@).len() == all@.len());
    let mut i: usize = 0;
    while i < all.len()
        invariant
            i <= all.len(),
            ls == text::texts(all@),
            ls == text::lines_of(content@),
            proc_modules == Some(content),
            forall|k: int| 0 <= k < i ==> !#[trigger] line_names_module(ls[k], name@),
        decreases all.len() - i,
    {
        let words: Vec<&str> = split_whitespace(all[i]);
        assert(ls[i as int] == all@[i as int]@);
        assert(text::texts(words@).len() == words@.len());
        if words.len() > 0 {
            assert(text::words_of(ls[i as int])[0] == words@[0]@);
            if str_eq(words[0], name) {
                assert(line_names_module(ls[i as int], name@));
                return true;
            }
        }
        i += 1;
    }
    false
}

/// The position of the first entry for the module, or the length.
pub open spec fn files_index(files: Seq<ModuleFiles>, name: Seq<char>) -> int
    decreases files.len(),
{
    if files.len() == 0 || files[0].module@ == name {
        0
    } else {
        1 + files_index(files.skip(1), name)
    }
}

/// What is reported of a module: whether it is loaded and, of a loaded one only,
/// what its files say of its build. An `O` among its taints marks an out-of-tree build.
pub open spec fn module_report(
    proc_modules: Option<Seq<char>>,
    files: Seq<ModuleFiles>,
    name: Seq<char>,
    mainline: bool,
) -> KernelModuleView {
    let i = files_index(files, name);
    if module_loaded(proc_modules, name) && 0 <= i < files.len() {
        KernelModuleView {
            name,
            loaded: true,
            in_mainline: mainline,
            version: capped_opt(text::opt_text(files[i].version)),
            srcversion: capped_opt(text::opt_text(files[i].srcversion)),
            out_of_tree: match files[i].taint {
                Some(t) => Some(t@.contains('O')),
                None => None,
            },
        }
    } else {
        KernelModuleView {
            name,
            loaded: module_loaded(proc_modules, name),
            in_mainline: mainline,
            version: None,
            srcversion: None,
            out_of_tree: None,
        }
    }
}

fn find_files(files: &Vec<ModuleFiles>, name: &str) -> (r: usize)
    ensures
        r == files_index(files@, name@),
        r <= files@.len(),
{
    let mut i: usize = 0;
    assert(files@.skip(0) =~= files@);
    while i < files.len()
        invariant
            i <= files.len(),
            files_index(files@, name@) == i + files_index(files@.skip(i as int), name@),
        decreases files.len() - i,
    {
        if str_eq(files[i].module.as_str(), name) {
            return i;
        }
        assert(files@.skip(i as int).skip(1) =~= files@.skip(i + 1));
        i += 1;
    }
    i
}

fn has_char(s: &str, c: char) -> (r: bool)
    ensures
        r == s@.contains(c),
{
    let v: Vec<char> = chars_of(s);
    let mut i: usize = 0;
    while i < v.len()
        invariant
            i <= v.len(),
            v@ == s@,
            forall|k: int| 0 <= k < i ==> s@[k] != c,
        decreases v.len() - i,
    {
        if v[i] == c {
            assert(s@[i as int] == c);
            return true;
        }
        i += 1;
    }
    false
}

/// Reports every known hwmon driver module, in the order of `KNOWN_MODULES`.
///
/// `proc_modules` is what `/proc/modules` holds, `files` what the directories of
/// the modules hold.
pub fn detect_loaded_modules_from(proc_modules: Option<&str>, files: &Vec<ModuleFiles>) -> (r: Vec<
    KernelModuleInfo,
>)
    ensures
        r@.len() == KNOWN_MODULES@.len(),
        forall|i: int|
            0 <= i < r@.len() ==> (#[trigger] r@[i])@ == module_report(
                text::opt_str(proc_modules),
                files@,
                KNOWN_MODULES@[i].0@,
                KNOWN_MODULES@[i].1,
            ),
{
    let modules: [(&'static str, bool); 25] = KNOWN_MODULES;
    let mut out: Vec<KernelModuleInfo> = Vec::new();
    let mut i: usize = 0;
    while i < modules.len()
        invariant
            i <= modules@.len(),
            modules == KNOWN_MODULES,
            out@.len() == i,
            forall|k: int|
                0 <= k < i ==> (#[trigger] out@[k])@ == module_report(
                    text::opt_str(proc_modules),
                    files@,
                    KNOWN_MODULES@[k].0@,
                    KNOWN_MODULES@[k].1,
                ),
        decreases modules@.len() - i,
    {
        let name: &'static str = modules[i].0;
        let loaded: bool = is_module_loaded(proc_modules, name);
        let mut info: KernelModuleInfo = KernelModuleInfo {
            name: name.to_owned(),
            loaded,
            in_mainline: modules[i].1,
            version: None,
            srcversion: None,
            out_of_tree: None,
        };
        let at: usize = find_files(files, name);
        if loaded && at < files.len() {
            info.version = cap_env_fact_opt(&files[at].version);
            info.srcversion = cap_env_fact_opt(&files[at].srcversion);
            info.out_of_tree = match &files[at].taint {
                Some(t) => Some(has_char(t.as_str(), 'O')),
                None => None,
            };
        }
        out.push(info);
        i += 1;
    }
    out
}

// ---------------------------------------------------------------------------
// Modules that race for a chip
// ---------------------------------------------------------------------------

/// What is told of `nct6687` and `nct6775` being loaded together.
pub const NUVOTON_COLLISION_SUMMARY: &'static str = "nct6687 (out-of-tree) and nct6775 (in-kernel) are both loaded. \
             They can race for the same Super I/O chip on boards whose chip is \
             an NCT679x (MSI AM4 boards and the original 2019 X570 boards). \
             Older nct6687 builds declare chip ID 0xd450 — the legitimate \
             NCT6797D ID — so the wrong driver can write into the chip's \
             non-volatile fan control state and brick the affected header \
             (CPU_FAN is the most common casualty). The 0xd450 claim was \
             removed upstream in Fred78290/nct6687d PR #164 (2026-05-19); \
             updating the driver removes the default mechanism, but \
             already-loaded modules, not-yet-updated packages, and any \
             nct6687 loaded with force=1 remain at risk — since nct6687d \
             PR #174 (2026-05-22) force=1 attaches to any chip ID in \
             0xD000-0xDFFF, NCT6797D and NCT6798D included.";

/// What to do about `nct6687` and `nct6775` being loaded together.
pub const NUVOTON_COLLISION_REMEDIATION: &'static str = "(1) Identify the chip FIRST: run `sudo dmesg | grep -i 'found nct'` \
             to see which driver found which chip on this boot — two drivers \
             reporting a chip at the same address claimed the same one. (The \
             hwmon name does not tell you: the in-kernel nct6683 names its \
             devices `nct6687` too.) \
             (2) If the chip is a genuine NCT6687D (MSI B550 and newer; it reports \
             0xd592), keep nct6687 and never load it with force=1. nct6775 has \
             nothing of its own to bind there unless the board carries a second \
             Nuvoton chip — ASRock AM5 Taichi boards need both drivers. \
             (3) If the chip is NCT6797D or NCT6798D (NCT6797D is common on MSI \
             AM4 boards e.g. B450M MORTAR, MAG B450 TOMAHAWK MAX, MAG X570 \
             TOMAHAWK WIFI, X570-A PRO and the original MPG X570 boards), \
             blacklist nct6687: `echo 'blacklist nct6687' | sudo tee \
             /etc/modprobe.d/blacklist-nct6687.conf`. \
             (4) Reboot. Do NOT write PWM until you have verified the chip and, \
             on an NCT679x board, blacklisted nct6687 — blacklisting the wrong \
             driver will leave you with no fan control. \
             (Prevention: a current nct6687d build, post-PR #164, no longer \
             claims 0xd450 by default — updating the package is the durable fix. \
             Never load nct6687 with force=1 on a board whose chip is an \
             NCT679x: force=1 attaches it to any 0xDxxx chip ID.)";

/// A chip that a driver is bound to: the name under which hwmon shows it, and where
/// it sits.
pub struct ChipBinding<'a> {
    pub chip_name: &'a str,
    pub device_id: &'a str,
}

/// Whether a chip is of the Nuvoton NCT6 family.
pub open spec fn is_nct6(chip_name: Seq<char>) -> bool {
    text::starts(text::lower(chip_name), "nct6"@)
}

/// Whether the board carries two NCT6 chips at different places: each driver then
/// has a chip of its own.
pub open spec fn two_nct6_chips(chips: Seq<ChipBinding<'_>>) -> bool {
    exists|i: int, j: int|
        0 <= i < chips.len() && 0 <= j < chips.len() && is_nct6(#[trigger] chips[i].chip_name@)
            && is_nct6(#[trigger] chips[j].chip_name@) && chips[i].device_id@ != chips[j].device_id@
}

/// The collision of the two Nuvoton modules, as it is reported.
pub open spec fn nuvoton_collision() -> ModuleCollisionView {
    ModuleCollisionView {
        module_a: "nct6687"@,
        module_b: "nct6775"@,
        severity: "critical"@,
        summary: NUVOTON_COLLISION_SUMMARY@,
        remediation: NUVOTON_COLLISION_REMEDIATION@,
    }
}

/// The collisions to report: that of `nct6687` and `nct6775` where both are loaded,
/// unless the board carries two NCT6 chips.
pub open spec fn module_collisions(
    proc_modules: Option<Seq<char>>,
    chips: Seq<ChipBinding<'_>>,
) -> Seq<ModuleCollisionView> {
    if module_loaded(proc_modules, "nct6687"@) && module_loaded(proc_modules, "nct6775"@)
        && !two_nct6_chips(chips) {
        seq![nuvoton_collision()]
    } else {
        Seq::empty()
    }
}

fn is_dual_nuvoton_safe_pair(chips: &Vec<ChipBinding<'_>>) -> (r: bool)
    ensures
        r == two_nct6_chips(chips@),
{
    let mut first: Option<usize> = None;
    let mut i: usize = 0;
    while i < chips.len()
        invariant
            i <= chips.len(),
            match first {
                Some(f) => f < i && is_nct6(chips@[f as int].chip_name@) && forall|k: int|
                    0 <= k < i && is_nct6(#[trigger] chips@[k].chip_name@) ==> chips@[k].device_id@
                        == chips@[f as int].device_id@,
                None => forall|k: int| 0 <= k < i ==> !is_nct6(#[trigger] chips@[k].chip_name@),
            },
        decreases chips.len() - i,
    {
        let name: String = lowercase(chips[i].chip_name);
        if starts_with(name.as_str(), "nct6") {
            assert(is_nct6(chips@[i as int].chip_name@));
            match first {
                Some(f) => {
                    if !str_eq(chips[i].device_id, chips[f].device_id) {
                        return true;
                    }
                },
                None => {
                    first = Some(i);
                },
            }
        }
        i += 1;
    }
    false
}

/// Finds the pairs of loaded driver modules that are known to race for the same chip.
///
/// Older `nct6687` builds claim the ID of the NCT6797D, which `nct6775` drives: the
/// wrong driver can then write into non-volatile fan state. A board with two NCT6
/// chips runs both modules rightly, and is not reported.
pub fn detect_module_collisions_from(
    proc_modules: Option<&str>,
    chips: &Vec<ChipBinding<'_>>,
) -> (r: Vec<ModuleCollisionInfo>)
    ensures
        text::views(r@) == module_collisions(text::opt_str(proc_modules), chips@),
{
    let mut out: Vec<ModuleCollisionInfo> = Vec::new();
    if is_module_loaded(proc_modules, "nct6687") && is_module_loaded(proc_modules, "nct6775")
        && !is_dual_nuvoton_safe_pair(chips) {
        out.push(
            ModuleCollisionInfo {
                module_a: "nct6687".to_owned(),
                module_b: "nct6775".to_owned(),
                severity: "critical".to_owned(),
                summary: NUVOTON_COLLISION_SUMMARY.to_owned(),
                remediation: NUVOTON_COLLISION_REMEDIATION.to_owned(),
            },
        );
    }
    assert(text::views(out@) =~= module_collisions(text::opt_str(proc_modules), chips@));
    out
}

/// The module that must not be loaded together with `module`, if there is one.
pub open spec fn collision_partner(module: Seq<char>) -> Option<Seq<char>> {
    if module == "nct6687"@ {
        Some("nct6775"@)
    } else if module == "nct6775"@ {
        Some("nct6687"@)
    } else {
        None
    }
}

/// The loaded module with which loading `module` would collide.
pub fn conflicting_loaded_module<'a>(module: &str, loaded: &'a Vec<String>) -> (r: Option<&'a str>)
    ensures
        match r {
            Some(hit) => collision_partner(module@) == Some(hit@) && text::strings(loaded@).contains(
                hit@,
            ),
            None => collision_partner(module@) is None || !text::strings(loaded@).contains(
                collision_partner(module@)->0,
            ),
        },
{
    let partner: &'static str = if str_eq(module, "nct6687") {
        "nct6775"
    } else if str_eq(module, "nct6775") {
        "nct6687"
    } else {
        return None;
    };
    let mut i: usize = 0;
    while i < loaded.len()
        invariant
            i <= loaded.len(),
            collision_partner(module@) == Some(partner@),
            forall|k: int| 0 <= k < i ==> #[trigger] text::strings(loaded@)[k] != partner@,
        decreases loaded.len() - i,
    {
        if str_eq(loaded[i].as_str(), partner) {
            assert(text::strings(loaded@)[i as int] == partner@);
            return Some(loaded[i].as_str());
        }
        i += 1;
    }
    None
}

// ---------------------------------------------------------------------------
// Port ranges
// ---------------------------------------------------------------------------

/// The I/O port ranges of common Super-I/O chips, with the driver that needs them.
pub const SIO_IO_RANGES: [(&'static str, u16, u16); 6] = [
    ("nct6775", 0x0290, 0x0299),
    ("nct6775", 0x04E0, 0x04EF),
    ("it87", 0x0290, 0x029F),
    ("it87", 0x0A20, 0x0A2F),
    ("it87", 0x0A40, 0x0A4F),
    ("it87", 0x0A60, 0x0A6F),
];

/// A port range that ACPI claims: its text, the claimant, first and last port.
pub struct AcpiClaim {
    pub range: Seq<char>,
    pub claimant: Seq<char>,
    pub first: int,
    pub last: int,
}

/// The claim that a line of `/proc/ioports` such as
/// `0290-0299 : ACPI OpRegion AMW0.SHWM` states, if ACPI makes one there.
pub open spec fn acpi_claim(line: Seq<char>) -> Option<AcpiClaim> {
    let t = text::trimmed(line);
    let at = text::first_at(t, " : "@, 0);
    let range = text::trimmed(t.take(at));
    let ends = text::pieces(range, '-');
    if !text::holds(t, "ACPI"@) && !text::holds(t, "acpi"@) {
        None
    } else if at > t.len() || ends.len() != 2 {
        None
    } else {
        match (text::parsed(text::trimmed(ends[0]), 16, 0xFFFF), text::parsed(text::trimmed(ends[1]), 16, 0xFFFF)) {
            (Some(first), Some(last)) => Some(
                AcpiClaim { range, claimant: text::trimmed(t.skip(at + " : "@.len())), first, last },
            ),
            _ => None,
        }
    }
}

/// The drivers, of the first `n` ranges, whose range the claim overlaps.
pub open spec fn claim_conflicts(c: AcpiClaim, n: int) -> Seq<AcpiConflictView>
    decreases n,
{
    if n <= 0 {
        Seq::empty()
    } else {
        let row = SIO_IO_RANGES@[n - 1];
        let before = claim_conflicts(c, n - 1);
        if c.first <= row.2 && c.last >= row.1 {
            before.push(
                AcpiConflictView {
                    io_range: c.range,
                    claimed_by: c.claimant,
                    conflicts_with_driver: row.0@,
                },
            )
        } else {
            before
        }
    }
}

/// The conflicts that the lines of `/proc/ioports` state, line by line.
pub open spec fn acpi_conflicts(ls: Seq<Seq<char>>) -> Seq<AcpiConflictView>
    decreases ls.len(),
{
    if ls.len() == 0 {
        Seq::empty()
    } else {
        let before = acpi_conflicts(ls.drop_last());
        match acpi_claim(ls.last()) {
            Some(c) => before + claim_conflicts(c, SIO_IO_RANGES@.len() as int),
            None => before,
        }
    }
}

fn parse_acpi_line(line: &str) -> (r: Option<(String, String, u16, u16)>)
    ensures
        match r {
            Some((range, claimant, first, last)) => acpi_claim(line@) == Some(
                AcpiClaim {
                    range: range@,
                    claimant: claimant@,
                    first: first as int,
                    last: last as int,
                },
            ),
            None => acpi_claim(line@) is None,
        },
{
    let t: &str = trim(line);
    if !contains(t, "ACPI") && !contains(t, "acpi") {
        return None;
    }
    let at: usize = match find(t, " : ") {
        Some(i) => i,
        None => {
            return None;
        },
    };
    let n: usize = t.unicode_len();
    let range: &str = trim(t.substring_char(0, at));
    let sep: usize = " : ".unicode_len();
    let claimant: &str = trim(t.substring_char(at + sep, n));
    let ends: Vec<&str> = split(range, '-');
    assert(text::texts(ends@).len() == ends@.len());
    if ends.len() != 2 {
        return None;
    }
    assert(text::pieces(range@, '-')[0] == ends@[0]@);
    assert(text::pieces(range@, '-')[1] == ends@[1]@);
    match (parse_radix(trim(ends[0]), 16, 0xFFFF), parse_radix(trim(ends[1]), 16, 0xFFFF)) {
        (Some(first), Some(last)) => Some(
            (range.to_owned(), claimant.to_owned(), first as u16, last as u16),
        ),
        _ => None,
    }
}

/// Finds the ACPI port claims that overlap the range of a Super-I/O chip.
///
/// `proc_ioports` is what `/proc/ioports` holds; a file that could not be read
/// states no conflict.
pub fn detect_acpi_conflicts_from(proc_ioports: Option<&str>) -> (r: Vec<AcpiConflictInfo>)
    ensures
        text::views(r@) == (match proc_ioports {
            Some(content) => acpi_conflicts(text::lines_of(content@)),
            None => Seq::empty(),
        }),
{
    let mut out: Vec<AcpiConflictInfo> = Vec::new();
    let content: &str = match proc_ioports {
        Some(c) => c,
        None => {
            assert(text::views(out@) =~= Seq::<AcpiConflictView>::empty());
            return out;
        },
    };
    let rows: [(&'static str, u16, u16); 6] = SIO_IO_RANGES;
    let all: Vec<&str> = lines(content);
    let ghost ls = text::lines_of(content@);
    assert(text::texts(all@).len() == all@.len());
    assert(text::views(out@) =~= acpi_conflicts(ls.take(0)));
    let mut i: usize = 0;
    while i < all.len()
        invariant
            i <= all.len(),
            rows == SIO_IO_RANGES,
            ls == text::texts(all@),
            text::views(out@) == acpi_conflicts(ls.take(i as int)),
        decreases all.len() - i,
    {
        proof {
            assert(ls.take(i + 1).drop_last() =~= ls.take(i as int));
            assert(ls.take(i + 1).last() == all@[i as int]@);
        }
        if let Some((range, claimant, first, last)) = parse_acpi_line(all[i]) {
            let ghost c = AcpiClaim {
                range: range@,
                claimant: claimant@,
                first: first as int,
                last: last as int,
            };
            let ghost before = text::views(out@);
            let mut k: usize = 0;
            assert(before + claim_conflicts(c, 0) =~= before);
            while k < rows.len()
                invariant
                    k <= rows@.len(),
                    rows == SIO_IO_RANGES,
                    c.range == range@,
                    c.claimant == claimant@,
                    c.first == first,
                    c.last == last,
                    text::views(out@) == before + claim_conflicts(c, k as int),
                decreases rows@.len() - k,
            {
                if first <= rows[k].2 && last >= rows[k].1 {
                    let ghost prior = out@;
                    out.push(
                        AcpiConflictInfo {
                            io_range: range.clone(),
                            claimed_by: claimant.clone(),
                            conflicts_with_driver: rows[k].0.to_owned(),
                        },
                    );
                    assert(text::views(out@) =~= text::views(prior).push(out@.last()@));
                }
                assert(text::views(out@) =~= before + claim_conflicts(c, k + 1));
                k += 1;
            }
        }
        i += 1;
    }
    assert(ls.take(i as int) =~= ls);
    out
}

// ---------------------------------------------------------------------------
// Boards
// ---------------------------------------------------------------------------

/// Where the DMI strings of the board stand.
pub const DMI_SYSFS_ROOT: &'static str = "/sys/class/dmi/id";

/// A DMI string as it is reported: trimmed, empty where it could not be read.
pub open spec fn dmi_field(raw: Option<Seq<char>>) -> Seq<char> {
    match raw {
        Some(s) => text::trimmed(s),
        None => Seq::empty(),
    }
}

fn read_field(raw: Option<&str>) -> (r: String)
    ensures
        r@ == dmi_field(text::opt_str(raw)),
{
    match raw {
        Some(s) => trim(s).to_owned(),
        None => String::new(),
    }
}

/// The identity of the board, from what the DMI files hold.
pub fn read_board_info_from(
    board_vendor: Option<&str>,
    board_name: Option<&str>,
    bios_version: Option<&str>,
    bios_date: Option<&str>,
) -> (r: BoardInfo)
    ensures
        r.vendor@ == dmi_field(text::opt_str(board_vendor)),
        r.name@ == dmi_field(text::opt_str(board_name)),
        r.bios_version@ == dmi_field(text::opt_str(bios_version)),
        text::opt_text(r.bios_date) == capped_opt(text::opt_str(bios_date)),
{
    BoardInfo {
        vendor: read_field(board_vendor),
        name: read_field(board_name),
        bios_version: read_field(bios_version),
        bios_date: match bios_date {
            Some(d) => cap_env_fact(d),
            None => None,
        },
    }
}

/// Gigabyte boards with ITE Super-I/O chips: a part of the DMI board name in
/// capitals, the first chip, and the second chip or nothing. The first row whose
/// name stands in the board's name decides. Boards with one chip are listed where
/// they need the module guard that goes by this table.
pub const GIGABYTE_DUAL_CHIP_BOARDS: [(&'static str, &'static str, &'static str); 46] = [
    // AM5 800 series.
    ("X870E AORUS MASTER", "it8696", "it87952"),
    ("X870E AORUS PRO", "it8696", "it87952"),
    ("X870E AORUS ELITE X3D", "it8696", "it87952"),
    ("X870E AORUS ELITE WIFI7", "it8696", ""),
    ("X870E AORUS XTREME AI TOP", "it8696", "it87952"),
    ("X870 AORUS ELITE WIFI7", "it8696", "it87952"),
    ("X870 AORUS ELITE WIFI7 ICE", "it8696", "it87952"),
    // AM5 600 series: the second chip answers as an IT8792E.
    ("X670E AORUS MASTER", "it8689", "it8792"),
    ("X670E AORUS PRO X", "it8689", "it8792"),
    ("X670 AORUS ELITE AX", "it8689", ""),
    // LGA1700.
    ("Z690 AORUS PRO", "it8689", "it87952"),
    ("Z690 AORUS MASTER", "it8689", "it87952"),
    ("Z790 AORUS ELITE AX", "it8689", ""),
    ("Z790 AORUS MASTER", "it8689", "it87952"),
    ("Z790 AORUS XTREME", "it8689", "it87952"),
    ("Z790 AORUS PRO X", "it8689", "it87952"),
    // LGA1851.
    ("Z890 AORUS MASTER", "it8696", "it87952"),
    // LGA1200 and LGA1151.
    ("Z390 AORUS MASTER", "it8688", "it8792"),
    ("Z390 AORUS PRO", "it8688", "it8792"),
    ("Z390 AORUS ULTRA", "it8688", "it8792"),
    ("Z490 AORUS MASTER", "it8688", "it8792"),
    // AM4 X570.
    ("X570 AORUS MASTER", "it8688", "it8792"),
    ("X570 AORUS PRO", "it8688", "it8792"),
    ("X570 AORUS PRO WIFI", "it8688", "it8792"),
    ("X570 AORUS ULTRA", "it8688", "it8792"),
    ("X570 AORUS XTREME", "it8688", "it8792"),
    // AM4 X570S.
    ("X570S AERO G", "it8689", "it87952"),
    ("X570S AORUS MASTER", "it8689", "it87952"),
    // AM4 B550.
    ("B550 AORUS MASTER", "it8688", "it8792"),
    ("B550 AORUS PRO", "it8688", "it8792"),
    // sTRX4 TRX40.
    ("TRX40 AORUS XTREME", "it8688", "it8792"),
    ("TRX40 AORUS MASTER", "it8688", "it8792"),
    ("TRX40 AORUS PRO WIFI", "it8688", "it8792"),
    ("TRX40 DESIGNARE", "it8688", "it8792"),
    // AM4 400 series.
    ("X470 AORUS ULTRA GAMING", "it8686", "it8792"),
    ("X470 AORUS GAMING 7 WIFI", "it8686", "it8792"),
    ("X470 AORUS GAMING 5 WIFI", "it8686", "it8792"),
    ("B450 AORUS PRO", "it8686", "it8792"),
    ("B450 AORUS PRO-CF", "it8686", "it8792"),
    // TR4 X399.
    ("X399 DESIGNARE EX", "it8686", "it8792"),
    ("X399 AORUS PRO", "it8686", "it8792"),
    ("X399 AORUS XTREME", "it8686", "it8792"),
    ("X399 AORUS GAMING 7", "it8686", "it8792"),
    // Further boards.
    ("B550 VISION D", "it8688", "it8792"),
    ("B850 AI TOP", "it8696", "it87952"),
    ("X870 AORUS STEALTH ICE", "it8696", "it87952"),
];

/// The chips of a row of the board table.
pub open spec fn row_chips(row: (&'static str, &'static str, &'static str)) -> Seq<Seq<char>> {
    if row.2@.len() == 0 {
        seq![row.1@]
    } else {
        seq![row.1@, row.2@]
    }
}

/// The chips of the first row from `i` on whose name stands in `board`.
pub open spec fn board_chips_from(board: Seq<char>, i: int) -> Seq<Seq<char>>
    decreases GIGABYTE_DUAL_CHIP_BOARDS@.len() - i,
{
    if i < 0 || i >= GIGABYTE_DUAL_CHIP_BOARDS@.len() {
        Seq::empty()
    } else if text::holds(board, GIGABYTE_DUAL_CHIP_BOARDS@[i].0@) {
        row_chips(GIGABYTE_DUAL_CHIP_BOARDS@[i])
    } else {
        board_chips_from(board, i + 1)
    }
}

/// The chips that a board is expected to show: none for a board without a name, of
/// another vendor, or outside the table. A board without a vendor is looked up.
pub open spec fn board_chips(vendor: Seq<char>, name: Seq<char>) -> Seq<Seq<char>> {
    if name.len() == 0 {
        Seq::empty()
    } else if text::lower(vendor).len() != 0 && !text::holds(text::lower(vendor), "gigabyte"@) {
        Seq::empty()
    } else {
        board_chips_from(text::upper(name), 0)
    }
}

/// The chips that the table lists for a board name in capitals.
pub fn expected_chips_for_upper_name(board: &str) -> (r: Vec<String>)
    ensures
        text::strings(r@) == board_chips_from(board@, 0),
{
    let rows: [(&'static str, &'static str, &'static str); 46] = GIGABYTE_DUAL_CHIP_BOARDS;
    let mut out: Vec<String> = Vec::new();
    let mut i: usize = 0;
    while i < rows.len()
        invariant
            i <= rows@.len(),
            rows == GIGABYTE_DUAL_CHIP_BOARDS,
            out@.len() == 0,
            board_chips_from(board@, 0) == board_chips_from(board@, i as int),
        decreases rows@.len() - i,
    {
        if contains(board, rows[i].0) {
            out.push(rows[i].1.to_owned());
            if !rows[i].2.is_empty() {
                out.push(rows[i].2.to_owned());
            }
            assert(text::strings(out@) =~= row_chips(GIGABYTE_DUAL_CHIP_BOARDS@[i as int]));
            return out;
        }
        i += 1;
    }
    assert(text::strings(out@) =~= board_chips_from(board@, 0));
    out
}

/// The chip names that a known Gigabyte board is expected to show; none where the
/// board is not known.
pub fn expected_chips_for_board(board_vendor: &str, board_name: &str) -> (r: Vec<String>)
    ensures
        text::strings(r@) == board_chips(board_vendor@, board_name@),
{
    let none: Vec<String> = Vec::new();
    assert(text::strings(none@) =~= Seq::<Seq<char>>::empty());
    if board_name.is_empty() {
        return none;
    }
    let vendor: String = lowercase(board_vendor);
    if !vendor.as_str().is_empty() && !contains(vendor.as_str(), "gigabyte") {
        return none;
    }
    expected_chips_for_upper_name(to_uppercase(board_name).as_str())
}

/// Whether every chip of the list is one that the `it87` module drives.
pub open spec fn all_ite(chips: Seq<Seq<char>>) -> bool {
    forall|i: int| 0 <= i < chips.len() ==> driver_of(#[trigger] chips[i]) == "it87"@
}

/// Whether the table knows the board and lists nothing but ITE chips for it. Only
/// then is the unlock sequence of the Nuvoton chips ruled out: it can lock up the
/// bridge that such a board's second chip sits behind. A board that is not in the
/// table rules nothing out.
pub fn board_expects_only_ite_chips(board_vendor: &str, board_name: &str) -> (r: bool)
    ensures
        r == (board_chips(board_vendor@, board_name@).len() > 0 && all_ite(
            board_chips(board_vendor@, board_name@),
        )),
{
    let chips: Vec<String> = expected_chips_for_board(board_vendor, board_name);
    let ghost names = board_chips(board_vendor@, board_name@);
    assert(text::strings(chips@).len() == chips@.len());
    if chips.len() == 0 {
        return false;
    }
    let mut i: usize = 0;
    while i < chips.len()
        invariant
            i <= chips.len(),
            names == text::strings(chips@),
            names == board_chips(board_vendor@, board_name@),
            forall|k: int| 0 <= k < i ==> driver_of(#[trigger] names[k]) == "it87"@,
        decreases chips.len() - i,
    {
        let driver: &'static str = expected_driver_for_chip(chips[i].as_str());
        assert(names[i as int] == chips@[i as int]@);
        if !str_eq(driver, "it87") {
            return false;
        }
        i += 1;
    }
    true
}

// ---------------------------------------------------------------------------
// Chips that the kernel log names
// ---------------------------------------------------------------------------

/// How many digits stand in `s` from position `i` on.
pub open spec fn digit_run(s: Seq<char>, i: int) -> int
    decreases s.len() - i,
{
    if 0 <= i < s.len() && text::is_digit(s[i]) {
        1 + digit_run(s, i + 1)
    } else {
        0
    }
}

/// A run of digits does not reach past the end.
pub proof fn digit_run_stays_inside(s: Seq<char>, i: int)
    requires
        0 <= i <= s.len(),
    ensures
        0 <= digit_run(s, i) <= s.len() - i,
    decreases s.len() - i,
{
    if i < s.len() && text::is_digit(s[i]) {
        digit_run_stays_inside(s, i + 1);
    }
}

/// Whether `IT8` stands in `s` at position `i`, the letters in either case.
pub open spec fn it8_at(s: Seq<char>, i: int) -> bool {
    &&& 0 <= i && i + 2 < s.len()
    &&& s[i] == 'I' || s[i] == 'i'
    &&& s[i + 1] == 'T' || s[i + 1] == 't'
    &&& s[i + 2] == '8'
}

/// The chip names in a line from position `i` on: each `IT8` with the three to five
/// digits that follow it, in small letters.
pub open spec fn chip_names(s: Seq<char>, i: int) -> Seq<Seq<char>>
    decreases s.len() - i,
{
    if i < 0 || i >= s.len() {
        Seq::empty()
    } else if it8_at(s, i) {
        proof {
            digit_run_stays_inside(s, i + 3);
        }
        let n = digit_run(s, i + 3);
        if 3 <= n <= 5 {
            seq!["it8"@ + s.subrange(i + 3, i + 3 + n)] + chip_names(s, i + 3 + n)
        } else {
            chip_names(s, i + 3 + n)
        }
    } else {
        chip_names(s, i + 1)
    }
}

/// Whether a line of the log is one by which the `it87` driver tells of a chip: it has the
/// driver's tag, and says that a chip was found, in either letter case. The carriage
/// returns at the end of a line say nothing.
pub open spec fn tells_of_chip(line: Seq<char>) -> bool {
    let l = text::lower(text::without_crs(line));
    (text::holds(l, "it87:"@) || text::holds(l, "it87 "@)) && text::holds(l, "found it8"@)
}

/// The chip names of a line of the log, if the driver tells of a chip there.
pub open spec fn line_chip_names(line: Seq<char>) -> Seq<Seq<char>> {
    if tells_of_chip(line) {
        chip_names(line, 0)
    } else {
        Seq::empty()
    }
}

/// `found` with each name of `names` that it does not hold yet, in order.
pub open spec fn with_new(found: Seq<Seq<char>>, names: Seq<Seq<char>>) -> Seq<Seq<char>>
    decreases names.len(),
{
    if names.len() == 0 {
        found
    } else {
        let f = with_new(found, names.drop_last());
        if f.contains(names.last()) {
            f
        } else {
            f.push(names.last())
        }
    }
}

/// The chip names of the log lines, each once, in the order of their first mention.
pub open spec fn log_chip_names(ls: Seq<Seq<char>>) -> Seq<Seq<char>>
    decreases ls.len(),
{
    if ls.len() == 0 {
        Seq::empty()
    } else {
        with_new(log_chip_names(ls.drop_last()), line_chip_names(ls.last()))
    }
}

proof fn lemma_digit_run(s: Seq<char>, i: int, n: int)
    requires
        0 <= i,
        0 <= n,
        i + n <= s.len(),
        i + n < s.len() ==> !text::is_digit(s[i + n]),
        forall|k: int| i <= k < i + n ==> text::is_digit(s[k]),
    ensures
        digit_run(s, i) == n,
    decreases n,
{
    if n > 0 {
        lemma_digit_run(s, i + 1, n - 1);
    }
}

proof fn lemma_with_new_step(found: Seq<Seq<char>>, names: Seq<Seq<char>>, x: Seq<char>)
    ensures
        with_new(found, names.push(x)) == (if with_new(found, names).contains(x) {
            with_new(found, names)
        } else {
            with_new(found, names).push(x)
        }),
{
    assert(names.push(x).drop_last() =~= names);
}

fn push_new(out: &mut Vec<String>, name: String)
    ensures
        text::strings(final(out)@) == (if text::strings(old(out)@).contains(name@) {
            text::strings(old(out)@)
        } else {
            text::strings(old(out)@).push(name@)
        }),
{
    let mut i: usize = 0;
    while i < out.len()
        invariant
            i <= out.len(),
            out@ == old(out)@,
            forall|k: int| 0 <= k < i ==> #[trigger] text::strings(out@)[k] != name@,
        decreases out.len() - i,
    {
        if str_eq(out[i].as_str(), name.as_str()) {
            assert(text::strings(out@)[i as int] == name@);
            return;
        }
        i += 1;
    }
    let ghost before = text::strings(out@);
    assert(!before.contains(name@));
    out.push(name);
    assert(text::strings(out@) =~= before.push(name@));
}

fn push_chip_names(out: &mut Vec<String>, line: &str)
    ensures
        text::strings(final(out)@) == with_new(text::strings(old(out)@), chip_names(line@, 0)),
{
    let v: Vec<char> = chars_of(line);
    let ghost found = text::strings(out@);
    let ghost mut done: Seq<Seq<char>> = Seq::empty();
    let mut i: usize = 0;
    assert(done + chip_names(line@, 0) =~= chip_names(line@, 0));
    while i < v.len()
        invariant
            i <= v.len(),
            v@ == line@,
            text::strings(out@) == with_new(found, done),
            chip_names(line@, 0) == done + chip_names(line@, i as int),
        decreases v.len() - i,
    {
        if v.len() - i > 2 && (v[i] == 'I' || v[i] == 'i') && (v[i + 1] == 'T' || v[i + 1] == 't')
            && v[i + 2] == '8' {
            let mut j: usize = i + 3;
            while j < v.len() && '0' <= v[j] && v[j] <= '9'
                invariant
                    i + 3 <= j <= v.len(),
                    forall|k: int| i + 3 <= k < j ==> text::is_digit(v@[k]),
                decreases v.len() - j,
            {
                j += 1;
            }
            let n: usize = j - (i + 3);
            proof {
                lemma_digit_run(line@, i + 3, n as int);
                assert(it8_at(line@, i as int));
            }
            if 3 <= n && n <= 5 {
                let mut name: String = "it8".to_owned();
                name.append(line.substring_char(i + 3, j));
                proof {
                    lemma_with_new_step(found, done, name@);
                    assert(done + (seq![name@] + chip_names(line@, j as int)) =~= done.push(name@)
                        + chip_names(line@, j as int));
                    done = done.push(name@);
                }
                push_new(out, name);
            }
            i = j;
        } else {
            assert(!it8_at(line@, i as int));
            i += 1;
        }
    }
    assert(done + chip_names(line@, i as int) =~= done);
}

/// The ITE chip names in the lines of a kernel log by which the `it87` driver tells of a
/// chip: small letters, each once, in the order of their first mention. Any other line is
/// passed over, whatever it names.
pub fn parse_kmsg_for_it87_chips(text: &str) -> (r: Vec<String>)
    ensures
        text::strings(r@) == log_chip_names(text::lines_of(text@)),
{
    let all: Vec<&str> = lines(text);
    let ghost ls = text::lines_of(text@);
    assert(text::texts(all@).len() == all@.len());
    let mut out: Vec<String> = Vec::new();
    let mut i: usize = 0;
    assert(text::strings(out@) =~= log_chip_names(ls.take(0)));
    while i < all.len()
        invariant
            i <= all.len(),
            ls == text::texts(all@),
            text::strings(out@) == log_chip_names(ls.take(i as int)),
        decreases all.len() - i,
    {
        proof {
            assert(ls.take(i + 1).drop_last() =~= ls.take(i as int));
            assert(ls.take(i + 1).last() == all@[i as int]@);
        }
        let lowered: String = lowercase(strip_crs(all[i]));
        let l: &str = lowered.as_str();
        if (contains(l, "it87:") || contains(l, "it87 ")) && contains(l, "found it8") {
            push_chip_names(&mut out, all[i]);
        }
        i += 1;
    }
    assert(ls.take(i as int) =~= ls);
    out
}

/// No chip name is listed twice.
pub proof fn log_chip_names_once(ls: Seq<Seq<char>>)
    ensures
        log_chip_names(ls).no_duplicates(),
    decreases ls.len(),
{
    if ls.len() > 0 {
        log_chip_names_once(ls.drop_last());
        lemma_with_new_once(log_chip_names(ls.drop_last()), line_chip_names(ls.last()));
    }
}

proof fn lemma_with_new_once(found: Seq<Seq<char>>, names: Seq<Seq<char>>)
    requires
        found.no_duplicates(),
    ensures
        with_new(found, names).no_duplicates(),
    decreases names.len(),
{
    if names.len() > 0 {
        lemma_with_new_once(found, names.drop_last());
    }
}

proof fn lemma_with_new(found: Seq<Seq<char>>, names: Seq<Seq<char>>)
    ensures
        found.len() <= with_new(found, names).len(),
        with_new(found, names).take(found.len() as int) == found,
        forall|k: int|
            0 <= k < names.len() ==> with_new(found, names).contains(#[trigger] names[k]),
        forall|k: int|
            found.len() <= k < with_new(found, names).len() ==> names.contains(
                #[trigger] with_new(found, names)[k],
            ),
    decreases names.len(),
{
    let all = with_new(found, names);
    if names.len() > 0 {
        let front = names.drop_last();
        let before = with_new(found, front);
        lemma_with_new(found, front);
        assert(all.take(found.len() as int) =~= before.take(found.len() as int));
        assert forall|k: int| 0 <= k < names.len() implies all.contains(#[trigger] names[k]) by {
            if k < front.len() {
                assert(before.contains(front[k]));
                let at = before.index_of(front[k]);
                assert(all[at] == names[k]);
            } else if !before.contains(names.last()) {
                assert(all[before.len() as int] == names[k]);
            }
        }
        assert forall|k: int| found.len() <= k < all.len() implies names.contains(
            #[trigger] all[k],
        ) by {
            if k < before.len() {
                assert(front.contains(before[k]));
                let at = front.index_of(before[k]);
                assert(names[at] == all[k]);
            } else {
                assert(names[names.len() - 1] == all[k]);
            }
        }
    } else {
        assert(all.take(found.len() as int) =~= found);
    }
}

proof fn lemma_nothing_new(found: Seq<Seq<char>>, names: Seq<Seq<char>>)
    requires
        forall|k: int| 0 <= k < names.len() ==> found.contains(#[trigger] names[k]),
    ensures
        with_new(found, names) == found,
    decreases names.len(),
{
    if names.len() > 0 {
        let front = names.drop_last();
        assert forall|k: int| 0 <= k < front.len() implies found.contains(
            #[trigger] front[k],
        ) by {
            assert(front[k] == names[k]);
        }
        lemma_nothing_new(found, front);
        assert(found.contains(names[names.len() - 1]));
    }
}

/// Whether every chip name of a line is among the names.
spec fn covers_line(names: Seq<Seq<char>>, line: Seq<char>) -> bool {
    forall|k: int|
        0 <= k < line_chip_names(line).len() ==> names.contains(#[trigger] line_chip_names(line)[k])
}

/// What earlier lines name comes first: more lines only add names behind those that are
/// there. So the names stand in the order of their first mention.
pub proof fn names_come_in_the_order_of_their_first_mention(ls: Seq<Seq<char>>, n: int)
    requires
        0 <= n <= ls.len(),
    ensures
        log_chip_names(ls.take(n)).len() <= log_chip_names(ls).len(),
        log_chip_names(ls).take(log_chip_names(ls.take(n)).len() as int) == log_chip_names(
            ls.take(n),
        ),
    decreases ls.len() - n,
{
    let names = log_chip_names(ls);
    let early = log_chip_names(ls.take(n));
    if n < ls.len() {
        names_come_in_the_order_of_their_first_mention(ls, n + 1);
        let next = log_chip_names(ls.take(n + 1));
        assert(ls.take(n + 1).drop_last() =~= ls.take(n));
        lemma_with_new(early, line_chip_names(ls[n]));
        assert(names.take(early.len() as int) =~= names.take(next.len() as int).take(
            early.len() as int,
        ));
    } else {
        assert(ls.take(n) =~= ls);
        assert(names.take(early.len() as int) =~= early);
    }
}

/// No name of a line by which the driver tells of a chip is missing.
pub proof fn no_name_is_missing(ls: Seq<Seq<char>>, i: int, k: int)
    requires
        0 <= i < ls.len(),
        0 <= k < line_chip_names(ls[i]).len(),
    ensures
        log_chip_names(ls).contains(line_chip_names(ls[i])[k]),
{
    let early = log_chip_names(ls.take(i + 1));
    assert(ls.take(i + 1).drop_last() =~= ls.take(i));
    lemma_with_new(log_chip_names(ls.take(i)), line_chip_names(ls[i]));
    assert(early.contains(line_chip_names(ls[i])[k]));
    names_come_in_the_order_of_their_first_mention(ls, i + 1);
    let at = early.index_of(line_chip_names(ls[i])[k]);
    assert(log_chip_names(ls).take(early.len() as int)[at] == early[at]);
}

/// Whether a line names a chip: `IT8`, and all the digits that follow it, three to five of
/// them.
pub open spec fn names_chip_at(line: Seq<char>, name: Seq<char>, at: int) -> bool {
    &&& it8_at(line, at)
    &&& 3 <= digit_run(line, at + 3) <= 5
    &&& name == "it8"@ + line.subrange(at + 3, at + 3 + digit_run(line, at + 3))
}

proof fn lemma_chip_names(s: Seq<char>, i: int, k: int)
    requires
        0 <= i,
        0 <= k < chip_names(s, i).len(),
    ensures
        exists|at: int| #[trigger] names_chip_at(s, chip_names(s, i)[k], at),
    decreases s.len() - i,
{
    if it8_at(s, i) {
        digit_run_stays_inside(s, i + 3);
        let n = digit_run(s, i + 3);
        if 3 <= n <= 5 {
            if k == 0 {
                assert(names_chip_at(s, chip_names(s, i)[k], i));
            } else {
                assert(chip_names(s, i)[k] == chip_names(s, i + 3 + n)[k - 1]);
                lemma_chip_names(s, i + 3 + n, k - 1);
            }
        } else {
            lemma_chip_names(s, i + 3 + n, k);
        }
    } else {
        lemma_chip_names(s, i + 1, k);
    }
}

/// Each name is one that a line by which the driver tells of a chip names.
pub proof fn each_name_is_told_by_the_driver(ls: Seq<Seq<char>>, k: int)
    requires
        0 <= k < log_chip_names(ls).len(),
    ensures
        exists|i: int, at: int|
            0 <= i < ls.len() && tells_of_chip(ls[i]) && #[trigger] names_chip_at(
                ls[i],
                log_chip_names(ls)[k],
                at,
            ),
    decreases ls.len(),
{
    let name = log_chip_names(ls)[k];
    let front = ls.drop_last();
    let before = log_chip_names(front);
    let names = line_chip_names(ls.last());
    lemma_with_new(before, names);
    if k < before.len() {
        assert(log_chip_names(ls).take(before.len() as int)[k] == name);
        each_name_is_told_by_the_driver(front, k);
        let (i, at) = choose|i: int, at: int|
            0 <= i < front.len() && tells_of_chip(front[i]) && #[trigger] names_chip_at(
                front[i],
                name,
                at,
            );
        assert(ls[i] == front[i]);
        assert(names_chip_at(ls[i], name, at));
    } else {
        assert(names.contains(name));
        let j = names.index_of(name);
        lemma_chip_names(ls.last(), 0, j);
        let at = choose|at: int| #[trigger] names_chip_at(ls.last(), name, at);
        assert(names_chip_at(ls[ls.len() - 1], name, at));
    }
}

proof fn lemma_known_lines_add_nothing(a: Seq<Seq<char>>, b: Seq<Seq<char>>)
    requires
        forall|i: int| 0 <= i < b.len() ==> covers_line(log_chip_names(a), #[trigger] b[i]),
    ensures
        log_chip_names(a + b) == log_chip_names(a),
    decreases b.len(),
{
    if b.len() > 0 {
        let front = b.drop_last();
        assert forall|i: int| 0 <= i < front.len() implies covers_line(
            log_chip_names(a),
            #[trigger] front[i],
        ) by {
            assert(front[i] == b[i]);
        }
        lemma_known_lines_add_nothing(a, front);
        assert((a + b).drop_last() =~= a + front);
        assert(covers_line(log_chip_names(a), b[b.len() - 1]));
        lemma_nothing_new(log_chip_names(a), line_chip_names(b.last()));
    } else {
        assert(a + b =~= a);
    }
}

/// A log that is read twice in a row names the same chips as one that is read once.
pub proof fn a_log_read_twice_names_the_same_chips(ls: Seq<Seq<char>>)
    ensures
        log_chip_names(ls + ls) == log_chip_names(ls),
{
    assert forall|i: int| 0 <= i < ls.len() implies covers_line(
        log_chip_names(ls),
        #[trigger] ls[i],
    ) by {
        assert forall|k: int| 0 <= k < line_chip_names(ls[i]).len() implies log_chip_names(
            ls,
        ).contains(#[trigger] line_chip_names(ls[i])[k]) by {
            no_name_is_missing(ls, i, k);
        }
    }
    lemma_known_lines_add_nothing(ls, ls);
}

proof fn lemma_digit_run_before_cr(s: Seq<char>, i: int)
    requires
        0 <= i <= s.len(),
    ensures
        digit_run(s.push('\r'), i) == digit_run(s, i),
    decreases s.len() - i,
{
    if i < s.len() {
        assert(s.push('\r')[i] == s[i]);
        lemma_digit_run_before_cr(s, i + 1);
    } else {
        assert(s.push('\r')[i] == '\r');
    }
}

proof fn lemma_chip_names_before_cr(s: Seq<char>, i: int)
    requires
        0 <= i,
    ensures
        chip_names(s.push('\r'), i) == chip_names(s, i),
    decreases s.len() - i,
{
    let t = s.push('\r');
    if i < s.len() {
        assert(it8_at(t, i) <==> it8_at(s, i));
        if it8_at(s, i) {
            digit_run_stays_inside(s, i + 3);
            lemma_digit_run_before_cr(s, i + 3);
            let n = digit_run(s, i + 3);
            assert(t.subrange(i + 3, i + 3 + n) =~= s.subrange(i + 3, i + 3 + n));
            lemma_chip_names_before_cr(s, i + 3 + n);
        } else {
            lemma_chip_names_before_cr(s, i + 1);
        }
    } else if i == s.len() {
        assert(!it8_at(t, i));
        assert(chip_names(t, i + 1) =~= Seq::empty());
    }
}

proof fn lemma_line_names_before_cr(line: Seq<char>)
    ensures
        line_chip_names(text::without_cr(line)) == line_chip_names(line),
{
    if line.len() > 0 && line.last() == '\r' {
        let front = line.drop_last();
        assert(front.push('\r') =~= line);
        lemma_chip_names_before_cr(front, 0);
    }
}

/// The text of a log that stands twice, with a line end between, names the same chips as
/// the text once.
pub proof fn a_repeated_text_names_the_same_chips(t: Seq<char>)
    ensures
        log_chip_names(text::lines_of(t + seq!['\n'] + t)) == log_chip_names(text::lines_of(t)),
{
    let ls = text::lines_of(t);
    let head = t.push('\n');
    assert(t + seq!['\n'] + t =~= head + t);
    text::lines_of_joined(head, t);
    let closed = text::lines_of(head);
    assert(log_chip_names(closed) == log_chip_names(ls)) by {
        if t.len() == 0 || t.last() == '\n' {
            let end = seq!['\n'];
            assert(head =~= t + end);
            text::lines_of_joined(t, end);
            assert(Seq::<char>::empty().push('\n') =~= end);
            text::one_line(Seq::empty());
            let blank = Seq::<char>::empty();
            assert(text::lines_of(end) == seq![blank]);
            assert(closed.drop_last() =~= ls);
            assert(closed.last() == blank);
            assert(line_chip_names(blank) =~= Seq::empty());
        } else {
            text::a_line_end_ends_the_last_line(t);
            assert(closed.drop_last() =~= ls.drop_last());
            lemma_line_names_before_cr(ls.last());
        }
    }
    assert forall|i: int| 0 <= i < ls.len() implies covers_line(
        log_chip_names(closed),
        #[trigger] ls[i],
    ) by {
        assert forall|k: int| 0 <= k < line_chip_names(ls[i]).len() implies log_chip_names(
            closed,
        ).contains(#[trigger] line_chip_names(ls[i])[k]) by {
            no_name_is_missing(ls, i, k);
        }
    }
    lemma_known_lines_add_nothing(closed, ls);
}

/// The most bytes of the kernel log that are looked at.
pub const KMSG_MAX_BYTES: usize = 1048576;

/// Takes in what one read of the kernel log gave, `None` where the read gave nothing
/// more or failed, and says whether to read on: not after the end, and not after a
/// read that would not fit any more, which is dropped.
pub fn absorb_kmsg_read(buf: &mut Vec<u8>, read: Option<Vec<u8>>) -> (more: bool)
    requires
        old(buf)@.len() <= KMSG_MAX_BYTES,
    ensures
        final(buf)@.len() <= KMSG_MAX_BYTES,
        more == (read is Some && (read->0)@.len() > 0 && old(buf)@.len() + (read->0)@.len()
            <= KMSG_MAX_BYTES),
        final(buf)@ == (if more {
            old(buf)@ + (read->0)@
        } else {
            old(buf)@
        }),
{
    match read {
        Some(chunk) => {
            if chunk.len() == 0 || chunk.len() > KMSG_MAX_BYTES - buf.len() {
                return false;
            }
            let mut chunk: Vec<u8> = chunk;
            buf.append(&mut chunk);
            true
        },
        None => false,
    }
}

/// The ITE chip names in the bytes of the kernel log.
pub fn read_kernel_detected_chips_from(buf: &Vec<u8>) -> (r: Vec<String>)
    ensures
        text::strings(r@) == log_chip_names(text::lines_of(text::lossy_text(buf@))),
{
    parse_kmsg_for_it87_chips(lossy(buf).as_str())
}

// ---------------------------------------------------------------------------
// CPU vendor and graphics feature mask
// ---------------------------------------------------------------------------

/// The vendor that a `vendor_id` value stands for; empty for an unknown one.
pub open spec fn vendor_of_id(id: Seq<char>) -> Seq<char> {
    if id == "GenuineIntel"@ {
        "Intel"@
    } else if id == "AuthenticAMD"@ || id == "HygonGenuine"@ {
        "AMD"@
    } else {
        Seq::empty()
    }
}

/// The value of a `vendor_id` line of `/proc/cpuinfo`: what follows its first colon.
pub open spec fn vendor_id_value(line: Seq<char>) -> Option<Seq<char>> {
    let t = text::trimmed_start(line);
    if text::starts(t, "vendor_id"@) && text::pieces(t, ':').len() >= 2 {
        Some(text::trimmed(text::pieces(t, ':')[1]))
    } else {
        None
    }
}

/// The vendor that the first `vendor_id` line with a value names.
pub open spec fn cpu_vendor(ls: Seq<Seq<char>>) -> Seq<char>
    decreases ls.len(),
{
    if ls.len() == 0 {
        Seq::empty()
    } else {
        match vendor_id_value(ls[0]) {
            Some(id) => vendor_of_id(id),
            None => cpu_vendor(ls.skip(1)),
        }
    }
}

/// The CPU vendor, `Intel`, `AMD` or nothing, from what `/proc/cpuinfo` holds.
pub fn read_cpu_vendor_from(proc_cpuinfo: Option<&str>) -> (r: String)
    ensures
        r@ == (match proc_cpuinfo {
            Some(content) => cpu_vendor(text::lines_of(content@)),
            None => Seq::empty(),
        }),
{
    let content: &str = match proc_cpuinfo {
        Some(c) => c,
        None => {
            return String::new();
        },
    };
    let all: Vec<&str> = lines(content);
    let ghost ls = text::lines_of(content@);
    assert(text::texts(all@).len() == all@.len());
    assert(ls.skip(0) =~= ls);
    let mut i: usize = 0;
    while i < all.len()
        invariant
            i <= all.len(),
            ls == text::texts(all@),
            cpu_vendor(ls) == cpu_vendor(ls.skip(i as int)),
            proc_cpuinfo == Some(content),
            ls == text::lines_of(content@),
        decreases all.len() - i,
    {
        assert(ls.skip(i as int)[0] == all@[i as int]@);
        assert(ls.skip(i as int).skip(1) =~= ls.skip(i + 1));
        let t: &str = trim_start(all[i]);
        if starts_with(t, "vendor_id") {
            let parts: Vec<&str> = split(t, ':');
            assert(text::texts(parts@).len() == parts@.len());
            if parts.len() >= 2 {
                assert(text::pieces(t@, ':')[1] == parts@[1]@);
                let id: &str = trim(parts[1]);
                if str_eq(id, "GenuineIntel") {
                    return "Intel".to_owned();
                }
                if str_eq(id, "AuthenticAMD") || str_eq(id, "HygonGenuine") {
                    return "AMD".to_owned();
                }
                return String::new();
            }
        }
        i += 1;
    }
    String::new()
}

/// The feature mask as it is reported: a decimal number becomes eight hexadecimal
/// digits behind `0x`, anything else stays as it is.
pub open spec fn normal_mask(raw: Seq<char>) -> Seq<char> {
    let t = text::trimmed(raw);
    if text::starts(t, "0x"@) || text::starts(t, "0X"@) {
        t
    } else {
        match text::parsed(t, 10, 0xFFFF_FFFF) {
            Some(n) => "0x"@ + text::hex_digits(n as nat, 8),
            None => t,
        }
    }
}

/// The feature mask of the graphics driver as a hexadecimal text, from what its
/// parameter file holds.
pub fn read_ppfeaturemask_from(raw: Option<&str>) -> (r: Option<String>)
    ensures
        text::opt_text(r) == (match raw {
            Some(s) => Some(normal_mask(s@)),
            None => None,
        }),
{
    match raw {
        Some(s) => {
            let t: &str = trim(s);
            if starts_with(t, "0x") || starts_with(t, "0X") {
                return Some(t.to_owned());
            }
            match parse_u32(t) {
                Some(n) => {
                    let mut hex: String = "0x".to_owned();
                    hex.append(hex_of(n as u64, 8).as_str());
                    Some(hex)
                },
                None => Some(t.to_owned()),
            }
        },
        None => None,
    }
}

// ---------------------------------------------------------------------------
// Laws
// ---------------------------------------------------------------------------

/// An ASCII chip name that begins with `it8` is driven by `it87`.
pub proof fn it8_names_are_ite(name: Seq<char>)
    requires
        is_ascii_chars(name),
        name.len() >= 3,
        name[0] == 'i',
        name[1] == 't',
        name[2] == '8',
    ensures
        driver_of(name) == "it87"@,
{
    let l = text::lower(name);
    assert(l[0] == 'i' && l[1] == 't' && l[2] == '8');
    reveal_with_fuel(driver_from, 7);
    reveal_strlit("nct6683");
    reveal_strlit("nct6686");
    reveal_strlit("nct6687");
    reveal_strlit("nct6");
    reveal_strlit("nct5");
    reveal_strlit("it8");
    assert(l.subrange(0, 3) =~= "it8"@);
    assert forall|p: Seq<char>| p.len() > 0 && p[0] == 'n' implies !#[trigger] text::starts(l, p) by {
        if text::starts(l, p) {
            assert(l.subrange(0, p.len() as int)[0] == p[0]);
        }
    }
}

proof fn lemma_apart(name: Seq<char>, prefix: Seq<char>, k: int)
    requires
        0 <= k < prefix.len(),
        k >= name.len() || name[k] != prefix[k],
    ensures
        !text::starts(name, prefix),
{
    if text::starts(name, prefix) {
        assert(name.subrange(0, prefix.len() as int)[k] == prefix[k]);
    }
}

/// The letter that the prefix of a row of the driver table begins with.
spec fn head_of_rule(i: int) -> char {
    if i < 5 {
        'n'
    } else if i < 6 {
        'i'
    } else if i < 12 {
        'f'
    } else if i < 21 {
        'w'
    } else if i < 25 {
        's'
    } else if i < 26 {
        'd'
    } else if i < 31 {
        's'
    } else {
        'p'
    }
}

proof fn lemma_head_of_rule(i: int)
    requires
        0 <= i < DRIVER_RULES@.len(),
    ensures
        DRIVER_RULES@[i].0@.len() > 0,
        DRIVER_RULES@[i].0@[0] == head_of_rule(i),
{
    reveal_strlit("nct6683");
    reveal_strlit("nct6686");
    reveal_strlit("nct6687");
    reveal_strlit("nct6");
    reveal_strlit("nct5");
    reveal_strlit("it8");
    reveal_strlit("f71805");
    reveal_strlit("f71806");
    reveal_strlit("f71872");
    reveal_strlit("f718");
    reveal_strlit("f8000");
    reveal_strlit("f818");
    reveal_strlit("w83627ehf");
    reveal_strlit("w83627dhg");
    reveal_strlit("w83627uhg");
    reveal_strlit("w83667hg");
    reveal_strlit("w83627hf");
    reveal_strlit("w83627thf");
    reveal_strlit("w83637hf");
    reveal_strlit("w83687thf");
    reveal_strlit("w83697hf");
    reveal_strlit("smsc47b397");
    reveal_strlit("sch5307");
    reveal_strlit("sch5317");
    reveal_strlit("smsc47m");
    reveal_strlit("dme1737");
    reveal_strlit("sch311");
    reveal_strlit("sch5027");
    reveal_strlit("sch5127");
    reveal_strlit("sch5627");
    reveal_strlit("sch5636");
    reveal_strlit("pc8736");
    reveal_strlit("pc87427");
}

proof fn lemma_first_rule(name: Seq<char>, i: int, m: int)
    requires
        0 <= i <= m < DRIVER_RULES@.len(),
        forall|k: int| i <= k < m ==> !text::starts(name, #[trigger] DRIVER_RULES@[k].0@),
        text::starts(name, DRIVER_RULES@[m].0@),
    ensures
        driver_from(name, i) == DRIVER_RULES@[m].1@,
    decreases m - i,
{
    if i < m {
        lemma_first_rule(name, i + 1, m);
    }
}

proof fn lemma_no_rule(name: Seq<char>, i: int)
    requires
        0 <= i <= DRIVER_RULES@.len(),
        forall|k: int|
            i <= k < DRIVER_RULES@.len() ==> !text::starts(name, #[trigger] DRIVER_RULES@[k].0@),
    ensures
        driver_from(name, i) == "unknown"@,
    decreases DRIVER_RULES@.len() - i,
{
    if i < DRIVER_RULES@.len() {
        lemma_no_rule(name, i + 1);
    }
}

/// Whether a text is the name of a driver of the table, or `unknown`.
spec fn is_driver_name(d: Seq<char>) -> bool {
    ||| d == "nct6683"@
    ||| d == "nct6687"@
    ||| d == "nct6775"@
    ||| d == "it87"@
    ||| d == "f71805f"@
    ||| d == "f71882fg"@
    ||| d == "w83627ehf"@
    ||| d == "w83627hf"@
    ||| d == "smsc47b397"@
    ||| d == "smsc47m1"@
    ||| d == "dme1737"@
    ||| d == "sch5627"@
    ||| d == "sch5636"@
    ||| d == "pc87360"@
    ||| d == "pc87427"@
    ||| d == "unknown"@
}

proof fn lemma_rule_driver(i: int)
    requires
        0 <= i < DRIVER_RULES@.len(),
    ensures
        is_driver_name(DRIVER_RULES@[i].1@),
{
}

proof fn lemma_driver_from(name: Seq<char>, i: int)
    requires
        0 <= i,
    ensures
        is_driver_name(driver_from(name, i)),
    decreases DRIVER_RULES@.len() - i,
{
    if i < DRIVER_RULES@.len() {
        lemma_rule_driver(i);
        lemma_driver_from(name, i + 1);
    }
}

proof fn lemma_other_heads(name: Seq<char>)
    requires
        name.len() > 0,
    ensures
        forall|k: int|
            0 <= k < DRIVER_RULES@.len() && head_of_rule(k) != name[0] ==> !text::starts(
                name,
                #[trigger] DRIVER_RULES@[k].0@,
            ),
{
    assert forall|k: int|
        0 <= k < DRIVER_RULES@.len() && head_of_rule(k) != name[0] implies !text::starts(
        name,
        #[trigger] DRIVER_RULES@[k].0@,
    ) by {
        lemma_head_of_rule(k);
        lemma_apart(name, DRIVER_RULES@[k].0@, 0);
    }
}

proof fn lemma_nuvoton_names(d: Seq<char>)
    requires
        d == "nct6683"@ || d == "nct6687"@ || d == "nct6775"@,
    ensures
        driver_of(d) == d,
{
    reveal_strlit("nct5");
    reveal_strlit("nct6");
    reveal_strlit("nct6683");
    reveal_strlit("nct6686");
    reveal_strlit("nct6687");
    reveal_strlit("nct6775");
    assert(text::lower(d) =~= d);
    lemma_other_heads(d);
    if d == "nct6683"@ {
        assert(d.subrange(0, 7) =~= "nct6683"@);
        lemma_first_rule(d, 0, 0);
    } else if d == "nct6687"@ {
        lemma_apart(d, "nct6683"@, 6);
        lemma_apart(d, "nct6686"@, 6);
        assert(d.subrange(0, 7) =~= "nct6687"@);
        lemma_first_rule(d, 0, 2);
    } else if d == "nct6775"@ {
        lemma_apart(d, "nct6683"@, 4);
        lemma_apart(d, "nct6686"@, 4);
        lemma_apart(d, "nct6687"@, 4);
        assert(d.subrange(0, 4) =~= "nct6"@);
        lemma_first_rule(d, 0, 3);
    }
}

proof fn lemma_ite_names(d: Seq<char>)
    requires
        d == "it87"@,
    ensures
        driver_of(d) == d,
{
    reveal_strlit("it8");
    reveal_strlit("it87");
    assert(text::lower(d) =~= d);
    lemma_other_heads(d);
    if d == "it87"@ {
        assert(d.subrange(0, 3) =~= "it8"@);
        lemma_first_rule(d, 0, 5);
    }
}

proof fn lemma_fintek_names(d: Seq<char>)
    requires
        d == "f71805f"@ || d == "f71882fg"@,
    ensures
        driver_of(d) == d,
{
    reveal_strlit("f718");
    reveal_strlit("f71805");
    reveal_strlit("f71805f");
    reveal_strlit("f71806");
    reveal_strlit("f71872");
    reveal_strlit("f71882fg");
    reveal_strlit("f8000");
    reveal_strlit("f818");
    assert(text::lower(d) =~= d);
    lemma_other_heads(d);
    if d == "f71805f"@ {
        assert(d.subrange(0, 6) =~= "f71805"@);
        lemma_first_rule(d, 0, 6);
    } else if d == "f71882fg"@ {
        lemma_apart(d, "f71805"@, 4);
        lemma_apart(d, "f71806"@, 4);
        lemma_apart(d, "f71872"@, 4);
        assert(d.subrange(0, 4) =~= "f718"@);
        lemma_first_rule(d, 0, 9);
    }
}

proof fn lemma_winbond_names(d: Seq<char>)
    requires
        d == "w83627ehf"@ || d == "w83627hf"@,
    ensures
        driver_of(d) == d,
{
    reveal_strlit("w83627dhg");
    reveal_strlit("w83627ehf");
    reveal_strlit("w83627hf");
    reveal_strlit("w83627thf");
    reveal_strlit("w83627uhg");
    reveal_strlit("w83637hf");
    reveal_strlit("w83667hg");
    reveal_strlit("w83687thf");
    reveal_strlit("w83697hf");
    assert(text::lower(d) =~= d);
    lemma_other_heads(d);
    if d == "w83627ehf"@ {
        assert(d.subrange(0, 9) =~= "w83627ehf"@);
        lemma_first_rule(d, 0, 12);
    } else if d == "w83627hf"@ {
        lemma_apart(d, "w83627ehf"@, 6);
        lemma_apart(d, "w83627dhg"@, 6);
        lemma_apart(d, "w83627uhg"@, 6);
        lemma_apart(d, "w83667hg"@, 4);
        assert(d.subrange(0, 8) =~= "w83627hf"@);
        lemma_first_rule(d, 0, 16);
    }
}

proof fn lemma_smsc_names(d: Seq<char>)
    requires
        d == "smsc47b397"@ || d == "smsc47m1"@ || d == "sch5627"@ || d == "sch5636"@,
    ensures
        driver_of(d) == d,
{
    reveal_strlit("sch311");
    reveal_strlit("sch5027");
    reveal_strlit("sch5127");
    reveal_strlit("sch5307");
    reveal_strlit("sch5317");
    reveal_strlit("sch5627");
    reveal_strlit("sch5636");
    reveal_strlit("smsc47b397");
    reveal_strlit("smsc47m");
    reveal_strlit("smsc47m1");
    assert(text::lower(d) =~= d);
    lemma_other_heads(d);
    if d == "smsc47b397"@ {
        assert(d.subrange(0, 10) =~= "smsc47b397"@);
        lemma_first_rule(d, 0, 21);
    } else if d == "smsc47m1"@ {
        lemma_apart(d, "smsc47b397"@, 6);
        lemma_apart(d, "sch5307"@, 1);
        lemma_apart(d, "sch5317"@, 1);
        assert(d.subrange(0, 7) =~= "smsc47m"@);
        lemma_first_rule(d, 0, 24);
    } else if d == "sch5627"@ {
        lemma_apart(d, "smsc47b397"@, 1);
        lemma_apart(d, "sch5307"@, 4);
        lemma_apart(d, "sch5317"@, 4);
        lemma_apart(d, "smsc47m"@, 1);
        lemma_apart(d, "sch311"@, 3);
        lemma_apart(d, "sch5027"@, 4);
        lemma_apart(d, "sch5127"@, 4);
        assert(d.subrange(0, 7) =~= "sch5627"@);
        lemma_first_rule(d, 0, 29);
    } else if d == "sch5636"@ {
        lemma_apart(d, "smsc47b397"@, 1);
        lemma_apart(d, "sch5307"@, 4);
        lemma_apart(d, "sch5317"@, 4);
        lemma_apart(d, "smsc47m"@, 1);
        lemma_apart(d, "sch311"@, 3);
        lemma_apart(d, "sch5027"@, 4);
        lemma_apart(d, "sch5127"@, 4);
        lemma_apart(d, "sch5627"@, 5);
        assert(d.subrange(0, 7) =~= "sch5636"@);
        lemma_first_rule(d, 0, 30);
    }
}

proof fn lemma_dme_names(d: Seq<char>)
    requires
        d == "dme1737"@,
    ensures
        driver_of(d) == d,
{
    reveal_strlit("dme1737");
    assert(text::lower(d) =~= d);
    lemma_other_heads(d);
    if d == "dme1737"@ {
        assert(d.subrange(0, 7) =~= "dme1737"@);
        lemma_first_rule(d, 0, 25);
    }
}

proof fn lemma_national_names(d: Seq<char>)
    requires
        d == "pc87360"@ || d == "pc87427"@,
    ensures
        driver_of(d) == d,
{
    reveal_strlit("pc8736");
    reveal_strlit("pc87360");
    reveal_strlit("pc87427");
    assert(text::lower(d) =~= d);
    lemma_other_heads(d);
    if d == "pc87360"@ {
        assert(d.subrange(0, 6) =~= "pc8736"@);
        lemma_first_rule(d, 0, 31);
    } else if d == "pc87427"@ {
        lemma_apart(d, "pc8736"@, 4);
        assert(d.subrange(0, 7) =~= "pc87427"@);
        lemma_first_rule(d, 0, 32);
    }
}

proof fn lemma_unknown_names(d: Seq<char>)
    requires
        d == "unknown"@,
    ensures
        driver_of(d) == d,
{
    reveal_strlit("unknown");
    assert(text::lower(d) =~= d);
    lemma_other_heads(d);
    if d == "unknown"@ {
        lemma_no_rule(d, 0);
    }
}

/// The driver of a chip is named after itself: looking up the name of a driver, or
/// `unknown`, gives that name.
pub proof fn driver_names_stand_for_themselves(chip_name: Seq<char>)
    ensures
        driver_of(driver_of(chip_name)) == driver_of(chip_name),
{
    let d = driver_of(chip_name);
    lemma_driver_from(text::lower(chip_name), 0);
    if d == "nct6683"@ || d == "nct6687"@ || d == "nct6775"@ {
        lemma_nuvoton_names(d);
    } else if d == "it87"@ {
        lemma_ite_names(d);
    } else if d == "f71805f"@ || d == "f71882fg"@ {
        lemma_fintek_names(d);
    } else if d == "w83627ehf"@ || d == "w83627hf"@ {
        lemma_winbond_names(d);
    } else if d == "smsc47b397"@ || d == "smsc47m1"@ || d == "sch5627"@ || d == "sch5636"@ {
        lemma_smsc_names(d);
    } else if d == "dme1737"@ {
        lemma_dme_names(d);
    } else if d == "pc87360"@ || d == "pc87427"@ {
        lemma_national_names(d);
    } else {
        lemma_unknown_names(d);
    }
}

/// Which of the ASCII letters of a chip name are capitals plays no part, whatever else
/// stands in the name.
pub proof fn the_case_of_a_chip_name_plays_no_part(chip_name: Seq<char>)
    ensures
        driver_of(text::ascii_upper(chip_name)) == driver_of(chip_name),
        driver_of(text::ascii_lower(chip_name)) == driver_of(chip_name),
        in_mainline(text::ascii_upper(chip_name)) == in_mainline(chip_name),
        in_mainline(text::ascii_lower(chip_name)) == in_mainline(chip_name),
{
    text::lower_forgets_case(chip_name);
}

/// Whether a name is one of the ITE chips that the board table names.
spec fn is_table_chip(name: Seq<char>) -> bool {
    ||| name == "it8696"@
    ||| name == "it8689"@
    ||| name == "it8688"@
    ||| name == "it8686"@
    ||| name == "it87952"@
    ||| name == "it8792"@
}

proof fn lemma_table_chip(name: Seq<char>)
    requires
        is_table_chip(name),
    ensures
        driver_of(name) == "it87"@,
{
    reveal_strlit("it8696");
    reveal_strlit("it8689");
    reveal_strlit("it8688");
    reveal_strlit("it8686");
    reveal_strlit("it87952");
    reveal_strlit("it8792");
    it8_names_are_ite(name);
}

proof fn lemma_table_row(i: int)
    requires
        0 <= i < GIGABYTE_DUAL_CHIP_BOARDS@.len(),
    ensures
        is_table_chip(GIGABYTE_DUAL_CHIP_BOARDS@[i].1@),
        GIGABYTE_DUAL_CHIP_BOARDS@[i].2@ == ""@ || is_table_chip(
            GIGABYTE_DUAL_CHIP_BOARDS@[i].2@,
        ),
{
}

/// The board table is ITE-only: whatever board it knows, every chip it expects there
/// is driven by `it87`. So a known board is an ITE-only board, and the module guard
/// that goes by the table never keeps a board from its own driver.
pub proof fn known_boards_are_ite_only(vendor: Seq<char>, name: Seq<char>)
    ensures
        all_ite(board_chips(vendor, name)),
        board_chips(vendor, name).len() <= 2,
{
    lemma_board_chips_ite(text::upper(name), 0);
}

proof fn lemma_board_chips_ite(board: Seq<char>, i: int)
    requires
        0 <= i,
    ensures
        all_ite(board_chips_from(board, i)),
        board_chips_from(board, i).len() <= 2,
    decreases GIGABYTE_DUAL_CHIP_BOARDS@.len() - i,
{
    if i < GIGABYTE_DUAL_CHIP_BOARDS@.len() {
        if text::holds(board, GIGABYTE_DUAL_CHIP_BOARDS@[i].0@) {
            lemma_table_row(i);
            reveal_strlit("");
            lemma_table_chip(GIGABYTE_DUAL_CHIP_BOARDS@[i].1@);
            if GIGABYTE_DUAL_CHIP_BOARDS@[i].2@ != ""@ {
                lemma_table_chip(GIGABYTE_DUAL_CHIP_BOARDS@[i].2@);
            }
        } else {
            lemma_board_chips_ite(board, i + 1);
        }
    }
}

/// Two modules collide with each other or not at all.
pub proof fn collisions_are_mutual(a: Seq<char>, b: Seq<char>)
    ensures
        collision_partner(a) == Some(b) <==> collision_partner(b) == Some(a),
{
    reveal_strlit("nct6687");
    reveal_strlit("nct6775");
    assert("nct6687"@[4] != "nct6775"@[4]);
}

/// The conflicts of more lines come behind those of the first ones, and a line without a
/// claim of ACPI's has none.
pub proof fn conflicts_are_told_line_by_line(a: Seq<Seq<char>>, b: Seq<Seq<char>>)
    ensures
        acpi_conflicts(a + b) == acpi_conflicts(a) + acpi_conflicts(b),
        a.len() == 1 && acpi_claim(a[0]) is None ==> acpi_conflicts(a).len() == 0,
    decreases b.len(),
{
    if b.len() == 0 {
        assert(a + b =~= a);
        assert(acpi_conflicts(a) + acpi_conflicts(b) =~= acpi_conflicts(a));
    } else {
        conflicts_are_told_line_by_line(a, b.drop_last());
        assert((a + b).drop_last() =~= a + b.drop_last());
        assert(acpi_conflicts(a + b) =~= acpi_conflicts(a) + acpi_conflicts(b));
    }
    if a.len() == 1 {
        assert(a.drop_last() =~= Seq::<Seq<char>>::empty());
        assert(acpi_conflicts(Seq::<Seq<char>>::empty()).len() == 0);
    }
}

proof fn lemma_claim_conflicts(c: AcpiClaim)
    ensures
        claim_conflicts(c, 6) == claim_conflicts(c, SIO_IO_RANGES@.len() as int),
        claim_conflicts(c, 6).len() == (if c.first <= 0x0299 && 0x0290 <= c.last {
            1int
        } else {
            0
        }) + (if c.first <= 0x04EF && 0x04E0 <= c.last {
            1int
        } else {
            0
        }) + (if c.first <= 0x029F && 0x0290 <= c.last {
            1int
        } else {
            0
        }) + (if c.first <= 0x0A2F && 0x0A20 <= c.last {
            1int
        } else {
            0
        }) + (if c.first <= 0x0A4F && 0x0A40 <= c.last {
            1int
        } else {
            0
        }) + (if c.first <= 0x0A6F && 0x0A60 <= c.last {
            1int
        } else {
            0
        }),
        forall|k: int|
            0 <= k < claim_conflicts(c, 6).len() ==> {
                let e = #[trigger] claim_conflicts(c, 6)[k];
                &&& e.io_range == c.range
                &&& e.claimed_by == c.claimant
                &&& e.conflicts_with_driver == "nct6775"@ || e.conflicts_with_driver == "it87"@
                &&& e.conflicts_with_driver == "nct6775"@ ==> (c.first <= 0x0299 && 0x0290
                    <= c.last) || (c.first <= 0x04EF && 0x04E0 <= c.last)
                &&& e.conflicts_with_driver == "it87"@ ==> (c.first <= 0x029F && 0x0290 <= c.last)
                    || (c.first <= 0x0A2F && 0x0A20 <= c.last) || (c.first <= 0x0A4F && 0x0A40
                    <= c.last) || (c.first <= 0x0A6F && 0x0A60 <= c.last)
            },
        (c.first <= 0x0299 && 0x0290 <= c.last) || (c.first <= 0x04EF && 0x04E0 <= c.last)
            ==> claim_conflicts(c, 6).contains(conflict_of(c, "nct6775"@)),
        (c.first <= 0x029F && 0x0290 <= c.last) || (c.first <= 0x0A2F && 0x0A20 <= c.last) || (
        c.first <= 0x0A4F && 0x0A40 <= c.last) || (c.first <= 0x0A6F && 0x0A60 <= c.last)
            ==> claim_conflicts(c, 6).contains(conflict_of(c, "it87"@)),
{
    reveal_strlit("nct6775");
    reveal_strlit("it87");
    assert("nct6775"@[0] != "it87"@[0]);
    let s0 = claim_conflicts(c, 0);
    let s1 = claim_conflicts(c, 1);
    let s2 = claim_conflicts(c, 2);
    let s3 = claim_conflicts(c, 3);
    let s4 = claim_conflicts(c, 4);
    let s5 = claim_conflicts(c, 5);
    let s6 = claim_conflicts(c, 6);
    assert(s0.len() == 0);
    let n = conflict_of(c, "nct6775"@);
    let t = conflict_of(c, "it87"@);
    assert(s1 == (if c.first <= 0x0299 && 0x0290 <= c.last {
        s0.push(n)
    } else {
        s0
    }));
    assert(s2 == (if c.first <= 0x04EF && 0x04E0 <= c.last {
        s1.push(n)
    } else {
        s1
    }));
    assert(s3 == (if c.first <= 0x029F && 0x0290 <= c.last {
        s2.push(t)
    } else {
        s2
    }));
    assert(s4 == (if c.first <= 0x0A2F && 0x0A20 <= c.last {
        s3.push(t)
    } else {
        s3
    }));
    assert(s5 == (if c.first <= 0x0A4F && 0x0A40 <= c.last {
        s4.push(t)
    } else {
        s4
    }));
    assert(s6 == (if c.first <= 0x0A6F && 0x0A60 <= c.last {
        s5.push(t)
    } else {
        s5
    }));
    assert(s2.len() > 0 ==> s6[0] == n && s6.len() > 0);
    assert(s6.len() > s2.len() ==> s6[s6.len() - 1] == t);
}

/// A claim that conflicts with a driver, as it is reported.
pub open spec fn conflict_of(c: AcpiClaim, driver: Seq<char>) -> AcpiConflictView {
    AcpiConflictView { io_range: c.range, claimed_by: c.claimant, conflicts_with_driver: driver }
}

/// A line with one claim gives as many conflicts as there are port ranges of chips that
/// the claim overlaps.
pub proof fn a_claim_is_held_against_every_range(line: Seq<char>)
    ensures
        acpi_claim(line) matches Some(c) ==> acpi_conflicts(seq![line]).len() == (if c.first
            <= 0x0299 && 0x0290 <= c.last {
            1int
        } else {
            0
        }) + (if c.first <= 0x04EF && 0x04E0 <= c.last {
            1int
        } else {
            0
        }) + (if c.first <= 0x029F && 0x0290 <= c.last {
            1int
        } else {
            0
        }) + (if c.first <= 0x0A2F && 0x0A20 <= c.last {
            1int
        } else {
            0
        }) + (if c.first <= 0x0A4F && 0x0A40 <= c.last {
            1int
        } else {
            0
        }) + (if c.first <= 0x0A6F && 0x0A60 <= c.last {
            1int
        } else {
            0
        }),
{
    let ls = seq![line];
    assert(ls.drop_last() =~= Seq::<Seq<char>>::empty());
    assert(acpi_conflicts(Seq::<Seq<char>>::empty()).len() == 0);
    if acpi_claim(line) is Some {
        lemma_claim_conflicts(acpi_claim(line)->0);
    }
}

/// Every claim that overlaps the ports of a chip is reported with the chip's driver: those
/// of `nct6775` at 0290 and 04e0, those of `it87` at 0290, 0a20, 0a40 and 0a60.
pub proof fn every_overlap_is_reported(ls: Seq<Seq<char>>, i: int)
    requires
        0 <= i < ls.len(),
        acpi_claim(ls[i]) is Some,
    ensures
        ({
            let c = acpi_claim(ls[i])->0;
            &&& (c.first <= 0x0299 && 0x0290 <= c.last) || (c.first <= 0x04EF && 0x04E0 <= c.last)
                ==> acpi_conflicts(ls).contains(
                (AcpiConflictView {
                    io_range: c.range,
                    claimed_by: c.claimant,
                    conflicts_with_driver: "nct6775"@,
                }),
            )
            &&& (c.first <= 0x029F && 0x0290 <= c.last) || (c.first <= 0x0A2F && 0x0A20 <= c.last)
                || (c.first <= 0x0A4F && 0x0A40 <= c.last) || (c.first <= 0x0A6F && 0x0A60
                <= c.last) ==> acpi_conflicts(ls).contains(
                (AcpiConflictView {
                    io_range: c.range,
                    claimed_by: c.claimant,
                    conflicts_with_driver: "it87"@,
                }),
            )
        }),
    decreases ls.len(),
{
    let c = acpi_claim(ls[i])->0;
    let front = ls.drop_last();
    let before = acpi_conflicts(front);
    let all = acpi_conflicts(ls);
    if i < front.len() {
        every_overlap_is_reported(front, i);
        assert(front[i] == ls[i]);
        assert forall|e: AcpiConflictView| #[trigger] before.contains(e) implies all.contains(
            e,
        ) by {
            let k = choose|k: int| 0 <= k < before.len() && before[k] == e;
            assert(all[k] == e);
        }
    } else {
        lemma_claim_conflicts(c);
        let own = claim_conflicts(c, 6);
        assert(all == before + own);
        assert forall|e: AcpiConflictView| #[trigger] own.contains(e) implies all.contains(e) by {
            let k = choose|k: int| 0 <= k < own.len() && own[k] == e;
            assert(all[before.len() + k] == e);
        }
    }
}

/// Whether a line claims, for ACPI, ports that a reported conflict is about.
pub open spec fn is_told_by(e: AcpiConflictView, line: Seq<char>) -> bool {
    acpi_claim(line) matches Some(c) && c.range == e.io_range && c.claimant == e.claimed_by && {
        ||| e.conflicts_with_driver == "nct6775"@ && ((c.first <= 0x0299 && 0x0290 <= c.last) || (
        c.first <= 0x04EF && 0x04E0 <= c.last))
        ||| e.conflicts_with_driver == "it87"@ && ((c.first <= 0x029F && 0x0290 <= c.last) || (
        c.first <= 0x0A2F && 0x0A20 <= c.last) || (c.first <= 0x0A4F && 0x0A40 <= c.last) || (
        c.first <= 0x0A6F && 0x0A60 <= c.last))
    }
}

/// Nothing is reported but claims of ACPI's on the ports of a chip.
pub proof fn each_report_is_an_overlap(ls: Seq<Seq<char>>, k: int)
    requires
        0 <= k < acpi_conflicts(ls).len(),
    ensures
        exists|i: int| 0 <= i < ls.len() && is_told_by(acpi_conflicts(ls)[k], #[trigger] ls[i]),
    decreases ls.len(),
{
    let front = ls.drop_last();
    let before = acpi_conflicts(front);
    let all = acpi_conflicts(ls);
    if k < before.len() {
        each_report_is_an_overlap(front, k);
        let i = choose|i: int| 0 <= i < front.len() && is_told_by(before[k], #[trigger] front[i]);
        assert(all[k] == before[k]);
        assert(ls[i] == front[i]);
    } else {
        let c = acpi_claim(ls.last())->0;
        lemma_claim_conflicts(c);
        assert(all[k] == claim_conflicts(c, 6)[k - before.len()]);
        assert(is_told_by(all[k], ls[ls.len() - 1]));
    }
}

/// A line of the kernel's that states a claim is read as that claim: the ports, the text of
/// the range and the claimant. A line that does not speak of ACPI states none.
pub proof fn a_stated_claim_is_read(
    lead: Seq<char>,
    first: u16,
    last: u16,
    claimant: Seq<char>,
    trail: Seq<char>,
)
    requires
        text::is_blank(lead),
        text::is_blank(trail),
        claimant.len() > 0,
        !text::is_white(claimant[0]),
        !text::is_white(claimant.last()),
        text::holds(claimant, "ACPI"@) || text::holds(claimant, "acpi"@),
    ensures
        ({
            let range = text::hex_digits(first as nat, 4) + "-"@ + text::hex_digits(
                last as nat,
                4,
            );
            acpi_claim(lead + (range + " : "@ + claimant) + trail) == Some(
                AcpiClaim { range, claimant, first: first as int, last: last as int },
            )
        }),
{
    let a = text::hex_digits(first as nat, 4);
    let b = text::hex_digits(last as nat, 4);
    let range = a + "-"@ + b;
    let t = range + " : "@ + claimant;
    lemma_four_digits(first);
    lemma_four_digits(last);
    lemma_range_text(a, b);
    lemma_claim_parts(range, claimant);
    text::trimming_takes_the_padding(lead, t, trail);
    assert(Seq::<char>::empty() + claimant + Seq::<char>::empty() =~= claimant);
    text::trimming_takes_the_padding(Seq::empty(), claimant, Seq::empty());
    reveal_strlit(" : ");
    assert(text::trimmed(lead + t + trail) == t);
    assert(text::pieces(range, '-')[0] == a);
    assert(text::pieces(range, '-')[1] == b);
}

proof fn lemma_four_digits(n: u16)
    ensures
        text::hex_digits(n as nat, 4).len() == 4,
        forall|i: int|
            0 <= i < 4 ==> #[trigger] text::digit_value(text::hex_digits(n as nat, 4)[i]) < 16,
        text::trimmed(text::hex_digits(n as nat, 4)) == text::hex_digits(n as nat, 4),
        text::parsed(text::hex_digits(n as nat, 4), 16, 0xFFFF) == Some(n as int),
{
    reveal_with_fuel(vstd::arithmetic::power::pow, 5);
    assert(vstd::arithmetic::power::pow(16, 4) == 65536);
    text::hex_digits_stand_for_the_number(n as nat, 4);
    lemma_hex_word(text::hex_digits(n as nat, 4));
}

proof fn lemma_range_text(a: Seq<char>, b: Seq<char>)
    requires
        a.len() == 4,
        b.len() == 4,
        forall|i: int| 0 <= i < 4 ==> #[trigger] text::digit_value(a[i]) < 16,
        forall|i: int| 0 <= i < 4 ==> #[trigger] text::digit_value(b[i]) < 16,
    ensures
        ({
            let range = a + "-"@ + b;
            &&& range.len() == 9
            &&& forall|i: int| 0 <= i < 9 ==> !text::is_white(#[trigger] range[i])
            &&& text::trimmed(range) == range
            &&& text::pieces(range, '-') == seq![a, b]
        }),
{
    reveal_strlit("-");
    let range = a + "-"@ + b;
    assert forall|i: int| 0 <= i < 9 implies !text::is_white(#[trigger] range[i]) by {
        if i < 4 {
            assert(text::digit_value(a[i]) < 16);
        } else if i > 4 {
            assert(text::digit_value(b[i - 5]) < 16);
        }
    }
    text::trimming_leaves_a_word(range);
    assert("-"@ =~= seq!['-']);
    assert(!a.contains('-')) by {
        if a.contains('-') {
            let i = choose|i: int| 0 <= i < a.len() && a[i] == '-';
            assert(text::digit_value(a[i]) < 16);
        }
    }
    assert(!b.contains('-')) by {
        if b.contains('-') {
            let i = choose|i: int| 0 <= i < b.len() && b[i] == '-';
            assert(text::digit_value(b[i]) < 16);
        }
    }
    text::pieces_of_joined(a, '-', b);
    text::pieces_of_joined(b, '-', a);
    assert(text::pieces(range, '-') =~= seq![a, b]);
}

proof fn lemma_claim_parts(range: Seq<char>, claimant: Seq<char>)
    requires
        range.len() == 9,
        forall|i: int| 0 <= i < 9 ==> !text::is_white(#[trigger] range[i]),
        claimant.len() > 0,
        text::holds(claimant, "ACPI"@) || text::holds(claimant, "acpi"@),
    ensures
        ({
            let t = range + " : "@ + claimant;
            &&& t[0] == range[0]
            &&& t.last() == claimant.last()
            &&& text::first_at(t, " : "@, 0) == 9
            &&& t.take(9) == range
            &&& t.skip(12) == claimant
            &&& text::holds(t, "ACPI"@) || text::holds(t, "acpi"@)
        }),
{
    reveal_strlit(" : ");
    let t = range + " : "@ + claimant;
    assert forall|k: int| 0 <= k < range.len() implies !text::matches_at(t, " : "@, k) by {
        if text::matches_at(t, " : "@, k) {
            assert(t.subrange(k, k + 3)[0] == t[k]);
            assert(t[k] == range[k]);
        }
    }
    text::a_search_stops_at_the_first_place(range, " : "@, claimant);
    assert(t.take(9) =~= range);
    assert(t.skip(12) =~= claimant);
    let pat = if text::holds(claimant, "ACPI"@) {
        "ACPI"@
    } else {
        "acpi"@
    };
    let k = choose|k: int| text::matches_at(claimant, pat, k);
    assert(t.subrange(12 + k, 12 + k + pat.len() as int) =~= claimant.subrange(
        k,
        k + pat.len() as int,
    ));
    assert(text::matches_at(t, pat, 12 + k));
}

proof fn lemma_hex_word(s: Seq<char>)
    requires
        s.len() == 4,
        forall|i: int| 0 <= i < s.len() ==> #[trigger] text::digit_value(s[i]) < 16,
    ensures
        text::trimmed(s) == s,
        text::parsed(s, 16, 0xFFFF) == (if text::digits_value(s, 16) <= 0xFFFF {
            Some(text::digits_value(s, 16))
        } else {
            None
        }),
{
    assert forall|i: int| 0 <= i < s.len() implies !text::is_white(#[trigger] s[i]) by {
        assert(text::digit_value(s[i]) < 16);
    }
    text::trimming_leaves_a_word(s);
    assert(text::digit_value(s[0]) < 16);
}

/// A line that does not speak of ACPI states no claim, whatever else it says.
pub proof fn only_acpi_claims_count(line: Seq<char>)
    ensures
        acpi_claim(line) is Some ==> text::holds(text::trimmed(line), "ACPI"@) || text::holds(
            text::trimmed(line),
            "acpi"@,
        ),
{
}

/// Whether row `m` of the driver table is the first whose prefix a name begins with, so
/// that it decides; the length of the table where there is none.
spec fn is_row_of(l: Seq<char>, m: int) -> bool {
    &&& 0 <= m <= DRIVER_RULES@.len()
    &&& forall|k: int| 0 <= k < m ==> !text::starts(l, #[trigger] DRIVER_RULES@[k].0@)
    &&& m < DRIVER_RULES@.len() ==> text::starts(l, DRIVER_RULES@[m].0@) && driver_from(l, 0)
        == DRIVER_RULES@[m].1@
    &&& m == DRIVER_RULES@.len() ==> driver_from(l, 0) == "unknown"@
}

proof fn lemma_row_of(l: Seq<char>, i: int) -> (m: int)
    requires
        0 <= i <= DRIVER_RULES@.len(),
        forall|k: int| 0 <= k < i ==> !text::starts(l, #[trigger] DRIVER_RULES@[k].0@),
        driver_from(l, 0) == driver_from(l, i),
    ensures
        is_row_of(l, m),
    decreases DRIVER_RULES@.len() - i,
{
    if i == DRIVER_RULES@.len() || text::starts(l, DRIVER_RULES@[i].0@) {
        i
    } else {
        lemma_row_of(l, i + 1)
    }
}

proof fn lemma_prefixes_agree(l: Seq<char>, p: Seq<char>, q: Seq<char>)
    requires
        text::starts(l, p),
        text::starts(l, q),
    ensures
        forall|k: int| 0 <= k < p.len() && k < q.len() ==> p[k] == #[trigger] q[k],
{
    assert forall|k: int| 0 <= k < p.len() && k < q.len() implies p[k] == #[trigger] q[k] by {
        assert(l.subrange(0, p.len() as int)[k] == l[k]);
        assert(l.subrange(0, q.len() as int)[k] == l[k]);
    }
}

/// The rows of the driver table, one by one.
proof fn lemma_row_facts(m: int)
    ensures
        0 <= m <= DRIVER_RULES@.len() ==> 0 <= m <= 33,
        m == 0 ==> DRIVER_RULES@[m].0@ == "nct6683"@ && DRIVER_RULES@[m].1@ == "nct6683"@,
        m == 1 ==> DRIVER_RULES@[m].0@ == "nct6686"@ && DRIVER_RULES@[m].1@ == "nct6687"@,
        m == 2 ==> DRIVER_RULES@[m].0@ == "nct6687"@ && DRIVER_RULES@[m].1@ == "nct6687"@,
        m == 3 ==> DRIVER_RULES@[m].0@ == "nct6"@ && DRIVER_RULES@[m].1@ == "nct6775"@,
        m == 4 ==> DRIVER_RULES@[m].0@ == "nct5"@ && DRIVER_RULES@[m].1@ == "nct6775"@,
        m == 5 ==> DRIVER_RULES@[m].0@ == "it8"@ && DRIVER_RULES@[m].1@ == "it87"@,
        m == 6 ==> DRIVER_RULES@[m].0@ == "f71805"@ && DRIVER_RULES@[m].1@ == "f71805f"@,
        m == 7 ==> DRIVER_RULES@[m].0@ == "f71806"@ && DRIVER_RULES@[m].1@ == "f71805f"@,
        m == 8 ==> DRIVER_RULES@[m].0@ == "f71872"@ && DRIVER_RULES@[m].1@ == "f71805f"@,
        m == 9 ==> DRIVER_RULES@[m].0@ == "f718"@ && DRIVER_RULES@[m].1@ == "f71882fg"@,
        m == 10 ==> DRIVER_RULES@[m].0@ == "f8000"@ && DRIVER_RULES@[m].1@ == "f71882fg"@,
        m == 11 ==> DRIVER_RULES@[m].0@ == "f818"@ && DRIVER_RULES@[m].1@ == "f71882fg"@,
        m == 12 ==> DRIVER_RULES@[m].0@ == "w83627ehf"@ && DRIVER_RULES@[m].1@ == "w83627ehf"@,
        m == 13 ==> DRIVER_RULES@[m].0@ == "w83627dhg"@ && DRIVER_RULES@[m].1@ == "w83627ehf"@,
        m == 14 ==> DRIVER_RULES@[m].0@ == "w83627uhg"@ && DRIVER_RULES@[m].1@ == "w83627ehf"@,
        m == 15 ==> DRIVER_RULES@[m].0@ == "w83667hg"@ && DRIVER_RULES@[m].1@ == "w83627ehf"@,
        m == 16 ==> DRIVER_RULES@[m].0@ == "w83627hf"@ && DRIVER_RULES@[m].1@ == "w83627hf"@,
        m == 17 ==> DRIVER_RULES@[m].0@ == "w83627thf"@ && DRIVER_RULES@[m].1@ == "w83627hf"@,
        m == 18 ==> DRIVER_RULES@[m].0@ == "w83637hf"@ && DRIVER_RULES@[m].1@ == "w83627hf"@,
        m == 19 ==> DRIVER_RULES@[m].0@ == "w83687thf"@ && DRIVER_RULES@[m].1@ == "w83627hf"@,
        m == 20 ==> DRIVER_RULES@[m].0@ == "w83697hf"@ && DRIVER_RULES@[m].1@ == "w83627hf"@,
        m == 21 ==> DRIVER_RULES@[m].0@ == "smsc47b397"@ && DRIVER_RULES@[m].1@ == "smsc47b397"@,
        m == 22 ==> DRIVER_RULES@[m].0@ == "sch5307"@ && DRIVER_RULES@[m].1@ == "smsc47b397"@,
        m == 23 ==> DRIVER_RULES@[m].0@ == "sch5317"@ && DRIVER_RULES@[m].1@ == "smsc47b397"@,
        m == 24 ==> DRIVER_RULES@[m].0@ == "smsc47m"@ && DRIVER_RULES@[m].1@ == "smsc47m1"@,
        m == 25 ==> DRIVER_RULES@[m].0@ == "dme1737"@ && DRIVER_RULES@[m].1@ == "dme1737"@,
        m == 26 ==> DRIVER_RULES@[m].0@ == "sch311"@ && DRIVER_RULES@[m].1@ == "dme1737"@,
        m == 27 ==> DRIVER_RULES@[m].0@ == "sch5027"@ && DRIVER_RULES@[m].1@ == "dme1737"@,
        m == 28 ==> DRIVER_RULES@[m].0@ == "sch5127"@ && DRIVER_RULES@[m].1@ == "dme1737"@,
        m == 29 ==> DRIVER_RULES@[m].0@ == "sch5627"@ && DRIVER_RULES@[m].1@ == "sch5627"@,
        m == 30 ==> DRIVER_RULES@[m].0@ == "sch5636"@ && DRIVER_RULES@[m].1@ == "sch5636"@,
        m == 31 ==> DRIVER_RULES@[m].0@ == "pc8736"@ && DRIVER_RULES@[m].1@ == "pc87360"@,
        m == 32 ==> DRIVER_RULES@[m].0@ == "pc87427"@ && DRIVER_RULES@[m].1@ == "pc87427"@,
{
}

/// What tells the names of drivers apart: length, first and last letter.
proof fn lemma_driver_marks(d: Seq<char>)
    ensures
        d == "nct6683"@ ==> d.len() == 7 && d[0] == 'n' && d[6] == '3',
        d == "nct6687"@ ==> d.len() == 7 && d[0] == 'n' && d[6] == '7',
        d == "nct6775"@ ==> d.len() == 7 && d[0] == 'n' && d[6] == '5',
        d == "it87"@ ==> d.len() == 4 && d[0] == 'i' && d[3] == '7',
        d == "f71805f"@ ==> d.len() == 7 && d[0] == 'f' && d[6] == 'f',
        d == "f71882fg"@ ==> d.len() == 8 && d[0] == 'f' && d[7] == 'g',
        d == "w83627ehf"@ ==> d.len() == 9 && d[0] == 'w' && d[8] == 'f',
        d == "w83627hf"@ ==> d.len() == 8 && d[0] == 'w' && d[7] == 'f',
        d == "smsc47b397"@ ==> d.len() == 10 && d[0] == 's' && d[9] == '7',
        d == "smsc47m1"@ ==> d.len() == 8 && d[0] == 's' && d[7] == '1',
        d == "dme1737"@ ==> d.len() == 7 && d[0] == 'd' && d[6] == '7',
        d == "sch5627"@ ==> d.len() == 7 && d[0] == 's' && d[6] == '7',
        d == "sch5636"@ ==> d.len() == 7 && d[0] == 's' && d[6] == '6',
        d == "pc87360"@ ==> d.len() == 7 && d[0] == 'p' && d[6] == '0',
        d == "pc87427"@ ==> d.len() == 7 && d[0] == 'p' && d[6] == '7',
        d == "unknown"@ ==> d.len() == 7 && d[0] == 'u' && d[6] == 'n',
{
    reveal_strlit("nct6683");
    reveal_strlit("nct6687");
    reveal_strlit("nct6775");
    reveal_strlit("it87");
    reveal_strlit("f71805f");
    reveal_strlit("f71882fg");
    reveal_strlit("w83627ehf");
    reveal_strlit("w83627hf");
    reveal_strlit("smsc47b397");
    reveal_strlit("smsc47m1");
    reveal_strlit("dme1737");
    reveal_strlit("sch5627");
    reveal_strlit("sch5636");
    reveal_strlit("pc87360");
    reveal_strlit("pc87427");
    reveal_strlit("unknown");
}

/// A Nuvoton chip is driven by the driver of its family, and no other chip is: what its name begins
/// with decides, in either letter case.
pub proof fn nuvoton_chips_have_their_driver(chip_name: Seq<char>)
    ensures
        ({
            let l = text::lower(chip_name);
            &&& driver_of(chip_name) == "nct6683"@ <==> {
                ||| text::starts(l, "nct6683"@)
            }
            &&& driver_of(chip_name) == "nct6687"@ <==> {
                ||| text::starts(l, "nct6686"@)
                ||| text::starts(l, "nct6687"@)
            }
            &&& driver_of(chip_name) == "nct6775"@ <==> {
                ||| text::starts(l, "nct5"@)
                ||| text::starts(l, "nct6"@) && !text::starts(l, "nct6683"@) && !text::starts(
                    l,
                    "nct6686"@,
                ) && !text::starts(l, "nct6687"@)
            }
        }),
{
    let l = text::lower(chip_name);
    let m = lemma_row_of(l, 0);
    let d = driver_of(chip_name);
    lemma_driver_marks(d);
    let q = DRIVER_RULES@[m].0@;
    lemma_row_facts(m);
    reveal_strlit("nct6683");
    reveal_strlit("nct6686");
    reveal_strlit("nct6687");
    reveal_strlit("nct6");
    reveal_strlit("nct5");
    reveal_strlit("it8");
    reveal_strlit("f71805");
    reveal_strlit("f71806");
    reveal_strlit("f71872");
    reveal_strlit("f718");
    reveal_strlit("f8000");
    reveal_strlit("f818");
    reveal_strlit("w83627ehf");
    reveal_strlit("w83627dhg");
    reveal_strlit("w83627uhg");
    reveal_strlit("w83667hg");
    reveal_strlit("w83627hf");
    reveal_strlit("w83627thf");
    reveal_strlit("w83637hf");
    reveal_strlit("w83687thf");
    reveal_strlit("w83697hf");
    reveal_strlit("smsc47b397");
    reveal_strlit("sch5307");
    reveal_strlit("sch5317");
    reveal_strlit("smsc47m");
    reveal_strlit("dme1737");
    reveal_strlit("sch311");
    reveal_strlit("sch5027");
    reveal_strlit("sch5127");
    reveal_strlit("sch5627");
    reveal_strlit("sch5636");
    reveal_strlit("pc8736");
    reveal_strlit("pc87427");
    if text::starts(l, "nct6683"@) {
        assert(DRIVER_RULES@[0].0@ == "nct6683"@);
        lemma_prefixes_agree(l, "nct6683"@, q);
        assert(q.len() > 0 ==> q[0] == 'n');
        assert(q.len() > 3 ==> q[3] == '6');
        assert(q.len() > 6 ==> q[6] == '3');
    }
    if text::starts(l, "nct6686"@) {
        assert(DRIVER_RULES@[1].0@ == "nct6686"@);
        lemma_prefixes_agree(l, "nct6686"@, q);
        assert(q.len() > 0 ==> q[0] == 'n');
        assert(q.len() > 3 ==> q[3] == '6');
        assert(q.len() > 6 ==> q[6] == '6');
    }
    if text::starts(l, "nct6687"@) {
        assert(DRIVER_RULES@[2].0@ == "nct6687"@);
        lemma_prefixes_agree(l, "nct6687"@, q);
        assert(q.len() > 0 ==> q[0] == 'n');
        assert(q.len() > 3 ==> q[3] == '6');
        assert(q.len() > 6 ==> q[6] == '7');
    }
    if text::starts(l, "nct6"@) {
        assert(DRIVER_RULES@[3].0@ == "nct6"@);
        lemma_prefixes_agree(l, "nct6"@, q);
        assert(q.len() > 0 ==> q[0] == 'n');
    }
    if text::starts(l, "nct5"@) {
        assert(DRIVER_RULES@[4].0@ == "nct5"@);
        lemma_prefixes_agree(l, "nct5"@, q);
        assert(q.len() > 0 ==> q[0] == 'n');
        assert(q.len() > 3 ==> q[3] == '5');
    }
}

/// An ITE chip is driven by the driver of its family, and no other chip is: what its name begins
/// with decides, in either letter case.
pub proof fn ite_chips_have_their_driver(chip_name: Seq<char>)
    ensures
        ({
            let l = text::lower(chip_name);
            &&& driver_of(chip_name) == "it87"@ <==> {
                ||| text::starts(l, "it8"@)
            }
        }),
{
    let l = text::lower(chip_name);
    let m = lemma_row_of(l, 0);
    let d = driver_of(chip_name);
    lemma_driver_marks(d);
    let q = DRIVER_RULES@[m].0@;
    lemma_row_facts(m);
    reveal_strlit("nct6683");
    reveal_strlit("nct6686");
    reveal_strlit("nct6687");
    reveal_strlit("nct6");
    reveal_strlit("nct5");
    reveal_strlit("it8");
    reveal_strlit("f71805");
    reveal_strlit("f71806");
    reveal_strlit("f71872");
    reveal_strlit("f718");
    reveal_strlit("f8000");
    reveal_strlit("f818");
    reveal_strlit("w83627ehf");
    reveal_strlit("w83627dhg");
    reveal_strlit("w83627uhg");
    reveal_strlit("w83667hg");
    reveal_strlit("w83627hf");
    reveal_strlit("w83627thf");
    reveal_strlit("w83637hf");
    reveal_strlit("w83687thf");
    reveal_strlit("w83697hf");
    reveal_strlit("smsc47b397");
    reveal_strlit("sch5307");
    reveal_strlit("sch5317");
    reveal_strlit("smsc47m");
    reveal_strlit("dme1737");
    reveal_strlit("sch311");
    reveal_strlit("sch5027");
    reveal_strlit("sch5127");
    reveal_strlit("sch5627");
    reveal_strlit("sch5636");
    reveal_strlit("pc8736");
    reveal_strlit("pc87427");
    if text::starts(l, "it8"@) {
        assert(DRIVER_RULES@[5].0@ == "it8"@);
        lemma_prefixes_agree(l, "it8"@, q);
        assert(q.len() > 0 ==> q[0] == 'i');
    }
}

/// A Fintek chip is driven by the driver of its family, and no other chip is: what its name begins
/// with decides, in either letter case.
pub proof fn fintek_chips_have_their_driver(chip_name: Seq<char>)
    ensures
        ({
            let l = text::lower(chip_name);
            &&& driver_of(chip_name) == "f71805f"@ <==> {
                ||| text::starts(l, "f71805"@)
                ||| text::starts(l, "f71806"@)
                ||| text::starts(l, "f71872"@)
            }
            &&& driver_of(chip_name) == "f71882fg"@ <==> {
                ||| text::starts(l, "f8000"@)
                ||| text::starts(l, "f818"@)
                ||| text::starts(l, "f718"@) && !text::starts(l, "f71805"@) && !text::starts(
                    l,
                    "f71806"@,
                ) && !text::starts(l, "f71872"@)
            }
        }),
{
    let l = text::lower(chip_name);
    let m = lemma_row_of(l, 0);
    let d = driver_of(chip_name);
    lemma_driver_marks(d);
    let q = DRIVER_RULES@[m].0@;
    lemma_row_facts(m);
    reveal_strlit("nct6683");
    reveal_strlit("nct6686");
    reveal_strlit("nct6687");
    reveal_strlit("nct6");
    reveal_strlit("nct5");
    reveal_strlit("it8");
    reveal_strlit("f71805");
    reveal_strlit("f71806");
    reveal_strlit("f71872");
    reveal_strlit("f718");
    reveal_strlit("f8000");
    reveal_strlit("f818");
    reveal_strlit("w83627ehf");
    reveal_strlit("w83627dhg");
    reveal_strlit("w83627uhg");
    reveal_strlit("w83667hg");
    reveal_strlit("w83627hf");
    reveal_strlit("w83627thf");
    reveal_strlit("w83637hf");
    reveal_strlit("w83687thf");
    reveal_strlit("w83697hf");
    reveal_strlit("smsc47b397");
    reveal_strlit("sch5307");
    reveal_strlit("sch5317");
    reveal_strlit("smsc47m");
    reveal_strlit("dme1737");
    reveal_strlit("sch311");
    reveal_strlit("sch5027");
    reveal_strlit("sch5127");
    reveal_strlit("sch5627");
    reveal_strlit("sch5636");
    reveal_strlit("pc8736");
    reveal_strlit("pc87427");
    if text::starts(l, "f71805"@) {
        assert(DRIVER_RULES@[6].0@ == "f71805"@);
        lemma_prefixes_agree(l, "f71805"@, q);
        assert(q.len() > 0 ==> q[0] == 'f');
        assert(q.len() > 1 ==> q[1] == '7');
    }
    if text::starts(l, "f71806"@) {
        assert(DRIVER_RULES@[7].0@ == "f71806"@);
        lemma_prefixes_agree(l, "f71806"@, q);
        assert(q.len() > 0 ==> q[0] == 'f');
        assert(q.len() > 1 ==> q[1] == '7');
    }
    if text::starts(l, "f71872"@) {
        assert(DRIVER_RULES@[8].0@ == "f71872"@);
        lemma_prefixes_agree(l, "f71872"@, q);
        assert(q.len() > 0 ==> q[0] == 'f');
        assert(q.len() > 1 ==> q[1] == '7');
    }
    if text::starts(l, "f718"@) {
        assert(DRIVER_RULES@[9].0@ == "f718"@);
        lemma_prefixes_agree(l, "f718"@, q);
        assert(q.len() > 0 ==> q[0] == 'f');
    }
    if text::starts(l, "f8000"@) {
        assert(DRIVER_RULES@[10].0@ == "f8000"@);
        lemma_prefixes_agree(l, "f8000"@, q);
        assert(q.len() > 0 ==> q[0] == 'f');
        assert(q.len() > 1 ==> q[1] == '8');
    }
    if text::starts(l, "f818"@) {
        assert(DRIVER_RULES@[11].0@ == "f818"@);
        lemma_prefixes_agree(l, "f818"@, q);
        assert(q.len() > 0 ==> q[0] == 'f');
        assert(q.len() > 1 ==> q[1] == '8');
    }
}

/// A Winbond chip is driven by the driver of its family, and no other chip is: what its name begins
/// with decides, in either letter case.
pub proof fn winbond_chips_have_their_driver(chip_name: Seq<char>)
    ensures
        ({
            let l = text::lower(chip_name);
            &&& driver_of(chip_name) == "w83627ehf"@ <==> {
                ||| text::starts(l, "w83627ehf"@)
                ||| text::starts(l, "w83627dhg"@)
                ||| text::starts(l, "w83627uhg"@)
                ||| text::starts(l, "w83667hg"@)
            }
            &&& driver_of(chip_name) == "w83627hf"@ <==> {
                ||| text::starts(l, "w83627hf"@)
                ||| text::starts(l, "w83627thf"@)
                ||| text::starts(l, "w83637hf"@)
                ||| text::starts(l, "w83687thf"@)
                ||| text::starts(l, "w83697hf"@)
            }
        }),
{
    let l = text::lower(chip_name);
    let m = lemma_row_of(l, 0);
    let d = driver_of(chip_name);
    lemma_driver_marks(d);
    let q = DRIVER_RULES@[m].0@;
    lemma_row_facts(m);
    reveal_strlit("nct6683");
    reveal_strlit("nct6686");
    reveal_strlit("nct6687");
    reveal_strlit("nct6");
    reveal_strlit("nct5");
    reveal_strlit("it8");
    reveal_strlit("f71805");
    reveal_strlit("f71806");
    reveal_strlit("f71872");
    reveal_strlit("f718");
    reveal_strlit("f8000");
    reveal_strlit("f818");
    reveal_strlit("w83627ehf");
    reveal_strlit("w83627dhg");
    reveal_strlit("w83627uhg");
    reveal_strlit("w83667hg");
    reveal_strlit("w83627hf");
    reveal_strlit("w83627thf");
    reveal_strlit("w83637hf");
    reveal_strlit("w83687thf");
    reveal_strlit("w83697hf");
    reveal_strlit("smsc47b397");
    reveal_strlit("sch5307");
    reveal_strlit("sch5317");
    reveal_strlit("smsc47m");
    reveal_strlit("dme1737");
    reveal_strlit("sch311");
    reveal_strlit("sch5027");
    reveal_strlit("sch5127");
    reveal_strlit("sch5627");
    reveal_strlit("sch5636");
    reveal_strlit("pc8736");
    reveal_strlit("pc87427");
    if text::starts(l, "w83627ehf"@) {
        assert(DRIVER_RULES@[12].0@ == "w83627ehf"@);
        lemma_prefixes_agree(l, "w83627ehf"@, q);
        assert(q.len() > 0 ==> q[0] == 'w');
        assert(q.len() > 4 ==> q[4] == '2');
        assert(q.len() > 6 ==> q[6] == 'e');
    }
    if text::starts(l, "w83627dhg"@) {
        assert(DRIVER_RULES@[13].0@ == "w83627dhg"@);
        lemma_prefixes_agree(l, "w83627dhg"@, q);
        assert(q.len() > 0 ==> q[0] == 'w');
        assert(q.len() > 4 ==> q[4] == '2');
        assert(q.len() > 6 ==> q[6] == 'd');
    }
    if text::starts(l, "w83627uhg"@) {
        assert(DRIVER_RULES@[14].0@ == "w83627uhg"@);
        lemma_prefixes_agree(l, "w83627uhg"@, q);
        assert(q.len() > 0 ==> q[0] == 'w');
        assert(q.len() > 4 ==> q[4] == '2');
        assert(q.len() > 6 ==> q[6] == 'u');
    }
    if text::starts(l, "w83667hg"@) {
        assert(DRIVER_RULES@[15].0@ == "w83667hg"@);
        lemma_prefixes_agree(l, "w83667hg"@, q);
        assert(q.len() > 0 ==> q[0] == 'w');
        assert(q.len() > 4 ==> q[4] == '6');
    }
    if text::starts(l, "w83627hf"@) {
        assert(DRIVER_RULES@[16].0@ == "w83627hf"@);
        lemma_prefixes_agree(l, "w83627hf"@, q);
        assert(q.len() > 0 ==> q[0] == 'w');
        assert(q.len() > 4 ==> q[4] == '2');
        assert(q.len() > 6 ==> q[6] == 'h');
    }
    if text::starts(l, "w83627thf"@) {
        assert(DRIVER_RULES@[17].0@ == "w83627thf"@);
        lemma_prefixes_agree(l, "w83627thf"@, q);
        assert(q.len() > 0 ==> q[0] == 'w');
        assert(q.len() > 4 ==> q[4] == '2');
        assert(q.len() > 6 ==> q[6] == 't');
    }
    if text::starts(l, "w83637hf"@) {
        assert(DRIVER_RULES@[18].0@ == "w83637hf"@);
        lemma_prefixes_agree(l, "w83637hf"@, q);
        assert(q.len() > 0 ==> q[0] == 'w');
        assert(q.len() > 4 ==> q[4] == '3');
    }
    if text::starts(l, "w83687thf"@) {
        assert(DRIVER_RULES@[19].0@ == "w83687thf"@);
        lemma_prefixes_agree(l, "w83687thf"@, q);
        assert(q.len() > 0 ==> q[0] == 'w');
        assert(q.len() > 4 ==> q[4] == '8');
    }
    if text::starts(l, "w83697hf"@) {
        assert(DRIVER_RULES@[20].0@ == "w83697hf"@);
        lemma_prefixes_agree(l, "w83697hf"@, q);
        assert(q.len() > 0 ==> q[0] == 'w');
        assert(q.len() > 4 ==> q[4] == '9');
    }
}

/// An SMSC chip is driven by the driver of its family, and no other chip is: what its name begins
/// with decides, in either letter case.
pub proof fn smsc_chips_have_their_driver(chip_name: Seq<char>)
    ensures
        ({
            let l = text::lower(chip_name);
            &&& driver_of(chip_name) == "smsc47b397"@ <==> {
                ||| text::starts(l, "smsc47b397"@)
                ||| text::starts(l, "sch5307"@)
                ||| text::starts(l, "sch5317"@)
            }
            &&& driver_of(chip_name) == "smsc47m1"@ <==> {
                ||| text::starts(l, "smsc47m"@)
            }
            &&& driver_of(chip_name) == "dme1737"@ <==> {
                ||| text::starts(l, "dme1737"@)
                ||| text::starts(l, "sch311"@)
                ||| text::starts(l, "sch5027"@)
                ||| text::starts(l, "sch5127"@)
            }
            &&& driver_of(chip_name) == "sch5627"@ <==> {
                ||| text::starts(l, "sch5627"@)
            }
            &&& driver_of(chip_name) == "sch5636"@ <==> {
                ||| text::starts(l, "sch5636"@)
            }
        }),
{
    let l = text::lower(chip_name);
    let m = lemma_row_of(l, 0);
    let d = driver_of(chip_name);
    lemma_driver_marks(d);
    let q = DRIVER_RULES@[m].0@;
    lemma_row_facts(m);
    reveal_strlit("nct6683");
    reveal_strlit("nct6686");
    reveal_strlit("nct6687");
    reveal_strlit("nct6");
    reveal_strlit("nct5");
    reveal_strlit("it8");
    reveal_strlit("f71805");
    reveal_strlit("f71806");
    reveal_strlit("f71872");
    reveal_strlit("f718");
    reveal_strlit("f8000");
    reveal_strlit("f818");
    reveal_strlit("w83627ehf");
    reveal_strlit("w83627dhg");
    reveal_strlit("w83627uhg");
    reveal_strlit("w83667hg");
    reveal_strlit("w83627hf");
    reveal_strlit("w83627thf");
    reveal_strlit("w83637hf");
    reveal_strlit("w83687thf");
    reveal_strlit("w83697hf");
    reveal_strlit("smsc47b397");
    reveal_strlit("sch5307");
    reveal_strlit("sch5317");
    reveal_strlit("smsc47m");
    reveal_strlit("dme1737");
    reveal_strlit("sch311");
    reveal_strlit("sch5027");
    reveal_strlit("sch5127");
    reveal_strlit("sch5627");
    reveal_strlit("sch5636");
    reveal_strlit("pc8736");
    reveal_strlit("pc87427");
    if text::starts(l, "smsc47b397"@) {
        assert(DRIVER_RULES@[21].0@ == "smsc47b397"@);
        lemma_prefixes_agree(l, "smsc47b397"@, q);
        assert(q.len() > 0 ==> q[0] == 's');
        assert(q.len() > 1 ==> q[1] == 'm');
        assert(q.len() > 6 ==> q[6] == 'b');
    }
    if text::starts(l, "sch5307"@) {
        assert(DRIVER_RULES@[22].0@ == "sch5307"@);
        lemma_prefixes_agree(l, "sch5307"@, q);
        assert(q.len() > 0 ==> q[0] == 's');
        assert(q.len() > 1 ==> q[1] == 'c');
        assert(q.len() > 3 ==> q[3] == '5');
        assert(q.len() > 4 ==> q[4] == '3');
    }
    if text::starts(l, "sch5317"@) {
        assert(DRIVER_RULES@[23].0@ == "sch5317"@);
        lemma_prefixes_agree(l, "sch5317"@, q);
        assert(q.len() > 0 ==> q[0] == 's');
        assert(q.len() > 1 ==> q[1] == 'c');
        assert(q.len() > 3 ==> q[3] == '5');
        assert(q.len() > 4 ==> q[4] == '3');
    }
    if text::starts(l, "smsc47m"@) {
        assert(DRIVER_RULES@[24].0@ == "smsc47m"@);
        lemma_prefixes_agree(l, "smsc47m"@, q);
        assert(q.len() > 0 ==> q[0] == 's');
        assert(q.len() > 1 ==> q[1] == 'm');
        assert(q.len() > 6 ==> q[6] == 'm');
    }
    if text::starts(l, "dme1737"@) {
        assert(DRIVER_RULES@[25].0@ == "dme1737"@);
        lemma_prefixes_agree(l, "dme1737"@, q);
        assert(q.len() > 0 ==> q[0] == 'd');
    }
    if text::starts(l, "sch311"@) {
        assert(DRIVER_RULES@[26].0@ == "sch311"@);
        lemma_prefixes_agree(l, "sch311"@, q);
        assert(q.len() > 0 ==> q[0] == 's');
        assert(q.len() > 1 ==> q[1] == 'c');
        assert(q.len() > 3 ==> q[3] == '3');
    }
    if text::starts(l, "sch5027"@) {
        assert(DRIVER_RULES@[27].0@ == "sch5027"@);
        lemma_prefixes_agree(l, "sch5027"@, q);
        assert(q.len() > 0 ==> q[0] == 's');
        assert(q.len() > 1 ==> q[1] == 'c');
        assert(q.len() > 4 ==> q[4] == '0');
    }
    if text::starts(l, "sch5127"@) {
        assert(DRIVER_RULES@[28].0@ == "sch5127"@);
        lemma_prefixes_agree(l, "sch5127"@, q);
        assert(q.len() > 0 ==> q[0] == 's');
        assert(q.len() > 1 ==> q[1] == 'c');
        assert(q.len() > 4 ==> q[4] == '1');
    }
    if text::starts(l, "sch5627"@) {
        assert(DRIVER_RULES@[29].0@ == "sch5627"@);
        lemma_prefixes_agree(l, "sch5627"@, q);
        assert(q.len() > 0 ==> q[0] == 's');
        assert(q.len() > 1 ==> q[1] == 'c');
        assert(q.len() > 3 ==> q[3] == '5');
        assert(q.len() > 4 ==> q[4] == '6');
        assert(q.len() > 5 ==> q[5] == '2');
    }
    if text::starts(l, "sch5636"@) {
        assert(DRIVER_RULES@[30].0@ == "sch5636"@);
        lemma_prefixes_agree(l, "sch5636"@, q);
        assert(q.len() > 0 ==> q[0] == 's');
        assert(q.len() > 1 ==> q[1] == 'c');
        assert(q.len() > 3 ==> q[3] == '5');
        assert(q.len() > 4 ==> q[4] == '6');
        assert(q.len() > 5 ==> q[5] == '3');
    }
}

/// A chip of National Semiconductor is driven by the driver of its family, and no other chip is: what its name begins
/// with decides, in either letter case.
pub proof fn national_chips_have_their_driver(chip_name: Seq<char>)
    ensures
        ({
            let l = text::lower(chip_name);
            &&& driver_of(chip_name) == "pc87360"@ <==> {
                ||| text::starts(l, "pc8736"@)
            }
            &&& driver_of(chip_name) == "pc87427"@ <==> {
                ||| text::starts(l, "pc87427"@)
            }
        }),
{
    let l = text::lower(chip_name);
    let m = lemma_row_of(l, 0);
    let d = driver_of(chip_name);
    lemma_driver_marks(d);
    let q = DRIVER_RULES@[m].0@;
    lemma_row_facts(m);
    reveal_strlit("nct6683");
    reveal_strlit("nct6686");
    reveal_strlit("nct6687");
    reveal_strlit("nct6");
    reveal_strlit("nct5");
    reveal_strlit("it8");
    reveal_strlit("f71805");
    reveal_strlit("f71806");
    reveal_strlit("f71872");
    reveal_strlit("f718");
    reveal_strlit("f8000");
    reveal_strlit("f818");
    reveal_strlit("w83627ehf");
    reveal_strlit("w83627dhg");
    reveal_strlit("w83627uhg");
    reveal_strlit("w83667hg");
    reveal_strlit("w83627hf");
    reveal_strlit("w83627thf");
    reveal_strlit("w83637hf");
    reveal_strlit("w83687thf");
    reveal_strlit("w83697hf");
    reveal_strlit("smsc47b397");
    reveal_strlit("sch5307");
    reveal_strlit("sch5317");
    reveal_strlit("smsc47m");
    reveal_strlit("dme1737");
    reveal_strlit("sch311");
    reveal_strlit("sch5027");
    reveal_strlit("sch5127");
    reveal_strlit("sch5627");
    reveal_strlit("sch5636");
    reveal_strlit("pc8736");
    reveal_strlit("pc87427");
    if text::starts(l, "pc8736"@) {
        assert(DRIVER_RULES@[31].0@ == "pc8736"@);
        lemma_prefixes_agree(l, "pc8736"@, q);
        assert(q.len() > 0 ==> q[0] == 'p');
        assert(q.len() > 4 ==> q[4] == '3');
    }
    if text::starts(l, "pc87427"@) {
        assert(DRIVER_RULES@[32].0@ == "pc87427"@);
        lemma_prefixes_agree(l, "pc87427"@, q);
        assert(q.len() > 0 ==> q[0] == 'p');
        assert(q.len() > 4 ==> q[4] == '4');
    }
}

/// A chip has a known driver exactly where its name begins as one of the table; every
/// driver of the table is a module that is looked for.
pub proof fn known_drivers_are_looked_for(chip_name: Seq<char>)
    ensures
        driver_of(chip_name) != "unknown"@ <==> exists|k: int|
            0 <= k < DRIVER_RULES@.len() && text::starts(
                text::lower(chip_name),
                #[trigger] DRIVER_RULES@[k].0@,
            ),
        driver_of(chip_name) != "unknown"@ ==> exists|i: int|
            0 <= i < KNOWN_MODULES@.len() && #[trigger] KNOWN_MODULES@[i].0@ == driver_of(chip_name),
{
    let l = text::lower(chip_name);
    let m = lemma_row_of(l, 0);
    let d = driver_of(chip_name);
    lemma_driver_marks(d);
    lemma_known_rows();
    if m < DRIVER_RULES@.len() {
        assert(text::starts(l, DRIVER_RULES@[m].0@));
        assert(KNOWN_MODULES@[known_row(m)].0@ == d);
    }
}

/// The row of the table of modules that the driver of a row of the driver table has.
spec fn known_row(m: int) -> int {
    if m == 0 {
        3
    } else if m < 3 {
        4
    } else if m < 5 {
        0
    } else if m < 6 {
        5
    } else if m < 9 {
        7
    } else if m < 12 {
        6
    } else if m < 16 {
        8
    } else if m < 21 {
        9
    } else if m < 24 {
        11
    } else if m < 25 {
        10
    } else if m < 29 {
        12
    } else if m < 30 {
        19
    } else if m < 31 {
        20
    } else if m < 32 {
        13
    } else {
        14
    }
}

proof fn lemma_known_rows()
    ensures
        forall|m: int|
            0 <= m < DRIVER_RULES@.len() ==> KNOWN_MODULES@[known_row(m)].0@
                == #[trigger] DRIVER_RULES@[m].1@,
{
}

/// The driver of a chip that is not ITE's is in the mainline kernel exactly where it is
/// known and is not `nct6687`.
pub proof fn only_one_other_driver_is_out_of_tree(chip_name: Seq<char>)
    requires
        driver_of(chip_name) != "it87"@,
    ensures
        in_mainline(chip_name) <==> driver_of(chip_name) != "unknown"@ && driver_of(chip_name)
            != "nct6687"@,
{
    let l = text::lower(chip_name);
    let m = lemma_row_of(l, 0);
    let d = driver_of(chip_name);
    lemma_driver_marks(d);
    lemma_known_rows();
    lemma_module_marks(d);
    if m < DRIVER_RULES@.len() {
        let r = known_row(m);
        assert(KNOWN_MODULES@[r].0@ == d);
        assert(known_module(d, KNOWN_MODULES@[r].1)) by {
            lemma_known_module_row(d, r);
        }
        if known_module(d, true) {
            let i = choose|i: int|
                0 <= i < KNOWN_MODULES@.len() && #[trigger] KNOWN_MODULES@[i].0@ == d
                    && KNOWN_MODULES@[i].1 == true && forall|k: int|
                    0 <= k < i ==> #[trigger] KNOWN_MODULES@[k].0@ != d;
            assert(KNOWN_MODULES@[i].0@ == d);
        }
    } else if known_module(d, true) {
        let i = choose|i: int|
            0 <= i < KNOWN_MODULES@.len() && #[trigger] KNOWN_MODULES@[i].0@ == d
                && KNOWN_MODULES@[i].1 == true && forall|k: int|
                0 <= k < i ==> #[trigger] KNOWN_MODULES@[k].0@ != d;
        assert(KNOWN_MODULES@[i].0@ == d);
    }
}

proof fn lemma_known_module_row(d: Seq<char>, r: int)
    requires
        0 <= r < KNOWN_MODULES@.len(),
        KNOWN_MODULES@[r].0@ == d,
        r <= 14 || r == 19 || r == 20,
        r != 1 && r != 2,
    ensures
        known_module(d, KNOWN_MODULES@[r].1),
{
    lemma_module_marks(d);
    assert forall|k: int| 0 <= k < r implies #[trigger] KNOWN_MODULES@[k].0@ != d by {}
}

/// What tells the names of modules apart: length, first and last letter.
proof fn lemma_module_marks(d: Seq<char>)
    ensures
        d == "nct6775"@ ==> d.len() == 7 && d[0] == 'n' && d[6] == '5',
        d == "nct6775_core"@ ==> d.len() == 12 && d[0] == 'n' && d[11] == 'e',
        d == "nct6775_platform"@ ==> d.len() == 16 && d[0] == 'n' && d[15] == 'm',
        d == "nct6683"@ ==> d.len() == 7 && d[0] == 'n' && d[6] == '3',
        d == "nct6687"@ ==> d.len() == 7 && d[0] == 'n' && d[6] == '7',
        d == "it87"@ ==> d.len() == 4 && d[0] == 'i' && d[3] == '7',
        d == "f71882fg"@ ==> d.len() == 8 && d[0] == 'f' && d[7] == 'g',
        d == "f71805f"@ ==> d.len() == 7 && d[0] == 'f' && d[6] == 'f',
        d == "w83627ehf"@ ==> d.len() == 9 && d[0] == 'w' && d[8] == 'f',
        d == "w83627hf"@ ==> d.len() == 8 && d[0] == 'w' && d[7] == 'f',
        d == "smsc47m1"@ ==> d.len() == 8 && d[0] == 's' && d[7] == '1',
        d == "smsc47b397"@ ==> d.len() == 10 && d[0] == 's' && d[9] == '7',
        d == "dme1737"@ ==> d.len() == 7 && d[0] == 'd' && d[6] == '7',
        d == "pc87360"@ ==> d.len() == 7 && d[0] == 'p' && d[6] == '0',
        d == "pc87427"@ ==> d.len() == 7 && d[0] == 'p' && d[6] == '7',
        d == "asus_ec_sensors"@ ==> d.len() == 15 && d[0] == 'a' && d[14] == 's',
        d == "asus_wmi_sensors"@ ==> d.len() == 16 && d[0] == 'a' && d[15] == 's',
        d == "asus_wmi_ec_sensors"@ ==> d.len() == 19 && d[0] == 'a' && d[18] == 's',
        d == "asus_atk0110"@ ==> d.len() == 12 && d[0] == 'a' && d[11] == '0',
        d == "sch5627"@ ==> d.len() == 7 && d[0] == 's' && d[6] == '7',
        d == "sch5636"@ ==> d.len() == 7 && d[0] == 's' && d[6] == '6',
        d == "k10temp"@ ==> d.len() == 7 && d[0] == 'k' && d[6] == 'p',
        d == "coretemp"@ ==> d.len() == 8 && d[0] == 'c' && d[7] == 'p',
        d == "amdgpu"@ ==> d.len() == 6 && d[0] == 'a' && d[5] == 'u',
        d == "intel_pch_thermal"@ ==> d.len() == 17 && d[0] == 'i' && d[16] == 'l',
{
    reveal_strlit("nct6775");
    reveal_strlit("nct6775_core");
    reveal_strlit("nct6775_platform");
    reveal_strlit("nct6683");
    reveal_strlit("nct6687");
    reveal_strlit("it87");
    reveal_strlit("f71882fg");
    reveal_strlit("f71805f");
    reveal_strlit("w83627ehf");
    reveal_strlit("w83627hf");
    reveal_strlit("smsc47m1");
    reveal_strlit("smsc47b397");
    reveal_strlit("dme1737");
    reveal_strlit("pc87360");
    reveal_strlit("pc87427");
    reveal_strlit("asus_ec_sensors");
    reveal_strlit("asus_wmi_sensors");
    reveal_strlit("asus_wmi_ec_sensors");
    reveal_strlit("asus_atk0110");
    reveal_strlit("sch5627");
    reveal_strlit("sch5636");
    reveal_strlit("k10temp");
    reveal_strlit("coretemp");
    reveal_strlit("amdgpu");
    reveal_strlit("intel_pch_thermal");
}

/// An ITE chip that the mainline kernel supports is told as such, with whatever letters
/// behind its number.
pub proof fn mainline_ite_chips_are_known(chip_name: Seq<char>, i: int, rest: Seq<char>)
    requires
        0 <= i < MAINLINE_ITE_CHIPS@.len(),
        text::lower(chip_name) == MAINLINE_ITE_CHIPS@[i]@ + rest,
    ensures
        in_mainline(chip_name),
{
    let l = text::lower(chip_name);
    let p = MAINLINE_ITE_CHIPS@[i]@;
    text::a_pattern_is_found_where_it_was_put(Seq::empty(), p, rest);
    assert(text::starts(l, MAINLINE_ITE_CHIPS@[i]@));
    lemma_mainline_heads(i);
    reveal_strlit("it8");
    assert(l.subrange(0, 3) =~= "it8"@) by {
        assert(l[0] == p[0] && l[1] == p[1] && l[2] == p[2]);
    }
    assert(text::starts(l, "it8"@));
    ite_chips_have_their_driver(chip_name);
}

proof fn lemma_mainline_heads(i: int)
    requires
        0 <= i < MAINLINE_ITE_CHIPS@.len(),
    ensures
        MAINLINE_ITE_CHIPS@[i]@.len() >= 6,
        MAINLINE_ITE_CHIPS@[i]@[0] == 'i',
        MAINLINE_ITE_CHIPS@[i]@[1] == 't',
        MAINLINE_ITE_CHIPS@[i]@[2] == '8',
        MAINLINE_ITE_CHIPS@[i]@[3] == '6' ==> MAINLINE_ITE_CHIPS@[i]@[4] == '0'
            || MAINLINE_ITE_CHIPS@[i]@[4] == '2',
{
    reveal_strlit("it8603");
    reveal_strlit("it8620");
    reveal_strlit("it8622");
    reveal_strlit("it8623");
    reveal_strlit("it8628");
    reveal_strlit("it8705");
    reveal_strlit("it8712");
    reveal_strlit("it8716");
    reveal_strlit("it8718");
    reveal_strlit("it8720");
    reveal_strlit("it8721");
    reveal_strlit("it8726");
    reveal_strlit("it8728");
    reveal_strlit("it8732");
    reveal_strlit("it8758");
    reveal_strlit("it8771");
    reveal_strlit("it8772");
    reveal_strlit("it8781");
    reveal_strlit("it8782");
    reveal_strlit("it8783");
    reveal_strlit("it8786");
    reveal_strlit("it8790");
    reveal_strlit("it8792");
    reveal_strlit("it8795");
    reveal_strlit("it87952");
}

/// The ITE chips of the 8660 to 8690 numbers, the IT8689 among them, need the module that
/// is not in the mainline kernel.
pub proof fn newer_ite_chips_are_out_of_tree(chip_name: Seq<char>)
    requires
        ({
            let l = text::lower(chip_name);
            l.len() >= 5 && l[0] == 'i' && l[1] == 't' && l[2] == '8' && l[3] == '6' && l[4] != '0'
                && l[4] != '2'
        }),
    ensures
        driver_of(chip_name) == "it87"@,
        !in_mainline(chip_name),
{
    let l = text::lower(chip_name);
    reveal_strlit("it8");
    assert(l.subrange(0, 3) =~= "it8"@);
    assert(text::starts(l, "it8"@));
    ite_chips_have_their_driver(chip_name);
    assert forall|i: int| 0 <= i < MAINLINE_ITE_CHIPS@.len() implies !text::starts(
        l,
        #[trigger] MAINLINE_ITE_CHIPS@[i]@,
    ) by {
        lemma_mainline_heads(i);
        let p = MAINLINE_ITE_CHIPS@[i]@;
        if text::starts(l, p) {
            assert(l.subrange(0, p.len() as int)[3] == l[3]);
            assert(l.subrange(0, p.len() as int)[4] == l[4]);
        }
    }
}

proof fn lemma_names_are_found(s: Seq<char>, i: int, at: int)
    requires
        0 <= i <= at,
        it8_at(s, at),
        3 <= digit_run(s, at + 3) <= 5,
    ensures
        chip_names(s, i).contains("it8"@ + s.subrange(at + 3, at + 3 + digit_run(s, at + 3))),
    decreases s.len() - i,
{
    let name = "it8"@ + s.subrange(at + 3, at + 3 + digit_run(s, at + 3));
    digit_run_stays_inside(s, at + 3);
    if i == at {
        assert(chip_names(s, i)[0] == name);
    } else if it8_at(s, i) {
        digit_run_stays_inside(s, i + 3);
        let n = digit_run(s, i + 3);
        lemma_run_is_digits(s, i + 3);
        assert(at >= i + 3 + n) by {
            if at < i + 3 + n {
                if at >= i + 3 {
                    assert(text::is_digit(s[at]));
                }
            }
        }
        lemma_names_are_found(s, i + 3 + n, at);
        let rest = chip_names(s, i + 3 + n);
        let k = choose|k: int| 0 <= k < rest.len() && rest[k] == name;
        if 3 <= n <= 5 {
            assert(chip_names(s, i)[k + 1] == name);
        }
    } else {
        lemma_names_are_found(s, i + 1, at);
    }
}

proof fn lemma_run_is_digits(s: Seq<char>, i: int)
    requires
        0 <= i <= s.len(),
    ensures
        forall|k: int| i <= k < i + digit_run(s, i) ==> text::is_digit(#[trigger] s[k]),
        i + digit_run(s, i) < s.len() ==> !text::is_digit(s[i + digit_run(s, i)]),
    decreases s.len() - i,
{
    if i < s.len() && text::is_digit(s[i]) {
        lemma_run_is_digits(s, i + 1);
    }
}

/// Every chip that a line of the driver's tells of is found: `IT8` in either letter case,
/// three to five digits behind it and no more, wherever in the line that stands. It is
/// listed in small letters.
pub proof fn every_chip_of_a_line_is_found(
    line: Seq<char>,
    head: Seq<char>,
    mark: Seq<char>,
    digits: Seq<char>,
    tail: Seq<char>,
)
    requires
        tells_of_chip(line),
        line == head + mark + digits + tail,
        mark.len() == 3,
        mark[0] == 'I' || mark[0] == 'i',
        mark[1] == 'T' || mark[1] == 't',
        mark[2] == '8',
        3 <= digits.len() <= 5,
        forall|k: int| 0 <= k < digits.len() ==> text::is_digit(#[trigger] digits[k]),
        tail.len() > 0 ==> !text::is_digit(tail[0]),
    ensures
        line_chip_names(line).contains("it8"@ + digits),
{
    let at = head.len() as int;
    assert(line[at] == mark[0] && line[at + 1] == mark[1] && line[at + 2] == mark[2]);
    assert forall|k: int| at + 3 <= k < at + 3 + digits.len() implies text::is_digit(line[k]) by {
        assert(line[k] == digits[k - at - 3]);
    }
    if at + 3 + digits.len() < line.len() {
        assert(line[at + 3 + digits.len() as int] == tail[0]);
    }
    lemma_digit_run(line, at + 3, digits.len() as int);
    assert(line.subrange(at + 3, at + 3 + digits.len() as int) =~= digits);
    lemma_names_are_found(line, 0, at);
}

/// A line tells of a chip where the driver's tag stands in it, with a colon or a blank
/// behind, and the words that a chip was found, in whatever letter case and order.
pub proof fn the_driver_is_known_by_its_tag(line: Seq<char>)
    requires
        line.len() == 0 || line.last() != '\r',
    ensures
        ({
            let l = text::lower(line);
            tells_of_chip(line) <==> (text::holds(l, "it87:"@) || text::holds(l, "it87 "@))
                && text::holds(l, "found it8"@)
        }),
{
}

/// The kernel log is looked at up to one mebibyte, and every read that fits is kept.
pub proof fn the_log_is_bounded()
    ensures
        KMSG_MAX_BYTES == 1024 * 1024,
        ENV_FACT_MAX_BYTES == 128,
{
}

/// A fact is passed on as it is, without the white space around it, where it fits into 128
/// bytes; of a longer one as many whole characters as fit. One that is all white space is
/// absent.
pub proof fn facts_are_cut_and_not_changed(raw: Seq<char>)
    ensures
        capped_fact(raw) is None <==> text::is_blank(raw),
        capped_fact(raw) matches Some(f) ==> {
            let t = text::trimmed(raw);
            &&& 0 <= f.len() <= t.len()
            &&& f == t.take(f.len() as int)
            &&& text::byte_len(f) <= 128
            &&& text::byte_len(t) <= 128 ==> f == t
            &&& f.len() < t.len() ==> text::byte_len(t.take(f.len() + 1int)) > 128
        },
{
    let t = text::trimmed(raw);
    text::nothing_is_left_to_trim(raw);
    text::no_character_that_fits_is_cut(t, 128);
    assert(t.take(t.len() as int) =~= t);
    let n = text::fitting(t, 128);
    assert(t.take(n).len() == n);
}

/// A module is loaded where a line of the kernel's list begins with its name as a word of
/// its own; a longer or a shorter word is another module.
pub proof fn modules_are_listed_by_whole_words(
    ls: Seq<Seq<char>>,
    i: int,
    word: Seq<char>,
    rest: Seq<char>,
    name: Seq<char>,
)
    requires
        0 <= i < ls.len(),
        ls[i] == word + rest,
        word.len() > 0,
        forall|k: int| 0 <= k < word.len() ==> !text::is_white(#[trigger] word[k]),
        rest.len() > 0 ==> text::is_white(rest[0]),
    ensures
        lists_module(ls, word),
        ls.len() == 1 ==> (lists_module(ls, name) <==> name == word),
{
    assert(Seq::<char>::empty() + word + rest =~= word + rest);
    text::words_are_what_stands_between_blanks(Seq::empty(), word, rest);
    assert(text::words_of(ls[i])[0] == word);
    assert(line_names_module(ls[i], word));
}

/// What is told of a module: that it is loaded exactly where it is listed; and of its
/// build only where it is loaded. A build is out of tree where its taints have an `O`.
pub proof fn only_loaded_modules_have_a_build(
    proc_modules: Option<Seq<char>>,
    files: Seq<ModuleFiles>,
    name: Seq<char>,
    mainline: bool,
)
    ensures
        ({
            let r = module_report(proc_modules, files, name, mainline);
            &&& r.name == name
            &&& r.in_mainline == mainline
            &&& r.loaded <==> module_loaded(proc_modules, name)
            &&& !r.loaded ==> r.version is None && r.srcversion is None && r.out_of_tree is None
            &&& proc_modules is None ==> !r.loaded
            &&& r.loaded && files.len() > 0 && files[0].module@ == name ==> {
                &&& r.version == capped_opt(text::opt_text(files[0].version))
                &&& r.srcversion == capped_opt(text::opt_text(files[0].srcversion))
                &&& r.out_of_tree is Some <==> files[0].taint is Some
                &&& files[0].taint is Some ==> (r.out_of_tree == Some(true) <==> exists|k: int|
                    0 <= k < files[0].taint->0@.len() && files[0].taint->0@[k] == 'O')
            }
        }),
{
}

/// The two Nuvoton modules collide with each other where both are loaded, and it is told
/// once and as critical; a second NCT6 chip at another place is the only excuse.
pub proof fn the_nuvoton_modules_collide(
    proc_modules: Option<Seq<char>>,
    chips: Seq<ChipBinding<'_>>,
)
    ensures
        ({
            let told = module_collisions(proc_modules, chips);
            let both = module_loaded(proc_modules, "nct6687"@) && module_loaded(
                proc_modules,
                "nct6775"@,
            );
            &&& told.len() <= 1
            &&& chips.len() <= 1 ==> (told.len() == 1 <==> both)
            &&& !both ==> told.len() == 0
            &&& told.len() == 1 ==> told[0].module_a == "nct6687"@ && told[0].module_b
                == "nct6775"@ && told[0].severity == "critical"@
            &&& (forall|i: int, j: int|
                0 <= i < chips.len() && 0 <= j < chips.len() ==> (#[trigger] chips[i]).device_id@
                    == (#[trigger] chips[j]).device_id@) ==> (told.len() == 1 <==> both)
        }),
        collision_partner("nct6687"@) == Some("nct6775"@),
        collision_partner("nct6775"@) == Some("nct6687"@),
{
    reveal_strlit("nct6687");
    reveal_strlit("nct6775");
    assert("nct6687"@[4] != "nct6775"@[4]);
}

/// Two NCT6 chips at two places excuse both modules.
pub proof fn two_chips_excuse_both_modules(
    proc_modules: Option<Seq<char>>,
    chips: Seq<ChipBinding<'_>>,
    i: int,
    j: int,
)
    requires
        0 <= i < chips.len(),
        0 <= j < chips.len(),
        text::starts(text::lower(chips[i].chip_name@), "nct6"@),
        text::starts(text::lower(chips[j].chip_name@), "nct6"@),
        chips[i].device_id@ != chips[j].device_id@,
    ensures
        module_collisions(proc_modules, chips).len() == 0,
{
    assert(is_nct6(chips[i].chip_name@));
    assert(is_nct6(chips[j].chip_name@));
    assert(two_nct6_chips(chips));
}

/// A chip of another family excuses nothing, wherever it sits.
pub proof fn other_chips_excuse_nothing(
    proc_modules: Option<Seq<char>>,
    chips: Seq<ChipBinding<'_>>,
)
    requires
        module_loaded(proc_modules, "nct6687"@),
        module_loaded(proc_modules, "nct6775"@),
        forall|i: int|
            1 <= i < chips.len() ==> !text::starts(
                text::lower(#[trigger] chips[i].chip_name@),
                "nct6"@,
            ),
    ensures
        module_collisions(proc_modules, chips).len() == 1,
{
    if two_nct6_chips(chips) {
        let (i, j) = choose|i: int, j: int|
            0 <= i < chips.len() && 0 <= j < chips.len() && is_nct6(#[trigger] chips[i].chip_name@)
                && is_nct6(#[trigger] chips[j].chip_name@) && chips[i].device_id@
                != chips[j].device_id@;
        assert(i == 0 && j == 0);
    }
}

/// A board of the table shows the chips of the first row whose name stands in its own.
pub proof fn the_first_row_of_a_board_decides(vendor: Seq<char>, name: Seq<char>, m: int)
    requires
        0 <= m < GIGABYTE_DUAL_CHIP_BOARDS@.len(),
        name.len() > 0,
        text::lower(vendor).len() == 0 || text::holds(text::lower(vendor), "gigabyte"@),
        text::holds(text::upper(name), GIGABYTE_DUAL_CHIP_BOARDS@[m].0@),
        forall|k: int|
            0 <= k < m ==> !text::holds(
                text::upper(name),
                #[trigger] GIGABYTE_DUAL_CHIP_BOARDS@[k].0@,
            ),
    ensures
        ({
            let row = GIGABYTE_DUAL_CHIP_BOARDS@[m];
            let chips = board_chips(vendor, name);
            &&& chips.len() == (if row.2@.len() == 0 {
                1int
            } else {
                2
            })
            &&& chips[0] == row.1@
            &&& row.2@.len() > 0 ==> chips[1] == row.2@
        }),
{
    lemma_board_row(text::upper(name), 0, m);
}

proof fn lemma_board_row(board: Seq<char>, i: int, m: int)
    requires
        0 <= i <= m < GIGABYTE_DUAL_CHIP_BOARDS@.len(),
        text::holds(board, GIGABYTE_DUAL_CHIP_BOARDS@[m].0@),
        forall|k: int|
            i <= k < m ==> !text::holds(board, #[trigger] GIGABYTE_DUAL_CHIP_BOARDS@[k].0@),
    ensures
        board_chips_from(board, i) == row_chips(GIGABYTE_DUAL_CHIP_BOARDS@[m]),
    decreases m - i,
{
    if i < m {
        assert(!text::holds(board, GIGABYTE_DUAL_CHIP_BOARDS@[i].0@));
        lemma_board_row(board, i + 1, m);
    }
}

/// A board of another vendor, and one without a name, shows no chips that are known.
pub proof fn boards_of_others_are_not_known(vendor: Seq<char>, name: Seq<char>)
    ensures
        name.len() == 0 ==> board_chips(vendor, name).len() == 0,
        text::lower(vendor).len() > 0 && !text::holds(text::lower(vendor), "gigabyte"@)
            ==> board_chips(vendor, name).len() == 0,
{
}

/// The first line with a vendor decides; lines without one are passed over.
pub proof fn the_first_vendor_line_decides(ls: Seq<Seq<char>>, i: int)
    requires
        0 <= i < ls.len(),
        vendor_id_value(ls[i]) is Some,
        forall|k: int| 0 <= k < i ==> vendor_id_value(#[trigger] ls[k]) is None,
    ensures
        ({
            let id = vendor_id_value(ls[i])->0;
            &&& id == "GenuineIntel"@ ==> cpu_vendor(ls) == "Intel"@
            &&& id == "AuthenticAMD"@ || id == "HygonGenuine"@ ==> cpu_vendor(ls) == "AMD"@
            &&& id != "GenuineIntel"@ && id != "AuthenticAMD"@ && id != "HygonGenuine"@
                ==> cpu_vendor(ls).len() == 0
        }),
    decreases i,
{
    reveal_strlit("GenuineIntel");
    reveal_strlit("AuthenticAMD");
    reveal_strlit("HygonGenuine");
    assert("GenuineIntel"@[0] == 'G' && "AuthenticAMD"@[0] == 'A' && "HygonGenuine"@[0] == 'H');
    if i > 0 {
        let rest = ls.skip(1);
        assert(vendor_id_value(ls[0]) is None);
        assert forall|k: int| 0 <= k < i - 1 implies vendor_id_value(#[trigger] rest[k]) is None by {
            assert(rest[k] == ls[k + 1]);
        }
        assert(rest[i - 1] == ls[i]);
        the_first_vendor_line_decides(rest, i - 1);
    }
}

/// A vendor line as the kernel writes it is read: the key, blanks, a colon, a blank and
/// the vendor.
pub proof fn a_vendor_line_is_read(gap: Seq<char>, id: Seq<char>)
    requires
        !gap.contains(':'),
        id.len() > 0,
        !id.contains(':'),
        !text::is_white(id[0]),
        !text::is_white(id.last()),
    ensures
        vendor_id_value("vendor_id"@ + gap + seq![':'] + seq![' '] + id) == Some(id),
{
    reveal_strlit("vendor_id");
    let key = "vendor_id"@ + gap;
    let line = "vendor_id"@ + gap + seq![':'] + seq![' '] + id;
    let tail = seq![' '] + id;
    assert(line =~= key + seq![':'] + tail);
    assert(line[0] == 'v');
    assert(text::trimmed_start(line) == line);
    assert(line.subrange(0, 9) =~= "vendor_id"@);
    assert(!key.contains(':')) by {
        if key.contains(':') {
            let k = choose|k: int| 0 <= k < key.len() && key[k] == ':';
            if k >= 9 {
                assert(gap[k - 9] == ':');
            }
        }
    }
    assert(!tail.contains(':')) by {
        if tail.contains(':') {
            let k = choose|k: int| 0 <= k < tail.len() && tail[k] == ':';
            assert(id[k - 1] == ':');
        }
    }
    text::pieces_of_joined(key, ':', tail);
    text::pieces_of_joined(tail, ':', key);
    assert(text::pieces(line, ':')[1] == tail);
    let lead = seq![' '];
    assert(text::is_blank(lead));
    assert(lead + id + Seq::<char>::empty() =~= tail);
    text::trimming_takes_the_padding(lead, id, Seq::empty());
}

/// A feature mask that the kernel shows in decimal is told in hexadecimal, with eight
/// digits that stand for the same number; one in hexadecimal stays as it is.
pub proof fn the_mask_keeps_its_value(n: u32, digits: Seq<char>)
    requires
        forall|k: int| 0 <= k < digits.len() ==> !text::is_white(#[trigger] digits[k]),
    ensures
        ({
            let told = normal_mask(text::decimal(n as nat));
            &&& told.len() == 10
            &&& told.take(2) == "0x"@
            &&& text::parsed(told.skip(2), 16, u32::MAX as int) == Some(n as int)
        }),
        normal_mask("0x"@ + digits) == "0x"@ + digits,
{
    reveal_strlit("0x");
    reveal_strlit("0X");
    let d = text::decimal(n as nat);
    text::a_written_number_is_read_back(n as nat, 0xFFFF_FFFF);
    text::decimal_is_digits(n as nat);
    assert(!text::starts(d, "0x"@) && !text::starts(d, "0X"@)) by {
        if d.len() >= 2 {
            assert(text::is_digit(d[1]));
            assert(d.subrange(0, 2)[1] == d[1]);
        }
    }
    let hex = text::hex_digits(n as nat, 8);
    reveal_with_fuel(vstd::arithmetic::power::pow, 9);
    assert(vstd::arithmetic::power::pow(16, 8) == 0x1_0000_0000);
    text::hex_digits_stand_for_the_number(n as nat, 8);
    let told = "0x"@ + hex;
    assert(told.take(2) =~= "0x"@);
    assert(told.skip(2) =~= hex);
    assert(text::digit_value(hex[0]) < 16);
    let m = "0x"@ + digits;
    assert forall|k: int| 0 <= k < m.len() implies !text::is_white(#[trigger] m[k]) by {
        if k >= 2 {
            assert(m[k] == digits[k - 2]);
        }
    }
    text::trimming_leaves_a_word(m);
    assert(m.subrange(0, 2) =~= "0x"@);
}

/// A DMI string that was read is reported without the blanks around it, and one that was not
/// as no text.
pub proof fn a_dmi_string_is_reported_without_blanks(
    lead: Seq<char>,
    s: Seq<char>,
    trail: Seq<char>,
)
    requires
        text::is_blank(lead),
        text::is_blank(trail),
        s.len() > 0,
        !text::is_white(s[0]),
        !text::is_white(s.last()),
    ensures
        dmi_field(Some(lead + s + trail)) == s,
        dmi_field(None).len() == 0,
{
    text::trimming_takes_the_padding(lead, s, trail);
}

/// Only a line on the vendor gives a vendor, and only what stands behind a colon.
pub proof fn other_lines_name_no_vendor(line: Seq<char>)
    ensures
        !text::starts(text::trimmed_start(line), "vendor_id"@) ==> vendor_id_value(line) is None,
        !text::trimmed_start(line).contains(':') ==> vendor_id_value(line) is None,
{
    text::a_text_is_cut_at_every_mark(text::trimmed_start(line), ':');
}

} // verus!

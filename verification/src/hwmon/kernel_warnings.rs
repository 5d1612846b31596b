//! Known faults of the running kernel that concern a graphics card.
//!
//! One is known: drm/amd #4765, by which a compute job beside a 3D workload can hang an
//! RDNA3 or RDNA4 card. 6.17.9 and all later 6.17 kernels have it, and 6.18 before 6.18.7.
//!
//! A warning is advice; no write is refused for it.

use crate::hwmon::gpu_detect;
use crate::hwmon::gpu_detect::{is_rdna3_or_rdna4, AmdGpuInfo};
use crate::text;
use crate::text::{chars_of, parse_u32, split, trim};
use vstd::prelude::*;
use vstd::string::*;

verus! {

/// Where the kernel shows its release.
pub const KERNEL_RELEASE_PATH: &'static str = "/proc/sys/kernel/osrelease";

/// The id of the warning of drm/amd #4765.
pub const MES_HANG_4765_ID: &'static str = "rdna_mes_hang_drm_amd_4765";

/// How many leading characters of a text are digits and dots.
pub open spec fn version_len(s: Seq<char>) -> int
    decreases s.len(),
{
    if s.len() > 0 && (text::is_digit(s[0]) || s[0] == '.') {
        1 + version_len(s.skip(1))
    } else {
        0
    }
}

/// A number of a version.
pub open spec fn version_part(s: Seq<char>) -> Option<u32> {
    match text::parsed(s, 10, u32::MAX as int) {
        Some(n) => Some(n as u32),
        None => None,
    }
}

/// The numbers that the parts of a version stand for; the third may be missing.
pub open spec fn version_of_parts(parts: Seq<Seq<char>>) -> Option<(u32, u32, u32)> {
    if parts.len() < 2 {
        None
    } else {
        let patch = if parts.len() > 2 {
            version_part(parts[2])
        } else {
            Some(0u32)
        };
        match (version_part(parts[0]), version_part(parts[1]), patch) {
            (Some(major), Some(minor), Some(patch)) => Some((major, minor, patch)),
            _ => None,
        }
    }
}

/// The version that a release begins with: the numbers between the dots of its leading
/// digits and dots.
pub open spec fn version_of(release: Seq<char>) -> Option<(u32, u32, u32)> {
    let t = text::trimmed(release);
    version_of_parts(text::pieces(t.take(version_len(t)), '.'))
}

/// The version that a release begins with, such as 7.0.3 of `7.0.3-1-cachyos`.
pub fn parse_kernel_version(release: &str) -> (r: Option<(u32, u32, u32)>)
    ensures
        r == version_of(release@),
{
    let t: &str = trim(release);
    let v: Vec<char> = chars_of(t);
    let mut n: usize = 0;
    assert(t@.skip(0) =~= t@);
    while n < v.len() && (('0' <= v[n] && v[n] <= '9') || v[n] == '.')
        invariant
            n <= v@.len(),
            v@ == t@,
            version_len(t@) == n + version_len(t@.skip(n as int)),
        decreases v@.len() - n,
    {
        assert(t@.skip(n as int).skip(1) =~= t@.skip(n + 1));
        n += 1;
    }
    assert(t@.take(n as int) =~= t@.subrange(0, n as int));
    let parts: Vec<&str> = split(t.substring_char(0, n), '.');
    let ghost all = text::texts(parts@);
    assert(all.len() == parts@.len());
    if parts.len() < 2 {
        return None;
    }
    assert(all[0] == parts@[0]@ && all[1] == parts@[1]@);
    let major: Option<u32> = parse_u32(parts[0]);
    let minor: Option<u32> = parse_u32(parts[1]);
    let patch: Option<u32> = if parts.len() > 2 {
        assert(all[2] == parts@[2]@);
        parse_u32(parts[2])
    } else {
        Some(0)
    };
    match (major, minor, patch) {
        (Some(major), Some(minor), Some(patch)) => Some((major, minor, patch)),
        _ => None,
    }
}

/// How grave a warning is.
#[derive(Debug, Clone, Copy, PartialEq, Eq, Structural)]
pub enum KernelWarningSeverity {
    Info,
    Medium,
    High,
    Critical,
}

/// A warning about the running kernel.
#[derive(Debug)]
pub struct KernelWarning {
    /// Stable id.
    pub id: String,
    /// How grave it is.
    pub severity: KernelWarningSeverity,
    /// What the user is told.
    pub message: String,
}

/// What a warning says.
#[verifier::ext_equal]
pub struct WarningView {
    pub id: Seq<char>,
    pub severity: KernelWarningSeverity,
    pub message: Seq<char>,
}

impl View for KernelWarning {
    type V = WarningView;

    open spec fn view(&self) -> WarningView {
        WarningView { id: self.id@, severity: self.severity, message: self.message@ }
    }
}

/// Whether a kernel has the fault of drm/amd #4765.
pub open spec fn is_faulty(version: (u32, u32, u32)) -> bool {
    ||| version.0 == 6 && version.1 == 17 && version.2 >= 9
    ||| version.0 == 6 && version.1 == 18 && version.2 <= 6
}

fn carries_mes_eviction_hang(major: u32, minor: u32, patch: u32) -> (r: bool)
    ensures
        r == is_faulty((major, minor, patch)),
{
    (major == 6 && minor == 17 && patch >= 9) || (major == 6 && minor == 18 && patch <= 6)
}

/// The warning of drm/amd #4765 for a release.
pub open spec fn mes_hang_warning(release: Seq<char>) -> WarningView {
    WarningView {
        id: MES_HANG_4765_ID@,
        severity: KernelWarningSeverity::Critical,
        message: "Kernel "@ + release
            + " carries a known amdgpu hang for RDNA3/RDNA4 GPUs (drm/amd #4765): a compute job running alongside a 3D workload can hang the GPU, and while the system is hung no fan speed can change. It is fixed in 6.18.7 and 6.19. Update to the latest 6.18 longterm point release or a current 7.x kernel; 6.17 is end-of-life and was never fixed. (This is matched on the version number, so a distribution kernel that backported the fix may be flagged anyway.)"@,
    }
}

/// The warnings about a kernel that concern a card.
pub open spec fn warnings_for(release: Seq<char>, device_id: u16) -> Seq<WarningView> {
    match version_of(release) {
        Some(version) => if is_faulty(version) && gpu_detect::is_mes_era(device_id) {
            seq![mes_hang_warning(release)]
        } else {
            Seq::empty()
        },
        None => Seq::empty(),
    }
}

/// The warnings about a kernel that concern a card. A release that cannot be read gives
/// none: no warning is better than a wrong one.
pub fn detect_kernel_warnings(kernel_release: &str, gpu: &AmdGpuInfo) -> (r: Vec<KernelWarning>)
    ensures
        text::views(r@) == warnings_for(kernel_release@, gpu@.pci_device_id),
{
    let mut warnings: Vec<KernelWarning> = Vec::new();
    assert(text::views(warnings@) =~= Seq::<WarningView>::empty());
    if let Some((major, minor, patch)) = parse_kernel_version(kernel_release) {
        if carries_mes_eviction_hang(major, minor, patch) && is_rdna3_or_rdna4(gpu.pci_device_id) {
            let mut message: String = "Kernel ".to_owned();
            message.append(kernel_release);
            message.append(
                " carries a known amdgpu hang for RDNA3/RDNA4 GPUs (drm/amd #4765): a compute job running alongside a 3D workload can hang the GPU, and while the system is hung no fan speed can change. It is fixed in 6.18.7 and 6.19. Update to the latest 6.18 longterm point release or a current 7.x kernel; 6.17 is end-of-life and was never fixed. (This is matched on the version number, so a distribution kernel that backported the fix may be flagged anyway.)",
            );
            warnings.push(
                KernelWarning {
                    id: MES_HANG_4765_ID.to_owned(),
                    severity: KernelWarningSeverity::Critical,
                    message,
                },
            );
            assert(text::views(warnings@) =~= seq![mes_hang_warning(kernel_release@)]);
        }
    }
    warnings
}

/// The release that the text of the kernel's file states, where it states one.
pub fn read_kernel_release_from(content: Option<&str>) -> (r: Option<String>)
    ensures
        text::opt_text(r) == (match text::opt_str(content) {
            Some(t) => if text::trimmed(t).len() > 0 {
                Some(text::trimmed(t))
            } else {
                None
            },
            None => None,
        }),
{
    match content {
        Some(t) => {
            let trimmed: &str = trim(t);
            if trimmed.is_empty() {
                None
            } else {
                Some(trimmed.to_owned())
            }
        },
        None => None,
    }
}

/// The only warning that is ever given is that of drm/amd #4765; it is critical, and it
/// is given at most once.
pub proof fn only_the_known_fault_is_told(release: Seq<char>, device_id: u16)
    ensures
        warnings_for(release, device_id).len() <= 1,
        forall|i: int|
            0 <= i < warnings_for(release, device_id).len() ==> (#[trigger] warnings_for(
                release,
                device_id,
            )[i]).id == MES_HANG_4765_ID@,
        version_of(release) is None ==> warnings_for(release, device_id).len() == 0,
{
}

/// The kernels with the fault are those of 6.17 from 6.17.9 on and those of 6.18 before
/// 6.18.7; nothing before them and nothing behind them has it.
pub proof fn the_fault_has_a_first_and_a_last_kernel(version: (u32, u32, u32))
    ensures
        is_faulty(version) ==> version.0 == 6 && (version.1 == 17 || version.1 == 18),
        version.0 == 6 && version.1 == 17 ==> (is_faulty(version) <==> version.2 >= 9),
        version.0 == 6 && version.1 == 18 ==> (is_faulty(version) <==> version.2 < 7),
        version.0 == 6 && version.1 >= 19 || version.0 >= 7 ==> !is_faulty(version),
        version.0 < 6 || (version.0 == 6 && version.1 < 17) ==> !is_faulty(version),
{
}

/// A warning is given exactly where the kernel has the fault and the card is one that it
/// concerns; it is critical and names the release.
pub proof fn a_warning_needs_kernel_and_card(release: Seq<char>, device_id: u16)
    ensures
        ({
            let told = warnings_for(release, device_id);
            let fault = match version_of(release) {
                Some((major, minor, patch)) => major == 6 && ((minor == 17 && patch >= 9) || (minor
                    == 18 && patch <= 6)),
                None => false,
            };
            &&& told.len() == 1 <==> fault && gpu_detect::is_mes_era(device_id)
            &&& told.len() == 1 ==> told[0].severity == KernelWarningSeverity::Critical
                && text::holds(told[0].message, release)
            &&& told.len() <= 1
        }),
{
    let told = warnings_for(release, device_id);
    if told.len() == 1 {
        let m = told[0].message;
        let tail = m.skip("Kernel "@.len() as int + release.len() as int);
        assert("Kernel "@ + release + tail =~= m);
        text::a_pattern_is_found_where_it_was_put("Kernel "@, release, tail);
    }
}

proof fn lemma_version_len(s: Seq<char>, n: int)
    requires
        0 <= n <= s.len(),
        forall|k: int| 0 <= k < n ==> text::is_digit(s[k]) || s[k] == '.',
        n < s.len() ==> !text::is_digit(s[n]) && s[n] != '.',
    ensures
        version_len(s) == n,
    decreases s.len(),
{
    if n > 0 {
        assert(text::is_digit(s[0]) || s[0] == '.');
        assert forall|k: int| 0 <= k < n - 1 implies text::is_digit(s.skip(1)[k]) || s.skip(1)[k]
            == '.' by {
            assert(s.skip(1)[k] == s[k + 1]);
        }
        lemma_version_len(s.skip(1), n - 1);
    }
}

/// A release is read by the three numbers that it begins with; what a distribution puts
/// behind them plays no part.
pub proof fn a_release_is_read_by_its_numbers(
    major: u32,
    minor: u32,
    patch: u32,
    rest: Seq<char>,
)
    requires
        rest.len() > 0 ==> !text::is_digit(rest[0]) && rest[0] != '.' && !text::is_white(
            rest.last(),
        ),
    ensures
        version_of(
            text::decimal(major as nat) + seq!['.'] + (text::decimal(minor as nat) + seq!['.']
                + text::decimal(patch as nat)) + rest,
        ) == Some((major, minor, patch)),
{
    let a = text::decimal(major as nat);
    let b = text::decimal(minor as nat);
    let c = text::decimal(patch as nat);
    let tail = b + seq!['.'] + c;
    let v = a + seq!['.'] + tail;
    let s = v + rest;
    text::decimal_is_digits(major as nat);
    text::decimal_is_digits(minor as nat);
    text::decimal_is_digits(patch as nat);
    assert forall|k: int| 0 <= k < v.len() implies text::is_digit(s[k]) || s[k] == '.' by {
        assert(s[k] == v[k]);
        if k < a.len() {
            assert(text::is_digit(a[k]));
        } else if k > a.len() {
            let j = k - a.len() - 1;
            assert(v[k] == tail[j]);
            if j < b.len() {
                assert(text::is_digit(b[j]));
            } else if j > b.len() {
                assert(text::is_digit(c[j - b.len() - 1]));
            }
        }
    }
    if v.len() < s.len() {
        assert(s[v.len() as int] == rest[0]);
    }
    assert(text::is_digit(s[0]) || s[0] == '.');
    assert(!text::is_white(s.last())) by {
        if rest.len() > 0 {
            assert(s.last() == rest.last());
        } else {
            assert(s.last() == c.last());
            assert(text::is_digit(c[c.len() - 1]));
        }
    }
    let none = Seq::<char>::empty();
    assert(none + s + none =~= s);
    text::trimming_takes_the_padding(none, s, none);
    lemma_version_len(s, v.len() as int);
    assert(s.take(v.len() as int) =~= v);
    assert(!a.contains('.')) by {
        if a.contains('.') {
            let k = choose|k: int| 0 <= k < a.len() && a[k] == '.';
            assert(text::is_digit(a[k]));
        }
    }
    assert(!b.contains('.')) by {
        if b.contains('.') {
            let k = choose|k: int| 0 <= k < b.len() && b[k] == '.';
            assert(text::is_digit(b[k]));
        }
    }
    assert(!c.contains('.')) by {
        if c.contains('.') {
            let k = choose|k: int| 0 <= k < c.len() && c[k] == '.';
            assert(text::is_digit(c[k]));
        }
    }
    text::pieces_of_joined(a, '.', tail);
    text::pieces_of_joined(b, '.', c);
    text::pieces_of_joined(c, '.', a);
    let parts = text::pieces(v, '.');
    assert(parts =~= seq![a, b, c]);
    text::a_written_number_is_read_back(major as nat, u32::MAX as int);
    text::a_written_number_is_read_back(minor as nat, u32::MAX as int);
    text::a_written_number_is_read_back(patch as nat, u32::MAX as int);
}

} // verus!

//! Which AMD graphics cards there are, what they are called, and how their fans can be
//! controlled.

use crate::hwmon::discovery;
use crate::hwmon::pci;
use crate::hwmon::pci::{
    directory_order, extract_pci_bdf, is_pci_bdf, is_vga_class, pci_hex_or_zero, rank_text,
    read_pci_hex, GpuDirectory, PciDirectory,
};
use crate::hwmon::util;
use crate::hwmon::util::{file_name, parent_path};
use crate::text;
use crate::text::{
    join_path, parse_radix, parse_u32, remove_all, sorted_positions, starts_with, str_eq,
    strip_prefix, trim,
};
use vstd::prelude::*;
use vstd::string::*;

verus! {

/// The PCI number of the vendor.
pub const PCI_VENDOR_AMD: u64 = 0x1002;

/// The bit of the feature mask that opens the overdrive interface.
pub const PP_OVERDRIVE_MASK: u32 = 0x4000;

/// Where the kernel shows the feature mask.
pub const PPFEATUREMASK_PATH: &'static str = "/sys/module/amdgpu/parameters/ppfeaturemask";

/// The directory that is there while the module is loaded.
pub const AMDGPU_MODULE_PATH: &'static str = "/sys/module/amdgpu";

/// Where the kernel shows its PCI devices.
pub const PCI_DEVICES_ROOT: &'static str = "/sys/bus/pci/devices";

/// An AMD graphics card.
#[derive(Debug)]
pub struct AmdGpuInfo {
    /// PCI address; the same after every start.
    pub pci_bdf: String,
    /// PCI device number.
    pub pci_device_id: u16,
    /// PCI revision.
    pub pci_revision: u8,
    /// PCI class.
    pub pci_class: u32,
    /// What the card is called, where that is known.
    pub marketing_name: Option<String>,
    /// The path of its hwmon directory.
    pub hwmon_path: String,
    /// The path of its `fan_curve`, where it has one.
    pub fan_curve_path: Option<String>,
    /// The path of its `fan_zero_rpm_enable`, where it has one.
    pub fan_zero_rpm_path: Option<String>,
    /// Whether it drives screens.
    pub is_discrete: bool,
    /// Whether the speed of its fan can be read.
    pub has_fan_rpm: bool,
    /// Whether it has a `pwm1`, which need not be writable.
    pub has_pwm: bool,
    /// Whether it has a `pwm1_enable`.
    pub has_pwm_enable: bool,
    /// Whether the overdrive interface is open.
    pub overdrive_enabled: bool,
}

/// What is known of an AMD graphics card.
#[verifier::ext_equal]
pub struct AmdGpuView {
    pub pci_bdf: Seq<char>,
    pub pci_device_id: u16,
    pub pci_revision: u8,
    pub pci_class: u32,
    pub marketing_name: Option<Seq<char>>,
    pub hwmon_path: Seq<char>,
    pub fan_curve_path: Option<Seq<char>>,
    pub fan_zero_rpm_path: Option<Seq<char>>,
    pub is_discrete: bool,
    pub has_fan_rpm: bool,
    pub has_pwm: bool,
    pub has_pwm_enable: bool,
    pub overdrive_enabled: bool,
}

impl View for AmdGpuInfo {
    type V = AmdGpuView;

    open spec fn view(&self) -> AmdGpuView {
        AmdGpuView {
            pci_bdf: self.pci_bdf@,
            pci_device_id: self.pci_device_id,
            pci_revision: self.pci_revision,
            pci_class: self.pci_class,
            marketing_name: text::opt_text(self.marketing_name),
            hwmon_path: self.hwmon_path@,
            fan_curve_path: text::opt_text(self.fan_curve_path),
            fan_zero_rpm_path: text::opt_text(self.fan_zero_rpm_path),
            is_discrete: self.is_discrete,
            has_fan_rpm: self.has_fan_rpm,
            has_pwm: self.has_pwm,
            has_pwm_enable: self.has_pwm_enable,
            overdrive_enabled: self.overdrive_enabled,
        }
    }
}

fn clone_text(o: &Option<String>) -> (r: Option<String>)
    ensures
        text::opt_text(r) == text::opt_text(*o),
{
    match o {
        Some(s) => Some(s.clone()),
        None => None,
    }
}

impl Clone for AmdGpuInfo {
    fn clone(&self) -> (r: Self)
        ensures
            r@ == self@,
    {
        AmdGpuInfo {
            pci_bdf: self.pci_bdf.clone(),
            pci_device_id: self.pci_device_id,
            pci_revision: self.pci_revision,
            pci_class: self.pci_class,
            marketing_name: clone_text(&self.marketing_name),
            hwmon_path: self.hwmon_path.clone(),
            fan_curve_path: clone_text(&self.fan_curve_path),
            fan_zero_rpm_path: clone_text(&self.fan_zero_rpm_path),
            is_discrete: self.is_discrete,
            has_fan_rpm: self.has_fan_rpm,
            has_pwm: self.has_pwm,
            has_pwm_enable: self.has_pwm_enable,
            overdrive_enabled: self.overdrive_enabled,
        }
    }
}

impl AmdGpuView {
    /// What the card is called on a display: its name without `RX ` and blanks, or a
    /// general word.
    pub open spec fn label(self) -> Seq<char> {
        match self.marketing_name {
            Some(name) => text::without(text::without(name, "RX "@), " "@),
            None => "AMD D-GPU"@,
        }
    }

    /// Whether the old duty file can be written: it takes both the duty and the mode.
    pub open spec fn writes_legacy_pwm(self) -> bool {
        self.has_pwm && self.has_pwm_enable
    }

    /// Whether the card has anything to do with a fan.
    pub open spec fn has_fan(self) -> bool {
        self.has_fan_rpm || self.has_pwm || self.fan_curve_path is Some
    }

    /// The word for how the fan can be controlled.
    pub open spec fn control_method(self) -> Seq<char> {
        if self.fan_curve_path is Some {
            "pmfw_curve"@
        } else if self.writes_legacy_pwm() {
            "hwmon_pwm"@
        } else if self.has_fan_rpm || self.has_pwm {
            "read_only"@
        } else {
            "none"@
        }
    }
}

impl AmdGpuInfo {
    /// What the card is called on a display.
    pub fn display_label(&self) -> (r: String)
        ensures
            r@ == self@.label(),
    {
        match &self.marketing_name {
            Some(name) => {
                proof {
                    reveal_strlit("RX ");
                    reveal_strlit(" ");
                }
                let short: String = remove_all(name.as_str(), "RX ");
                remove_all(short.as_str(), " ")
            },
            None => "AMD D-GPU".to_owned(),
        }
    }

    /// The word for how the fan can be controlled: by a curve, by a duty, not at all but
    /// read, or not even that.
    pub fn fan_control_method(&self) -> (r: &'static str)
        ensures
            r@ == self@.control_method(),
    {
        if self.fan_curve_path.is_some() {
            "pmfw_curve"
        } else if self.has_pwm && self.has_pwm_enable {
            "hwmon_pwm"
        } else if self.has_fan_rpm || self.has_pwm {
            "read_only"
        } else {
            "none"
        }
    }

    /// Whether the old duty file can be written. That it is there does not suffice: newer
    /// cards show it for reading only, and have no mode file.
    pub fn can_write_legacy_pwm(&self) -> (r: bool)
        ensures
            r == self@.writes_legacy_pwm(),
    {
        self.has_pwm && self.has_pwm_enable
    }

    /// Whether the card has anything to do with a fan.
    pub fn has_any_fan_interface(&self) -> (r: bool)
        ensures
            r == self@.has_fan(),
    {
        self.has_fan_rpm || self.has_pwm || self.fan_curve_path.is_some()
    }

    /// The path of `fan_minimum_pwm`, which stands beside `fan_curve`. It is only ever
    /// read.
    pub fn fan_minimum_pwm_path(&self) -> (r: Option<String>)
        ensures
            text::opt_text(r) == (match self@.fan_curve_path {
                Some(p) => match util::parent_of(p) {
                    Some(dir) => Some(text::joined(dir, "fan_minimum_pwm"@)),
                    None => None,
                },
                None => None,
            }),
    {
        match &self.fan_curve_path {
            Some(p) => match parent_path(p.as_str()) {
                Some(dir) => Some(join_path(dir.as_str(), "fan_minimum_pwm")),
                None => None,
            },
            None => None,
        }
    }
}

/// Whether a device number is that of an RDNA3 or RDNA4 card or processor graphics.
pub open spec fn is_mes_era(device_id: u16) -> bool {
    ||| device_id == 0x7550 || device_id == 0x7551 || device_id == 0x7590
    ||| device_id == 0x744C || device_id == 0x7448 || device_id == 0x7480
    ||| device_id == 0x7470 || device_id == 0x747E
    ||| device_id == 0x7460 || device_id == 0x7461
    ||| device_id == 0x15BF || device_id == 0x150E
}

/// Whether a device number is that of an RDNA3 or RDNA4 card or processor graphics.
pub fn is_rdna3_or_rdna4(device_id: u16) -> (r: bool)
    ensures
        r == is_mes_era(device_id),
{
    device_id == 0x7550 || device_id == 0x7551 || device_id == 0x7590 || device_id == 0x744C
        || device_id == 0x7448 || device_id == 0x7480 || device_id == 0x7470 || device_id == 0x747E
        || device_id == 0x7460 || device_id == 0x7461 || device_id == 0x15BF || device_id == 0x150E
}

// ---------------------------------------------------------------------------
// Names
// ---------------------------------------------------------------------------

/// The names of cards by device number, but for those of which one number stands for
/// several.
pub const MARKETING_NAMES: [(u16, &'static str); 15] = [
    (0x744C, "RX 7900 XTX"),
    (0x7448, "RX 7900 XT"),
    (0x7480, "RX 7900 GRE"),
    (0x7470, "RX 7800 XT"),
    (0x747E, "RX 7700 XT"),
    (0x7460, "RX 7600 XT"),
    (0x7461, "RX 7600"),
    (0x73BF, "RX 6900 XT"),
    (0x73A5, "RX 6950 XT"),
    (0x73EF, "RX 6800 XT"),
    (0x73E3, "RX 6800"),
    (0x73DF, "RX 6700 XT"),
    (0x73D1, "RX 6700"),
    (0x73FF, "RX 6600 XT"),
    (0x73E9, "RX 6600"),
];

/// The name in the first row from `i` on with the device number.
pub open spec fn name_from(device_id: u16, i: int) -> Option<Seq<char>>
    decreases MARKETING_NAMES@.len() - i,
{
    if i < 0 || i >= MARKETING_NAMES@.len() {
        None
    } else if MARKETING_NAMES@[i].0 == device_id {
        Some(MARKETING_NAMES@[i].1@)
    } else {
        name_from(device_id, i + 1)
    }
}

/// What a card is called; of the RX 9070 the revision tells which one it is. Processor
/// graphics have no name.
pub open spec fn name_of(device_id: u16, revision: u8) -> Option<Seq<char>> {
    if device_id == 0x7550 {
        if revision == 0xC0 {
            Some("RX 9070 XT"@)
        } else if revision == 0xC3 {
            Some("RX 9070"@)
        } else {
            Some("RX 9070 Series"@)
        }
    } else {
        name_from(device_id, 0)
    }
}

/// What a card is called.
pub fn lookup_marketing_name(device_id: u16, revision: u8) -> (r: Option<String>)
    ensures
        text::opt_text(r) == name_of(device_id, revision),
{
    if device_id == 0x7550 {
        return if revision == 0xC0 {
            Some("RX 9070 XT".to_owned())
        } else if revision == 0xC3 {
            Some("RX 9070".to_owned())
        } else {
            Some("RX 9070 Series".to_owned())
        };
    }
    let names: [(u16, &'static str); 15] = MARKETING_NAMES;
    let mut i: usize = 0;
    while i < names.len()
        invariant
            i <= names@.len(),
            names == MARKETING_NAMES,
            name_from(device_id, 0) == name_from(device_id, i as int),
        decreases names@.len() - i,
    {
        if names[i].0 == device_id {
            return Some(names[i].1.to_owned());
        }
        i += 1;
    }
    None
}

// ---------------------------------------------------------------------------
// Cards with a hwmon directory
// ---------------------------------------------------------------------------

/// Whether a feature mask has the overdrive bit.
pub open spec fn has_overdrive(mask: u32) -> bool {
    mask & PP_OVERDRIVE_MASK != 0
}

/// Whether the text of the feature mask says that overdrive is open. It is hexadecimal;
/// what is none is taken as decimal.
pub open spec fn overdrive_open(content: Option<Seq<char>>) -> bool {
    match content {
        Some(raw) => match text::parsed(pci::hex_part(raw), 16, u32::MAX as int) {
            Some(mask) => has_overdrive(mask as u32),
            None => match text::parsed(text::trimmed(raw), 10, u32::MAX as int) {
                Some(mask) => has_overdrive(mask as u32),
                None => false,
            },
        },
        None => false,
    }
}

/// Whether the text of the feature mask says that overdrive is open.
pub fn read_overdrive_enabled(content: Option<&str>) -> (r: bool)
    ensures
        r == overdrive_open(text::opt_str(content)),
{
    match content {
        Some(raw) => {
            let trimmed: &str = trim(raw);
            let digits: &str = match strip_prefix(trimmed, "0x") {
                Some(rest) => rest,
                None => trimmed,
            };
            match parse_radix(digits, 16, u32::MAX as u64) {
                Some(mask) => (mask as u32) & PP_OVERDRIVE_MASK != 0,
                None => match parse_u32(trimmed) {
                    Some(mask) => mask & PP_OVERDRIVE_MASK != 0,
                    None => false,
                },
            }
        },
        None => false,
    }
}

/// The path of a file of the overdrive interface, where it is there.
pub open spec fn overdrive_file(dir: PciDirectory, there: bool, name: Seq<char>) -> Option<
    Seq<char>,
> {
    if there {
        Some(text::joined(dir.path@, name))
    } else {
        None
    }
}

/// The card of a hwmon directory, where it is one with a PCI address.
pub open spec fn gpu_of(dir: GpuDirectory, overdrive: bool) -> Option<AmdGpuView> {
    if dir.chip is Some && text::trimmed(dir.chip->0@) == "amdgpu"@ && dir.pci is Some {
        let dev = dir.pci->0;
        match pci::last_address(text::pieces(dev.path@, '/')) {
            None => None,
            Some(address) => {
                let id = pci::hex_or_zero(text::opt_text(dev.device), 0xFFFF) as u16;
                let revision = pci::hex_or_zero(text::opt_text(dev.revision), 0xFF) as u8;
                let class = pci::hex_or_zero(text::opt_text(dev.class), u32::MAX as int) as u32;
                Some(
                    AmdGpuView {
                        pci_bdf: address,
                        pci_device_id: id,
                        pci_revision: revision,
                        pci_class: class,
                        marketing_name: name_of(id, revision),
                        hwmon_path: dir.path@,
                        fan_curve_path: overdrive_file(
                            dev,
                            dev.fan_curve,
                            "gpu_od/fan_ctrl/fan_curve"@,
                        ),
                        fan_zero_rpm_path: overdrive_file(
                            dev,
                            dev.fan_zero_rpm,
                            "gpu_od/fan_ctrl/fan_zero_rpm_enable"@,
                        ),
                        is_discrete: pci::is_vga(class),
                        has_fan_rpm: dir.fan1_input,
                        has_pwm: dir.pwm1,
                        has_pwm_enable: dir.pwm1_enable,
                        overdrive_enabled: overdrive,
                    },
                )
            },
        }
    } else {
        None
    }
}

/// The card of a hwmon directory, where it is one with a PCI address.
pub fn detect_single_gpu(dir: &GpuDirectory, overdrive_enabled: bool) -> (r: Option<AmdGpuInfo>)
    ensures
        match (r, gpu_of(*dir, overdrive_enabled)) {
            (Some(gpu), Some(view)) => gpu@ == view,
            (None, None) => true,
            _ => false,
        },
{
    let chip: &str = match &dir.chip {
        Some(t) => trim(t.as_str()),
        None => {
            return None;
        },
    };
    if !str_eq(chip, "amdgpu") {
        return None;
    }
    let dev: &PciDirectory = match &dir.pci {
        Some(dev) => dev,
        None => {
            return None;
        },
    };
    let pci_bdf: String = match extract_pci_bdf(dev.path.as_str()) {
        Some(address) => address,
        None => {
            return None;
        },
    };
    let pci_device_id: u16 = pci_hex_or_zero(&dev.device, 0xFFFF) as u16;
    let pci_revision: u8 = pci_hex_or_zero(&dev.revision, 0xFF) as u8;
    let pci_class: u32 = pci_hex_or_zero(&dev.class, u32::MAX as u64) as u32;
    let fan_curve_path: Option<String> = if dev.fan_curve {
        Some(join_path(dev.path.as_str(), "gpu_od/fan_ctrl/fan_curve"))
    } else {
        None
    };
    let fan_zero_rpm_path: Option<String> = if dev.fan_zero_rpm {
        Some(join_path(dev.path.as_str(), "gpu_od/fan_ctrl/fan_zero_rpm_enable"))
    } else {
        None
    };
    Some(
        AmdGpuInfo {
            pci_bdf,
            pci_device_id,
            pci_revision,
            pci_class,
            marketing_name: lookup_marketing_name(pci_device_id, pci_revision),
            hwmon_path: dir.path.clone(),
            fan_curve_path,
            fan_zero_rpm_path,
            is_discrete: is_vga_class(pci_class),
            has_fan_rpm: dir.fan1_input,
            has_pwm: dir.pwm1,
            has_pwm_enable: dir.pwm1_enable,
            overdrive_enabled,
        },
    )
}

/// The cards of the hwmon directories, taken in turn.
pub open spec fn found_among(dirs: Seq<GpuDirectory>, overdrive: bool) -> Seq<AmdGpuView>
    decreases dirs.len(),
{
    if dirs.len() == 0 {
        Seq::empty()
    } else {
        let before = found_among(dirs.drop_last(), overdrive);
        if discovery::is_hwmon_dir(dirs.last().name@) && gpu_of(dirs.last(), overdrive) is Some {
            before.push(gpu_of(dirs.last(), overdrive)->0)
        } else {
            before
        }
    }
}

/// What cards are sorted by.
pub open spec fn rank_keys(gpus: Seq<AmdGpuView>) -> Seq<Seq<char>> {
    gpus.map_values(|g: AmdGpuView| pci::rank_key(g.has_fan(), g.is_discrete, g.pci_bdf))
}

/// Cards with the preferred ones first: those with a fan, then those that drive screens,
/// then by address.
pub open spec fn best_first(gpus: Seq<AmdGpuView>) -> Seq<AmdGpuView> {
    text::order_of(rank_keys(gpus)).map_values(|i: int| gpus[i])
}

fn sort_gpus(gpus: &Vec<AmdGpuInfo>) -> (r: Vec<AmdGpuInfo>)
    ensures
        text::views(r@) == best_first(text::views(gpus@)),
{
    let ghost all = text::views(gpus@);
    let mut keys: Vec<String> = Vec::new();
    let mut i: usize = 0;
    while i < gpus.len()
        invariant
            i <= gpus@.len(),
            all == text::views(gpus@),
            keys@.len() == i,
            forall|k: int| 0 <= k < i ==> (#[trigger] keys@[k])@ == rank_keys(all)[k],
        decreases gpus@.len() - i,
    {
        let g: &AmdGpuInfo = &gpus[i];
        assert(all[i as int] == g@);
        keys.push(rank_text(g.has_any_fan_interface(), g.is_discrete, g.pci_bdf.as_str()));
        i += 1;
    }
    assert(text::strings(keys@) =~= rank_keys(all));
    let order: Vec<usize> = sorted_positions(&keys);
    let ghost sorted = best_first(all);
    assert(text::positions(order@).len() == order@.len());
    let mut r: Vec<AmdGpuInfo> = Vec::new();
    let mut k: usize = 0;
    while k < order.len()
        invariant
            k <= order@.len(),
            all == text::views(gpus@),
            sorted == best_first(all),
            text::positions(order@) == text::order_of(rank_keys(all)),
            sorted.len() == order@.len(),
            forall|j: int| 0 <= j < order@.len() ==> #[trigger] order@[j] < gpus@.len(),
            r@.len() == k,
            forall|j: int| 0 <= j < k ==> (#[trigger] r@[j])@ == sorted[j],
        decreases order@.len() - k,
    {
        let at: usize = order[k];
        proof {
            assert(text::positions(order@)[k as int] == at as int);
            assert(sorted[k as int] == all[at as int]);
        }
        r.push(gpus[at].clone());
        k += 1;
    }
    assert(text::views(r@) =~= sorted);
    r
}

/// The AMD graphics cards under a hwmon root, with the preferred ones first.
///
/// `listing` holds the directories under the root, or why they could not be listed, in
/// which case there are no cards; `ppfeaturemask` is the text of the feature mask.
pub fn detect_amd_gpus_with_ppfeaturemask(
    listing: &Result<Vec<GpuDirectory>, String>,
    ppfeaturemask: Option<&str>,
) -> (r: Vec<AmdGpuInfo>)
    ensures
        text::views(r@) == (match *listing {
            Ok(dirs) => best_first(
                found_among(
                    pci::ordered_directories(dirs@),
                    overdrive_open(text::opt_str(ppfeaturemask)),
                ),
            ),
            Err(_) => Seq::empty(),
        }),
{
    let overdrive: bool = read_overdrive_enabled(ppfeaturemask);
    let mut found: Vec<AmdGpuInfo> = Vec::new();
    assert(text::views(found@) =~= Seq::<AmdGpuView>::empty());
    let dirs: &Vec<GpuDirectory> = match listing {
        Ok(dirs) => dirs,
        Err(_) => {
            return found;
        },
    };
    let order: Vec<usize> = directory_order(dirs);
    let ghost ordered = pci::ordered_directories(dirs@);
    let mut i: usize = 0;
    while i < order.len()
        invariant
            i <= order@.len(),
            order@.len() == dirs@.len(),
            ordered == pci::ordered_directories(dirs@),
            ordered.len() == dirs@.len(),
            forall|k: int| 0 <= k < order@.len() ==> #[trigger] order@[k] < dirs@.len(),
            forall|k: int|
                0 <= k < order@.len() ==> #[trigger] ordered[k] == dirs@[order@[k] as int],
            text::views(found@) == found_among(ordered.take(i as int), overdrive),
        decreases order@.len() - i,
    {
        let dir: &GpuDirectory = &dirs[order[i]];
        proof {
            assert(ordered.take(i + 1).drop_last() =~= ordered.take(i as int));
            assert(ordered.take(i + 1).last() == ordered[i as int]);
        }
        if starts_with(dir.name.as_str(), "hwmon") {
            if let Some(gpu) = detect_single_gpu(dir, overdrive) {
                let ghost was = text::views(found@);
                let ghost view = gpu@;
                found.push(gpu);
                assert(text::views(found@) =~= was.push(view));
            }
        }
        i += 1;
    }
    assert(ordered.take(i as int) =~= ordered);
    sort_gpus(&found)
}

/// The preferred card: the first of them, as they come sorted.
pub fn select_primary_gpu(gpus: &Vec<AmdGpuInfo>) -> (r: Option<&AmdGpuInfo>)
    ensures
        match r {
            Some(g) => gpus@.len() > 0 && *g == gpus@[0],
            None => gpus@.len() == 0,
        },
{
    if gpus.len() > 0 {
        Some(&gpus[0])
    } else {
        None
    }
}

// ---------------------------------------------------------------------------
// Cards on the PCI bus
// ---------------------------------------------------------------------------

/// An entry of the PCI bus, as it was read. A text is that of the file of the same name,
/// where it could be read.
#[derive(Debug)]
pub struct PciEntry {
    /// The name of the entry: an address.
    pub name: String,
    pub vendor: Option<String>,
    pub class: Option<String>,
    pub device: Option<String>,
    /// Where the `driver` link leads.
    pub driver_link: Option<String>,
}

/// An AMD display controller on the PCI bus, with the driver that is bound to it. One
/// that no driver is bound to has no hwmon directory, and would not be seen otherwise.
#[derive(Debug)]
pub struct AmdPciDevice {
    /// PCI address.
    pub pci_bdf: String,
    /// PCI device number.
    pub pci_device_id: u16,
    /// The name of the driver, where one is bound.
    pub driver: Option<String>,
}

/// What is known of a display controller on the PCI bus.
#[verifier::ext_equal]
pub struct PciDeviceView {
    pub pci_bdf: Seq<char>,
    pub pci_device_id: u16,
    pub driver: Option<Seq<char>>,
}

impl View for AmdPciDevice {
    type V = PciDeviceView;

    open spec fn view(&self) -> PciDeviceView {
        PciDeviceView {
            pci_bdf: self.pci_bdf@,
            pci_device_id: self.pci_device_id,
            driver: text::opt_text(self.driver),
        }
    }
}

impl Clone for AmdPciDevice {
    fn clone(&self) -> (r: Self)
        ensures
            r@ == self@,
    {
        AmdPciDevice {
            pci_bdf: self.pci_bdf.clone(),
            pci_device_id: self.pci_device_id,
            driver: clone_text(&self.driver),
        }
    }
}

impl AmdPciDevice {
    /// Whether `amdgpu` is bound to the device.
    pub fn amdgpu_bound(&self) -> (r: bool)
        ensures
            r == (self@.driver == Some("amdgpu"@)),
    {
        match &self.driver {
            Some(d) => str_eq(d.as_str(), "amdgpu"),
            None => false,
        }
    }
}

/// The display controller of an entry of the PCI bus, where it is one of the vendor.
pub open spec fn pci_device_of(e: PciEntry) -> Option<PciDeviceView> {
    if pci::is_address(e.name@) && pci::hex_of(text::opt_text(e.vendor), 0xFFFF) == Some(
        PCI_VENDOR_AMD as int,
    ) && pci::is_vga(pci::hex_or_zero(text::opt_text(e.class), u32::MAX as int) as u32) {
        Some(
            PciDeviceView {
                pci_bdf: e.name@,
                pci_device_id: pci::hex_or_zero(text::opt_text(e.device), 0xFFFF) as u16,
                driver: match e.driver_link {
                    Some(link) => util::file_name_of(link@),
                    None => None,
                },
            },
        )
    } else {
        None
    }
}

fn detect_pci_device(e: &PciEntry) -> (r: Option<AmdPciDevice>)
    ensures
        match (r, pci_device_of(*e)) {
            (Some(d), Some(view)) => d@ == view,
            (None, None) => true,
            _ => false,
        },
{
    if !is_pci_bdf(e.name.as_str()) {
        return None;
    }
    match read_pci_hex(&e.vendor, 0xFFFF) {
        Some(vendor) => {
            if vendor != PCI_VENDOR_AMD {
                return None;
            }
        },
        None => {
            return None;
        },
    }
    let class: u32 = pci_hex_or_zero(&e.class, u32::MAX as u64) as u32;
    if !is_vga_class(class) {
        return None;
    }
    let driver: Option<String> = match &e.driver_link {
        Some(link) => match file_name(link.as_str()) {
            Some(name) => Some(name.to_owned()),
            None => None,
        },
        None => None,
    };
    Some(
        AmdPciDevice {
            pci_bdf: e.name.clone(),
            pci_device_id: pci_hex_or_zero(&e.device, 0xFFFF) as u16,
            driver,
        },
    )
}

/// The display controllers of the vendor among the entries.
pub open spec fn pci_devices_among(entries: Seq<PciEntry>) -> Seq<PciDeviceView>
    decreases entries.len(),
{
    if entries.len() == 0 {
        Seq::empty()
    } else {
        let before = pci_devices_among(entries.drop_last());
        match pci_device_of(entries.last()) {
            Some(d) => before.push(d),
            None => before,
        }
    }
}

/// The addresses of display controllers.
pub open spec fn addresses_of(devices: Seq<PciDeviceView>) -> Seq<Seq<char>> {
    devices.map_values(|d: PciDeviceView| d.pci_bdf)
}

/// Display controllers in the order of their addresses.
pub open spec fn by_address(devices: Seq<PciDeviceView>) -> Seq<PciDeviceView> {
    text::order_of(addresses_of(devices)).map_values(|i: int| devices[i])
}

/// The AMD display controllers on the PCI bus, in the order of their addresses.
///
/// `listing` holds the entries of the bus, or why they could not be listed, in which case
/// there are none.
pub fn detect_amd_pci_devices_at(listing: &Result<Vec<PciEntry>, String>) -> (r: Vec<AmdPciDevice>)
    ensures
        text::views(r@) == (match *listing {
            Ok(entries) => by_address(pci_devices_among(entries@)),
            Err(_) => Seq::empty(),
        }),
{
    let mut found: Vec<AmdPciDevice> = Vec::new();
    assert(text::views(found@) =~= Seq::<PciDeviceView>::empty());
    let entries: &Vec<PciEntry> = match listing {
        Ok(entries) => entries,
        Err(_) => {
            return found;
        },
    };
    let mut addresses: Vec<String> = Vec::new();
    let mut i: usize = 0;
    assert(text::strings(addresses@) =~= addresses_of(text::views(found@)));
    while i < entries.len()
        invariant
            i <= entries@.len(),
            text::views(found@) == pci_devices_among(entries@.take(i as int)),
            text::strings(addresses@) == addresses_of(text::views(found@)),
        decreases entries@.len() - i,
    {
        proof {
            assert(entries@.take(i + 1).drop_last() =~= entries@.take(i as int));
            assert(entries@.take(i + 1).last() == entries@[i as int]);
        }
        if let Some(d) = detect_pci_device(&entries[i]) {
            let ghost was = text::views(found@);
            let ghost texts = text::strings(addresses@);
            let ghost view = d@;
            addresses.push(d.pci_bdf.clone());
            found.push(d);
            proof {
                assert(text::views(found@) =~= was.push(view));
                assert(text::strings(addresses@) =~= texts.push(view.pci_bdf));
                assert(addresses_of(was.push(view)) =~= texts.push(view.pci_bdf));
            }
        }
        i += 1;
    }
    assert(entries@.take(i as int) =~= entries@);
    let ghost all = text::views(found@);
    let ghost sorted = by_address(all);
    let order: Vec<usize> = sorted_positions(&addresses);
    proof {
        assert(text::positions(order@).len() == order@.len());
        assert(text::strings(addresses@).len() == addresses@.len());
        assert(addresses_of(all).len() == found@.len());
    }
    let mut r: Vec<AmdPciDevice> = Vec::new();
    let mut k: usize = 0;
    while k < order.len()
        invariant
            k <= order@.len(),
            all == text::views(found@),
            sorted == by_address(all),
            text::positions(order@) == text::order_of(addresses_of(all)),
            sorted.len() == order@.len(),
            forall|j: int| 0 <= j < order@.len() ==> #[trigger] order@[j] < found@.len(),
            r@.len() == k,
            forall|j: int| 0 <= j < k ==> (#[trigger] r@[j])@ == sorted[j],
        decreases order@.len() - k,
    {
        let at: usize = order[k];
        proof {
            assert(text::positions(order@)[k as int] == at as int);
            assert(sorted[k as int] == all[at as int]);
        }
        r.push(found[at].clone());
        k += 1;
    }
    assert(text::views(r@) =~= sorted);
    r
}

// ---------------------------------------------------------------------------
// Laws
// ---------------------------------------------------------------------------

/// Whether a card is to be preferred to another.
pub open spec fn is_better(a: AmdGpuView, b: AmdGpuView) -> bool {
    if a.has_fan() != b.has_fan() {
        a.has_fan()
    } else if a.is_discrete != b.is_discrete {
        a.is_discrete
    } else {
        text::precedes(a.pci_bdf, b.pci_bdf)
    }
}

/// Cards come with the preferred ones first: none comes behind one that it is to be
/// preferred to, and none is lost or added. So the first is the preferred one.
pub proof fn gpus_come_best_first(gpus: Seq<AmdGpuView>, i: int, j: int)
    requires
        0 <= i < j < gpus.len(),
    ensures
        best_first(gpus).len() == gpus.len(),
        best_first(gpus).to_multiset() == gpus.to_multiset(),
        !is_better(best_first(gpus)[j], best_first(gpus)[i]),
{
    let keys = rank_keys(gpus);
    text::ordering_keeps_everything(gpus, keys);
    text::order_of_sorts(keys);
    let order = text::order_of(keys);
    let a = gpus[order[i]];
    let b = gpus[order[j]];
    assert(best_first(gpus)[i] == a && best_first(gpus)[j] == b);
    assert(keys[order[i]] == pci::rank_key(a.has_fan(), a.is_discrete, a.pci_bdf));
    assert(keys[order[j]] == pci::rank_key(b.has_fan(), b.is_discrete, b.pci_bdf));
    text::precedes_is_total(keys[order[i]], keys[order[j]]);
    pci::rank_orders_by_its_parts(
        b.has_fan(),
        b.is_discrete,
        b.pci_bdf,
        a.has_fan(),
        a.is_discrete,
        a.pci_bdf,
    );
}

/// A card that can be controlled has a fan, and where the old duty file cannot be written
/// the control method never says that it can.
pub proof fn control_methods_are_truthful(g: AmdGpuView)
    ensures
        g.control_method() == "none"@ ==> !g.has_fan(),
        g.control_method() == "hwmon_pwm"@ ==> g.writes_legacy_pwm(),
        g.control_method() == "pmfw_curve"@ ==> g.fan_curve_path is Some,
{
    reveal_strlit("none");
    reveal_strlit("hwmon_pwm");
    reveal_strlit("pmfw_curve");
    reveal_strlit("read_only");
    assert("none"@.len() == 4 && "hwmon_pwm"@.len() == 9 && "pmfw_curve"@.len() == 10);
    assert("read_only"@.len() == 9 && "read_only"@[0] == 'r' && "hwmon_pwm"@[0] == 'h');
}

/// How the fan can be controlled follows from what is there: a curve comes first, then a
/// duty that has a mode beside it; a duty without a mode, or a speed alone, can only be
/// read.
pub proof fn the_control_method_follows_from_the_files(g: AmdGpuView)
    ensures
        g.control_method() == "pmfw_curve"@ <==> g.fan_curve_path is Some,
        g.control_method() == "hwmon_pwm"@ <==> g.fan_curve_path is None && g.has_pwm
            && g.has_pwm_enable,
        g.control_method() == "read_only"@ <==> g.fan_curve_path is None && !(g.has_pwm
            && g.has_pwm_enable) && (g.has_fan_rpm || g.has_pwm),
        g.control_method() == "none"@ <==> g.fan_curve_path is None && !g.has_fan_rpm
            && !g.has_pwm,
        g.writes_legacy_pwm() <==> g.has_pwm && g.has_pwm_enable,
        g.has_fan() <==> g.has_fan_rpm || g.has_pwm || g.fan_curve_path is Some,
{
    reveal_strlit("pmfw_curve");
    reveal_strlit("hwmon_pwm");
    reveal_strlit("read_only");
    reveal_strlit("none");
    let m = g.control_method();
    assert(m == "pmfw_curve"@ ==> m[0] == 'p');
    assert(m == "hwmon_pwm"@ ==> m[0] == 'h');
    assert(m == "read_only"@ ==> m[0] == 'r');
    assert(m == "none"@ ==> m[0] == 'n');
}

/// The revision tells which card of the RX 9070 series a device is; every other card is
/// known by its number alone.
pub proof fn the_revision_tells_the_cards_of_a_series(device_id: u16, a: u8, b: u8)
    ensures
        name_of(0x7550, 0xC0) == Some("RX 9070 XT"@),
        name_of(0x7550, 0xC3) == Some("RX 9070"@),
        a != 0xC0 && a != 0xC3 ==> name_of(0x7550, a) == Some("RX 9070 Series"@),
        device_id != 0x7550 ==> name_of(device_id, a) == name_of(device_id, b),
{
}

proof fn lemma_name_from(device_id: u16, i: int, m: int)
    requires
        0 <= i <= m < MARKETING_NAMES@.len(),
        MARKETING_NAMES@[m].0 == device_id,
        forall|k: int| i <= k < m ==> (#[trigger] MARKETING_NAMES@[k]).0 != device_id,
    ensures
        name_from(device_id, i) == Some(MARKETING_NAMES@[m].1@),
    decreases m - i,
{
    if i < m {
        assert(MARKETING_NAMES@[i].0 != device_id);
        lemma_name_from(device_id, i + 1, m);
    }
}

/// Every card of the table is found by its number, whatever its revision, and no other
/// number has a name.
pub proof fn cards_are_named_by_their_number(m: int, device_id: u16, revision: u8)
    ensures
        0 <= m < MARKETING_NAMES@.len() ==> name_of(MARKETING_NAMES@[m].0, revision) == Some(
            MARKETING_NAMES@[m].1@,
        ),
        name_of(device_id, revision) is Some <==> device_id == 0x7550 || device_id == 0x744C
            || device_id == 0x7448 || device_id == 0x7480 || device_id == 0x7470 || device_id
            == 0x747E || device_id == 0x7460 || device_id == 0x7461 || device_id == 0x73BF
            || device_id == 0x73A5 || device_id == 0x73EF || device_id == 0x73E3 || device_id
            == 0x73DF || device_id == 0x73D1 || device_id == 0x73FF || device_id == 0x73E9,
{
    lemma_numbers_differ(m);
    if 0 <= m < MARKETING_NAMES@.len() {
        lemma_name_from(MARKETING_NAMES@[m].0, 0, m);
    }
    reveal_with_fuel(name_from, 17);
}

proof fn lemma_numbers_differ(m: int)
    ensures
        0 <= m < MARKETING_NAMES@.len() ==> MARKETING_NAMES@[m].0 != 0x7550 && forall|k: int|
            0 <= k < m ==> (#[trigger] MARKETING_NAMES@[k]).0 != MARKETING_NAMES@[m].0,
{
}

/// Cards of the 7000 and 9000 series and their processor graphics are of the era that the
/// known fault concerns; those of the 6000 series are not.
pub proof fn older_cards_are_not_of_the_era(device_id: u16)
    ensures
        0x7300 <= device_id < 0x7400 ==> !is_mes_era(device_id),
        device_id == 0x744C || device_id == 0x7550 || device_id == 0x7551 || device_id == 0x7590
            || device_id == 0x15BF || device_id == 0x150E ==> is_mes_era(device_id),
        device_id == 0x7448 || device_id == 0x7480 || device_id == 0x7470 || device_id == 0x747E
            || device_id == 0x7460 || device_id == 0x7461 ==> is_mes_era(device_id),
        is_mes_era(device_id) ==> 0x7440 <= device_id < 0x75A0 || device_id == 0x15BF || device_id
            == 0x150E,
{
}

/// Overdrive is open exactly where its bit is set in the feature mask, whether the mask is
/// shown in hexadecimal or in decimal that is no hexadecimal; without a mask it is not.
pub proof fn overdrive_goes_by_its_bit(mask: u32, width: nat)
    requires
        width > 0,
        (mask as int) < vstd::arithmetic::power::pow(16, width),
    ensures
        overdrive_open(Some("0x"@ + text::hex_digits(mask as nat, width))) <==> mask / 0x4000 % 2
            == 1,
        !overdrive_open(None),
{
    pci::a_stated_number_is_read(mask as nat, width, u32::MAX as int);
    assert((mask & 0x4000 != 0) <==> (mask / 0x4000 % 2 == 1)) by (bit_vector);
}

/// A card is one whose chip is `amdgpu` and that has a PCI address; what is told of it is
/// what its directories show.
pub proof fn a_card_is_told_as_its_directories_show_it(dir: GpuDirectory, overdrive: bool)
    ensures
        gpu_of(dir, overdrive) is Some <==> dir.chip is Some && text::trimmed(dir.chip->0@)
            == "amdgpu"@ && dir.pci is Some && pci::last_address(
            text::pieces(dir.pci->0.path@, '/'),
        ) is Some,
        gpu_of(dir, overdrive) matches Some(g) ==> {
            let dev = dir.pci->0;
            &&& Some(g.pci_bdf) == pci::last_address(text::pieces(dev.path@, '/'))
            &&& g.hwmon_path == dir.path@
            &&& g.has_fan_rpm == dir.fan1_input
            &&& g.has_pwm == dir.pwm1
            &&& g.has_pwm_enable == dir.pwm1_enable
            &&& g.overdrive_enabled == overdrive
            &&& g.fan_curve_path is Some <==> dev.fan_curve
            &&& dev.fan_curve ==> g.fan_curve_path == Some(
                text::joined(dev.path@, "gpu_od/fan_ctrl/fan_curve"@),
            )
            &&& g.fan_zero_rpm_path is Some <==> dev.fan_zero_rpm
            &&& dev.fan_zero_rpm ==> g.fan_zero_rpm_path == Some(
                text::joined(dev.path@, "gpu_od/fan_ctrl/fan_zero_rpm_enable"@),
            )
            &&& g.marketing_name == name_of(g.pci_device_id, g.pci_revision)
            &&& g.is_discrete <==> g.pci_class % 0x100_0000 / 0x100 == 0x0300
            &&& pci::hex_of(text::opt_text(dev.device), 0xFFFF) matches Some(n)
                ==> g.pci_device_id == n
            &&& pci::hex_of(text::opt_text(dev.revision), 0xFF) matches Some(n)
                ==> g.pci_revision == n
            &&& pci::hex_of(text::opt_text(dev.class), u32::MAX as int) matches Some(n)
                ==> g.pci_class == n
        },
{
    if gpu_of(dir, overdrive) is Some {
        let g = gpu_of(dir, overdrive)->0;
        pci::the_lowest_byte_of_a_class_plays_no_part(g.pci_class);
        lemma_hex_bounds(text::opt_text(dir.pci->0.device), 0xFFFF);
        lemma_hex_bounds(text::opt_text(dir.pci->0.revision), 0xFF);
        lemma_hex_bounds(text::opt_text(dir.pci->0.class), u32::MAX as int);
    }
}

proof fn lemma_hex_bounds(raw: Option<Seq<char>>, max: int)
    ensures
        pci::hex_of(raw, max) matches Some(n) ==> 0 <= n <= max,
{
    if raw is Some {
        let s = pci::hex_part(raw->0);
        let d = if s.len() > 0 && s[0] == '+' {
            s.skip(1)
        } else {
            s
        };
        if pci::hex_of(raw, max) is Some {
            lemma_digits_not_negative(d);
        }
    }
}

proof fn lemma_digits_not_negative(s: Seq<char>)
    ensures
        text::digits_value(s, 16) >= 0,
    decreases s.len(),
{
    if s.len() > 0 {
        lemma_digits_not_negative(s.drop_last());
    }
}

/// Every card of the directories is found, and nothing else is.
pub proof fn every_card_is_found(dirs: Seq<GpuDirectory>, overdrive: bool, g: AmdGpuView)
    ensures
        found_among(dirs, overdrive).contains(g) <==> exists|i: int|
            0 <= i < dirs.len() && text::starts((#[trigger] dirs[i]).name@, "hwmon"@) && gpu_of(
                dirs[i],
                overdrive,
            ) == Some(g),
    decreases dirs.len(),
{
    if dirs.len() > 0 {
        let front = dirs.drop_last();
        every_card_is_found(front, overdrive, g);
        assert forall|i: int| 0 <= i < front.len() implies #[trigger] front[i] == dirs[i] by {}
        let before = found_among(front, overdrive);
        let all = found_among(dirs, overdrive);
        if all.contains(g) {
            let k = choose|k: int| 0 <= k < all.len() && all[k] == g;
            if k < before.len() {
                assert(before[k] == g);
                let i = choose|i: int|
                    0 <= i < front.len() && text::starts((#[trigger] front[i]).name@, "hwmon"@)
                        && gpu_of(front[i], overdrive) == Some(g);
                assert(dirs[i] == front[i]);
            } else {
                assert(gpu_of(dirs[dirs.len() - 1], overdrive) == Some(g));
            }
        }
        if exists|i: int|
            0 <= i < dirs.len() && text::starts((#[trigger] dirs[i]).name@, "hwmon"@) && gpu_of(
                dirs[i],
                overdrive,
            ) == Some(g) {
            let i = choose|i: int|
                0 <= i < dirs.len() && text::starts((#[trigger] dirs[i]).name@, "hwmon"@)
                    && gpu_of(dirs[i], overdrive) == Some(g);
            if i < front.len() {
                assert(text::starts(front[i].name@, "hwmon"@));
                let k = choose|k: int| 0 <= k < before.len() && before[k] == g;
                assert(all[k] == g);
            } else {
                assert(all[before.len() as int] == g);
            }
        }
    }
}

/// A display controller is the vendor's where its entry says so: the vendor 1002, the
/// class of one that drives screens, and an address for a name. What is told of it is its
/// number and the name of the driver that its link leads to.
pub proof fn a_display_controller_is_told_as_its_entry_shows_it(e: PciEntry)
    ensures
        ({
            let class = pci::hex_or_zero(text::opt_text(e.class), u32::MAX as int) as u32;
            &&& pci_device_of(e) is Some <==> pci::is_address(e.name@) && pci::hex_of(
                text::opt_text(e.vendor),
                0xFFFF,
            ) == Some(0x1002int) && class % 0x100_0000 / 0x100 == 0x0300
            &&& pci_device_of(e) matches Some(d) ==> {
                &&& d.pci_bdf == e.name@
                &&& pci::hex_of(text::opt_text(e.device), 0xFFFF) matches Some(n)
                    ==> d.pci_device_id == n
                &&& e.driver_link is None ==> d.driver is None
                &&& e.driver_link matches Some(link) ==> d.driver == util::file_name_of(link@)
            }
        }),
{
    let class = pci::hex_or_zero(text::opt_text(e.class), u32::MAX as int) as u32;
    pci::the_lowest_byte_of_a_class_plays_no_part(class);
    lemma_hex_bounds(text::opt_text(e.device), 0xFFFF);
}

/// Every display controller of the vendor is listed, in the order of the addresses, and
/// nothing else is.
pub proof fn every_display_controller_is_listed(entries: Seq<PciEntry>, i: int, a: int, b: int)
    ensures
        0 <= i < entries.len() && pci_device_of(entries[i]) is Some ==> pci_devices_among(
            entries,
        ).contains(pci_device_of(entries[i])->0),
        ({
            let all = pci_devices_among(entries);
            &&& by_address(all).len() == all.len()
            &&& by_address(all).to_multiset() == all.to_multiset()
            &&& 0 <= a < b < all.len() ==> !text::precedes(
                by_address(all)[b].pci_bdf,
                by_address(all)[a].pci_bdf,
            )
        }),
    decreases entries.len(),
{
    let all = pci_devices_among(entries);
    let keys = addresses_of(all);
    text::order_of_sorts(keys);
    text::ordering_keeps_everything(all, keys);
    let o = text::order_of(keys);
    if 0 <= a < b < all.len() {
        text::precedes_is_total(keys[o[a]], keys[o[b]]);
    }
    if 0 <= i < entries.len() && pci_device_of(entries[i]) is Some {
        let front = entries.drop_last();
        let before = pci_devices_among(front);
        let d = pci_device_of(entries[i])->0;
        if i < front.len() {
            every_display_controller_is_listed(front, i, a, b);
            assert(front[i] == entries[i]);
            let k = choose|k: int| 0 <= k < before.len() && before[k] == d;
            assert(all[k] == d);
        } else {
            assert(all[before.len() as int] == d);
        }
    }
}

/// The name of a card on a display has no blank in it, and a card without a name is called
/// by a general word.
pub proof fn a_display_label_has_no_blanks(g: AmdGpuView)
    ensures
        g.marketing_name is None ==> g.label() == "AMD D-GPU"@,
        g.marketing_name is Some ==> !g.label().contains(' '),
{
    if g.marketing_name is Some {
        reveal_strlit(" ");
        lemma_no_blank(text::without(g.marketing_name->0, "RX "@));
    }
}

proof fn lemma_no_blank(s: Seq<char>)
    ensures
        !text::without(s, " "@).contains(' '),
    decreases s.len(),
{
    reveal_strlit(" ");
    if s.len() > 0 {
        let w = text::without(s, " "@);
        if text::matches_at(s, " "@, 0) {
            lemma_no_blank(s.skip(1));
        } else {
            lemma_no_blank(s.skip(1));
            let rest = text::without(s.skip(1), " "@);
            assert(s[0] != ' ') by {
                if s[0] == ' ' {
                    assert(s.subrange(0, 1) =~= " "@);
                }
            }
            if w.contains(' ') {
                let k = choose|k: int| 0 <= k < w.len() && w[k] == ' ';
                if k > 0 {
                    assert(rest[k - 1] == ' ');
                }
            }
        }
    }
}

/// Overdrive is open only where a mask could be read, in hexadecimal or else in decimal,
/// and has its bit.
pub proof fn overdrive_needs_a_readable_mask(raw: Seq<char>)
    requires
        overdrive_open(Some(raw)),
    ensures
        text::parsed(pci::hex_part(raw), 16, u32::MAX as int) is Some || text::parsed(
            text::trimmed(raw),
            10,
            u32::MAX as int,
        ) is Some,
        ({
            let mask = match text::parsed(pci::hex_part(raw), 16, u32::MAX as int) {
                Some(m) => m as u32,
                None => text::parsed(text::trimmed(raw), 10, u32::MAX as int)->0 as u32,
            };
            mask / 0x4000 % 2 == 1
        }),
{
    let mask = match text::parsed(pci::hex_part(raw), 16, u32::MAX as int) {
        Some(m) => m as u32,
        None => text::parsed(text::trimmed(raw), 10, u32::MAX as int)->0 as u32,
    };
    assert((mask & 0x4000 != 0) ==> (mask / 0x4000 % 2 == 1)) by (bit_vector);
}

} // verus!

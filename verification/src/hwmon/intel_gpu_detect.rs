//! Which Intel graphics cards there are, and what they are called.
//!
//! The `xe` and `i915` drivers have a hwmon device for cards only, not for processor
//! graphics, so the chip name tells a card. The firmware of the card controls its fans;
//! their speed can be read and nothing can be written.

use crate::hwmon::discovery;
use crate::hwmon::pci;
use crate::hwmon::pci::{
    directory_order, extract_pci_bdf, is_vga_class, pci_hex_or_zero, rank_text, GpuDirectory,
    PciDirectory,
};
use crate::text;
use crate::text::{sorted_positions, starts_with, str_eq, trim};
use vstd::prelude::*;

verus! {

/// An Intel graphics card.
#[derive(Debug)]
pub struct IntelGpuInfo {
    /// PCI address; the same after every start.
    pub pci_bdf: String,
    /// PCI device number.
    pub pci_device_id: u16,
    /// PCI revision.
    pub pci_revision: u8,
    /// PCI class.
    pub pci_class: u32,
    /// What the card is called, where that is known.
    pub marketing_name: Option<String>,
    /// Its driver: `xe` or `i915`.
    pub driver: String,
    /// The path of its hwmon directory.
    pub hwmon_path: String,
    /// Whether it drives screens.
    pub is_discrete: bool,
    /// Whether the speed of its fan can be read.
    pub has_fan_rpm: bool,
}

/// What is known of an Intel graphics card.
#[verifier::ext_equal]
pub struct IntelGpuView {
    pub pci_bdf: Seq<char>,
    pub pci_device_id: u16,
    pub pci_revision: u8,
    pub pci_class: u32,
    pub marketing_name: Option<Seq<char>>,
    pub driver: Seq<char>,
    pub hwmon_path: Seq<char>,
    pub is_discrete: bool,
    pub has_fan_rpm: bool,
}

impl View for IntelGpuInfo {
    type V = IntelGpuView;

    open spec fn view(&self) -> IntelGpuView {
        IntelGpuView {
            pci_bdf: self.pci_bdf@,
            pci_device_id: self.pci_device_id,
            pci_revision: self.pci_revision,
            pci_class: self.pci_class,
            marketing_name: text::opt_text(self.marketing_name),
            driver: self.driver@,
            hwmon_path: self.hwmon_path@,
            is_discrete: self.is_discrete,
            has_fan_rpm: self.has_fan_rpm,
        }
    }
}

impl Clone for IntelGpuInfo {
    fn clone(&self) -> (r: Self)
        ensures
            r@ == self@,
    {
        IntelGpuInfo {
            pci_bdf: self.pci_bdf.clone(),
            pci_device_id: self.pci_device_id,
            pci_revision: self.pci_revision,
            pci_class: self.pci_class,
            marketing_name: match &self.marketing_name {
                Some(s) => Some(s.clone()),
                None => None,
            },
            driver: self.driver.clone(),
            hwmon_path: self.hwmon_path.clone(),
            is_discrete: self.is_discrete,
            has_fan_rpm: self.has_fan_rpm,
        }
    }
}

impl IntelGpuInfo {
    /// What the card is called on a display: its name, or a general word.
    pub fn display_label(&self) -> (r: String)
        ensures
            r@ == (match self@.marketing_name {
                Some(name) => name,
                None => "Intel D-GPU"@,
            }),
    {
        match &self.marketing_name {
            Some(name) => name.clone(),
            None => "Intel D-GPU".to_owned(),
        }
    }

    /// The word for how the fan can be controlled: not at all, but read, or not even that.
    pub fn fan_control_method(&self) -> (r: &'static str)
        ensures
            r@ == (if self@.has_fan_rpm {
                "read_only"@
            } else {
                "none"@
            }),
    {
        if self.has_fan_rpm {
            "read_only"
        } else {
            "none"
        }
    }
}

/// What a card is called. Only one number is known for certain.
pub open spec fn name_of(device_id: u16) -> Option<Seq<char>> {
    if device_id == 0xE20B {
        Some("Arc B580"@)
    } else {
        None
    }
}

/// What a card is called.
pub fn lookup_marketing_name(device_id: u16) -> (r: Option<String>)
    ensures
        text::opt_text(r) == name_of(device_id),
{
    if device_id == 0xE20B {
        Some("Arc B580".to_owned())
    } else {
        None
    }
}

/// The card of a hwmon directory, where it is one with a PCI address.
pub open spec fn gpu_of(dir: GpuDirectory) -> Option<IntelGpuView> {
    let driver = text::trimmed(dir.chip->0@);
    if dir.chip is Some && (driver == "xe"@ || driver == "i915"@) && dir.pci is Some {
        let dev = dir.pci->0;
        match pci::last_address(text::pieces(dev.path@, '/')) {
            None => None,
            Some(address) => {
                let id = pci::hex_or_zero(text::opt_text(dev.device), 0xFFFF) as u16;
                let class = pci::hex_or_zero(text::opt_text(dev.class), u32::MAX as int) as u32;
                Some(
                    IntelGpuView {
                        pci_bdf: address,
                        pci_device_id: id,
                        pci_revision: pci::hex_or_zero(
                            text::opt_text(dev.revision),
                            0xFF,
                        ) as u8,
                        pci_class: class,
                        marketing_name: name_of(id),
                        driver,
                        hwmon_path: dir.path@,
                        is_discrete: pci::is_vga(class),
                        has_fan_rpm: dir.fan1_input,
                    },
                )
            },
        }
    } else {
        None
    }
}

/// The card of a hwmon directory, where it is one with a PCI address.
pub fn detect_single_gpu(dir: &GpuDirectory) -> (r: Option<IntelGpuInfo>)
    ensures
        match (r, gpu_of(*dir)) {
            (Some(gpu), Some(view)) => gpu@ == view,
            (None, None) => true,
            _ => false,
        },
{
    let driver: &str = match &dir.chip {
        Some(t) => trim(t.as_str()),
        None => {
            return None;
        },
    };
    if !str_eq(driver, "xe") && !str_eq(driver, "i915") {
        return None;
    }
    let dev: &PciDirectory = match &dir.pci {
        Some(dev) => dev,
        None => {
            return None;
        },
    };
    let pci_bdf: String = match extract_pci_bdf(dev.path.as_str()) {
        Some(address) => address,
        None => {
            return None;
        },
    };
    let pci_device_id: u16 = pci_hex_or_zero(&dev.device, 0xFFFF) as u16;
    let pci_revision: u8 = pci_hex_or_zero(&dev.revision, 0xFF) as u8;
    let pci_class: u32 = pci_hex_or_zero(&dev.class, u32::MAX as u64) as u32;
    Some(
        IntelGpuInfo {
            pci_bdf,
            pci_device_id,
            pci_revision,
            pci_class,
            marketing_name: lookup_marketing_name(pci_device_id),
            driver: driver.to_owned(),
            hwmon_path: dir.path.clone(),
            is_discrete: is_vga_class(pci_class),
            has_fan_rpm: dir.fan1_input,
        },
    )
}

/// The cards of the hwmon directories, taken in turn.
pub open spec fn found_among(dirs: Seq<GpuDirectory>) -> Seq<IntelGpuView>
    decreases dirs.len(),
{
    if dirs.len() == 0 {
        Seq::empty()
    } else {
        let before = found_among(dirs.drop_last());
        if discovery::is_hwmon_dir(dirs.last().name@) && gpu_of(dirs.last()) is Some {
            before.push(gpu_of(dirs.last())->0)
        } else {
            before
        }
    }
}

/// What cards are sorted by.
pub open spec fn rank_keys(gpus: Seq<IntelGpuView>) -> Seq<Seq<char>> {
    gpus.map_values(|g: IntelGpuView| pci::rank_key(g.has_fan_rpm, g.is_discrete, g.pci_bdf))
}

/// Cards with the preferred ones first: those with a fan, then those that drive screens,
/// then by address.
pub open spec fn best_first(gpus: Seq<IntelGpuView>) -> Seq<IntelGpuView> {
    text::order_of(rank_keys(gpus)).map_values(|i: int| gpus[i])
}

fn sort_gpus(gpus: &Vec<IntelGpuInfo>) -> (r: Vec<IntelGpuInfo>)
    ensures
        text::views(r@) == best_first(text::views(gpus@)),
{
    let ghost all = text::views(gpus@);
    let mut keys: Vec<String> = Vec::new();
    let mut i: usize = 0;
    while i < gpus.len()
        invariant
            i <= gpus@.len(),
            all == text::views(gpus@),
            keys@.len() == i,
            forall|k: int| 0 <= k < i ==> (#[trigger] keys@[k])@ == rank_keys(all)[k],
        decreases gpus@.len() - i,
    {
        let g: &IntelGpuInfo = &gpus[i];
        assert(all[i as int] == g@);
        keys.push(rank_text(g.has_fan_rpm, g.is_discrete, g.pci_bdf.as_str()));
        i += 1;
    }
    assert(text::strings(keys@) =~= rank_keys(all));
    let order: Vec<usize> = sorted_positions(&keys);
    let ghost sorted = best_first(all);
    assert(text::positions(order@).len() == order@.len());
    let mut r: Vec<IntelGpuInfo> = Vec::new();
    let mut k: usize = 0;
    while k < order.len()
        invariant
            k <= order@.len(),
            all == text::views(gpus@),
            sorted == best_first(all),
            text::positions(order@) == text::order_of(rank_keys(all)),
            sorted.len() == order@.len(),
            forall|j: int| 0 <= j < order@.len() ==> #[trigger] order@[j] < gpus@.len(),
            r@.len() == k,
            forall|j: int| 0 <= j < k ==> (#[trigger] r@[j])@ == sorted[j],
        decreases order@.len() - k,
    {
        let at: usize = order[k];
        proof {
            assert(text::positions(order@)[k as int] == at as int);
            assert(sorted[k as int] == all[at as int]);
        }
        r.push(gpus[at].clone());
        k += 1;
    }
    assert(text::views(r@) =~= sorted);
    r
}

/// The Intel graphics cards under a hwmon root, with the preferred ones first.
///
/// `listing` holds the directories under the root, or why they could not be listed, in
/// which case there are no cards.
pub fn detect_intel_gpus(listing: &Result<Vec<GpuDirectory>, String>) -> (r: Vec<IntelGpuInfo>)
    ensures
        text::views(r@) == (match *listing {
            Ok(dirs) => best_first(found_among(pci::ordered_directories(dirs@))),
            Err(_) => Seq::empty(),
        }),
{
    let mut found: Vec<IntelGpuInfo> = Vec::new();
    assert(text::views(found@) =~= Seq::<IntelGpuView>::empty());
    let dirs: &Vec<GpuDirectory> = match listing {
        Ok(dirs) => dirs,
        Err(_) => {
            return found;
        },
    };
    let order: Vec<usize> = directory_order(dirs);
    let ghost ordered = pci::ordered_directories(dirs@);
    let mut i: usize = 0;
    while i < order.len()
        invariant
            i <= order@.len(),
            order@.len() == dirs@.len(),
            ordered == pci::ordered_directories(dirs@),
            ordered.len() == dirs@.len(),
            forall|k: int| 0 <= k < order@.len() ==> #[trigger] order@[k] < dirs@.len(),
            forall|k: int|
                0 <= k < order@.len() ==> #[trigger] ordered[k] == dirs@[order@[k] as int],
            text::views(found@) == found_among(ordered.take(i as int)),
        decreases order@.len() - i,
    {
        let dir: &GpuDirectory = &dirs[order[i]];
        proof {
            assert(ordered.take(i + 1).drop_last() =~= ordered.take(i as int));
            assert(ordered.take(i + 1).last() == ordered[i as int]);
        }
        if starts_with(dir.name.as_str(), "hwmon") {
            if let Some(gpu) = detect_single_gpu(dir) {
                let ghost was = text::views(found@);
                let ghost view = gpu@;
                found.push(gpu);
                assert(text::views(found@) =~= was.push(view));
            }
        }
        i += 1;
    }
    assert(ordered.take(i as int) =~= ordered);
    sort_gpus(&found)
}

/// The preferred card: the first of them, as they come sorted.
pub fn select_primary_intel_gpu(gpus: &Vec<IntelGpuInfo>) -> (r: Option<&IntelGpuInfo>)
    ensures
        match r {
            Some(g) => gpus@.len() > 0 && *g == gpus@[0],
            None => gpus@.len() == 0,
        },
{
    if gpus.len() > 0 {
        Some(&gpus[0])
    } else {
        None
    }
}

/// Whether a card is to be preferred to another.
pub open spec fn is_better(a: IntelGpuView, b: IntelGpuView) -> bool {
    if a.has_fan_rpm != b.has_fan_rpm {
        a.has_fan_rpm
    } else if a.is_discrete != b.is_discrete {
        a.is_discrete
    } else {
        text::precedes(a.pci_bdf, b.pci_bdf)
    }
}

/// Cards come with the preferred ones first: none comes behind one that it is to be
/// preferred to, and none is lost or added. So the first is the preferred one.
pub proof fn gpus_come_best_first(gpus: Seq<IntelGpuView>, i: int, j: int)
    requires
        0 <= i < j < gpus.len(),
    ensures
        best_first(gpus).len() == gpus.len(),
        best_first(gpus).to_multiset() == gpus.to_multiset(),
        !is_better(best_first(gpus)[j], best_first(gpus)[i]),
{
    let keys = rank_keys(gpus);
    text::ordering_keeps_everything(gpus, keys);
    text::order_of_sorts(keys);
    let order = text::order_of(keys);
    let a = gpus[order[i]];
    let b = gpus[order[j]];
    assert(best_first(gpus)[i] == a && best_first(gpus)[j] == b);
    assert(keys[order[i]] == pci::rank_key(a.has_fan_rpm, a.is_discrete, a.pci_bdf));
    assert(keys[order[j]] == pci::rank_key(b.has_fan_rpm, b.is_discrete, b.pci_bdf));
    text::precedes_is_total(keys[order[i]], keys[order[j]]);
    pci::rank_orders_by_its_parts(
        b.has_fan_rpm,
        b.is_discrete,
        b.pci_bdf,
        a.has_fan_rpm,
        a.is_discrete,
        a.pci_bdf,
    );
}

/// A card is one whose chip is `xe` or `i915` and that has a PCI address; what is told of it
/// is what its directories show.
pub proof fn a_card_is_told_as_its_directories_show_it(dir: GpuDirectory)
    ensures
        gpu_of(dir) is Some <==> dir.chip is Some && (text::trimmed(dir.chip->0@) == "xe"@
            || text::trimmed(dir.chip->0@) == "i915"@) && dir.pci is Some && pci::last_address(
            text::pieces(dir.pci->0.path@, '/'),
        ) is Some,
        gpu_of(dir) matches Some(g) ==> {
            let dev = dir.pci->0;
            &&& Some(g.pci_bdf) == pci::last_address(text::pieces(dev.path@, '/'))
            &&& g.driver == text::trimmed(dir.chip->0@)
            &&& g.hwmon_path == dir.path@
            &&& g.has_fan_rpm == dir.fan1_input
            &&& g.pci_device_id == pci::hex_or_zero(text::opt_text(dev.device), 0xFFFF) as u16
            &&& g.pci_revision == pci::hex_or_zero(text::opt_text(dev.revision), 0xFF) as u8
            &&& g.pci_class == pci::hex_or_zero(text::opt_text(dev.class), u32::MAX as int) as u32
            &&& g.marketing_name == name_of(g.pci_device_id)
            &&& g.is_discrete <==> g.pci_class % 0x100_0000 / 0x100 == 0x0300
        },
{
    if gpu_of(dir) is Some {
        pci::the_lowest_byte_of_a_class_plays_no_part(gpu_of(dir)->0.pci_class);
    }
}

/// One number stands for the Arc B580; no other has a name.
pub proof fn one_card_has_a_name(device_id: u16)
    ensures
        name_of(device_id) is Some <==> device_id == 0xE20B,
        name_of(0xE20B) == Some("Arc B580"@),
{
}

/// Every card of the directories is found, and nothing else is.
pub proof fn every_card_is_found(dirs: Seq<GpuDirectory>, g: IntelGpuView)
    ensures
        found_among(dirs).contains(g) <==> exists|i: int|
            0 <= i < dirs.len() && text::starts((#[trigger] dirs[i]).name@, "hwmon"@) && gpu_of(
                dirs[i],
            ) == Some(g),
    decreases dirs.len(),
{
    if dirs.len() > 0 {
        let front = dirs.drop_last();
        every_card_is_found(front, g);
        assert forall|i: int| 0 <= i < front.len() implies #[trigger] front[i] == dirs[i] by {}
        let before = found_among(front);
        let all = found_among(dirs);
        if all.contains(g) {
            let k = choose|k: int| 0 <= k < all.len() && all[k] == g;
            if k < before.len() {
                assert(before[k] == g);
                let i = choose|i: int|
                    0 <= i < front.len() && text::starts((#[trigger] front[i]).name@, "hwmon"@)
                        && gpu_of(front[i]) == Some(g);
                assert(dirs[i] == front[i]);
            } else {
                assert(gpu_of(dirs[dirs.len() - 1]) == Some(g));
            }
        }
        if exists|i: int|
            0 <= i < dirs.len() && text::starts((#[trigger] dirs[i]).name@, "hwmon"@) && gpu_of(
                dirs[i],
            ) == Some(g) {
            let i = choose|i: int|
                0 <= i < dirs.len() && text::starts((#[trigger] dirs[i]).name@, "hwmon"@)
                    && gpu_of(dirs[i]) == Some(g);
            if i < front.len() {
                assert(text::starts(front[i].name@, "hwmon"@));
                let k = choose|k: int| 0 <= k < before.len() && before[k] == g;
                assert(all[k] == g);
            } else {
                assert(all[before.len() as int] == g);
            }
        }
    }
}

} // verus!

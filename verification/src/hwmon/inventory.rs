//! The fan tachometers that no control goes with: `fanN_input` without a `pwmN`.
//!
//! Nothing is ever written.

use crate::error::HwmonError;
use crate::hwmon;
use crate::hwmon::discovery;
use crate::hwmon::is_gpu_owned_hwmon_chip;
use crate::hwmon::util;
use crate::hwmon::util::{
    device_order, file_named, resolve_device_id, text_of_file, HwmonDevice, SysfsFile,
};
use crate::text;
use crate::text::{
    decimal_of, join_path, parse_u8, sorted_positions, starts_with, strip_prefix, strip_suffix,
    trim,
};
use vstd::prelude::*;
use vstd::string::*;

verus! {

/// A tachometer that no control goes with.
#[derive(Debug)]
pub struct FanInputDescriptor {
    /// Stable id; the number that the kernel gave the device is no part of it.
    pub id: String,
    /// The name of the chip.
    pub chip_name: String,
    /// The number of the fan.
    pub fan_index: u8,
    /// What `fanN_label` says, or `fan` and the number.
    pub label: String,
    /// The path of `fanN_input`.
    pub input_path: String,
}

/// What a tachometer descriptor says.
#[verifier::ext_equal]
pub struct FanInputView {
    pub id: Seq<char>,
    pub chip_name: Seq<char>,
    pub fan_index: u8,
    pub label: Seq<char>,
    pub input_path: Seq<char>,
}

impl View for FanInputDescriptor {
    type V = FanInputView;

    open spec fn view(&self) -> FanInputView {
        FanInputView {
            id: self.id@,
            chip_name: self.chip_name@,
            fan_index: self.fan_index,
            label: self.label@,
            input_path: self.input_path@,
        }
    }
}

impl Clone for FanInputDescriptor {
    fn clone(&self) -> (r: Self)
        ensures
            r == *self,
    {
        FanInputDescriptor {
            id: self.id.clone(),
            chip_name: self.chip_name.clone(),
            fan_index: self.fan_index,
            label: self.label.clone(),
            input_path: self.input_path.clone(),
        }
    }
}

// ---------------------------------------------------------------------------
// The numbers of the fans of a device
// ---------------------------------------------------------------------------

/// The number of the fan that a file is the input of.
pub open spec fn input_number(name: Seq<char>) -> Option<u8> {
    let rest = name.skip("fan"@.len() as int);
    if text::starts(name, "fan"@) && text::ends(rest, "_input"@) {
        match text::parsed(rest.take(rest.len() - "_input"@.len()), 10, 255) {
            Some(n) => Some(n as u8),
            None => None,
        }
    } else {
        None
    }
}

/// Where a number goes among ordered ones, from a position on: before the first that is
/// higher.
pub open spec fn place(v: Seq<u8>, x: u8, from: int) -> int
    decreases v.len() - from,
{
    if from >= v.len() || x < v[from] {
        from
    } else {
        place(v, x, from + 1)
    }
}

/// The numbers of the fans that the files are inputs of, in order.
pub open spec fn fan_numbers(files: Seq<SysfsFile>) -> Seq<u8>
    decreases files.len(),
{
    if files.len() == 0 {
        Seq::empty()
    } else {
        let before = fan_numbers(files.drop_last());
        match input_number(files.last().name@) {
            Some(n) => before.insert(place(before, n, 0), n),
            None => before,
        }
    }
}

proof fn lemma_place(v: Seq<u8>, x: u8, from: int)
    requires
        0 <= from <= v.len(),
    ensures
        from <= place(v, x, from) <= v.len(),
        place(v, x, from) < v.len() ==> x < v[place(v, x, from)],
        forall|i: int| from <= i < place(v, x, from) ==> v[i] <= x,
    decreases v.len() - from,
{
    if from < v.len() && !(x < v[from]) {
        lemma_place(v, x, from + 1);
    }
}

fn number_of_input(name: &str) -> (r: Option<u8>)
    ensures
        r == input_number(name@),
{
    match strip_prefix(name, "fan") {
        Some(rest) => match strip_suffix(rest, "_input") {
            Some(n) => parse_u8(n),
            None => None,
        },
        None => None,
    }
}

fn fan_indices(files: &Vec<SysfsFile>) -> (r: Vec<u8>)
    ensures
        r@ == fan_numbers(files@),
{
    let mut r: Vec<u8> = Vec::new();
    let mut i: usize = 0;
    while i < files.len()
        invariant
            i <= files@.len(),
            r@ == fan_numbers(files@.take(i as int)),
        decreases files@.len() - i,
    {
        proof {
            assert(files@.take(i + 1).drop_last() =~= files@.take(i as int));
            assert(files@.take(i + 1).last() == files@[i as int]);
        }
        if let Some(n) = number_of_input(files[i].name.as_str()) {
            let mut at: usize = 0;
            while at < r.len() && r[at] <= n
                invariant
                    at <= r@.len(),
                    place(r@, n, 0) == place(r@, n, at as int),
                decreases r@.len() - at,
            {
                at += 1;
            }
            r.insert(at, n);
        }
        i += 1;
    }
    assert(files@.take(i as int) =~= files@);
    r
}

// ---------------------------------------------------------------------------
// The tachometers of a device
// ---------------------------------------------------------------------------

/// The name of a fan's file.
pub open spec fn fan_file(index: u8, attr: Seq<char>) -> Seq<char> {
    "fan"@ + text::decimal(index as nat) + attr
}

/// The name of the control that goes with a fan.
pub open spec fn control_file(index: u8) -> Seq<char> {
    "pwm"@ + text::decimal(index as nat)
}

fn fan_file_name(index: u8, attr: &str) -> (r: String)
    ensures
        r@ == fan_file(index, attr@),
{
    let mut s: String = "fan".to_owned();
    s.append(decimal_of(index as u64).as_str());
    s.append(attr);
    s
}

/// The label of a fan: what its label file says, or `fan` and the number where it says
/// nothing.
pub open spec fn fan_label(files: Seq<SysfsFile>, index: u8) -> Seq<char> {
    let plain = "fan"@ + text::decimal(index as nat);
    match util::file_text(files, fan_file(index, "_label"@)) {
        Some(t) => if text::trimmed(t).len() > 0 {
            text::trimmed(t)
        } else {
            plain
        },
        None => plain,
    }
}

fn read_fan_label(files: &Vec<SysfsFile>, index: u8) -> (r: String)
    ensures
        r@ == fan_label(files@, index),
{
    let name: String = fan_file_name(index, "_label");
    if let Some(t) = text_of_file(files, name.as_str()) {
        let trimmed: &str = trim(t);
        if !trimmed.is_empty() {
            return trimmed.to_owned();
        }
    }
    let mut s: String = "fan".to_owned();
    s.append(decimal_of(index as u64).as_str());
    s
}

/// The stable id of a tachometer.
pub open spec fn fan_id(
    chip_name: Seq<char>,
    device_id: Seq<char>,
    index: u8,
    label: Seq<char>,
) -> Seq<char> {
    "hwmon:"@ + chip_name + ":"@ + device_id + ":fan"@ + text::decimal(index as nat) + ":"@ + label
}

fn build_stable_id(chip_name: &str, device_id: &str, index: u8, label: &str) -> (r: String)
    ensures
        r@ == fan_id(chip_name@, device_id@, index, label@),
{
    let mut s: String = "hwmon:".to_owned();
    s.append(chip_name);
    s.append(":");
    s.append(device_id);
    s.append(":fan");
    s.append(decimal_of(index as u64).as_str());
    s.append(":");
    s.append(label);
    s
}

/// The tachometer of a fan.
pub open spec fn fan_of(
    path: Seq<char>,
    chip_name: Seq<char>,
    device_id: Seq<char>,
    files: Seq<SysfsFile>,
    index: u8,
) -> FanInputView {
    FanInputView {
        id: fan_id(chip_name, device_id, index, fan_label(files, index)),
        chip_name,
        fan_index: index,
        label: fan_label(files, index),
        input_path: text::joined(path, fan_file(index, "_input"@)),
    }
}

/// The tachometers among the fans that no control goes with.
pub open spec fn fans_among(
    path: Seq<char>,
    chip_name: Seq<char>,
    device_id: Seq<char>,
    files: Seq<SysfsFile>,
    numbers: Seq<u8>,
) -> Seq<FanInputView>
    decreases numbers.len(),
{
    if numbers.len() == 0 {
        Seq::empty()
    } else {
        let before = fans_among(path, chip_name, device_id, files, numbers.drop_last());
        if util::find_file(files, control_file(numbers.last())) is Some {
            before
        } else {
            before.push(fan_of(path, chip_name, device_id, files, numbers.last()))
        }
    }
}

/// The tachometers of a device that no control goes with, or why they cannot be told. The
/// fans of a graphics card are not among them.
pub open spec fn device_fans(dev: HwmonDevice) -> Result<Seq<FanInputView>, discovery::Failure> {
    match dev.chip {
        Err(reason) => Err((text::joined(dev.path@, "name"@), reason@)),
        Ok(chip) => {
            let chip_name = text::trimmed(chip@);
            if hwmon::names_gpu_owned(chip_name) {
                Ok(Seq::empty())
            } else {
                match dev.files {
                    Err(reason) => Err((dev.path@, reason@)),
                    Ok(files) => Ok(
                        fans_among(
                            dev.path@,
                            chip_name,
                            util::linked_id(dev.device),
                            files@,
                            fan_numbers(files@),
                        ),
                    ),
                }
            }
        },
    }
}

/// The tachometers of a device that no control goes with.
pub fn discover_device_monitor_only_fans(dev: &HwmonDevice) -> (r: Result<
    Vec<FanInputDescriptor>,
    HwmonError,
>)
    ensures
        match (r, device_fans(*dev)) {
            (Ok(v), Ok(fans)) => text::views(v@) == fans,
            (Err(e), Err(f)) => e.is_read_error(f.0, f.1),
            _ => false,
        },
{
    let path: &str = dev.path.as_str();
    let chip_name: String = match &dev.chip {
        Ok(t) => trim(t.as_str()).to_owned(),
        Err(reason) => {
            return Err(
                HwmonError::ReadError { path: join_path(path, "name"), message: reason.clone() },
            );
        },
    };
    let mut fans: Vec<FanInputDescriptor> = Vec::new();
    assert(text::views(fans@) =~= Seq::<FanInputView>::empty());
    if is_gpu_owned_hwmon_chip(chip_name.as_str()) {
        return Ok(fans);
    }
    let device_id: String = resolve_device_id(&dev.device);
    let files: &Vec<SysfsFile> = match &dev.files {
        Ok(files) => files,
        Err(reason) => {
            return Err(HwmonError::ReadError { path: dev.path.clone(), message: reason.clone() });
        },
    };
    let numbers: Vec<u8> = fan_indices(files);
    let mut i: usize = 0;
    while i < numbers.len()
        invariant
            i <= numbers@.len(),
            path@ == dev.path@,
            text::views(fans@) == fans_among(
                path@,
                chip_name@,
                device_id@,
                files@,
                numbers@.take(i as int),
            ),
        decreases numbers@.len() - i,
    {
        let fan_index: u8 = numbers[i];
        proof {
            assert(numbers@.take(i + 1).drop_last() =~= numbers@.take(i as int));
            assert(numbers@.take(i + 1).last() == fan_index);
        }
        let mut control: String = "pwm".to_owned();
        control.append(decimal_of(fan_index as u64).as_str());
        if file_named(files, control.as_str()).is_none() {
            let label: String = read_fan_label(files, fan_index);
            let id: String = build_stable_id(
                chip_name.as_str(),
                device_id.as_str(),
                fan_index,
                label.as_str(),
            );
            let ghost was = text::views(fans@);
            fans.push(
                FanInputDescriptor {
                    id,
                    chip_name: chip_name.clone(),
                    fan_index,
                    label,
                    input_path: join_path(path, fan_file_name(fan_index, "_input").as_str()),
                },
            );
            assert(text::views(fans@) =~= was.push(fans@[fans@.len() - 1]@));
        }
        i += 1;
    }
    assert(numbers@.take(i as int) =~= numbers@);
    Ok(fans)
}

// ---------------------------------------------------------------------------
// All devices
// ---------------------------------------------------------------------------

/// The tachometers of the devices, taken in turn; a device that cannot be read is passed
/// over.
pub open spec fn found_among(devices: Seq<HwmonDevice>) -> Seq<FanInputView>
    decreases devices.len(),
{
    if devices.len() == 0 {
        Seq::empty()
    } else {
        let before = found_among(devices.drop_last());
        let dev = devices.last();
        if discovery::is_hwmon_dir(dev.name@) && device_fans(dev) is Ok {
            before + device_fans(dev)->Ok_0
        } else {
            before
        }
    }
}

/// The ids of tachometers.
pub open spec fn ids_of(fans: Seq<FanInputView>) -> Seq<Seq<char>> {
    fans.map_values(|f: FanInputView| f.id)
}

/// Tachometers in the order of their ids.
pub open spec fn by_id(fans: Seq<FanInputView>) -> Seq<FanInputView> {
    text::order_of(ids_of(fans)).map_values(|i: int| fans[i])
}

fn sort_by_id(fans: &Vec<FanInputDescriptor>) -> (r: Vec<FanInputDescriptor>)
    ensures
        text::views(r@) == by_id(text::views(fans@)),
{
    let ghost all = text::views(fans@);
    let mut ids: Vec<String> = Vec::new();
    let mut i: usize = 0;
    while i < fans.len()
        invariant
            i <= fans@.len(),
            all == text::views(fans@),
            text::strings(ids@) == ids_of(all).take(i as int),
        decreases fans@.len() - i,
    {
        let ghost was = text::strings(ids@);
        ids.push(fans[i].id.clone());
        proof {
            assert(text::strings(ids@) =~= was.push(fans@[i as int].id@));
            assert(ids_of(all)[i as int] == fans@[i as int].id@);
            assert(ids_of(all).take(i + 1) =~= was.push(fans@[i as int].id@));
        }
        i += 1;
    }
    assert(ids_of(all).take(i as int) =~= ids_of(all));
    let order: Vec<usize> = sorted_positions(&ids);
    assert(text::strings(ids@).len() == ids@.len());
    assert(text::positions(order@).len() == order@.len());
    let mut r: Vec<FanInputDescriptor> = Vec::new();
    let mut k: usize = 0;
    assert(text::views(r@) =~= by_id(all).take(0));
    while k < order.len()
        invariant
            k <= order@.len(),
            all == text::views(fans@),
            text::positions(order@) == text::order_of(ids_of(all)),
            text::positions(order@).len() == order@.len(),
            forall|j: int| 0 <= j < order@.len() ==> #[trigger] order@[j] < fans@.len(),
            text::views(r@) == by_id(all).take(k as int),
        decreases order@.len() - k,
    {
        let at: usize = order[k];
        let ghost was = text::views(r@);
        r.push(fans[at].clone());
        proof {
            assert(text::views(r@) =~= was.push(fans@[at as int]@));
            assert(text::positions(order@)[k as int] == at as int);
            assert(by_id(all)[k as int] == all[at as int]);
            assert(by_id(all).take(k + 1) =~= was.push(fans@[at as int]@));
        }
        k += 1;
    }
    assert(by_id(all).take(k as int) =~= by_id(all));
    r
}

/// The tachometers under a hwmon root that no control goes with, in the order of their
/// ids.
///
/// `listing` holds the directories under the root, or why they could not be listed.
pub fn discover_monitor_only_fans(
    root: &str,
    listing: &Result<Vec<HwmonDevice>, String>,
) -> (r: Result<Vec<FanInputDescriptor>, HwmonError>)
    ensures
        match (*listing, r) {
            (Ok(devices), Ok(fans)) => text::views(fans@) == by_id(
                found_among(util::ordered_devices(devices@)),
            ),
            (Err(reason), Err(e)) => e.is_read_error(root@, reason@),
            _ => false,
        },
{
    let devices: &Vec<HwmonDevice> = match listing {
        Ok(devices) => devices,
        Err(reason) => {
            return Err(HwmonError::ReadError { path: root.to_owned(), message: reason.clone() });
        },
    };
    let order: Vec<usize> = device_order(devices);
    let ghost ordered = util::ordered_devices(devices@);
    let mut found: Vec<FanInputDescriptor> = Vec::new();
    let mut i: usize = 0;
    assert(text::views(found@) =~= Seq::<FanInputView>::empty());
    while i < order.len()
        invariant
            i <= order@.len(),
            order@.len() == devices@.len(),
            ordered == util::ordered_devices(devices@),
            ordered.len() == devices@.len(),
            forall|k: int| 0 <= k < order@.len() ==> #[trigger] order@[k] < devices@.len(),
            forall|k: int|
                0 <= k < order@.len() ==> #[trigger] ordered[k] == devices@[order@[k] as int],
            text::views(found@) == found_among(ordered.take(i as int)),
        decreases order@.len() - i,
    {
        let dev: &HwmonDevice = &devices[order[i]];
        proof {
            assert(ordered.take(i + 1).drop_last() =~= ordered.take(i as int));
            assert(ordered.take(i + 1).last() == ordered[i as int]);
        }
        if starts_with(dev.name.as_str(), "hwmon") {
            if let Ok(mut fans) = discover_device_monitor_only_fans(dev) {
                let ghost was = found@;
                let ghost more = fans@;
                found.append(&mut fans);
                assert(text::views(found@) =~= text::views(was) + text::views(more));
            }
        }
        i += 1;
    }
    assert(ordered.take(i as int) =~= ordered);
    Ok(sort_by_id(&found))
}

// ---------------------------------------------------------------------------
// Laws
// ---------------------------------------------------------------------------

/// The tachometers come in the order of their ids, and none is lost or added by that.
pub proof fn fans_come_in_order(fans: Seq<FanInputView>, i: int, j: int)
    requires
        0 <= i < j < fans.len(),
    ensures
        by_id(fans).len() == fans.len(),
        by_id(fans).to_multiset() == fans.to_multiset(),
        !text::precedes(by_id(fans)[j].id, by_id(fans)[i].id),
{
    let ids = ids_of(fans);
    text::ordering_keeps_everything(fans, ids);
    text::order_of_sorts(ids);
    let order = text::order_of(ids);
    assert(ids[order[i]] == fans[order[i]].id);
    assert(ids[order[j]] == fans[order[j]].id);
    text::precedes_is_total(ids[order[i]], ids[order[j]]);
    assert(by_id(fans)[i] == fans[order[i]]);
}

/// No control goes with a tachometer that is listed, and its fan has an input file.
pub proof fn listed_fans_have_no_control(dev: HwmonDevice, i: int)
    requires
        device_fans(dev) is Ok,
        0 <= i < device_fans(dev)->Ok_0.len(),
    ensures
        dev.files is Ok,
        util::find_file(
            dev.files->Ok_0@,
            control_file(device_fans(dev)->Ok_0[i].fan_index),
        ) is None,
        fan_numbers(dev.files->Ok_0@).contains(device_fans(dev)->Ok_0[i].fan_index),
{
    let files = dev.files->Ok_0@;
    lemma_among(
        dev.path@,
        text::trimmed(dev.chip->Ok_0@),
        util::linked_id(dev.device),
        files,
        fan_numbers(files),
    );
}

proof fn lemma_among(
    path: Seq<char>,
    chip_name: Seq<char>,
    device_id: Seq<char>,
    files: Seq<SysfsFile>,
    numbers: Seq<u8>,
)
    ensures
        ({
            let fans = fans_among(path, chip_name, device_id, files, numbers);
            forall|i: int|
                0 <= i < fans.len() ==> numbers.contains((#[trigger] fans[i]).fan_index)
                    && util::find_file(files, control_file(fans[i].fan_index)) is None
        }),
    decreases numbers.len(),
{
    if numbers.len() > 0 {
        let front = numbers.drop_last();
        lemma_among(path, chip_name, device_id, files, front);
        let before = fans_among(path, chip_name, device_id, files, front);
        let fans = fans_among(path, chip_name, device_id, files, numbers);
        assert forall|i: int| 0 <= i < fans.len() implies numbers.contains(
            (#[trigger] fans[i]).fan_index,
        ) && util::find_file(files, control_file(fans[i].fan_index)) is None by {
            if i < before.len() {
                assert(fans[i] == before[i]);
                let k = front.index_of(before[i].fan_index);
                assert(numbers[k] == front[k]);
            } else {
                assert(numbers[numbers.len() - 1] == numbers.last());
            }
        }
    }
}

/// The fans of a device are numbered in order.
pub proof fn fan_numbers_are_in_order(files: Seq<SysfsFile>)
    ensures
        forall|i: int, j: int|
            0 <= i < j < fan_numbers(files).len() ==> #[trigger] fan_numbers(files)[i]
                <= #[trigger] fan_numbers(files)[j],
    decreases files.len(),
{
    if files.len() > 0 {
        fan_numbers_are_in_order(files.drop_last());
        let before = fan_numbers(files.drop_last());
        if let Some(n) = input_number(files.last().name@) {
            lemma_place(before, n, 0);
            let at = place(before, n, 0);
            let v = fan_numbers(files);
            assert forall|i: int, j: int| 0 <= i < j < v.len() implies #[trigger] v[i]
                <= #[trigger] v[j] by {
                let a = if i < at { i } else { i - 1 };
                let b = if j < at { j } else { j - 1 };
                if i == at {
                    assert(v[j] == before[b]);
                    assert(before[at] <= before[b]);
                } else if j == at {
                    assert(v[i] == before[i]);
                } else {
                    assert(v[i] == before[a] && v[j] == before[b]);
                }
            }
        }
    }
}

/// An input file is known by its name, which holds the number of the fan.
pub proof fn an_input_file_names_its_fan(n: u8)
    ensures
        input_number("fan"@ + text::decimal(n as nat) + "_input"@) == Some(n),
        fan_file(n, "_input"@) == "fan"@ + text::decimal(n as nat) + "_input"@,
{
    let d = text::decimal(n as nat);
    let name = "fan"@ + d + "_input"@;
    reveal_strlit("fan");
    reveal_strlit("_input");
    assert(name.subrange(0, 3) =~= "fan"@);
    let rest = name.skip(3);
    assert(rest =~= d + "_input"@);
    assert(rest.subrange(rest.len() - 6, rest.len() as int) =~= "_input"@);
    assert(rest.take(rest.len() - 6) =~= d);
    text::a_written_number_is_read_back(n as nat, 255);
}

/// A number is that of a fan exactly where a file is its input.
pub proof fn each_input_file_gives_a_fan(files: Seq<SysfsFile>, n: u8)
    ensures
        fan_numbers(files).contains(n) <==> exists|i: int|
            0 <= i < files.len() && input_number((#[trigger] files[i]).name@) == Some(n),
        fan_numbers(files).len() <= files.len(),
    decreases files.len(),
{
    if files.len() > 0 {
        let front = files.drop_last();
        each_input_file_gives_a_fan(front, n);
        let before = fan_numbers(front);
        let all = fan_numbers(files);
        assert forall|i: int| 0 <= i < front.len() implies #[trigger] front[i] == files[i] by {}
        match input_number(files.last().name@) {
            Some(m) => {
                lemma_place(before, m, 0);
                let at = place(before, m, 0);
                assert(all[at] == m);
                if before.contains(n) {
                    let k = choose|k: int| 0 <= k < before.len() && before[k] == n;
                    if k < at {
                        assert(all[k] == n);
                    } else {
                        assert(all[k + 1] == n);
                    }
                    let i = choose|i: int|
                        0 <= i < front.len() && input_number((#[trigger] front[i]).name@) == Some(n);
                    assert(files[i] == front[i]);
                }
                if all.contains(n) && n != m {
                    let k = choose|k: int| 0 <= k < all.len() && all[k] == n;
                    if k < at {
                        assert(before[k] == n);
                    } else {
                        assert(before[k - 1] == n);
                    }
                }
                if m == n {
                    assert(input_number(files[files.len() - 1].name@) == Some(n));
                }
                if exists|i: int|
                    0 <= i < files.len() && input_number((#[trigger] files[i]).name@) == Some(n) {
                    let i = choose|i: int|
                        0 <= i < files.len() && input_number((#[trigger] files[i]).name@) == Some(n);
                    if i < front.len() {
                        assert(input_number(front[i].name@) == Some(n));
                    }
                }
            },
            None => {
                if exists|i: int|
                    0 <= i < files.len() && input_number((#[trigger] files[i]).name@) == Some(n) {
                    let i = choose|i: int|
                        0 <= i < files.len() && input_number((#[trigger] files[i]).name@) == Some(n);
                    assert(i < front.len());
                    assert(input_number(front[i].name@) == Some(n));
                }
                if before.contains(n) {
                    let i = choose|i: int|
                        0 <= i < front.len() && input_number((#[trigger] front[i]).name@) == Some(n);
                    assert(files[i] == front[i]);
                }
            },
        }
    }
}

/// A fan with an input and without a control is listed, as it is described by its files;
/// the control of a fan is the `pwm` of its number.
pub proof fn every_fan_without_control_is_listed(dev: HwmonDevice, n: u8)
    requires
        dev.chip is Ok,
        dev.files is Ok,
        text::trimmed(dev.chip->Ok_0@) != "amdgpu"@,
        text::trimmed(dev.chip->Ok_0@) != "nouveau"@,
        fan_numbers(dev.files->Ok_0@).contains(n),
        util::find_file(dev.files->Ok_0@, "pwm"@ + text::decimal(n as nat)) is None,
    ensures
        device_fans(dev) is Ok,
        exists|i: int|
            0 <= i < device_fans(dev)->Ok_0.len() && is_fan_of(
                #[trigger] device_fans(dev)->Ok_0[i],
                dev,
                n,
            ),
{
    let chip = text::trimmed(dev.chip->Ok_0@);
    let id = util::linked_id(dev.device);
    let files = dev.files->Ok_0@;
    let numbers = fan_numbers(files);
    lemma_listed(dev.path@, chip, id, files, numbers, n);
    let fans = fans_among(dev.path@, chip, id, files, numbers);
    let i = choose|i: int|
        0 <= i < fans.len() && #[trigger] fans[i] == fan_of(dev.path@, chip, id, files, n);
    assert(is_fan_of(device_fans(dev)->Ok_0[i], dev, n));
}

/// Whether a tachometer is described as that of a device's fan: by the number, the label,
/// the path of the input, and an id that is made of the chip, the device, the number and
/// the label.
pub open spec fn is_fan_of(f: FanInputView, dev: HwmonDevice, n: u8) -> bool {
    let chip = text::trimmed(dev.chip->Ok_0@);
    let label = fan_label(dev.files->Ok_0@, n);
    &&& f.fan_index == n
    &&& f.chip_name == chip
    &&& f.label == label
    &&& f.input_path == text::joined(
        dev.path@,
        "fan"@ + text::decimal(n as nat) + "_input"@,
    )
    &&& f.id == "hwmon:"@ + chip + ":"@ + util::linked_id(dev.device) + ":fan"@ + text::decimal(
        n as nat,
    ) + ":"@ + label
}

proof fn lemma_listed(
    path: Seq<char>,
    chip_name: Seq<char>,
    device_id: Seq<char>,
    files: Seq<SysfsFile>,
    numbers: Seq<u8>,
    n: u8,
)
    requires
        numbers.contains(n),
        util::find_file(files, control_file(n)) is None,
    ensures
        ({
            let fans = fans_among(path, chip_name, device_id, files, numbers);
            exists|i: int|
                0 <= i < fans.len() && #[trigger] fans[i] == fan_of(
                    path,
                    chip_name,
                    device_id,
                    files,
                    n,
                )
        }),
    decreases numbers.len(),
{
    let front = numbers.drop_last();
    let before = fans_among(path, chip_name, device_id, files, front);
    let fans = fans_among(path, chip_name, device_id, files, numbers);
    let f = fan_of(path, chip_name, device_id, files, n);
    if numbers.last() == n {
        assert(fans[before.len() as int] == f);
    } else {
        let k = choose|k: int| 0 <= k < numbers.len() && numbers[k] == n;
        assert(front[k] == n);
        lemma_listed(path, chip_name, device_id, files, front, n);
        let i = choose|i: int| 0 <= i < before.len() && #[trigger] before[i] == f;
        assert(fans[i] == f);
    }
}

/// The fans of a graphics card are never listed.
pub proof fn fans_of_cards_are_not_listed(dev: HwmonDevice)
    requires
        dev.chip is Ok,
        text::trimmed(dev.chip->Ok_0@) == "amdgpu"@ || text::trimmed(dev.chip->Ok_0@)
            == "nouveau"@,
    ensures
        device_fans(dev) is Ok,
        device_fans(dev)->Ok_0.len() == 0,
{
}

/// The label of a fan is what its label file says, where it says something, and else `fan`
/// and the number.
pub proof fn the_label_file_names_the_fan(files: Seq<SysfsFile>, n: u8)
    ensures
        ({
            let file = util::file_text(files, "fan"@ + text::decimal(n as nat) + "_label"@);
            &&& file is None ==> fan_label(files, n) == "fan"@ + text::decimal(n as nat)
            &&& file matches Some(t) ==> (if text::is_blank(t) {
                fan_label(files, n) == "fan"@ + text::decimal(n as nat)
            } else {
                fan_label(files, n) == text::trimmed(t)
            })
        }),
{
    let name = "fan"@ + text::decimal(n as nat) + "_label"@;
    if util::file_text(files, name) is Some {
        text::nothing_is_left_to_trim(util::file_text(files, name)->0);
    }
}

/// The tachometers that are found are those of the devices that could be read, and no
/// others.
pub proof fn every_readable_device_is_searched(devices: Seq<HwmonDevice>, f: FanInputView)
    ensures
        found_among(devices).contains(f) <==> exists|i: int|
            0 <= i < devices.len() && text::starts((#[trigger] devices[i]).name@, "hwmon"@)
                && device_fans(devices[i]) is Ok && device_fans(devices[i])->Ok_0.contains(f),
    decreases devices.len(),
{
    if devices.len() > 0 {
        let front = devices.drop_last();
        every_readable_device_is_searched(front, f);
        assert forall|i: int| 0 <= i < front.len() implies #[trigger] front[i] == devices[i] by {}
        let before = found_among(front);
        let all = found_among(devices);
        let dev = devices.last();
        let here = text::starts(dev.name@, "hwmon"@) && device_fans(dev) is Ok;
        if all.contains(f) {
            let k = choose|k: int| 0 <= k < all.len() && all[k] == f;
            if k < before.len() {
                assert(before[k] == f);
                let i = choose|i: int|
                    0 <= i < front.len() && text::starts((#[trigger] front[i]).name@, "hwmon"@)
                        && device_fans(front[i]) is Ok && device_fans(front[i])->Ok_0.contains(f);
                assert(devices[i] == front[i]);
            } else {
                assert(here);
                assert(device_fans(dev)->Ok_0[k - before.len()] == f);
                assert(devices[devices.len() - 1] == dev);
            }
        }
        if exists|i: int|
            0 <= i < devices.len() && text::starts((#[trigger] devices[i]).name@, "hwmon"@)
                && device_fans(devices[i]) is Ok && device_fans(devices[i])->Ok_0.contains(f) {
            let i = choose|i: int|
                0 <= i < devices.len() && text::starts((#[trigger] devices[i]).name@, "hwmon"@)
                    && device_fans(devices[i]) is Ok && device_fans(devices[i])->Ok_0.contains(f);
            if i < front.len() {
                assert(text::starts(front[i].name@, "hwmon"@));
                let k = choose|k: int| 0 <= k < before.len() && before[k] == f;
                assert(all[k] == f);
            } else {
                let own = device_fans(dev)->Ok_0;
                let k = choose|k: int| 0 <= k < own.len() && own[k] == f;
                assert(all[before.len() + k] == f);
            }
        }
    }
}

/// A device whose chip name could not be read is a failure of its name file, and one whose
/// files could not be listed a failure of its directory; a graphics card is never one for
/// want of its list.
pub proof fn an_unreadable_device_is_a_failure(dev: HwmonDevice)
    ensures
        dev.chip matches Err(e) ==> device_fans(dev) == Err::<
            Seq<FanInputView>,
            discovery::Failure,
        >((text::joined(dev.path@, "name"@), e@)),
        dev.chip is Ok && !hwmon::names_gpu_owned(text::trimmed(dev.chip->Ok_0@))
            && dev.files is Err ==> device_fans(dev) == Err::<
            Seq<FanInputView>,
            discovery::Failure,
        >((dev.path@, dev.files->Err_0@)),
        dev.chip is Ok && hwmon::names_gpu_owned(text::trimmed(dev.chip->Ok_0@)) ==> device_fans(
            dev,
        ) is Ok,
{
}

} // verus!

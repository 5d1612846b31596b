//! Which temperature sensors there are, with ids that do not depend on the number that
//! the kernel gave a device.
//!
//! The device directories come as they were read; what a directory could not show is
//! part of that.

use crate::error::HwmonError;
use crate::hwmon::aio;
use crate::hwmon::aio::is_coolant_sensor;
use crate::hwmon::types::{
    SensorDescriptor, SensorKind, SensorSource, SensorThresholds, SensorView,
};
use crate::hwmon::util;
use crate::hwmon::util::{
    device_order, file_named, names_in_order, resolve_device_id, text_of_file, HwmonDevice,
    SysfsFile,
};
use crate::text;
use crate::text::{
    contains, ends_with, join_path, lowercase, parse_signed, parse_u8, starts_with, str_eq,
    strip_prefix, strip_suffix, trim,
};
use vstd::prelude::*;
use vstd::string::*;
use vstd::utf8::*;

verus! {

// ---------------------------------------------------------------------------
// What a sensor measures
// ---------------------------------------------------------------------------

/// Whether a chip is of the Nuvoton families whose labels tell processor readings.
pub open spec fn is_nuvoton(chip_name: Seq<char>) -> bool {
    ||| chip_name == "nct6775"@
    ||| chip_name == "nct6683"@
    ||| chip_name == "nct6686"@
    ||| chip_name == "nct6687"@
}

/// Whether a chip is one of the ASUS monitors whose labels tell what they read.
pub open spec fn is_asus_monitor(chip_name: Seq<char>) -> bool {
    chip_name == "asus_ec_sensors"@ || chip_name == "asus_wmi_sensors"@
}

/// The kind that a label in small letters tells on a chip that nothing else is known of.
pub open spec fn guessed_kind(l: Seq<char>) -> SensorKind {
    if text::holds(l, "cpu"@) || text::holds(l, "tctl"@) || text::holds(l, "tccd"@) {
        SensorKind::CpuTemp
    } else if text::holds(l, "gpu"@) || text::holds(l, "edge"@) || text::holds(l, "junction"@) {
        SensorKind::GpuTemp
    } else {
        SensorKind::MbTemp
    }
}

/// What a sensor measures, by its chip and its label. A coolant sensor is one on any
/// chip.
pub open spec fn kind_of(chip_name: Seq<char>, label: Seq<char>) -> SensorKind {
    let l = text::lower(label);
    if aio::measures_coolant(chip_name, label) {
        SensorKind::CoolantTemp
    } else if chip_name == "k10temp"@ || chip_name == "coretemp"@ || chip_name == "sbtsi_temp"@ {
        SensorKind::CpuTemp
    } else if chip_name == "amdgpu"@ || chip_name == "xe"@ || chip_name == "i915"@ || chip_name
        == "nouveau"@ {
        SensorKind::GpuTemp
    } else if chip_name == "nvme"@ {
        SensorKind::DiskTemp
    } else if text::starts(chip_name, "it87"@) {
        SensorKind::MbTemp
    } else if is_nuvoton(chip_name) {
        if text::holds(l, "tsi"@) || text::holds(l, "peci"@) || text::holds(l, "cpu"@) {
            SensorKind::CpuTemp
        } else {
            SensorKind::MbTemp
        }
    } else if is_asus_monitor(chip_name) {
        if text::holds(l, "cpu"@) {
            SensorKind::CpuTemp
        } else if text::holds(l, "gpu"@) {
            SensorKind::GpuTemp
        } else {
            SensorKind::MbTemp
        }
    } else if chip_name == "gigabyte_wmi"@ {
        SensorKind::MbTemp
    } else {
        guessed_kind(l)
    }
}

/// What a sensor measures, by its chip and its label.
pub fn classify_chip(chip_name: &str, label: &str) -> (r: SensorKind)
    ensures
        r == kind_of(chip_name@, label@),
{
    if is_coolant_sensor(chip_name, label) {
        return SensorKind::CoolantTemp;
    }
    let lowered: String = lowercase(label);
    let l: &str = lowered.as_str();
    if str_eq(chip_name, "k10temp") || str_eq(chip_name, "coretemp") || str_eq(
        chip_name,
        "sbtsi_temp",
    ) {
        SensorKind::CpuTemp
    } else if str_eq(chip_name, "amdgpu") || str_eq(chip_name, "xe") || str_eq(chip_name, "i915")
        || str_eq(chip_name, "nouveau") {
        SensorKind::GpuTemp
    } else if str_eq(chip_name, "nvme") {
        SensorKind::DiskTemp
    } else if starts_with(chip_name, "it87") {
        SensorKind::MbTemp
    } else if str_eq(chip_name, "nct6775") || str_eq(chip_name, "nct6683") || str_eq(
        chip_name,
        "nct6686",
    ) || str_eq(chip_name, "nct6687") {
        if contains(l, "tsi") || contains(l, "peci") || contains(l, "cpu") {
            SensorKind::CpuTemp
        } else {
            SensorKind::MbTemp
        }
    } else if str_eq(chip_name, "asus_ec_sensors") || str_eq(chip_name, "asus_wmi_sensors") {
        if contains(l, "cpu") {
            SensorKind::CpuTemp
        } else if contains(l, "gpu") {
            SensorKind::GpuTemp
        } else {
            SensorKind::MbTemp
        }
    } else if str_eq(chip_name, "gigabyte_wmi") {
        SensorKind::MbTemp
    } else if contains(l, "cpu") || contains(l, "tctl") || contains(l, "tccd") {
        SensorKind::CpuTemp
    } else if contains(l, "gpu") || contains(l, "edge") || contains(l, "junction") {
        SensorKind::GpuTemp
    } else {
        SensorKind::MbTemp
    }
}

/// Which kind of device a chip belongs to.
pub open spec fn source_of(chip_name: Seq<char>) -> SensorSource {
    if chip_name == "amdgpu"@ {
        SensorSource::AmdGpu
    } else if chip_name == "xe"@ || chip_name == "i915"@ {
        SensorSource::IntelGpu
    } else if chip_name == "nouveau"@ {
        SensorSource::NvidiaGpu
    } else {
        SensorSource::Hwmon
    }
}

fn chip_source(chip_name: &str) -> (r: SensorSource)
    ensures
        r == source_of(chip_name@),
{
    if str_eq(chip_name, "amdgpu") {
        SensorSource::AmdGpu
    } else if str_eq(chip_name, "xe") || str_eq(chip_name, "i915") {
        SensorSource::IntelGpu
    } else if str_eq(chip_name, "nouveau") {
        SensorSource::NvidiaGpu
    } else {
        SensorSource::Hwmon
    }
}

// ---------------------------------------------------------------------------
// Threshold attributes
// ---------------------------------------------------------------------------

/// The lowest threshold that is believed, in thousandths of a degree. Drivers show
/// absurd values where a register was never set.
pub const THRESHOLD_MIN_MC: i64 = -50000;

/// The highest threshold that is believed, in thousandths of a degree.
pub const THRESHOLD_MAX_MC: i64 = 200000;

/// The name of an attribute file of the sensor with an index.
pub open spec fn attr_file(index: Seq<char>, attr: Seq<char>) -> Seq<char> {
    "temp"@ + index + "_"@ + attr
}

fn attr_name(index: &str, attr: &str) -> (r: String)
    ensures
        r@ == attr_file(index@, attr@),
{
    let mut s: String = "temp".to_owned();
    s.append(index);
    s.append("_");
    s.append(attr);
    s
}

/// The threshold that an attribute's text states, where it is believed. Chips of the ITE
/// families show a `max` of 0 where it was never set.
pub open spec fn stated_threshold(
    content: Seq<char>,
    attr: Seq<char>,
    chip_name: Seq<char>,
) -> Option<i32> {
    match text::parsed_signed(text::trimmed(content), i64::MIN as int, i64::MAX as int) {
        Some(n) => if THRESHOLD_MIN_MC <= n <= THRESHOLD_MAX_MC && !(attr == "max"@
            && text::starts(chip_name, "it8"@) && n == 0) {
            Some(n as i32)
        } else {
            None
        },
        None => None,
    }
}

/// The threshold of a sensor's attribute.
pub open spec fn threshold_of(
    files: Seq<SysfsFile>,
    index: Seq<char>,
    attr: Seq<char>,
    chip_name: Seq<char>,
) -> Option<i32> {
    match util::file_text(files, attr_file(index, attr)) {
        Some(content) => stated_threshold(content, attr, chip_name),
        None => None,
    }
}

/// The alarm bit of a sensor's attribute.
pub open spec fn alarm_of(
    files: Seq<SysfsFile>,
    index: Seq<char>,
    attr: Seq<char>,
) -> Option<bool> {
    match util::file_text(files, attr_file(index, attr)) {
        Some(content) => if text::trimmed(content) == "0"@ {
            Some(false)
        } else if text::trimmed(content) == "1"@ {
            Some(true)
        } else {
            None
        },
        None => None,
    }
}

fn read_temp_attr_mc(files: &Vec<SysfsFile>, index: &str, attr: &str, chip_name: &str) -> (r:
    Option<i32>)
    ensures
        r == threshold_of(files@, index@, attr@, chip_name@),
{
    let name: String = attr_name(index, attr);
    match text_of_file(files, name.as_str()) {
        Some(content) => {
            let n: i64 = match parse_signed(trim(content), i64::MIN, i64::MAX) {
                Some(n) => n,
                None => {
                    return None;
                },
            };
            if n < THRESHOLD_MIN_MC || n > THRESHOLD_MAX_MC {
                return None;
            }
            if str_eq(attr, "max") && starts_with(chip_name, "it8") && n == 0 {
                return None;
            }
            Some(n as i32)
        },
        None => None,
    }
}

fn read_temp_attr_bool(files: &Vec<SysfsFile>, index: &str, attr: &str) -> (r: Option<bool>)
    ensures
        r == alarm_of(files@, index@, attr@),
{
    let name: String = attr_name(index, attr);
    match text_of_file(files, name.as_str()) {
        Some(content) => {
            let bit: &str = trim(content);
            if str_eq(bit, "0") {
                Some(false)
            } else if str_eq(bit, "1") {
                Some(true)
            } else {
                None
            }
        },
        None => None,
    }
}

/// The threshold attributes of a sensor.
pub open spec fn attributes_of(
    files: Seq<SysfsFile>,
    index: Seq<char>,
    chip_name: Seq<char>,
) -> SensorThresholds {
    SensorThresholds {
        max_mc: threshold_of(files, index, "max"@, chip_name),
        min_mc: threshold_of(files, index, "min"@, chip_name),
        crit_mc: threshold_of(files, index, "crit"@, chip_name),
        crit_hyst_mc: threshold_of(files, index, "crit_hyst"@, chip_name),
        emergency_mc: threshold_of(files, index, "emergency"@, chip_name),
        emergency_hyst_mc: threshold_of(files, index, "emergency_hyst"@, chip_name),
        lcrit_mc: threshold_of(files, index, "lcrit"@, chip_name),
        offset_mc: threshold_of(files, index, "offset"@, chip_name),
        alarm: alarm_of(files, index, "alarm"@),
        max_alarm: alarm_of(files, index, "max_alarm"@),
        crit_alarm: alarm_of(files, index, "crit_alarm"@),
        fault: alarm_of(files, index, "fault"@),
    }
}

/// The threshold attributes of a sensor, where it has any.
pub open spec fn thresholds_of(
    files: Seq<SysfsFile>,
    index: Seq<char>,
    chip_name: Seq<char>,
) -> Option<SensorThresholds> {
    if attributes_of(files, index, chip_name).spec_is_empty() {
        None
    } else {
        Some(attributes_of(files, index, chip_name))
    }
}

fn read_thresholds(files: &Vec<SysfsFile>, index: &str, chip_name: &str) -> (r: Option<
    SensorThresholds,
>)
    ensures
        r == thresholds_of(files@, index@, chip_name@),
{
    let t: SensorThresholds = SensorThresholds {
        max_mc: read_temp_attr_mc(files, index, "max", chip_name),
        min_mc: read_temp_attr_mc(files, index, "min", chip_name),
        crit_mc: read_temp_attr_mc(files, index, "crit", chip_name),
        crit_hyst_mc: read_temp_attr_mc(files, index, "crit_hyst", chip_name),
        emergency_mc: read_temp_attr_mc(files, index, "emergency", chip_name),
        emergency_hyst_mc: read_temp_attr_mc(files, index, "emergency_hyst", chip_name),
        lcrit_mc: read_temp_attr_mc(files, index, "lcrit", chip_name),
        offset_mc: read_temp_attr_mc(files, index, "offset", chip_name),
        alarm: read_temp_attr_bool(files, index, "alarm"),
        max_alarm: read_temp_attr_bool(files, index, "max_alarm"),
        crit_alarm: read_temp_attr_bool(files, index, "crit_alarm"),
        fault: read_temp_attr_bool(files, index, "fault"),
    };
    if t.is_empty() {
        None
    } else {
        Some(t)
    }
}

// ---------------------------------------------------------------------------
// The sensors of a device
// ---------------------------------------------------------------------------

/// The stable id of a sensor.
pub open spec fn sensor_id(
    chip_name: Seq<char>,
    device_id: Seq<char>,
    label: Seq<char>,
) -> Seq<char> {
    "hwmon:"@ + chip_name + ":"@ + device_id + ":"@ + label
}

fn build_stable_id(chip_name: &str, device_id: &str, label: &str) -> (r: String)
    ensures
        r@ == sensor_id(chip_name@, device_id@, label@),
{
    let mut s: String = "hwmon:".to_owned();
    s.append(chip_name);
    s.append(":");
    s.append(device_id);
    s.append(":");
    s.append(label);
    s
}

/// Whether a file is the input of a temperature sensor.
pub open spec fn is_temp_input(name: Seq<char>) -> bool {
    text::starts(name, "temp"@) && text::ends(name, "_input"@)
}

/// The index of the sensor that an input file is of.
pub open spec fn input_index(name: Seq<char>) -> Seq<char> {
    if text::starts(name, "temp"@) && text::ends(name.skip("temp"@.len() as int), "_input"@) {
        let rest = name.skip("temp"@.len() as int);
        rest.take(rest.len() - "_input"@.len())
    } else {
        "0"@
    }
}

/// A failed read: the path and the reason.
pub type Failure = (Seq<char>, Seq<char>);

/// The label of the sensor with an index: what its label file says, or `temp` and the
/// index where it has none. A label file that cannot be read is a failure, for id and
/// kind rest on the label.
pub open spec fn label_of(
    path: Seq<char>,
    files: Seq<SysfsFile>,
    index: Seq<char>,
) -> Result<Seq<char>, Failure> {
    match util::find_file(files, attr_file(index, "label"@)) {
        None => Ok("temp"@ + index),
        Some(f) => match f.content {
            Ok(t) => Ok(text::trimmed(t@)),
            Err(reason) => Err((text::joined(path, attr_file(index, "label"@)), reason@)),
        },
    }
}

/// The type that the sensor with an index states.
pub open spec fn type_of(files: Seq<SysfsFile>, index: Seq<char>) -> Option<u8> {
    match util::file_text(files, attr_file(index, "type"@)) {
        Some(t) => match text::parsed(text::trimmed(t), 10, 255) {
            Some(n) => Some(n as u8),
            None => None,
        },
        None => None,
    }
}

/// The sensor of an input file.
pub open spec fn sensor_of(
    path: Seq<char>,
    chip_name: Seq<char>,
    device_id: Seq<char>,
    files: Seq<SysfsFile>,
    name: Seq<char>,
) -> Result<SensorView, Failure> {
    let index = input_index(name);
    match label_of(path, files, index) {
        Err(f) => Err(f),
        Ok(label) => Ok(
            SensorView {
                id: sensor_id(chip_name, device_id, label),
                kind: kind_of(chip_name, label),
                label,
                source: source_of(chip_name),
                input_path: text::joined(path, name),
                chip_name,
                temp_type: type_of(files, index),
                thresholds: thresholds_of(files, index, chip_name),
            },
        ),
    }
}

/// The sensors of the input files among some names, or the first failure.
pub open spec fn sensors_among(
    path: Seq<char>,
    chip_name: Seq<char>,
    device_id: Seq<char>,
    files: Seq<SysfsFile>,
    names: Seq<Seq<char>>,
) -> Result<Seq<SensorView>, Failure>
    decreases names.len(),
{
    if names.len() == 0 {
        Ok(Seq::empty())
    } else {
        match sensors_among(path, chip_name, device_id, files, names.drop_last()) {
            Err(f) => Err(f),
            Ok(before) => if !is_temp_input(names.last()) {
                Ok(before)
            } else {
                match sensor_of(path, chip_name, device_id, files, names.last()) {
                    Err(f) => Err(f),
                    Ok(s) => Ok(before.push(s)),
                }
            },
        }
    }
}

/// The sensors of a device in the order of their input files, or why they cannot be told.
pub open spec fn device_sensors(dev: HwmonDevice) -> Result<Seq<SensorView>, Failure> {
    match dev.chip {
        Err(reason) => Err((text::joined(dev.path@, "name"@), reason@)),
        Ok(chip) => match dev.files {
            Err(reason) => Err((dev.path@, reason@)),
            Ok(files) => sensors_among(
                dev.path@,
                text::trimmed(chip@),
                util::linked_id(dev.device),
                files@,
                util::ordered_names(files@),
            ),
        },
    }
}

/// Whether a result is the one that is told by views.
pub open spec fn tells(
    r: Result<Vec<SensorDescriptor>, HwmonError>,
    told: Result<Seq<SensorView>, Failure>,
) -> bool {
    match (r, told) {
        (Ok(v), Ok(views)) => text::views(v@) == views,
        (Err(e), Err(f)) => e.is_read_error(f.0, f.1),
        _ => false,
    }
}

fn read_label(path: &str, files: &Vec<SysfsFile>, index: &str) -> (r: Result<String, HwmonError>)
    ensures
        match (r, label_of(path@, files@, index@)) {
            (Ok(l), Ok(label)) => l@ == label,
            (Err(e), Err(f)) => e.is_read_error(f.0, f.1),
            _ => false,
        },
{
    let name: String = attr_name(index, "label");
    match file_named(files, name.as_str()) {
        None => {
            let mut s: String = "temp".to_owned();
            s.append(index);
            Ok(s)
        },
        Some(f) => match &f.content {
            Ok(t) => Ok(trim(t.as_str()).to_owned()),
            Err(reason) => Err(
                HwmonError::ReadError {
                    path: join_path(path, name.as_str()),
                    message: reason.clone(),
                },
            ),
        },
    }
}

fn read_temp_type(files: &Vec<SysfsFile>, index: &str) -> (r: Option<u8>)
    ensures
        r == type_of(files@, index@),
{
    let name: String = attr_name(index, "type");
    match text_of_file(files, name.as_str()) {
        Some(t) => parse_u8(trim(t)),
        None => None,
    }
}

fn index_of_input<'a>(name: &'a str) -> (r: &'a str)
    ensures
        r@ == input_index(name@),
{
    match strip_prefix(name, "temp") {
        Some(rest) => match strip_suffix(rest, "_input") {
            Some(index) => index,
            None => "0",
        },
        None => "0",
    }
}

/// The temperature sensors of a device.
pub fn discover_device_sensors(dev: &HwmonDevice) -> (r: Result<Vec<SensorDescriptor>, HwmonError>)
    ensures
        tells(r, device_sensors(*dev)),
{
    let path: &str = dev.path.as_str();
    let chip_name: String = match &dev.chip {
        Ok(t) => trim(t.as_str()).to_owned(),
        Err(reason) => {
            return Err(
                HwmonError::ReadError { path: join_path(path, "name"), message: reason.clone() },
            );
        },
    };
    let device_id: String = resolve_device_id(&dev.device);
    let files: &Vec<SysfsFile> = match &dev.files {
        Ok(files) => files,
        Err(reason) => {
            return Err(HwmonError::ReadError { path: dev.path.clone(), message: reason.clone() });
        },
    };
    let names: Vec<&str> = names_in_order(files);
    let ghost all = text::texts(names@);
    let mut sensors: Vec<SensorDescriptor> = Vec::new();
    let mut i: usize = 0;
    assert(text::views(sensors@) =~= Seq::<SensorView>::empty());
    while i < names.len()
        invariant
            i <= names@.len(),
            all == text::texts(names@),
            all == util::ordered_names(files@),
            path@ == dev.path@,
            dev.chip is Ok && dev.files == Ok::<Vec<SysfsFile>, String>(*files),
            chip_name@ == text::trimmed(dev.chip->Ok_0@),
            device_id@ == util::linked_id(dev.device),
            sensors_among(path@, chip_name@, device_id@, files@, all.take(i as int)) == Ok::<
                Seq<SensorView>,
                Failure,
            >(text::views(sensors@)),
        decreases names@.len() - i,
    {
        let name: &str = names[i];
        proof {
            assert(all.take(i + 1).drop_last() =~= all.take(i as int));
            assert(all.take(i + 1).last() == name@);
        }
        if starts_with(name, "temp") && ends_with(name, "_input") {
            let index: &str = index_of_input(name);
            let label: String = match read_label(path, files, index) {
                Ok(l) => l,
                Err(e) => {
                    proof {
                        lemma_failure_stays(
                            path@,
                            chip_name@,
                            device_id@,
                            files@,
                            all,
                            i + 1,
                        );
                        assert(all.take(all.len() as int) =~= all);
                    }
                    return Err(e);
                },
            };
            let temp_type: Option<u8> = read_temp_type(files, index);
            let thresholds: Option<SensorThresholds> = read_thresholds(
                files,
                index,
                chip_name.as_str(),
            );
            let kind: SensorKind = classify_chip(chip_name.as_str(), label.as_str());
            let id: String = build_stable_id(
                chip_name.as_str(),
                device_id.as_str(),
                label.as_str(),
            );
            let source: SensorSource = chip_source(chip_name.as_str());
            let ghost was = text::views(sensors@);
            sensors.push(
                SensorDescriptor {
                    id,
                    kind,
                    label,
                    source,
                    input_path: join_path(path, name),
                    chip_name: chip_name.clone(),
                    temp_type,
                    thresholds,
                },
            );
            assert(text::views(sensors@) =~= was.push(sensors@[sensors@.len() - 1]@));
        }
        i += 1;
    }
    assert(all.take(i as int) =~= all);
    Ok(sensors)
}

proof fn lemma_failure_stays(
    path: Seq<char>,
    chip_name: Seq<char>,
    device_id: Seq<char>,
    files: Seq<SysfsFile>,
    names: Seq<Seq<char>>,
    n: int,
)
    requires
        0 <= n <= names.len(),
        sensors_among(path, chip_name, device_id, files, names.take(n)) is Err,
    ensures
        sensors_among(path, chip_name, device_id, files, names) == sensors_among(
            path,
            chip_name,
            device_id,
            files,
            names.take(n),
        ),
    decreases names.len() - n,
{
    if n < names.len() {
        assert(names.take(n + 1).drop_last() =~= names.take(n));
        lemma_failure_stays(path, chip_name, device_id, files, names, n + 1);
    } else {
        assert(names.take(n) =~= names);
    }
}

// ---------------------------------------------------------------------------
// All devices
// ---------------------------------------------------------------------------

/// What a discovery found, and the devices that it cannot speak for.
#[derive(Debug)]
pub struct SensorDiscovery {
    /// The sensors that were found.
    pub descriptors: Vec<SensorDescriptor>,
    /// The device directories that are there and could not be read: their sensors are
    /// not gone, only unknown. A directory that has vanished is not among them.
    pub unreadable_dirs: Vec<String>,
}

/// What a discovery says.
#[verifier::ext_equal]
pub struct DiscoveryView {
    pub descriptors: Seq<SensorView>,
    pub unreadable_dirs: Seq<Seq<char>>,
}

impl View for SensorDiscovery {
    type V = DiscoveryView;

    open spec fn view(&self) -> DiscoveryView {
        DiscoveryView {
            descriptors: text::views(self.descriptors@),
            unreadable_dirs: text::strings(self.unreadable_dirs@),
        }
    }
}

/// Whether a directory is one of a hwmon device.
pub open spec fn is_hwmon_dir(name: Seq<char>) -> bool {
    text::starts(name, "hwmon"@)
}

/// What the devices show, taken in turn.
pub open spec fn found_among(devices: Seq<HwmonDevice>) -> DiscoveryView
    decreases devices.len(),
{
    if devices.len() == 0 {
        DiscoveryView { descriptors: Seq::empty(), unreadable_dirs: Seq::empty() }
    } else {
        let before = found_among(devices.drop_last());
        let dev = devices.last();
        if !is_hwmon_dir(dev.name@) {
            before
        } else {
            match device_sensors(dev) {
                Ok(sensors) => DiscoveryView {
                    descriptors: before.descriptors + sensors,
                    ..before
                },
                Err(f) => if dev.still_there {
                    DiscoveryView {
                        unreadable_dirs: before.unreadable_dirs.push(dev.path@),
                        ..before
                    }
                } else {
                    before
                },
            }
        }
    }
}

/// The temperature sensors of the devices under a hwmon root, in the order of the device
/// directories, and the directories that are there and could not be read.
///
/// `listing` holds the directories under the root, or why they could not be listed.
pub fn discover_sensors_reporting_skips(
    root: &str,
    listing: &Result<Vec<HwmonDevice>, String>,
) -> (r: Result<SensorDiscovery, HwmonError>)
    ensures
        match (*listing, r) {
            (Ok(devices), Ok(found)) => found@ == found_among(util::ordered_devices(devices@)),
            (Err(reason), Err(e)) => e.is_read_error(root@, reason@),
            _ => false,
        },
{
    let devices: &Vec<HwmonDevice> = match listing {
        Ok(devices) => devices,
        Err(reason) => {
            return Err(HwmonError::ReadError { path: root.to_owned(), message: reason.clone() });
        },
    };
    let order: Vec<usize> = device_order(devices);
    let ghost ordered = util::ordered_devices(devices@);
    let mut descriptors: Vec<SensorDescriptor> = Vec::new();
    let mut unreadable_dirs: Vec<String> = Vec::new();
    let mut i: usize = 0;
    proof {
        assert(text::views(descriptors@) =~= Seq::<SensorView>::empty());
        assert(text::strings(unreadable_dirs@) =~= Seq::<Seq<char>>::empty());
    }
    while i < order.len()
        invariant
            i <= order@.len(),
            order@.len() == devices@.len(),
            ordered == util::ordered_devices(devices@),
            ordered.len() == devices@.len(),
            forall|k: int| 0 <= k < order@.len() ==> #[trigger] order@[k] < devices@.len(),
            forall|k: int|
                0 <= k < order@.len() ==> #[trigger] ordered[k] == devices@[order@[k] as int],
            found_among(ordered.take(i as int)) == (DiscoveryView {
                descriptors: text::views(descriptors@),
                unreadable_dirs: text::strings(unreadable_dirs@),
            }),
        decreases order@.len() - i,
    {
        let dev: &HwmonDevice = &devices[order[i]];
        proof {
            assert(ordered.take(i + 1).drop_last() =~= ordered.take(i as int));
            assert(ordered.take(i + 1).last() == ordered[i as int]);
        }
        if starts_with(dev.name.as_str(), "hwmon") {
            match discover_device_sensors(dev) {
                Ok(mut sensors) => {
                    let ghost was = descriptors@;
                    let ghost more = sensors@;
                    descriptors.append(&mut sensors);
                    assert(text::views(descriptors@) =~= text::views(was) + text::views(more));
                },
                Err(_) => {
                    if dev.still_there {
                        let ghost was = text::strings(unreadable_dirs@);
                        unreadable_dirs.push(dev.path.clone());
                        assert(text::strings(unreadable_dirs@) =~= was.push(dev.path@));
                    }
                },
            }
        }
        i += 1;
    }
    assert(ordered.take(i as int) =~= ordered);
    Ok(SensorDiscovery { descriptors, unreadable_dirs })
}

/// The temperature sensors of the devices under a hwmon root. What could not be read is
/// not told: see `discover_sensors_reporting_skips`.
pub fn discover_sensors(root: &str, listing: &Result<Vec<HwmonDevice>, String>) -> (r: Result<
    Vec<SensorDescriptor>,
    HwmonError,
>)
    ensures
        match (*listing, r) {
            (Ok(devices), Ok(found)) => text::views(found@) == found_among(
                util::ordered_devices(devices@),
            ).descriptors,
            (Err(reason), Err(e)) => e.is_read_error(root@, reason@),
            _ => false,
        },
{
    match discover_sensors_reporting_skips(root, listing) {
        Ok(found) => Ok(found.descriptors),
        Err(e) => Err(e),
    }
}

// ---------------------------------------------------------------------------
// Laws
// ---------------------------------------------------------------------------

/// What a sensor measures does not depend on which of the ASCII letters of its label are
/// capitals, whatever else stands in the label.
pub proof fn the_case_of_a_label_plays_no_part(chip_name: Seq<char>, label: Seq<char>)
    ensures
        kind_of(chip_name, text::ascii_upper(label)) == kind_of(chip_name, label),
        kind_of(chip_name, text::ascii_lower(label)) == kind_of(chip_name, label),
{
    text::lower_forgets_case(label);
}

/// A coolant sensor is one whatever its chip, and nothing else is one. Any other sensor of
/// a processor, a graphics card or a disk is told by its chip alone, whatever its label.
pub proof fn the_coolant_comes_first_and_then_the_chip(chip_name: Seq<char>, label: Seq<char>)
    ensures
        kind_of(chip_name, label) == SensorKind::CoolantTemp <==> aio::measures_coolant(
            chip_name,
            label,
        ),
        !aio::measures_coolant(chip_name, label) ==> {
            &&& chip_name == "k10temp"@ || chip_name == "coretemp"@ || chip_name == "sbtsi_temp"@
                ==> kind_of(chip_name, label) == SensorKind::CpuTemp
            &&& chip_name == "amdgpu"@ || chip_name == "xe"@ || chip_name == "i915"@ || chip_name
                == "nouveau"@ ==> kind_of(chip_name, label) == SensorKind::GpuTemp
            &&& chip_name == "nvme"@ ==> kind_of(chip_name, label) == SensorKind::DiskTemp
        },
{
    reveal_strlit("k10temp");
    reveal_strlit("coretemp");
    reveal_strlit("sbtsi_temp");
    reveal_strlit("amdgpu");
    reveal_strlit("xe");
    reveal_strlit("i915");
    reveal_strlit("nouveau");
    reveal_strlit("nvme");
    assert(chip_name == "amdgpu"@ || chip_name == "xe"@ || chip_name == "i915"@ || chip_name
        == "nouveau"@ || chip_name == "nvme"@ ==> chip_name[0] != 'k' && chip_name[0] != 'c'
        && chip_name[0] != 's');
    assert(chip_name == "nvme"@ ==> chip_name[1] == 'v');
}

/// Whether a device directory could not be read though it is there.
pub open spec fn is_unreadable(dev: HwmonDevice) -> bool {
    is_hwmon_dir(dev.name@) && device_sensors(dev) is Err && dev.still_there
}

/// Whether a sensor is one of a device's.
pub open spec fn belongs_to(sensor: SensorView, dev: HwmonDevice) -> bool {
    &&& is_hwmon_dir(dev.name@)
    &&& device_sensors(dev) is Ok
    &&& device_sensors(dev)->Ok_0.contains(sensor)
}

proof fn lemma_found(devices: Seq<HwmonDevice>)
    ensures
        forall|s: SensorView|
            #![trigger found_among(devices).descriptors.contains(s)]
            found_among(devices).descriptors.contains(s) <==> exists|i: int|
                0 <= i < devices.len() && belongs_to(s, #[trigger] devices[i]),
        forall|p: Seq<char>|
            #![trigger found_among(devices).unreadable_dirs.contains(p)]
            found_among(devices).unreadable_dirs.contains(p) <==> exists|i: int|
                0 <= i < devices.len() && is_unreadable(#[trigger] devices[i])
                    && devices[i].path@ == p,
    decreases devices.len(),
{
    let found = found_among(devices);
    if devices.len() > 0 {
        let front = devices.drop_last();
        let dev = devices.last();
        let before = found_among(front);
        lemma_found(front);
        assert(forall|i: int| 0 <= i < front.len() ==> #[trigger] devices[i] == front[i]);
        assert(devices[devices.len() - 1] == dev);
        assert forall|s: SensorView| #[trigger]
            found.descriptors.contains(s) <==> before.descriptors.contains(s) || belongs_to(
            s,
            dev,
        ) by {
            if is_hwmon_dir(dev.name@) && device_sensors(dev) is Ok {
                let more = device_sensors(dev)->Ok_0;
                if before.descriptors.contains(s) {
                    let k = before.descriptors.index_of(s);
                    assert(found.descriptors[k] == s);
                }
                if more.contains(s) {
                    let k = more.index_of(s);
                    assert(found.descriptors[before.descriptors.len() + k] == s);
                }
                if found.descriptors.contains(s) {
                    let k = found.descriptors.index_of(s);
                    if k < before.descriptors.len() {
                        assert(before.descriptors[k] == s);
                    } else {
                        assert(more[k - before.descriptors.len()] == s);
                    }
                }
            }
        }
        assert forall|p: Seq<char>| #[trigger]
            found.unreadable_dirs.contains(p) <==> before.unreadable_dirs.contains(p) || (
        is_unreadable(dev) && dev.path@ == p) by {
            if is_unreadable(dev) {
                let n = before.unreadable_dirs.len() as int;
                assert(found.unreadable_dirs[n] == dev.path@);
                if before.unreadable_dirs.contains(p) {
                    let k = before.unreadable_dirs.index_of(p);
                    assert(found.unreadable_dirs[k] == p);
                }
                if found.unreadable_dirs.contains(p) {
                    let k = found.unreadable_dirs.index_of(p);
                    if k < n {
                        assert(before.unreadable_dirs[k] == p);
                    }
                }
            }
        }
        assert forall|s: SensorView| #[trigger]
            found.descriptors.contains(s) <==> exists|i: int|
                0 <= i < devices.len() && belongs_to(s, #[trigger] devices[i]) by {
            if before.descriptors.contains(s) {
                let i = choose|i: int|
                    0 <= i < front.len() && belongs_to(s, #[trigger] front[i]);
                assert(belongs_to(s, devices[i]));
            }
            if exists|i: int| 0 <= i < devices.len() && belongs_to(s, #[trigger] devices[i]) {
                let i = choose|i: int|
                    0 <= i < devices.len() && belongs_to(s, #[trigger] devices[i]);
                if i < front.len() {
                    assert(belongs_to(s, front[i]));
                }
            }
        }
        assert forall|p: Seq<char>| #[trigger]
            found.unreadable_dirs.contains(p) <==> exists|i: int|
                0 <= i < devices.len() && is_unreadable(#[trigger] devices[i])
                    && devices[i].path@ == p by {
            if before.unreadable_dirs.contains(p) {
                let i = choose|i: int|
                    0 <= i < front.len() && is_unreadable(#[trigger] front[i])
                        && front[i].path@ == p;
                assert(is_unreadable(devices[i]));
            }
            if exists|i: int|
                0 <= i < devices.len() && is_unreadable(#[trigger] devices[i])
                    && devices[i].path@ == p {
                let i = choose|i: int|
                    0 <= i < devices.len() && is_unreadable(#[trigger] devices[i])
                        && devices[i].path@ == p;
                if i < front.len() {
                    assert(is_unreadable(front[i]));
                }
            }
        }
    }
}

/// A discovery accounts for every device: what it found are exactly the sensors of the
/// devices that could be read, and it names exactly the devices that are there and could
/// not be read. So a sensor that is missing, and whose device is not named, is gone.
pub proof fn discovery_accounts_for_every_device(
    devices: Seq<HwmonDevice>,
    sensor: SensorView,
    dir: Seq<char>,
)
    ensures
        ({
            let found = found_among(util::ordered_devices(devices));
            &&& found.descriptors.contains(sensor) <==> exists|i: int|
                0 <= i < devices.len() && belongs_to(sensor, #[trigger] devices[i])
            &&& found.unreadable_dirs.contains(dir) <==> exists|i: int|
                0 <= i < devices.len() && is_unreadable(#[trigger] devices[i])
                    && devices[i].path@ == dir
        }),
{
    let ordered = util::ordered_devices(devices);
    let order = text::order_of(util::device_names(devices));
    text::order_of_sorts(util::device_names(devices));
    lemma_found(ordered);
    assert(util::device_names(devices).len() == devices.len());
    let found = found_among(ordered);
    if found.descriptors.contains(sensor) {
        let k = choose|k: int| 0 <= k < ordered.len() && belongs_to(sensor, #[trigger] ordered[k]);
        assert(ordered[k] == devices[order[k]]);
        assert(belongs_to(sensor, devices[order[k]]));
    }
    if exists|i: int| 0 <= i < devices.len() && belongs_to(sensor, #[trigger] devices[i]) {
        let i = choose|i: int| 0 <= i < devices.len() && belongs_to(sensor, #[trigger] devices[i]);
        lemma_order_reaches(order, devices.len(), i);
        let k = order.index_of(i);
        assert(ordered[k] == devices[i]);
        assert(belongs_to(sensor, ordered[k]));
    }
    if found.unreadable_dirs.contains(dir) {
        let k = choose|k: int|
            0 <= k < ordered.len() && is_unreadable(#[trigger] ordered[k]) && ordered[k].path@
                == dir;
        assert(ordered[k] == devices[order[k]]);
        assert(is_unreadable(devices[order[k]]));
    }
    if exists|i: int|
        0 <= i < devices.len() && is_unreadable(#[trigger] devices[i]) && devices[i].path@ == dir {
        let i = choose|i: int|
            0 <= i < devices.len() && is_unreadable(#[trigger] devices[i]) && devices[i].path@
                == dir;
        lemma_order_reaches(order, devices.len(), i);
        let k = order.index_of(i);
        assert(ordered[k] == devices[i]);
        assert(is_unreadable(ordered[k]));
    }
}

proof fn lemma_order_reaches(order: Seq<int>, n: nat, i: int)
    requires
        order.len() == n,
        order.no_duplicates(),
        forall|k: int| 0 <= k < n ==> 0 <= #[trigger] order[k] < n,
        0 <= i < n,
    ensures
        order.contains(i),
{
    let all = vstd::set_lib::set_int_range(0, n as int);
    vstd::set_lib::lemma_int_range(0, n as int);
    order.unique_seq_to_set();
    assert(order.to_set().subset_of(all));
    vstd::set_lib::lemma_subset_equality(order.to_set(), all);
    assert(all.contains(i));
}

/// A threshold is never one that no hardware has: it lies in the believed range.
pub proof fn thresholds_are_plausible(
    files: Seq<SysfsFile>,
    index: Seq<char>,
    attr: Seq<char>,
    chip_name: Seq<char>,
)
    ensures
        threshold_of(files, index, attr, chip_name) is Some ==> THRESHOLD_MIN_MC <= threshold_of(
            files,
            index,
            attr,
            chip_name,
        )->0 <= THRESHOLD_MAX_MC,
{
}

/// The ids, kinds and labels of a device's sensors do not depend on the number that the
/// kernel gave the device: they are the same wherever its directory stands.
pub proof fn ids_do_not_depend_on_the_directory(a: HwmonDevice, b: HwmonDevice)
    requires
        a.chip == b.chip,
        a.device == b.device,
        a.files == b.files,
    ensures
        device_sensors(a) is Ok <==> device_sensors(b) is Ok,
        device_sensors(a) is Ok ==> {
            let x = device_sensors(a)->Ok_0;
            let y = device_sensors(b)->Ok_0;
            &&& x.len() == y.len()
            &&& forall|i: int|
                0 <= i < x.len() ==> (#[trigger] x[i]).id == y[i].id && x[i].kind == y[i].kind
                    && x[i].label == y[i].label
        },
{
    if a.chip is Ok && a.files is Ok {
        let files = a.files->Ok_0@;
        lemma_same_ids(
            a.path@,
            b.path@,
            text::trimmed(a.chip->Ok_0@),
            util::linked_id(a.device),
            files,
            util::ordered_names(files),
        );
    }
}

proof fn lemma_same_ids(
    p: Seq<char>,
    q: Seq<char>,
    chip_name: Seq<char>,
    device_id: Seq<char>,
    files: Seq<SysfsFile>,
    names: Seq<Seq<char>>,
)
    ensures
        ({
            let x = sensors_among(p, chip_name, device_id, files, names);
            let y = sensors_among(q, chip_name, device_id, files, names);
            &&& x is Ok <==> y is Ok
            &&& x is Ok ==> {
                &&& x->Ok_0.len() == y->Ok_0.len()
                &&& forall|i: int|
                    0 <= i < x->Ok_0.len() ==> (#[trigger] x->Ok_0[i]).id == y->Ok_0[i].id
                        && x->Ok_0[i].kind == y->Ok_0[i].kind && x->Ok_0[i].label
                        == y->Ok_0[i].label
            }
        }),
    decreases names.len(),
{
    if names.len() > 0 {
        lemma_same_ids(p, q, chip_name, device_id, files, names.drop_last());
    }
}

/// The label of a Nuvoton chip tells the processor's readings: TSI, PECI and CPU. Any other
/// is the board's. The chips of the `it87` names and of Gigabyte's WMI show the board only.
pub proof fn the_label_of_a_board_chip_tells_the_processor(
    chip_name: Seq<char>,
    label: Seq<char>,
)
    requires
        !aio::measures_coolant(chip_name, label),
    ensures
        ({
            let l = text::lower(label);
            let kind = kind_of(chip_name, label);
            &&& chip_name == "nct6775"@ || chip_name == "nct6683"@ || chip_name == "nct6686"@
                || chip_name == "nct6687"@ ==> (kind == SensorKind::CpuTemp <==> text::holds(
                l,
                "tsi"@,
            ) || text::holds(l, "peci"@) || text::holds(l, "cpu"@)) && (kind
                == SensorKind::CpuTemp || kind == SensorKind::MbTemp)
            &&& chip_name == "gigabyte_wmi"@ ==> kind == SensorKind::MbTemp
            &&& chip_name == "asus_ec_sensors"@ || chip_name == "asus_wmi_sensors"@ ==> (kind
                == SensorKind::CpuTemp <==> text::holds(l, "cpu"@)) && (kind
                == SensorKind::GpuTemp <==> text::holds(l, "gpu"@) && !text::holds(l, "cpu"@))
        }),
{
    reveal_strlit("k10temp");
    reveal_strlit("coretemp");
    reveal_strlit("sbtsi_temp");
    reveal_strlit("amdgpu");
    reveal_strlit("xe");
    reveal_strlit("i915");
    reveal_strlit("nouveau");
    reveal_strlit("nvme");
    reveal_strlit("it87");
    reveal_strlit("nct6775");
    reveal_strlit("nct6683");
    reveal_strlit("nct6686");
    reveal_strlit("nct6687");
    reveal_strlit("asus_ec_sensors");
    reveal_strlit("asus_wmi_sensors");
    reveal_strlit("gigabyte_wmi");
    let c = chip_name;
    if text::starts(c, "it87"@) {
        assert(c.subrange(0, 4)[0] == c[0]);
        assert("it87"@[0] == 'i');
    }
    assert(c == "nct6775"@ || c == "nct6683"@ || c == "nct6686"@ || c == "nct6687"@ ==> c[0] == 'n'
        && c[1] == 'c');
    assert(c == "asus_ec_sensors"@ || c == "asus_wmi_sensors"@ ==> c[0] == 'a' && c[1] == 's');
    assert(c == "gigabyte_wmi"@ ==> c[0] == 'g');
    assert(c == "amdgpu"@ ==> c[1] == 'm');
    assert(c == "nouveau"@ ==> c[1] == 'o');
    assert(c == "nvme"@ ==> c[1] == 'v');
    assert(c == "k10temp"@ ==> c[0] == 'k');
    assert(c == "coretemp"@ ==> c[0] == 'c');
    assert(c == "sbtsi_temp"@ ==> c[0] == 's');
    assert(c == "xe"@ ==> c[0] == 'x');
    assert(c == "i915"@ ==> c[0] == 'i');
}

proof fn lemma_it87_kind(chip_name: Seq<char>, rest: Seq<char>)
    requires
        chip_name == "it87"@ + rest,
    ensures
        text::starts(chip_name, "it87"@),
        chip_name[0] == 'i',
        chip_name[1] == 't',
{
    reveal_strlit("it87");
    assert(chip_name.subrange(0, 4) =~= "it87"@);
}

/// A chip whose name begins with `it87` shows the board, whatever its labels say, save the
/// coolant.
pub proof fn ite_chips_show_the_board(rest: Seq<char>, label: Seq<char>)
    requires
        !aio::measures_coolant("it87"@ + rest, label),
    ensures
        kind_of("it87"@ + rest, label) == SensorKind::MbTemp,
{
    let c = "it87"@ + rest;
    lemma_it87_kind(c, rest);
    reveal_strlit("k10temp");
    reveal_strlit("coretemp");
    reveal_strlit("sbtsi_temp");
    reveal_strlit("amdgpu");
    reveal_strlit("xe");
    reveal_strlit("i915");
    reveal_strlit("nouveau");
    reveal_strlit("nvme");
    assert("i915"@[1] == '9');
}

/// On a chip that nothing is known of the label is all there is: it tells the processor,
/// then the graphics card, and else the board.
pub proof fn an_unknown_chip_is_told_by_its_label(chip_name: Seq<char>, label: Seq<char>)
    requires
        !aio::measures_coolant(chip_name, label),
        source_of(chip_name) == SensorSource::Hwmon,
        !text::starts(chip_name, "it87"@),
        chip_name != "k10temp"@ && chip_name != "coretemp"@ && chip_name != "sbtsi_temp"@,
        chip_name != "nvme"@ && chip_name != "gigabyte_wmi"@,
        chip_name != "nct6775"@ && chip_name != "nct6683"@ && chip_name != "nct6686"@ && chip_name
            != "nct6687"@,
        chip_name != "asus_ec_sensors"@ && chip_name != "asus_wmi_sensors"@,
    ensures
        ({
            let l = text::lower(label);
            let cpu = text::holds(l, "cpu"@) || text::holds(l, "tctl"@) || text::holds(l, "tccd"@);
            let gpu = text::holds(l, "gpu"@) || text::holds(l, "edge"@) || text::holds(
                l,
                "junction"@,
            );
            kind_of(chip_name, label) == (if cpu {
                SensorKind::CpuTemp
            } else if gpu {
                SensorKind::GpuTemp
            } else {
                SensorKind::MbTemp
            })
        }),
{
}

/// The sensors of a graphics card's chip are that card's, and the kind agrees: where a
/// sensor is not the coolant's, it measures a graphics card.
pub proof fn sensors_of_a_card_are_the_cards(chip_name: Seq<char>, label: Seq<char>)
    ensures
        chip_name == "amdgpu"@ ==> source_of(chip_name) == SensorSource::AmdGpu,
        chip_name == "xe"@ || chip_name == "i915"@ ==> source_of(chip_name)
            == SensorSource::IntelGpu,
        chip_name == "nouveau"@ ==> source_of(chip_name) == SensorSource::NvidiaGpu,
        source_of(chip_name) != SensorSource::Hwmon && !aio::measures_coolant(chip_name, label)
            ==> kind_of(chip_name, label) == SensorKind::GpuTemp,
{
    reveal_strlit("amdgpu");
    reveal_strlit("xe");
    reveal_strlit("i915");
    reveal_strlit("nouveau");
    reveal_strlit("k10temp");
    reveal_strlit("coretemp");
    reveal_strlit("sbtsi_temp");
    assert("amdgpu"@[0] == 'a' && "nouveau"@[0] == 'n' && "xe"@[0] == 'x' && "i915"@[0] == 'i');
    assert("k10temp"@[0] == 'k' && "coretemp"@[0] == 'c' && "sbtsi_temp"@[0] == 's');
}

/// A threshold that the kernel states is believed from -50 to 200 degrees, and no other is;
/// a `max` of 0 is not believed on a chip of the ITE families.
pub proof fn a_plausible_threshold_is_believed(n: i64, attr: Seq<char>, chip_name: Seq<char>)
    ensures
        stated_threshold(text::signed_decimal(n as int), attr, chip_name) == (if -50_000 <= n
            <= 200_000 && !(attr == "max"@ && text::starts(chip_name, "it8"@) && n == 0) {
            Some(n as i32)
        } else {
            None
        }),
{
    text::a_written_signed_number_is_read_back(n as int, i64::MIN as int, i64::MAX as int);
}

/// An input file is known by its name, which holds the index of its sensor.
pub proof fn an_input_file_names_its_sensor(index: Seq<char>)
    ensures
        is_temp_input("temp"@ + index + "_input"@),
        input_index("temp"@ + index + "_input"@) == index,
        attr_file(index, "input"@) == "temp"@ + index + "_input"@,
{
    let name = "temp"@ + index + "_input"@;
    reveal_strlit("temp");
    reveal_strlit("_input");
    reveal_strlit("_");
    reveal_strlit("input");
    assert(name.subrange(0, 4) =~= "temp"@);
    assert(name.subrange(name.len() - 6, name.len() as int) =~= "_input"@);
    let rest = name.skip(4);
    assert(rest =~= index + "_input"@);
    assert(rest.subrange(rest.len() - 6, rest.len() as int) =~= "_input"@);
    assert(rest.take(rest.len() - 6) =~= index);
    assert(attr_file(index, "input"@) =~= name);
}

/// A file that does not begin with `temp` or does not end with `_input` is no input.
pub proof fn no_other_file_is_an_input(name: Seq<char>)
    ensures
        is_temp_input(name) <==> text::starts(name, "temp"@) && text::ends(name, "_input"@),
        !is_temp_input("fan1_input"@),
{
    reveal_strlit("fan1_input");
    reveal_strlit("temp");
    assert("fan1_input"@.subrange(0, 4)[0] == 'f');
}

/// The label of a sensor is what its label file says, without the white space around it;
/// without such a file it is `temp` and the index, and one that cannot be read is a
/// failure that names the file.
pub proof fn the_label_file_names_the_sensor(
    path: Seq<char>,
    files: Seq<SysfsFile>,
    index: Seq<char>,
    f: SysfsFile,
)
    ensures
        util::find_file(files, "temp"@ + index + "_label"@) is None ==> label_of(
            path,
            files,
            index,
        ) == Ok::<Seq<char>, Failure>("temp"@ + index),
        util::find_file(files, "temp"@ + index + "_label"@) == Some(f) ==> {
            &&& f.content matches Ok(t) ==> label_of(path, files, index) == Ok::<
                Seq<char>,
                Failure,
            >(text::trimmed(t@))
            &&& f.content matches Err(e) ==> label_of(path, files, index) == Err::<
                Seq<char>,
                Failure,
            >((text::joined(path, "temp"@ + index + "_label"@), e@))
        },
{
    reveal_strlit("_");
    reveal_strlit("label");
    reveal_strlit("_label");
    assert(attr_file(index, "label"@) =~= "temp"@ + index + "_label"@);
}

/// What a sensor is said to be fits together: its id is made of the chip, the device and
/// the label, its kind and source are those of the chip and the label, and its path is
/// that of its input file.
pub proof fn a_sensor_is_described_by_its_parts(
    path: Seq<char>,
    chip_name: Seq<char>,
    device_id: Seq<char>,
    files: Seq<SysfsFile>,
    name: Seq<char>,
)
    ensures
        sensor_of(path, chip_name, device_id, files, name) matches Ok(s) ==> {
            &&& s.id == "hwmon:"@ + chip_name + ":"@ + device_id + ":"@ + s.label
            &&& s.kind == kind_of(chip_name, s.label)
            &&& s.source == source_of(chip_name)
            &&& s.chip_name == chip_name
            &&& s.input_path == text::joined(path, name)
            &&& label_of(path, files, input_index(name)) == Ok::<Seq<char>, Failure>(s.label)
        },
        sensor_of(path, chip_name, device_id, files, name) is Err <==> label_of(
            path,
            files,
            input_index(name),
        ) is Err,
{
}

/// Two sensors of a device have different ids where their labels differ.
pub proof fn labels_tell_ids_apart(
    chip_name: Seq<char>,
    device_id: Seq<char>,
    a: Seq<char>,
    b: Seq<char>,
)
    requires
        sensor_id(chip_name, device_id, a) == sensor_id(chip_name, device_id, b),
    ensures
        a == b,
{
    let head = "hwmon:"@ + chip_name + ":"@ + device_id + ":"@;
    let x = head + a;
    let y = head + b;
    assert(x.skip(head.len() as int) =~= a);
    assert(y.skip(head.len() as int) =~= b);
}

/// Each input file gives one sensor, in the order of the files, and nothing else does.
pub proof fn each_input_file_gives_a_sensor(
    path: Seq<char>,
    chip_name: Seq<char>,
    device_id: Seq<char>,
    files: Seq<SysfsFile>,
    names: Seq<Seq<char>>,
    name: Seq<char>,
)
    requires
        sensors_among(path, chip_name, device_id, files, names) is Ok,
    ensures
        names.contains(name) && text::starts(name, "temp"@) && text::ends(name, "_input"@)
            ==> sensors_among(path, chip_name, device_id, files, names)->Ok_0.contains(
            sensor_of(path, chip_name, device_id, files, name)->Ok_0,
        ),
        forall|i: int|
            0 <= i < sensors_among(path, chip_name, device_id, files, names)->Ok_0.len() ==> exists|
                k: int,
            |
                0 <= k < names.len() && is_sensor_of(
                    #[trigger] sensors_among(path, chip_name, device_id, files, names)->Ok_0[i],
                    path,
                    #[trigger] names[k],
                ),
        sensors_among(path, chip_name, device_id, files, names)->Ok_0.len() <= names.len(),
    decreases names.len(),
{
    if names.len() > 0 {
        let front = names.drop_last();
        each_input_file_gives_a_sensor(path, chip_name, device_id, files, front, name);
        let before = sensors_among(path, chip_name, device_id, files, front)->Ok_0;
        let all = sensors_among(path, chip_name, device_id, files, names)->Ok_0;
        let s = sensor_of(path, chip_name, device_id, files, name)->Ok_0;
        if names.contains(name) && is_temp_input(name) {
            if names.last() == name {
                assert(all[before.len() as int] == s);
            } else {
                let k = choose|k: int| 0 <= k < names.len() && names[k] == name;
                assert(front[k] == name);
                let j = choose|j: int| 0 <= j < before.len() && before[j] == s;
                assert(all[j] == s);
            }
        }
        assert forall|i: int| 0 <= i < all.len() implies exists|k: int|
            0 <= k < names.len() && is_sensor_of(#[trigger] all[i], path, #[trigger] names[k]) by {
            if i < before.len() {
                assert(all[i] == before[i]);
                let k = choose|k: int|
                    0 <= k < front.len() && is_sensor_of(before[i], path, #[trigger] front[k]);
                assert(names[k] == front[k]);
            } else {
                assert(is_sensor_of(all[i], path, names[names.len() - 1]));
            }
        }
    }
}

/// Whether a sensor is the one of an input file.
pub open spec fn is_sensor_of(s: SensorView, path: Seq<char>, name: Seq<char>) -> bool {
    is_temp_input(name) && s.input_path == text::joined(path, name)
}

/// Only directories whose name begins with `hwmon` are looked at.
pub proof fn only_hwmon_directories_count(devices: Seq<HwmonDevice>)
    requires
        forall|i: int|
            0 <= i < devices.len() ==> !text::starts((#[trigger] devices[i]).name@, "hwmon"@),
    ensures
        found_among(devices).descriptors.len() == 0,
        found_among(devices).unreadable_dirs.len() == 0,
    decreases devices.len(),
{
    if devices.len() > 0 {
        let front = devices.drop_last();
        assert forall|i: int| 0 <= i < front.len() implies !text::starts(
            (#[trigger] front[i]).name@,
            "hwmon"@,
        ) by {
            assert(front[i] == devices[i]);
        }
        only_hwmon_directories_count(front);
        assert(!text::starts(devices[devices.len() - 1].name@, "hwmon"@));
    }
}

/// A device whose chip name or whose files could not be read is a failure that says which
/// of them and why.
pub proof fn an_unreadable_device_is_a_failure(dev: HwmonDevice)
    ensures
        dev.chip matches Err(e) ==> device_sensors(dev) == Err::<Seq<SensorView>, Failure>(
            (text::joined(dev.path@, "name"@), e@),
        ),
        dev.chip is Ok && dev.files is Err ==> device_sensors(dev) == Err::<
            Seq<SensorView>,
            Failure,
        >((dev.path@, dev.files->Err_0@)),
{
}

/// Each threshold comes from the file of its own name and from no other.
pub proof fn each_threshold_has_its_own_file(
    files: Seq<SysfsFile>,
    index: Seq<char>,
    chip_name: Seq<char>,
)
    ensures
        ({
            let t = attributes_of(files, index, chip_name);
            let at = |attr: Seq<char>| util::file_text(files, "temp"@ + index + "_"@ + attr);
            &&& t.max_mc is Some ==> at("max"@) is Some && stated_threshold(
                at("max"@)->0,
                "max"@,
                chip_name,
            ) == t.max_mc
            &&& t.min_mc is Some ==> at("min"@) is Some && stated_threshold(
                at("min"@)->0,
                "min"@,
                chip_name,
            ) == t.min_mc
            &&& t.crit_mc is Some ==> at("crit"@) is Some && stated_threshold(
                at("crit"@)->0,
                "crit"@,
                chip_name,
            ) == t.crit_mc
            &&& t.crit_hyst_mc is Some ==> at("crit_hyst"@) is Some && stated_threshold(
                at("crit_hyst"@)->0,
                "crit_hyst"@,
                chip_name,
            ) == t.crit_hyst_mc
            &&& t.emergency_mc is Some ==> at("emergency"@) is Some && stated_threshold(
                at("emergency"@)->0,
                "emergency"@,
                chip_name,
            ) == t.emergency_mc
            &&& t.emergency_hyst_mc is Some ==> at("emergency_hyst"@) is Some && stated_threshold(
                at("emergency_hyst"@)->0,
                "emergency_hyst"@,
                chip_name,
            ) == t.emergency_hyst_mc
            &&& t.lcrit_mc is Some ==> at("lcrit"@) is Some && stated_threshold(
                at("lcrit"@)->0,
                "lcrit"@,
                chip_name,
            ) == t.lcrit_mc
            &&& t.offset_mc is Some ==> at("offset"@) is Some && stated_threshold(
                at("offset"@)->0,
                "offset"@,
                chip_name,
            ) == t.offset_mc
        }),
{
}

/// Where a file states a threshold that is believed, the threshold is there; an alarm is
/// there where its file says `0` or `1`.
pub proof fn what_the_files_state_is_there(
    files: Seq<SysfsFile>,
    index: Seq<char>,
    chip_name: Seq<char>,
    n: i32,
)
    requires
        -50_000 <= n <= 200_000,
        n != 0,
    ensures
        ({
            let t = attributes_of(files, index, chip_name);
            let at = |attr: Seq<char>| util::file_text(files, "temp"@ + index + "_"@ + attr);
            let said = Some(text::signed_decimal(n as int));
            &&& at("max"@) == said ==> t.max_mc == Some(n)
            &&& at("min"@) == said ==> t.min_mc == Some(n)
            &&& at("crit"@) == said ==> t.crit_mc == Some(n)
            &&& at("crit_hyst"@) == said ==> t.crit_hyst_mc == Some(n)
            &&& at("emergency"@) == said ==> t.emergency_mc == Some(n)
            &&& at("emergency_hyst"@) == said ==> t.emergency_hyst_mc == Some(n)
            &&& at("lcrit"@) == said ==> t.lcrit_mc == Some(n)
            &&& at("offset"@) == said ==> t.offset_mc == Some(n)
            &&& at("crit"@) == said ==> thresholds_of(files, index, chip_name) == Some(t)
            &&& at("alarm"@) == Some("1"@) ==> t.alarm == Some(true)
            &&& at("max_alarm"@) == Some("1"@) ==> t.max_alarm == Some(true)
            &&& at("crit_alarm"@) == Some("1"@) ==> t.crit_alarm == Some(true)
            &&& at("fault"@) == Some("1"@) ==> t.fault == Some(true)
            &&& at("alarm"@) == Some("0"@) ==> t.alarm == Some(false)
            &&& at("max_alarm"@) == Some("0"@) ==> t.max_alarm == Some(false)
            &&& at("crit_alarm"@) == Some("0"@) ==> t.crit_alarm == Some(false)
            &&& at("fault"@) == Some("0"@) ==> t.fault == Some(false)
        }),
{
    a_plausible_threshold_is_believed(n as i64, "max"@, chip_name);
    a_plausible_threshold_is_believed(n as i64, "min"@, chip_name);
    a_plausible_threshold_is_believed(n as i64, "crit"@, chip_name);
    a_plausible_threshold_is_believed(n as i64, "crit_hyst"@, chip_name);
    a_plausible_threshold_is_believed(n as i64, "emergency"@, chip_name);
    a_plausible_threshold_is_believed(n as i64, "emergency_hyst"@, chip_name);
    a_plausible_threshold_is_believed(n as i64, "lcrit"@, chip_name);
    a_plausible_threshold_is_believed(n as i64, "offset"@, chip_name);
    reveal_strlit("0");
    reveal_strlit("1");
    text::trimming_leaves_a_word("0"@);
    text::trimming_leaves_a_word("1"@);
    assert("0"@[0] != "1"@[0]);
}

/// What was found is told as it was found: as many sensors, or a failed read of the same
/// file for the same reason, and never one for the other.
pub proof fn what_was_found_is_told(
    r: Result<Vec<SensorDescriptor>, HwmonError>,
    told: Result<Seq<SensorView>, Failure>,
    i: int,
)
    requires
        tells(r, told),
    ensures
        r is Ok <==> told is Ok,
        (r, told) matches (Ok(v), Ok(views)) ==> v@.len() == views.len() && (0 <= i < views.len()
            ==> v@[i]@ == views[i]),
        (r, told) matches (Err(e), Err((path, reason))) ==> e is ReadError && e.path_text() == path
            && e.message_text() == reason,
{
}

} // verus!

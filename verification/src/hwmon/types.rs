//! What a temperature sensor is.

use vstd::prelude::*;

verus! {

/// What a temperature sensor measures, coarsely.
#[derive(Debug, Clone, Copy, PartialEq, Eq, Hash, Structural)]
pub enum SensorKind {
    CpuTemp,
    GpuTemp,
    MbTemp,
    DiskTemp,
    CoolantTemp,
}

impl SensorKind {
    /// The word for the kind.
    pub open spec fn word(self) -> Seq<char> {
        match self {
            SensorKind::CpuTemp => "cpu_temp"@,
            SensorKind::GpuTemp => "gpu_temp"@,
            SensorKind::MbTemp => "mb_temp"@,
            SensorKind::DiskTemp => "disk_temp"@,
            SensorKind::CoolantTemp => "coolant_temp"@,
        }
    }

    /// The word for the kind.
    pub fn as_str(self) -> (r: &'static str)
        ensures
            r@ == self.word(),
    {
        match self {
            SensorKind::CpuTemp => "cpu_temp",
            SensorKind::GpuTemp => "gpu_temp",
            SensorKind::MbTemp => "mb_temp",
            SensorKind::DiskTemp => "disk_temp",
            SensorKind::CoolantTemp => "coolant_temp",
        }
    }
}

/// Which kind of device a sensor belongs to.
#[derive(Debug, Clone, Copy, PartialEq, Eq, Hash, Structural)]
pub enum SensorSource {
    Hwmon,
    AmdGpu,
    IntelGpu,
    NvidiaGpu,
}

/// The threshold attributes of a sensor. Temperatures are in thousandths of a
/// degree Celsius, as the kernel gives them.
#[derive(Debug, Clone, Copy, PartialEq, Eq, Structural)]
pub struct SensorThresholds {
    pub max_mc: Option<i32>,
    pub min_mc: Option<i32>,
    pub crit_mc: Option<i32>,
    pub crit_hyst_mc: Option<i32>,
    pub emergency_mc: Option<i32>,
    pub emergency_hyst_mc: Option<i32>,
    pub lcrit_mc: Option<i32>,
    pub offset_mc: Option<i32>,
    pub alarm: Option<bool>,
    pub max_alarm: Option<bool>,
    pub crit_alarm: Option<bool>,
    pub fault: Option<bool>,
}

impl SensorThresholds {
    /// Whether no attribute is there.
    pub open spec fn spec_is_empty(&self) -> bool {
        &&& self.max_mc is None
        &&& self.min_mc is None
        &&& self.crit_mc is None
        &&& self.crit_hyst_mc is None
        &&& self.emergency_mc is None
        &&& self.emergency_hyst_mc is None
        &&& self.lcrit_mc is None
        &&& self.offset_mc is None
        &&& self.alarm is None
        &&& self.max_alarm is None
        &&& self.crit_alarm is None
        &&& self.fault is None
    }

    /// Whether no attribute is there.
    pub fn is_empty(&self) -> (r: bool)
        ensures
            r == self.spec_is_empty(),
    {
        self.max_mc.is_none() && self.min_mc.is_none() && self.crit_mc.is_none()
            && self.crit_hyst_mc.is_none() && self.emergency_mc.is_none()
            && self.emergency_hyst_mc.is_none() && self.lcrit_mc.is_none()
            && self.offset_mc.is_none() && self.alarm.is_none() && self.max_alarm.is_none()
            && self.crit_alarm.is_none() && self.fault.is_none()
    }
}

/// A temperature sensor that was found.
#[derive(Debug)]
pub struct SensorDescriptor {
    /// Stable id.
    pub id: String,
    /// What it measures.
    pub kind: SensorKind,
    /// Its label.
    pub label: String,
    /// Which kind of device it belongs to.
    pub source: SensorSource,
    /// The path of its `tempN_input` file.
    pub input_path: String,
    /// The name of its chip.
    pub chip_name: String,
    /// The value of `tempN_type`.
    pub temp_type: Option<u8>,
    /// Its threshold attributes.
    pub thresholds: Option<SensorThresholds>,
}

/// What a sensor descriptor says.
#[verifier::ext_equal]
pub struct SensorView {
    pub id: Seq<char>,
    pub kind: SensorKind,
    pub label: Seq<char>,
    pub source: SensorSource,
    pub input_path: Seq<char>,
    pub chip_name: Seq<char>,
    pub temp_type: Option<u8>,
    pub thresholds: Option<SensorThresholds>,
}

impl View for SensorDescriptor {
    type V = SensorView;

    open spec fn view(&self) -> SensorView {
        SensorView {
            id: self.id@,
            kind: self.kind,
            label: self.label@,
            source: self.source,
            input_path: self.input_path@,
            chip_name: self.chip_name@,
            temp_type: self.temp_type,
            thresholds: self.thresholds,
        }
    }
}

impl Clone for SensorDescriptor {
    fn clone(&self) -> (r: Self)
        ensures
            r == *self,
    {
        SensorDescriptor {
            id: self.id.clone(),
            kind: self.kind,
            label: self.label.clone(),
            source: self.source,
            input_path: self.input_path.clone(),
            chip_name: self.chip_name.clone(),
            temp_type: self.temp_type,
            thresholds: self.thresholds,
        }
    }
}

/// A temperature that was read, in thousandths of a degree Celsius.
#[derive(Debug)]
pub struct SensorReading {
    pub id: String,
    pub kind: SensorKind,
    pub label: String,
    pub value_mc: i32,
    pub source: SensorSource,
}

/// Thresholds are empty only where nothing is known: one attribute of whatever kind is
/// enough.
pub proof fn one_attribute_is_enough(t: SensorThresholds)
    ensures
        t.spec_is_empty() <==> t == (SensorThresholds {
            max_mc: None,
            min_mc: None,
            crit_mc: None,
            crit_hyst_mc: None,
            emergency_mc: None,
            emergency_hyst_mc: None,
            lcrit_mc: None,
            offset_mc: None,
            alarm: None,
            max_alarm: None,
            crit_alarm: None,
            fault: None,
        }),
{
}

/// The word for a kind tells the kind: what it measures, and that it is a temperature.
pub proof fn the_word_tells_the_kind(a: SensorKind, b: SensorKind)
    ensures
        a.word() == b.word() ==> a == b,
        a.word() == "cpu_temp"@ <==> a == SensorKind::CpuTemp,
        a.word() == "gpu_temp"@ <==> a == SensorKind::GpuTemp,
        a.word() == "mb_temp"@ <==> a == SensorKind::MbTemp,
        a.word() == "disk_temp"@ <==> a == SensorKind::DiskTemp,
        a.word() == "coolant_temp"@ <==> a == SensorKind::CoolantTemp,
{
    reveal_strlit("cpu_temp");
    reveal_strlit("gpu_temp");
    reveal_strlit("mb_temp");
    reveal_strlit("disk_temp");
    reveal_strlit("coolant_temp");
    assert("cpu_temp"@.len() == 8 && "cpu_temp"@[0] == 'c');
    assert("gpu_temp"@.len() == 8 && "gpu_temp"@[0] == 'g');
    assert("mb_temp"@.len() == 7);
    assert("disk_temp"@.len() == 9);
    assert("coolant_temp"@.len() == 12);
}

} // verus!

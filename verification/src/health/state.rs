//! The state that every answer and every safety rule draws from.
//!
//! `F` is how the caller writes down a measure that is only passed on: a percentage,
//! a trip point. Nothing here computes with it.

use crate::clock::Instant;
use crate::collections::{StringMap, StringSet};
use crate::hwmon::types::{SensorKind, SensorThresholds};
use crate::text;
use std::collections::HashMap;
use vstd::prelude::*;
use vstd::std_specs::hash::*;

verus! {

/// Where a reading comes from.
#[derive(Debug, Clone, Copy, PartialEq, Eq, Hash, Structural)]
pub enum DeviceLabel {
    /// A fan controller on a USB serial line.
    OpenFan,
    /// A kernel hwmon device of the motherboard.
    Hwmon,
    /// An AMD graphics card.
    AmdGpu,
    /// An Intel graphics card, read only.
    IntelGpu,
    /// An NVIDIA graphics card, read only.
    NvidiaGpu,
    /// A liquid cooler that hwmon shows.
    AioHwmon,
    /// A liquid cooler on USB.
    AioUsb,
}

impl DeviceLabel {
    /// The name under which the label is published.
    pub open spec fn name(self) -> Seq<char> {
        match self {
            DeviceLabel::OpenFan => "openfan"@,
            DeviceLabel::Hwmon => "hwmon"@,
            DeviceLabel::AmdGpu => "amd_gpu"@,
            DeviceLabel::IntelGpu => "intel_gpu"@,
            DeviceLabel::NvidiaGpu => "nvidia_gpu"@,
            DeviceLabel::AioHwmon => "aio_hwmon"@,
            DeviceLabel::AioUsb => "aio_usb"@,
        }
    }

    /// The name under which the label is published.
    pub fn as_str(self) -> (r: &'static str)
        ensures
            r@ == self.name(),
    {
        match self {
            DeviceLabel::OpenFan => "openfan",
            DeviceLabel::Hwmon => "hwmon",
            DeviceLabel::AmdGpu => "amd_gpu",
            DeviceLabel::IntelGpu => "intel_gpu",
            DeviceLabel::NvidiaGpu => "nvidia_gpu",
            DeviceLabel::AioHwmon => "aio_hwmon",
            DeviceLabel::AioUsb => "aio_usb",
        }
    }
}

/// The state of one channel of the fan controller.
#[derive(Debug, Clone, Copy, PartialEq, Eq, Structural)]
pub struct OpenFanState {
    /// Channel index.
    pub channel: u8,
    /// The last speed that was read.
    pub rpm: u16,
    /// The last raw PWM value that was commanded; the firmware does not report it.
    pub last_commanded_pwm: Option<u8>,
    /// When the speed was last read. A command never changes it.
    pub updated_at: Instant,
    /// Whether the speed was ever read: a command alone makes an entry too.
    pub rpm_polled: bool,
}

/// The state of a motherboard fan header.
#[derive(Debug)]
pub struct HwmonFanState {
    /// Stable fan id.
    pub id: String,
    /// The speed, where there is a reading.
    pub rpm: Option<u16>,
    /// The last duty in percent that was commanded, or read back by the poll.
    pub last_commanded_pwm: Option<u8>,
    /// The duty in percent that the header reports. Only the poll knows it; `None`
    /// means not known, never zero.
    pub pwm_readback_pct: Option<u8>,
    /// The value of `pwmN_enable`. Only the poll knows it.
    pub pwm_enable_mode: Option<u8>,
    /// The alarm bit of the fan, where the driver has one. Only the poll knows it;
    /// `None` means not known, never no alarm.
    pub alarm: Option<bool>,
    /// When this was last refreshed.
    pub updated_at: Instant,
}

impl Clone for HwmonFanState {
    fn clone(&self) -> (r: Self)
        ensures
            r == *self,
    {
        HwmonFanState {
            id: self.id.clone(),
            rpm: self.rpm,
            last_commanded_pwm: self.last_commanded_pwm,
            pwm_readback_pct: self.pwm_readback_pct,
            pwm_enable_mode: self.pwm_enable_mode,
            alarm: self.alarm,
            updated_at: self.updated_at,
        }
    }
}

/// A temperature reading. Temperatures are in thousandths of a degree Celsius.
#[derive(Debug)]
pub struct CachedSensorReading<F> {
    /// Stable sensor id.
    pub id: String,
    /// What the sensor measures.
    pub kind: SensorKind,
    /// The label of the sensor.
    pub label: String,
    /// The temperature.
    pub value_mc: i32,
    /// Where the reading comes from.
    pub source: DeviceLabel,
    /// When the reading was taken.
    pub updated_at: Instant,
    /// How fast the temperature changes, smoothed, in degrees Celsius per second.
    pub rate_c_per_s: Option<F>,
    /// The lowest temperature of the session.
    pub session_min_mc: Option<i32>,
    /// The highest temperature of the session.
    pub session_max_mc: Option<i32>,
    /// The name of the hwmon chip.
    pub chip_name: String,
    /// The value of `tempN_type`: 3 diode, 4 thermistor, 5 AMD TSI, 6 Intel PECI.
    pub temp_type: Option<u8>,
    /// The threshold attributes as they were at discovery.
    pub thresholds: Option<SensorThresholds>,
}

impl<F: Copy> Clone for CachedSensorReading<F> {
    fn clone(&self) -> (r: Self)
        ensures
            r == *self,
    {
        CachedSensorReading {
            id: self.id.clone(),
            kind: self.kind,
            label: self.label.clone(),
            value_mc: self.value_mc,
            source: self.source,
            updated_at: self.updated_at,
            rate_c_per_s: self.rate_c_per_s,
            session_min_mc: self.session_min_mc,
            session_max_mc: self.session_max_mc,
            chip_name: self.chip_name.clone(),
            temp_type: self.temp_type,
            thresholds: self.thresholds,
        }
    }
}

/// The state of the fan of a graphics card.
#[derive(Debug)]
pub struct AmdGpuFanState {
    /// Stable fan id: vendor and PCI address.
    pub id: String,
    /// The speed, where there is a reading.
    pub rpm: Option<u16>,
    /// The last speed in percent that was commanded; never there for a card that can
    /// only be read.
    pub last_commanded_pct: Option<u8>,
    /// The duty in percent that the firmware reports, which is no command and may
    /// exceed 100.
    pub duty_pct: Option<u8>,
    /// When the fan was last read. A command never changes it.
    pub updated_at: Instant,
}

impl Clone for AmdGpuFanState {
    fn clone(&self) -> (r: Self)
        ensures
            r == *self,
    {
        AmdGpuFanState {
            id: self.id.clone(),
            rpm: self.rpm,
            last_commanded_pct: self.last_commanded_pct,
            duty_pct: self.duty_pct,
            updated_at: self.updated_at,
        }
    }
}

/// A sensor that is there but cannot be read.
#[derive(Debug)]
pub struct UnavailableSensor {
    /// Stable sensor id.
    pub id: String,
    /// The label of the sensor.
    pub label: String,
    /// Why it cannot be read.
    pub reason: String,
    /// Since when it counts as unreadable.
    pub since: Instant,
}

impl Clone for UnavailableSensor {
    fn clone(&self) -> (r: Self)
        ensures
            r == *self,
    {
        UnavailableSensor {
            id: self.id.clone(),
            label: self.label.clone(),
            reason: self.reason.clone(),
            since: self.since,
        }
    }
}

/// Why a control could not be resolved.
#[derive(Debug, Clone, Copy, PartialEq, Eq, Structural)]
pub enum SkipReason {
    /// The active profile does not have the control's curve.
    CurveNotFound,
    /// The curve's sensor is not there or too old.
    SensorUnavailable,
    /// A mix of which no input could be resolved.
    MixUnresolvable,
    /// The control that this one mirrors was not computed.
    SyncUnresolvable,
}

impl SkipReason {
    /// The token under which the reason is published.
    pub open spec fn token(self) -> Seq<char> {
        match self {
            SkipReason::CurveNotFound => "curve_not_found"@,
            SkipReason::SensorUnavailable => "sensor_unavailable"@,
            SkipReason::MixUnresolvable => "mix_unresolvable"@,
            SkipReason::SyncUnresolvable => "sync_unresolvable"@,
        }
    }

    /// The sentence that tells an operator of the reason.
    pub open spec fn sentence(self) -> Seq<char> {
        match self {
            SkipReason::CurveNotFound => "its curve is not in the active profile"@,
            SkipReason::SensorUnavailable => "its sensor is not available"@,
            SkipReason::MixUnresolvable => "none of its combined inputs could be resolved"@,
            SkipReason::SyncUnresolvable => "the control it mirrors was not computed"@,
        }
    }

    /// The stable token under which the reason is published.
    pub fn as_token(self) -> (r: &'static str)
        ensures
            r@ == self.token(),
    {
        match self {
            SkipReason::CurveNotFound => "curve_not_found",
            SkipReason::SensorUnavailable => "sensor_unavailable",
            SkipReason::MixUnresolvable => "mix_unresolvable",
            SkipReason::SyncUnresolvable => "sync_unresolvable",
        }
    }

    /// The sentence that tells an operator of the reason.
    pub fn describe(self) -> (r: &'static str)
        ensures
            r@ == self.sentence(),
    {
        match self {
            SkipReason::CurveNotFound => "its curve is not in the active profile",
            SkipReason::SensorUnavailable => "its sensor is not available",
            SkipReason::MixUnresolvable => "none of its combined inputs could be resolved",
            SkipReason::SyncUnresolvable => "the control it mirrors was not computed",
        }
    }
}

/// A control that is being skipped.
#[derive(Debug, PartialEq, Eq)]
pub struct SkippedControl {
    pub control_id: String,
    pub control_name: String,
    pub reason: SkipReason,
    /// When the control was first listed.
    pub since: Instant,
}

impl Clone for SkippedControl {
    fn clone(&self) -> (r: Self)
        ensures
            r == *self,
    {
        SkippedControl {
            control_id: self.control_id.clone(),
            control_name: self.control_name.clone(),
            reason: self.reason,
            since: self.since,
        }
    }
}

/// The output that a control applied.
#[derive(Debug, PartialEq)]
pub struct ControlOutput<F> {
    pub control_id: String,
    /// The output in percent.
    pub output_pct: F,
}

impl<F: Copy> Clone for ControlOutput<F> {
    fn clone(&self) -> (r: Self)
        ensures
            r == *self,
    {
        ControlOutput { control_id: self.control_id.clone(), output_pct: self.output_pct }
    }
}

/// The state of a liquid cooler's pump.
#[derive(Debug, Clone, Copy, PartialEq)]
pub struct AioPumpState<F> {
    /// Whether there is such a device.
    pub detected: bool,
    pub pump_rpm: Option<u16>,
    pub coolant_temp_c: Option<F>,
    pub pump_duty_pct: Option<F>,
    pub last_commanded_pct: Option<F>,
    /// When this was last updated.
    pub updated_at: Option<Instant>,
}

impl<F> Default for AioPumpState<F> {
    fn default() -> (r: Self)
        ensures
            !r.detected,
            r.pump_rpm is None,
            r.coolant_temp_c is None,
            r.pump_duty_pct is None,
            r.last_commanded_pct is None,
            r.updated_at is None,
    {
        AioPumpState {
            detected: false,
            pump_rpm: None,
            coolant_temp_c: None,
            pump_duty_pct: None,
            last_commanded_pct: None,
            updated_at: None,
        }
    }
}

/// When each part of the daemon last did its work.
#[derive(Debug, Clone, Copy, PartialEq, Eq, Structural)]
pub struct SubsystemTimestamps {
    /// When the fan controller was last polled.
    pub openfan: Option<Instant>,
    /// When the hwmon sensors were last polled.
    pub hwmon: Option<Instant>,
    /// When the liquid cooler was last updated.
    pub aio: Option<Instant>,
    /// Since when a write has not returned. The engine ticks on meanwhile, so the two
    /// stamps below would not show it.
    pub engine_writes_stalled_since: Option<Instant>,
    /// When the engine last began a tick.
    pub engine_started: Option<Instant>,
    /// When the engine last finished a tick.
    pub engine_completed: Option<Instant>,
}

impl Default for SubsystemTimestamps {
    fn default() -> (r: Self)
        ensures
            r.openfan is None,
            r.hwmon is None,
            r.aio is None,
            r.engine_writes_stalled_since is None,
            r.engine_started is None,
            r.engine_completed is None,
    {
        SubsystemTimestamps {
            openfan: None,
            hwmon: None,
            aio: None,
            engine_writes_stalled_since: None,
            engine_started: None,
            engine_completed: None,
        }
    }
}

/// All that the daemon knows.
pub struct DaemonState<F> {
    /// When the state last changed.
    pub snapshot_at: Instant,
    /// The channels of the fan controller, by channel index.
    pub openfan_fans: HashMap<u8, OpenFanState>,
    /// The motherboard fan headers, by stable id.
    pub hwmon_fans: StringMap<HwmonFanState>,
    /// The fans of graphics cards, by stable id.
    pub gpu_fans: StringMap<AmdGpuFanState>,
    /// The temperature readings, by stable id.
    pub sensors: StringMap<CachedSensorReading<F>>,
    /// The liquid cooler's pump.
    pub aio: AioPumpState<F>,
    /// When each part last did its work.
    pub subsystem_timestamps: SubsystemTimestamps,
    /// The state of the thermal safety rule.
    pub thermal_override_state: Option<String>,
    /// The trip point that the thermal safety rule acted on.
    pub thermal_emergency_trigger_c: Option<F>,
    /// Whether the slot for a hardware check is claimed.
    pub verify_in_progress: bool,
    /// The number of the latest claim to that slot.
    pub verify_epoch: u64,
    /// Until when that claim holds.
    pub verify_active_until: Option<Instant>,
    /// The graphics card fans that were given back to the firmware.
    pub relinquished_gpu_fans: StringSet,
    /// The sensors that are there but cannot be read.
    pub unavailable_sensors: Vec<UnavailableSensor>,
    /// The controls that the engine cannot resolve.
    pub skipped_controls: Vec<SkippedControl>,
    /// The output that each evaluated control applied.
    pub control_outputs: Vec<ControlOutput<F>>,
}

/// What a `DaemonState` says.
#[verifier::ext_equal]
pub struct DaemonView<F> {
    pub snapshot_at: Instant,
    pub openfan_fans: Map<u8, OpenFanState>,
    pub hwmon_fans: Map<Seq<char>, HwmonFanState>,
    pub gpu_fans: Map<Seq<char>, AmdGpuFanState>,
    pub sensors: Map<Seq<char>, CachedSensorReading<F>>,
    pub aio: AioPumpState<F>,
    pub subsystem_timestamps: SubsystemTimestamps,
    pub thermal_override_state: Option<Seq<char>>,
    pub thermal_emergency_trigger_c: Option<F>,
    pub verify_in_progress: bool,
    pub verify_epoch: u64,
    pub verify_active_until: Option<Instant>,
    pub relinquished_gpu_fans: Set<Seq<char>>,
    pub unavailable_sensors: Seq<UnavailableSensor>,
    pub skipped_controls: Seq<SkippedControl>,
    pub control_outputs: Seq<ControlOutput<F>>,
}

impl<F> View for DaemonState<F> {
    type V = DaemonView<F>;

    open spec fn view(&self) -> DaemonView<F> {
        DaemonView {
            snapshot_at: self.snapshot_at,
            openfan_fans: self.openfan_fans@,
            hwmon_fans: self.hwmon_fans@,
            gpu_fans: self.gpu_fans@,
            sensors: self.sensors@,
            aio: self.aio,
            subsystem_timestamps: self.subsystem_timestamps,
            thermal_override_state: text::opt_text(self.thermal_override_state),
            thermal_emergency_trigger_c: self.thermal_emergency_trigger_c,
            verify_in_progress: self.verify_in_progress,
            verify_epoch: self.verify_epoch,
            verify_active_until: self.verify_active_until,
            relinquished_gpu_fans: self.relinquished_gpu_fans@,
            unavailable_sensors: self.unavailable_sensors@,
            skipped_controls: self.skipped_controls@,
            control_outputs: self.control_outputs@,
        }
    }
}

/// The state before anything was read.
pub open spec fn blank_state<F>(now: Instant) -> DaemonView<F> {
    DaemonView {
        snapshot_at: now,
        openfan_fans: Map::empty(),
        hwmon_fans: Map::empty(),
        gpu_fans: Map::empty(),
        sensors: Map::empty(),
        aio: AioPumpState {
            detected: false,
            pump_rpm: None,
            coolant_temp_c: None,
            pump_duty_pct: None,
            last_commanded_pct: None,
            updated_at: None,
        },
        subsystem_timestamps: SubsystemTimestamps {
            openfan: None,
            hwmon: None,
            aio: None,
            engine_writes_stalled_since: None,
            engine_started: None,
            engine_completed: None,
        },
        thermal_override_state: None,
        thermal_emergency_trigger_c: None,
        verify_in_progress: false,
        verify_epoch: 0,
        verify_active_until: None,
        relinquished_gpu_fans: Set::empty(),
        unavailable_sensors: Seq::empty(),
        skipped_controls: Seq::empty(),
        control_outputs: Seq::empty(),
    }
}

impl<F> DaemonState<F> {
    /// The state before anything was read, at `now`.
    pub fn new(now: Instant) -> (r: Self)
        ensures
            r@ == blank_state::<F>(now),
    {
        let r: Self = DaemonState {
            snapshot_at: now,
            openfan_fans: HashMap::new(),
            hwmon_fans: StringMap::new(),
            gpu_fans: StringMap::new(),
            sensors: StringMap::new(),
            aio: AioPumpState::default(),
            subsystem_timestamps: SubsystemTimestamps::default(),
            thermal_override_state: None,
            thermal_emergency_trigger_c: None,
            verify_in_progress: false,
            verify_epoch: 0,
            verify_active_until: None,
            relinquished_gpu_fans: StringSet::new(),
            unavailable_sensors: Vec::new(),
            skipped_controls: Vec::new(),
            control_outputs: Vec::new(),
        };
        assert(r@ =~= blank_state::<F>(now));
        r
    }
}

impl<F: Copy> Clone for DaemonState<F> {
    fn clone(&self) -> (r: Self)
        ensures
            r@ == self@,
    {
        broadcast use group_hash_axioms;

        let r: Self = DaemonState {
            snapshot_at: self.snapshot_at,
            openfan_fans: self.openfan_fans.clone(),
            hwmon_fans: self.hwmon_fans.clone(),
            gpu_fans: self.gpu_fans.clone(),
            sensors: self.sensors.clone(),
            aio: self.aio,
            subsystem_timestamps: self.subsystem_timestamps,
            thermal_override_state: self.thermal_override_state.clone(),
            thermal_emergency_trigger_c: self.thermal_emergency_trigger_c,
            verify_in_progress: self.verify_in_progress,
            verify_epoch: self.verify_epoch,
            verify_active_until: self.verify_active_until,
            relinquished_gpu_fans: self.relinquished_gpu_fans.clone(),
            unavailable_sensors: self.unavailable_sensors.clone(),
            skipped_controls: self.skipped_controls.clone(),
            control_outputs: self.control_outputs.clone(),
        };
        proof {
            assert(r.openfan_fans@ =~= self.openfan_fans@);
            assert(r.hwmon_fans@ =~= self.hwmon_fans@);
            assert(r.gpu_fans@ =~= self.gpu_fans@);
            assert(r.sensors@ =~= self.sensors@);
            assert(r.unavailable_sensors@ =~= self.unavailable_sensors@);
            assert(r.skipped_controls@ =~= self.skipped_controls@);
            assert(r.control_outputs@ =~= self.control_outputs@);
        }
        r
    }
}

/// The name of a label tells where a reading comes from.
pub proof fn the_name_tells_the_source(a: DeviceLabel)
    ensures
        a.name() == "openfan"@ <==> a == DeviceLabel::OpenFan,
        a.name() == "hwmon"@ <==> a == DeviceLabel::Hwmon,
        a.name() == "amd_gpu"@ <==> a == DeviceLabel::AmdGpu,
        a.name() == "intel_gpu"@ <==> a == DeviceLabel::IntelGpu,
        a.name() == "nvidia_gpu"@ <==> a == DeviceLabel::NvidiaGpu,
        a.name() == "aio_hwmon"@ <==> a == DeviceLabel::AioHwmon,
        a.name() == "aio_usb"@ <==> a == DeviceLabel::AioUsb,
{
    reveal_strlit("openfan");
    reveal_strlit("hwmon");
    reveal_strlit("amd_gpu");
    reveal_strlit("intel_gpu");
    reveal_strlit("nvidia_gpu");
    reveal_strlit("aio_hwmon");
    reveal_strlit("aio_usb");
    assert("openfan"@.len() == 7 && "openfan"@[0] == 'o');
    assert("hwmon"@.len() == 5);
    assert("amd_gpu"@.len() == 7 && "amd_gpu"@[0] == 'a' && "amd_gpu"@[1] == 'm');
    assert("intel_gpu"@.len() == 9 && "intel_gpu"@[0] == 'i');
    assert("nvidia_gpu"@.len() == 10);
    assert("aio_hwmon"@.len() == 9 && "aio_hwmon"@[0] == 'a');
    assert("aio_usb"@.len() == 7 && "aio_usb"@[0] == 'a' && "aio_usb"@[1] == 'i');
}

/// No two labels share a name.
pub proof fn labels_are_told_apart(a: DeviceLabel, b: DeviceLabel)
    requires
        a.name() == b.name(),
    ensures
        a == b,
{
    the_name_tells_the_source(a);
    the_name_tells_the_source(b);
}

/// The token of a reason tells the reason.
pub proof fn the_token_tells_the_reason(a: SkipReason)
    ensures
        a.token() == "curve_not_found"@ <==> a == SkipReason::CurveNotFound,
        a.token() == "sensor_unavailable"@ <==> a == SkipReason::SensorUnavailable,
        a.token() == "mix_unresolvable"@ <==> a == SkipReason::MixUnresolvable,
        a.token() == "sync_unresolvable"@ <==> a == SkipReason::SyncUnresolvable,
{
    reveal_strlit("curve_not_found");
    reveal_strlit("sensor_unavailable");
    reveal_strlit("mix_unresolvable");
    reveal_strlit("sync_unresolvable");
    assert("curve_not_found"@.len() == 15);
    assert("sensor_unavailable"@.len() == 18);
    assert("mix_unresolvable"@.len() == 16);
    assert("sync_unresolvable"@.len() == 17);
}

/// The sentence of a reason speaks of what the reason is about, and of nothing that another
/// is about.
pub proof fn the_sentence_tells_the_reason(a: SkipReason)
    ensures
        a.sentence() == "its curve is not in the active profile"@ <==> a
            == SkipReason::CurveNotFound,
        a.sentence() == "its sensor is not available"@ <==> a == SkipReason::SensorUnavailable,
        a.sentence() == "none of its combined inputs could be resolved"@ <==> a
            == SkipReason::MixUnresolvable,
        a.sentence() == "the control it mirrors was not computed"@ <==> a
            == SkipReason::SyncUnresolvable,
{
    reveal_strlit("its curve is not in the active profile");
    reveal_strlit("its sensor is not available");
    reveal_strlit("none of its combined inputs could be resolved");
    reveal_strlit("the control it mirrors was not computed");
    assert("its curve is not in the active profile"@.len() == 38);
    assert("its sensor is not available"@.len() == 27);
    assert("none of its combined inputs could be resolved"@.len() == 45);
    assert("the control it mirrors was not computed"@.len() == 39);
}

/// Before anything was read nothing is known: no fan, no sensor, no stamp, no claim.
pub proof fn nothing_is_known_at_first<F>(now: Instant, id: Seq<char>, channel: u8)
    ensures
        ({
            let s = blank_state::<F>(now);
            &&& s.snapshot_at == now
            &&& !s.openfan_fans.dom().contains(channel)
            &&& !s.hwmon_fans.dom().contains(id)
            &&& !s.gpu_fans.dom().contains(id)
            &&& !s.sensors.dom().contains(id)
            &&& !s.relinquished_gpu_fans.contains(id)
            &&& s.unavailable_sensors.len() == 0
            &&& s.skipped_controls.len() == 0
            &&& s.control_outputs.len() == 0
            &&& !s.aio.detected
            &&& s.aio.pump_rpm is None
            &&& s.aio.coolant_temp_c is None
            &&& s.aio.pump_duty_pct is None
            &&& s.aio.last_commanded_pct is None
            &&& s.aio.updated_at is None
            &&& s.subsystem_timestamps.openfan is None
            &&& s.subsystem_timestamps.hwmon is None
            &&& s.subsystem_timestamps.aio is None
            &&& s.subsystem_timestamps.engine_writes_stalled_since is None
            &&& s.subsystem_timestamps.engine_started is None
            &&& s.subsystem_timestamps.engine_completed is None
            &&& s.thermal_override_state is None
            &&& s.thermal_emergency_trigger_c is None
            &&& !s.verify_in_progress
            &&& s.verify_epoch == 0
            &&& s.verify_active_until is None
        }),
{
}

} // verus!

//! The cache that every answer and every rule reads from.
//!
//! Updates come in batches, each with the time at which it is made. A caller that
//! shares the cache between threads puts it behind a lock.

use crate::clock::{Duration, Instant};
use crate::collections::{StringMap, StringSet};
use crate::health::state;
use crate::health::state::{
    AioPumpState, AmdGpuFanState, CachedSensorReading, ControlOutput, DaemonState, DaemonView,
    HwmonFanState, OpenFanState, SkippedControl, SubsystemTimestamps, UnavailableSensor,
};
use crate::text;
use vstd::prelude::*;
use vstd::std_specs::hash::*;

verus! {

// ---------------------------------------------------------------------------
// How long a CPU temperature stays current
// ---------------------------------------------------------------------------

/// The poll interval that is taken where none was set, and the least that is counted
/// with.
pub const DEFAULT_HWMON_POLL_INTERVAL_MS: u64 = 1000;

/// After how many poll intervals a CPU reading is no longer current.
pub const CPU_TEMP_STALE_INTERVALS: u32 = 5;

/// The longest time that a CPU reading stays current, whatever the poll interval, as
/// long as that is not longer itself.
pub const CPU_TEMP_STALE_CEILING_MS: u64 = 30_000;

/// The slowest poll that can be supervised: beyond it, the ceiling cuts into the five
/// intervals.
pub const MAX_SUPERVISABLE_POLL_INTERVAL_MS: u64 = 6_000;

/// How long a CPU reading stays current at a poll interval, in milliseconds: five
/// intervals, thirty seconds at most, but never less than one interval.
pub open spec fn stale_budget_ms(interval_ms: int) -> int {
    let interval = if interval_ms < DEFAULT_HWMON_POLL_INTERVAL_MS {
        DEFAULT_HWMON_POLL_INTERVAL_MS as int
    } else {
        interval_ms
    };
    let five = interval * CPU_TEMP_STALE_INTERVALS;
    let capped = if five > CPU_TEMP_STALE_CEILING_MS {
        CPU_TEMP_STALE_CEILING_MS as int
    } else {
        five
    };
    if capped < interval {
        interval
    } else {
        capped
    }
}

/// A reading never goes stale before the next poll is due, so a poll that runs always
/// leaves a current reading; and a poll interval that can be supervised gets its five
/// intervals in full.
pub proof fn stale_budget_outlives_a_poll(interval_ms: int)
    requires
        0 <= interval_ms,
    ensures
        stale_budget_ms(interval_ms) >= interval_ms,
        interval_ms <= CPU_TEMP_STALE_CEILING_MS ==> stale_budget_ms(interval_ms)
            <= CPU_TEMP_STALE_CEILING_MS,
        DEFAULT_HWMON_POLL_INTERVAL_MS <= interval_ms <= MAX_SUPERVISABLE_POLL_INTERVAL_MS
            ==> stale_budget_ms(interval_ms) == interval_ms * CPU_TEMP_STALE_INTERVALS,
        MAX_SUPERVISABLE_POLL_INTERVAL_MS * CPU_TEMP_STALE_INTERVALS == CPU_TEMP_STALE_CEILING_MS,
{
}

// ---------------------------------------------------------------------------
// Batches
// ---------------------------------------------------------------------------

/// A channel reading as it is stored: the poll does not know the command, so a command
/// that is known stays.
pub open spec fn merged_openfan(fans: Map<u8, OpenFanState>, fan: OpenFanState) -> OpenFanState {
    if fan.last_commanded_pwm is None && fans.dom().contains(fan.channel) {
        OpenFanState { last_commanded_pwm: fans[fan.channel].last_commanded_pwm, ..fan }
    } else {
        fan
    }
}

/// The channels after a batch of readings.
pub open spec fn with_openfan(fans: Map<u8, OpenFanState>, batch: Seq<OpenFanState>) -> Map<
    u8,
    OpenFanState,
>
    decreases batch.len(),
{
    if batch.len() == 0 {
        fans
    } else {
        let before = with_openfan(fans, batch.drop_last());
        before.insert(batch.last().channel, merged_openfan(before, batch.last()))
    }
}

/// Whether the batch has a reading of the channel.
pub open spec fn covers(batch: Seq<OpenFanState>, channel: u8) -> bool {
    exists|i: int| 0 <= i < batch.len() && (#[trigger] batch[i]).channel == channel
}

/// How many of the channels below `n` were ever read and are not in the batch.
pub open spec fn missed_channels(
    fans: Map<u8, OpenFanState>,
    batch: Seq<OpenFanState>,
    n: int,
) -> nat
    decreases n,
{
    if n <= 0 {
        0
    } else {
        let before = missed_channels(fans, batch, n - 1);
        let ch = (n - 1) as u8;
        if fans.dom().contains(ch) && fans[ch].rpm_polled && !covers(batch, fans[ch].channel) {
            before + 1
        } else {
            before
        }
    }
}

/// A known value where there is one, else the one known before.
pub open spec fn or_known<T>(new: Option<T>, known: Option<T>) -> Option<T> {
    if new is None {
        known
    } else {
        new
    }
}

/// A header's state as it is stored: what only the poll knows stays where the update
/// does not know it.
pub open spec fn merged_hwmon(
    fans: Map<Seq<char>, HwmonFanState>,
    fan: HwmonFanState,
) -> HwmonFanState {
    if fans.dom().contains(fan.id@) {
        let known = fans[fan.id@];
        HwmonFanState {
            alarm: or_known(fan.alarm, known.alarm),
            pwm_enable_mode: or_known(fan.pwm_enable_mode, known.pwm_enable_mode),
            pwm_readback_pct: or_known(fan.pwm_readback_pct, known.pwm_readback_pct),
            ..fan
        }
    } else {
        fan
    }
}

/// The headers after a batch of updates.
pub open spec fn with_hwmon(
    fans: Map<Seq<char>, HwmonFanState>,
    batch: Seq<HwmonFanState>,
) -> Map<Seq<char>, HwmonFanState>
    decreases batch.len(),
{
    if batch.len() == 0 {
        fans
    } else {
        let before = with_hwmon(fans, batch.drop_last());
        before.insert(batch.last().id@, merged_hwmon(before, batch.last()))
    }
}

/// A card's fan as it is stored: the poll does not know the command, so a command that
/// is known stays.
pub open spec fn merged_gpu(
    fans: Map<Seq<char>, AmdGpuFanState>,
    fan: AmdGpuFanState,
) -> AmdGpuFanState {
    if fan.last_commanded_pct is None && fans.dom().contains(fan.id@) {
        AmdGpuFanState { last_commanded_pct: fans[fan.id@].last_commanded_pct, ..fan }
    } else {
        fan
    }
}

/// The cards' fans after a batch of readings.
pub open spec fn with_gpu(fans: Map<Seq<char>, AmdGpuFanState>, batch: Seq<AmdGpuFanState>) -> Map<
    Seq<char>,
    AmdGpuFanState,
>
    decreases batch.len(),
{
    if batch.len() == 0 {
        fans
    } else {
        let before = with_gpu(fans, batch.drop_last());
        before.insert(batch.last().id@, merged_gpu(before, batch.last()))
    }
}

/// The time between two readings up to which no rate is computed.
pub const MIN_RATE_NANOS: u128 = 100_000_000;

/// What the rate of change of a temperature is computed from.
#[derive(Debug, Clone, Copy, PartialEq)]
pub struct RateStep<F> {
    /// The temperature, in thousandths of a degree Celsius.
    pub value_mc: i32,
    /// The temperature before.
    pub previous_mc: i32,
    /// The time since the reading before, more than a tenth of a second.
    pub elapsed: Duration,
    /// The rate before, where there is one.
    pub previous_rate: Option<F>,
}

/// What the rate of a reading is computed from at `now`, if there is a reading before it
/// that is more than a tenth of a second old.
pub open spec fn rate_step<F>(
    sensors: Map<Seq<char>, CachedSensorReading<F>>,
    reading: CachedSensorReading<F>,
    now: Instant,
) -> Option<RateStep<F>> {
    let prev = sensors[reading.id@];
    let nanos = now.nanos_since(prev.updated_at);
    if sensors.dom().contains(reading.id@) && nanos > MIN_RATE_NANOS {
        Some(
            RateStep {
                value_mc: reading.value_mc,
                previous_mc: prev.value_mc,
                elapsed: Duration { nanos: nanos as u128 },
                previous_rate: prev.rate_c_per_s,
            },
        )
    } else {
        None
    }
}

/// Whether `rate` is one that `smooth` gives for `step`; where there is no step, there is
/// no rate.
pub open spec fn rate_follows<F, S: Fn(RateStep<F>) -> F>(
    smooth: S,
    step: Option<RateStep<F>>,
    rate: Option<F>,
) -> bool {
    match (step, rate) {
        (Some(s), Some(r)) => smooth.ensures((s,), r),
        (None, None) => true,
        _ => false,
    }
}

/// The lesser of a known extreme and a value.
pub open spec fn low(known: Option<i32>, value: i32) -> i32 {
    match known {
        Some(k) => if k < value {
            k
        } else {
            value
        },
        None => value,
    }
}

/// The greater of a known extreme and a value.
pub open spec fn high(known: Option<i32>, value: i32) -> i32 {
    match known {
        Some(k) => if k > value {
            k
        } else {
            value
        },
        None => value,
    }
}

/// A reading as it is stored: with the rate of change that was computed for it, if any,
/// and with the extremes of the session.
pub open spec fn merged_sensor<F>(
    sensors: Map<Seq<char>, CachedSensorReading<F>>,
    reading: CachedSensorReading<F>,
    rate: Option<F>,
) -> CachedSensorReading<F> {
    let known = sensors.dom().contains(reading.id@);
    let prev = sensors[reading.id@];
    CachedSensorReading {
        rate_c_per_s: if rate is Some {
            rate
        } else {
            reading.rate_c_per_s
        },
        session_min_mc: Some(
            if known {
                low(prev.session_min_mc, reading.value_mc)
            } else {
                reading.value_mc
            },
        ),
        session_max_mc: Some(
            if known {
                high(prev.session_max_mc, reading.value_mc)
            } else {
                reading.value_mc
            },
        ),
        ..reading
    }
}

/// The readings after a batch of readings, with the rates that were computed for them.
pub open spec fn with_sensors<F>(
    sensors: Map<Seq<char>, CachedSensorReading<F>>,
    batch: Seq<CachedSensorReading<F>>,
    rates: Seq<Option<F>>,
) -> Map<Seq<char>, CachedSensorReading<F>>
    decreases batch.len(),
{
    if batch.len() == 0 {
        sensors
    } else {
        let before = with_sensors(sensors, batch.drop_last(), rates.drop_last());
        before.insert(batch.last().id@, merged_sensor(before, batch.last(), rates.last()))
    }
}

/// Whether the rates are those that `smooth` gives for a batch of readings, one after the
/// other: each for its reading and what was stored before it.
pub open spec fn rates_follow<F, S: Fn(RateStep<F>) -> F>(
    smooth: S,
    sensors: Map<Seq<char>, CachedSensorReading<F>>,
    batch: Seq<CachedSensorReading<F>>,
    rates: Seq<Option<F>>,
    now: Instant,
) -> bool
    decreases batch.len(),
{
    if batch.len() == 0 {
        rates.len() == 0
    } else {
        &&& rates.len() == batch.len()
        &&& rates_follow(smooth, sensors, batch.drop_last(), rates.drop_last(), now)
        &&& rate_follows(
            smooth,
            rate_step(
                with_sensors(sensors, batch.drop_last(), rates.drop_last()),
                batch.last(),
                now,
            ),
            rates.last(),
        )
    }
}

/// The readings without those of the sensors that cannot be read.
pub open spec fn without_unavailable<F>(
    sensors: Map<Seq<char>, CachedSensorReading<F>>,
    gone: Seq<UnavailableSensor>,
) -> Map<Seq<char>, CachedSensorReading<F>>
    decreases gone.len(),
{
    if gone.len() == 0 {
        sensors
    } else {
        without_unavailable(sensors, gone.drop_last()).remove(gone.last().id@)
    }
}

// ---------------------------------------------------------------------------
// The cache
// ---------------------------------------------------------------------------

/// The state of the daemon, with the counters by which its parts notice each other's
/// events.
pub struct StateCache<F> {
    /// The state.
    pub inner: DaemonState<F>,
    /// Whether the system resumed and nobody took notice yet.
    pub resume_detected: bool,
    /// How often a profile was activated.
    pub activation_epoch: u64,
    /// The poll interval of the hwmon sensors.
    pub poll_interval_ms: u64,
    /// How often the fan controller may have lost its duties.
    pub write_generation: u64,
    /// How often the system resumed.
    pub resume_count: u64,
}

/// What a `StateCache` says.
#[verifier::ext_equal]
pub struct CacheView<F> {
    pub inner: DaemonView<F>,
    pub resume_detected: bool,
    pub activation_epoch: u64,
    pub poll_interval_ms: u64,
    pub write_generation: u64,
    pub resume_count: u64,
}

impl<F> View for StateCache<F> {
    type V = CacheView<F>;

    open spec fn view(&self) -> CacheView<F> {
        CacheView {
            inner: self.inner@,
            resume_detected: self.resume_detected,
            activation_epoch: self.activation_epoch,
            poll_interval_ms: self.poll_interval_ms,
            write_generation: self.write_generation,
            resume_count: self.resume_count,
        }
    }
}

/// A counter after one more event.
pub open spec fn counted(n: u64) -> u64 {
    if n == u64::MAX {
        0
    } else {
        (n + 1) as u64
    }
}

/// Whether the slot for a hardware check is held at `now`: it is claimed and the claim
/// has not run out.
pub open spec fn verify_held<F>(state: DaemonView<F>, now: Instant) -> bool {
    state.verify_in_progress && match state.verify_active_until {
        Some(deadline) => now.nanos < deadline.nanos,
        None => false,
    }
}

/// The state after a claim to the slot for a hardware check, and the number of the
/// claim; none if another claim holds.
pub open spec fn verify_begun<F>(
    state: DaemonView<F>,
    window: Duration,
    now: Instant,
) -> (Option<u64>, DaemonView<F>) {
    if verify_held(state, now) {
        (None, state)
    } else {
        let epoch = counted(state.verify_epoch);
        (
            Some(epoch),
            DaemonView {
                verify_epoch: epoch,
                verify_in_progress: true,
                verify_active_until: Some(now.later(window)),
                ..state
            },
        )
    }
}

/// The state after the holder of claim `epoch` ended it: unchanged if another claim came
/// after it.
pub open spec fn verify_ended<F>(state: DaemonView<F>, epoch: u64) -> DaemonView<F> {
    if state.verify_epoch == epoch {
        DaemonView { verify_in_progress: false, verify_active_until: None, ..state }
    } else {
        state
    }
}

/// The state after the holder of claim `epoch` renewed it: unchanged if another claim
/// came after it.
pub open spec fn verify_renewed<F>(
    state: DaemonView<F>,
    epoch: u64,
    window: Duration,
    now: Instant,
) -> DaemonView<F> {
    if state.verify_epoch == epoch {
        DaemonView { verify_active_until: Some(now.later(window)), ..state }
    } else {
        state
    }
}

impl<F> StateCache<F> {
    /// An empty cache.
    pub fn new(now: Instant) -> (r: Self)
        ensures
            r@ == (CacheView {
                inner: state::blank_state::<F>(now),
                resume_detected: false,
                activation_epoch: 0,
                poll_interval_ms: DEFAULT_HWMON_POLL_INTERVAL_MS,
                write_generation: 0,
                resume_count: 0,
            }),
    {
        StateCache {
            inner: DaemonState::new(now),
            resume_detected: false,
            activation_epoch: 0,
            poll_interval_ms: DEFAULT_HWMON_POLL_INTERVAL_MS,
            write_generation: 0,
            resume_count: 0,
        }
    }

    /// Sets the poll interval of the hwmon sensors.
    pub fn set_hwmon_poll_interval_ms(&mut self, ms: u64)
        ensures
            final(self)@ == (CacheView { poll_interval_ms: ms, ..old(self)@ }),
    {
        self.poll_interval_ms = ms;
    }

    /// How old a CPU reading may be before the safety rule must take it for absent. A
    /// poll that stops then shows as a missing sensor, which the rule can handle, and
    /// not as a temperature that never rises.
    pub fn cpu_temp_stale_after(&self) -> (r: Duration)
        ensures
            r.nanos == stale_budget_ms(self@.poll_interval_ms as int) * 1_000_000,
            r.nanos >= self@.poll_interval_ms * 1_000_000,
    {
        let interval: u64 = if self.poll_interval_ms < DEFAULT_HWMON_POLL_INTERVAL_MS {
            DEFAULT_HWMON_POLL_INTERVAL_MS
        } else {
            self.poll_interval_ms
        };
        let five: u128 = interval as u128 * 5;
        let capped: u64 = if five > CPU_TEMP_STALE_CEILING_MS as u128 {
            CPU_TEMP_STALE_CEILING_MS
        } else {
            five as u64
        };
        let budget: u64 = if capped < interval {
            interval
        } else {
            capped
        };
        Duration::from_millis(budget)
    }

    /// Counts the activation of a profile.
    pub fn bump_profile_activation_epoch(&mut self)
        ensures
            final(self)@ == (CacheView {
                activation_epoch: counted(old(self)@.activation_epoch),
                ..old(self)@
            }),
    {
        self.activation_epoch = self.activation_epoch.wrapping_add(1);
    }

    /// How often a profile was activated.
    pub fn profile_activation_epoch(&self) -> (r: u64)
        ensures
            r == self@.activation_epoch,
    {
        self.activation_epoch
    }

    /// Hands the state to `f` and returns what it makes of it.
    pub fn read_with<R, G: FnOnce(&DaemonState<F>) -> R>(&self, f: G) -> (r: R)
        requires
            f.requires((&self.inner,)),
        ensures
            f.ensures((&self.inner,), r),
    {
        f(&self.inner)
    }

    /// A copy of the states of the cards' fans.
    pub fn gpu_fans_snapshot(&self) -> (r: StringMap<AmdGpuFanState>)
        ensures
            r@ == self@.inner.gpu_fans,
            r.keys() == self.inner.gpu_fans.keys(),
    {
        let r: StringMap<AmdGpuFanState> = self.inner.gpu_fans.clone();
        assert(r@ =~= self@.inner.gpu_fans);
        r
    }

    fn count_missed(&self, batch: &Vec<OpenFanState>) -> (n: usize)
        ensures
            n == missed_channels(self@.inner.openfan_fans, batch@, 256),
    {
        broadcast use group_hash_axioms;

        let mut missed: usize = 0;
        let mut n: u16 = 0;
        while n < 256
            invariant
                n <= 256,
                missed <= n,
                missed == missed_channels(self@.inner.openfan_fans, batch@, n as int),
            decreases 256 - n,
        {
            let ch: u8 = n as u8;
            if let Some(fan) = self.inner.openfan_fans.get(&ch) {
                if fan.rpm_polled {
                    let mut covered: bool = false;
                    let mut i: usize = 0;
                    while i < batch.len()
                        invariant
                            i <= batch.len(),
                            covered == exists|k: int|
                                0 <= k < i && (#[trigger] batch@[k]).channel == fan.channel,
                        decreases batch.len() - i,
                    {
                        if batch[i].channel == fan.channel {
                            assert(batch@[i as int].channel == fan.channel);
                            covered = true;
                        }
                        i += 1;
                    }
                    if !covered {
                        missed += 1;
                    }
                }
            }
            n += 1;
        }
        missed
    }

    /// Stores a batch of channel readings. Returns how many channels that were read
    /// before it leaves out.
    ///
    /// The stamp of the fan controller says that it was polled, whatever the batch
    /// leaves out: a channel that is left out keeps its own time, and ages.
    pub fn update_openfan_fans(&mut self, fans: Vec<OpenFanState>, now: Instant) -> (missed: usize)
        ensures
            missed == missed_channels(old(self)@.inner.openfan_fans, fans@, 256),
            final(self)@ == (CacheView {
                inner: DaemonView {
                    openfan_fans: with_openfan(old(self)@.inner.openfan_fans, fans@),
                    subsystem_timestamps: SubsystemTimestamps {
                        openfan: Some(now),
                        ..old(self)@.inner.subsystem_timestamps
                    },
                    snapshot_at: now,
                    ..old(self)@.inner
                },
                ..old(self)@
            }),
    {
        broadcast use group_hash_axioms;

        let missed: usize = self.count_missed(&fans);
        let ghost start = self@;
        let mut i: usize = 0;
        while i < fans.len()
            invariant
                i <= fans.len(),
                start == old(self)@,
                self@ == (CacheView {
                    inner: DaemonView {
                        openfan_fans: with_openfan(
                            start.inner.openfan_fans,
                            fans@.take(i as int),
                        ),
                        ..start.inner
                    },
                    ..start
                }),
            decreases fans.len() - i,
        {
            assert(fans@.take(i + 1).drop_last() =~= fans@.take(i as int));
            let mut fan: OpenFanState = fans[i];
            if fan.last_commanded_pwm.is_none() {
                if let Some(known) = self.inner.openfan_fans.get(&fan.channel) {
                    fan.last_commanded_pwm = known.last_commanded_pwm;
                }
            }
            self.inner.openfan_fans.insert(fan.channel, fan);
            i += 1;
        }
        assert(fans@.take(i as int) =~= fans@);
        self.inner.subsystem_timestamps.openfan = Some(now);
        self.inner.snapshot_at = now;
        missed
    }

    /// Stores a batch of header states. An engine write does not know what only the poll
    /// knows, so the alarm, the mode and the read-back stay where they are not given.
    pub fn update_hwmon_fans(&mut self, fans: Vec<HwmonFanState>, now: Instant)
        ensures
            final(self)@ == (CacheView {
                inner: DaemonView {
                    hwmon_fans: with_hwmon(old(self)@.inner.hwmon_fans, fans@),
                    snapshot_at: now,
                    ..old(self)@.inner
                },
                ..old(self)@
            }),
    {
        let ghost start = self@;
        let mut i: usize = 0;
        while i < fans.len()
            invariant
                i <= fans.len(),
                start == old(self)@,
                self@ == (CacheView {
                    inner: DaemonView {
                        hwmon_fans: with_hwmon(start.inner.hwmon_fans, fans@.take(i as int)),
                        ..start.inner
                    },
                    ..start
                }),
            decreases fans.len() - i,
        {
            assert(fans@.take(i + 1).drop_last() =~= fans@.take(i as int));
            let mut fan: HwmonFanState = fans[i].clone();
            if let Some(known) = self.inner.hwmon_fans.get(fan.id.as_str()) {
                if fan.alarm.is_none() {
                    fan.alarm = known.alarm;
                }
                if fan.pwm_enable_mode.is_none() {
                    fan.pwm_enable_mode = known.pwm_enable_mode;
                }
                if fan.pwm_readback_pct.is_none() {
                    fan.pwm_readback_pct = known.pwm_readback_pct;
                }
            }
            self.inner.hwmon_fans.insert(fan.id.clone(), fan);
            i += 1;
        }
        assert(fans@.take(i as int) =~= fans@);
        self.inner.snapshot_at = now;
    }

    /// Notes that the engine reached the safety decision of a tick: the state of the
    /// rule, the trip point it acted on and the stamp of the tick, all in one step, so
    /// that the stamp speaks for the state.
    pub fn record_engine_tick(&mut self, thermal_state: &str, trigger_c: F, now: Instant)
        ensures
            final(self)@ == (CacheView {
                inner: DaemonView {
                    thermal_override_state: Some(thermal_state@),
                    thermal_emergency_trigger_c: Some(trigger_c),
                    subsystem_timestamps: SubsystemTimestamps {
                        engine_started: Some(now),
                        ..old(self)@.inner.subsystem_timestamps
                    },
                    ..old(self)@.inner
                },
                ..old(self)@
            }),
    {
        self.inner.thermal_override_state = Some(thermal_state.to_owned());
        self.inner.thermal_emergency_trigger_c = Some(trigger_c);
        self.inner.subsystem_timestamps.engine_started = Some(now);
    }

    /// Claims the slot for a hardware check for a window of time and returns the number
    /// of the claim; nothing if another claim holds.
    ///
    /// A claim that ran out counts as free. Its holder may still be at work: the number
    /// keeps it from ending the claim that came after it.
    pub fn try_begin_verify(&mut self, window: Duration, now: Instant) -> (r: Option<u64>)
        ensures
            r == verify_begun(old(self)@.inner, window, now).0,
            final(self)@ == (CacheView {
                inner: verify_begun(old(self)@.inner, window, now).1,
                ..old(self)@
            }),
    {
        if self.verify_active(now) {
            return None;
        }
        self.inner.verify_epoch = self.inner.verify_epoch.wrapping_add(1);
        self.inner.verify_in_progress = true;
        self.inner.verify_active_until = Some(now.after(window));
        Some(self.inner.verify_epoch)
    }

    /// Ends the claim with the number `epoch`, unless another came after it.
    pub fn end_verify(&mut self, epoch: u64) -> (r: bool)
        ensures
            r == (old(self)@.inner.verify_epoch == epoch),
            final(self)@ == (CacheView {
                inner: verify_ended(old(self)@.inner, epoch),
                ..old(self)@
            }),
    {
        if self.inner.verify_epoch != epoch {
            return false;
        }
        self.inner.verify_in_progress = false;
        self.inner.verify_active_until = None;
        true
    }

    /// Extends the claim with the number `epoch`, unless another came after it: a holder
    /// that is slow but alive keeps its slot.
    pub fn renew_verify(&mut self, epoch: u64, window: Duration, now: Instant) -> (r: bool)
        ensures
            r == (old(self)@.inner.verify_epoch == epoch),
            final(self)@ == (CacheView {
                inner: verify_renewed(old(self)@.inner, epoch, window, now),
                ..old(self)@
            }),
    {
        if self.inner.verify_epoch != epoch {
            return false;
        }
        self.inner.verify_active_until = Some(now.after(window));
        true
    }

    /// Whether a hardware check is going on.
    pub fn verify_active(&self, now: Instant) -> (r: bool)
        ensures
            r == verify_held(self@.inner, now),
    {
        self.inner.verify_in_progress && match self.inner.verify_active_until {
            Some(deadline) => now.nanos < deadline.nanos,
            None => false,
        }
    }

    /// Gives a card's fan back to the firmware and says whether this call did: a caller
    /// that fails afterwards must take back only what it gave itself.
    #[must_use]
    pub fn relinquish_gpu_fan(&mut self, fan_id: &str) -> (claimed: bool)
        ensures
            claimed == !old(self)@.inner.relinquished_gpu_fans.contains(fan_id@),
            final(self)@ == (CacheView {
                inner: DaemonView {
                    relinquished_gpu_fans: old(self)@.inner.relinquished_gpu_fans.insert(fan_id@),
                    ..old(self)@.inner
                },
                ..old(self)@
            }),
    {
        self.inner.relinquished_gpu_fans.insert(fan_id.to_owned())
    }

    /// Takes a single fan back from the firmware.
    pub fn unrelinquish_gpu_fan(&mut self, fan_id: &str)
        ensures
            final(self)@ == (CacheView {
                inner: DaemonView {
                    relinquished_gpu_fans: old(self)@.inner.relinquished_gpu_fans.remove(fan_id@),
                    ..old(self)@.inner
                },
                ..old(self)@
            }),
    {
        self.inner.relinquished_gpu_fans.remove(fan_id);
    }

    /// Takes every fan back from the firmware.
    pub fn clear_relinquished_gpu_fans(&mut self)
        ensures
            final(self)@ == (CacheView {
                inner: DaemonView { relinquished_gpu_fans: Set::empty(), ..old(self)@.inner },
                ..old(self)@
            }),
    {
        self.inner.relinquished_gpu_fans.clear();
    }

    /// Whether the fan was given back to the firmware.
    pub fn is_gpu_fan_relinquished(&self, fan_id: &str) -> (r: bool)
        ensures
            r == self@.inner.relinquished_gpu_fans.contains(fan_id@),
    {
        self.inner.relinquished_gpu_fans.contains(fan_id)
    }

    /// Notes that the engine finished a tick.
    pub fn record_engine_tick_complete(&mut self, now: Instant)
        ensures
            final(self)@ == (CacheView {
                inner: DaemonView {
                    subsystem_timestamps: SubsystemTimestamps {
                        engine_completed: Some(now),
                        ..old(self)@.inner.subsystem_timestamps
                    },
                    ..old(self)@.inner
                },
                ..old(self)@
            }),
    {
        self.inner.subsystem_timestamps.engine_completed = Some(now);
    }

    /// Notes whether a write is still outstanding. The stamp says since when: it is set
    /// by the first such note and stays until a write lands.
    pub fn record_engine_write_stall(&mut self, outstanding: bool, now: Instant)
        ensures
            ({
                let before = old(self)@.inner.subsystem_timestamps.engine_writes_stalled_since;
                final(self)@ == (CacheView {
                    inner: DaemonView {
                        subsystem_timestamps: SubsystemTimestamps {
                            engine_writes_stalled_since: if !outstanding {
                                None
                            } else if before is Some {
                                before
                            } else {
                                Some(now)
                            },
                            ..old(self)@.inner.subsystem_timestamps
                        },
                        ..old(self)@.inner
                    },
                    ..old(self)@
                })
            }),
    {
        if !outstanding {
            self.inner.subsystem_timestamps.engine_writes_stalled_since = None;
        } else if self.inner.subsystem_timestamps.engine_writes_stalled_since.is_none() {
            self.inner.subsystem_timestamps.engine_writes_stalled_since = Some(now);
        }
    }

    /// Notes the command for a channel. It does not touch the time of the reading: a
    /// command must not make an old reading look fresh. A channel that was never read
    /// gets an entry that says so.
    pub fn set_openfan_commanded_pwm(&mut self, channel: u8, pwm: u8, now: Instant)
        ensures
            ({
                let fans = old(self)@.inner.openfan_fans;
                let fan = if fans.dom().contains(channel) {
                    OpenFanState { last_commanded_pwm: Some(pwm), ..fans[channel] }
                } else {
                    OpenFanState {
                        channel,
                        rpm: 0,
                        last_commanded_pwm: Some(pwm),
                        updated_at: now,
                        rpm_polled: false,
                    }
                };
                final(self)@ == (CacheView {
                    inner: DaemonView {
                        openfan_fans: fans.insert(channel, fan),
                        snapshot_at: now,
                        ..old(self)@.inner
                    },
                    ..old(self)@
                })
            }),
    {
        broadcast use group_hash_axioms;

        let fan: OpenFanState = match self.inner.openfan_fans.get(&channel) {
            Some(known) => OpenFanState {
                channel: known.channel,
                rpm: known.rpm,
                last_commanded_pwm: Some(pwm),
                updated_at: known.updated_at,
                rpm_polled: known.rpm_polled,
            },
            None => OpenFanState {
                channel,
                rpm: 0,
                last_commanded_pwm: Some(pwm),
                updated_at: now,
                rpm_polled: false,
            },
        };
        self.inner.openfan_fans.insert(channel, fan);
        self.inner.snapshot_at = now;
    }

    /// Stores a batch of readings of cards' fans. The poll does not know the commands, so
    /// they stay.
    pub fn update_gpu_fans(&mut self, fans: Vec<AmdGpuFanState>, now: Instant)
        ensures
            final(self)@ == (CacheView {
                inner: DaemonView {
                    gpu_fans: with_gpu(old(self)@.inner.gpu_fans, fans@),
                    snapshot_at: now,
                    ..old(self)@.inner
                },
                ..old(self)@
            }),
    {
        let ghost start = self@;
        let mut i: usize = 0;
        while i < fans.len()
            invariant
                i <= fans.len(),
                start == old(self)@,
                self@ == (CacheView {
                    inner: DaemonView {
                        gpu_fans: with_gpu(start.inner.gpu_fans, fans@.take(i as int)),
                        ..start.inner
                    },
                    ..start
                }),
            decreases fans.len() - i,
        {
            assert(fans@.take(i + 1).drop_last() =~= fans@.take(i as int));
            let mut fan: AmdGpuFanState = fans[i].clone();
            if fan.last_commanded_pct.is_none() {
                if let Some(known) = self.inner.gpu_fans.get(fan.id.as_str()) {
                    fan.last_commanded_pct = known.last_commanded_pct;
                }
            }
            self.inner.gpu_fans.insert(fan.id.clone(), fan);
            i += 1;
        }
        assert(fans@.take(i as int) =~= fans@);
        self.inner.snapshot_at = now;
    }

    /// Notes the command for a card's fan. It does not touch the time of the reading. A
    /// fan that was never read gets an entry without a reading.
    pub fn set_gpu_fan_commanded_pct(&mut self, gpu_id: &str, pct: u8, now: Instant)
        ensures
            ({
                let fans = old(self)@.inner.gpu_fans;
                let after = final(self)@.inner.gpu_fans;
                let fan = after[gpu_id@];
                &&& after == fans.insert(gpu_id@, fan)
                &&& if fans.dom().contains(gpu_id@) {
                    fan == AmdGpuFanState { last_commanded_pct: Some(pct), ..fans[gpu_id@] }
                } else {
                    &&& fan.id@ == gpu_id@
                    &&& fan.rpm is None
                    &&& fan.last_commanded_pct == Some(pct)
                    &&& fan.duty_pct is None
                    &&& fan.updated_at == now
                }
                &&& final(self)@ == (CacheView {
                    inner: DaemonView { gpu_fans: after, snapshot_at: now, ..old(self)@.inner },
                    ..old(self)@
                })
            }),
    {
        let fan: AmdGpuFanState = match self.inner.gpu_fans.get(gpu_id) {
            Some(known) => {
                let mut fan: AmdGpuFanState = known.clone();
                fan.last_commanded_pct = Some(pct);
                fan
            },
            None => AmdGpuFanState {
                id: gpu_id.to_owned(),
                rpm: None,
                last_commanded_pct: Some(pct),
                duty_pct: None,
                updated_at: now,
            },
        };
        self.inner.gpu_fans.insert(gpu_id.to_owned(), fan);
        self.inner.snapshot_at = now;
    }

    /// Stores the state of the liquid cooler's pump.
    pub fn update_aio(&mut self, aio: AioPumpState<F>, now: Instant)
        ensures
            final(self)@ == (CacheView {
                inner: DaemonView {
                    aio,
                    subsystem_timestamps: SubsystemTimestamps {
                        aio: Some(now),
                        ..old(self)@.inner.subsystem_timestamps
                    },
                    snapshot_at: now,
                    ..old(self)@.inner
                },
                ..old(self)@
            }),
    {
        self.inner.aio = aio;
        self.inner.subsystem_timestamps.aio = Some(now);
        self.inner.snapshot_at = now;
    }

    /// Stores which sensors cannot be read, and drops their readings: an old value must
    /// not be served as a live one.
    pub fn update_unavailable_sensors(&mut self, unavailable: Vec<UnavailableSensor>)
        ensures
            final(self)@ == (CacheView {
                inner: DaemonView {
                    sensors: without_unavailable(old(self)@.inner.sensors, unavailable@),
                    unavailable_sensors: unavailable@,
                    ..old(self)@.inner
                },
                ..old(self)@
            }),
    {
        let ghost start = self@;
        let mut i: usize = 0;
        while i < unavailable.len()
            invariant
                i <= unavailable.len(),
                start == old(self)@,
                self@ == (CacheView {
                    inner: DaemonView {
                        sensors: without_unavailable(
                            start.inner.sensors,
                            unavailable@.take(i as int),
                        ),
                        ..start.inner
                    },
                    ..start
                }),
            decreases unavailable.len() - i,
        {
            assert(unavailable@.take(i + 1).drop_last() =~= unavailable@.take(i as int));
            let _ = self.inner.sensors.remove(unavailable[i].id.as_str());
            i += 1;
        }
        assert(unavailable@.take(i as int) =~= unavailable@);
        self.inner.unavailable_sensors = unavailable;
    }

    /// Stores which controls are skipped.
    pub fn update_skipped_controls(&mut self, skipped: Vec<SkippedControl>)
        ensures
            final(self)@ == (CacheView {
                inner: DaemonView { skipped_controls: skipped@, ..old(self)@.inner },
                ..old(self)@
            }),
    {
        self.inner.skipped_controls = skipped;
    }

    /// Stores which controls are skipped and what each evaluated control applied, in one
    /// step: no reader sees a control on both lists when it changes over.
    pub fn update_control_state(
        &mut self,
        skipped: Vec<SkippedControl>,
        outputs: Vec<ControlOutput<F>>,
    )
        ensures
            final(self)@ == (CacheView {
                inner: DaemonView {
                    skipped_controls: skipped@,
                    control_outputs: outputs@,
                    ..old(self)@.inner
                },
                ..old(self)@
            }),
    {
        self.inner.skipped_controls = skipped;
        self.inner.control_outputs = outputs;
    }

    /// Drops the headers that nothing has refreshed for longer than `max_age`.
    pub fn retain_fresh_hwmon_fans(&mut self, max_age: Duration, now: Instant)
        ensures
            ({
                let fans = old(self)@.inner.hwmon_fans;
                final(self)@ == (CacheView {
                    inner: DaemonView {
                        hwmon_fans: fans.restrict(
                            fans.dom().filter(
                                |id: Seq<char>|
                                    now.nanos_since(fans[id].updated_at) <= max_age.nanos,
                            ),
                        ),
                        ..old(self)@.inner
                    },
                    ..old(self)@
                })
            }),
    {
        let ghost fans = self@.inner.hwmon_fans;
        let ghost keep = fans.dom().filter(
            |id: Seq<char>| now.nanos_since(fans[id].updated_at) <= max_age.nanos,
        );
        let ghost start = self@;
        let mut stale: Vec<String> = Vec::new();
        let n: usize = self.inner.hwmon_fans.len();
        let ghost keys = self.inner.hwmon_fans.keys();
        let mut i: usize = 0;
        while i < n
            invariant
                i <= n,
                n == keys.len(),
                keys == self.inner.hwmon_fans.keys(),
                fans == self@.inner.hwmon_fans,
                keep == fans.dom().filter(
                    |id: Seq<char>| now.nanos_since(fans[id].updated_at) <= max_age.nanos,
                ),
                forall|k: int|
                    0 <= k < i && !keep.contains(#[trigger] keys[k]) ==> text::strings(
                        stale@,
                    ).contains(keys[k]),
                forall|k: int|
                    0 <= k < stale@.len() ==> !keep.contains(#[trigger] text::strings(stale@)[k]),
            decreases n - i,
        {
            let fan: &HwmonFanState = self.inner.hwmon_fans.value_at(i);
            let id: &str = self.inner.hwmon_fans.key_at(i);
            let ghost before = text::strings(stale@);
            if now.saturating_duration_since(fan.updated_at).nanos > max_age.nanos {
                stale.push(id.to_owned());
                assert(text::strings(stale@) =~= before.push(keys[i as int]));
                assert(text::strings(stale@)[before.len() as int] == keys[i as int]);
                assert forall|k: int|
                    0 <= k < i && !keep.contains(#[trigger] keys[k]) implies text::strings(
                    stale@,
                ).contains(keys[k]) by {
                    let at = choose|j: int| 0 <= j < before.len() && before[j] == keys[k];
                    assert(text::strings(stale@)[at] == keys[k]);
                }
            }
            i += 1;
        }
        let mut k: usize = 0;
        let ghost gone = text::strings(stale@);
        assert(fans.remove_keys(gone.take(0).to_set()) =~= fans);
        while k < stale.len()
            invariant
                k <= stale.len(),
                gone == text::strings(stale@),
                start == old(self)@,
                fans == start.inner.hwmon_fans,
                self@ == (CacheView {
                    inner: DaemonView {
                        hwmon_fans: fans.remove_keys(gone.take(k as int).to_set()),
                        ..start.inner
                    },
                    ..start
                }),
            decreases stale.len() - k,
        {
            let _ = self.inner.hwmon_fans.remove(stale[k].as_str());
            proof {
                assert(gone.take(k + 1) =~= gone.take(k as int).push(gone[k as int]));
                assert(gone.take(k + 1).to_set() =~= gone.take(k as int).to_set().insert(
                    gone[k as int],
                )) by {
                    broadcast use vstd::seq_lib::group_seq_properties;

                }
                assert(fans.remove_keys(gone.take(k + 1).to_set()) =~= fans.remove_keys(
                    gone.take(k as int).to_set(),
                ).remove(gone[k as int]));
            }
            k += 1;
        }
        proof {
            assert(gone.take(k as int) =~= gone);
            assert(fans.remove_keys(gone.to_set()) =~= fans.restrict(keep)) by {
                assert forall|id: Seq<char>| fans.dom().contains(id) implies (gone.to_set().contains(
                    id,
                ) <==> !keep.contains(id)) by {
                    if !keep.contains(id) {
                        assert(keys.to_set().contains(id));
                        let at = choose|j: int| 0 <= j < keys.len() && keys[j] == id;
                        assert(!keep.contains(keys[at]));
                    }
                    if gone.contains(id) {
                        let at = choose|j: int| 0 <= j < gone.len() && gone[j] == id;
                        assert(!keep.contains(text::strings(stale@)[at]));
                    }
                }
            }
        }
    }

    /// Drops the readings of sensors that are no longer there. `live` must name every
    /// sensor that was found or read: a reading that is dropped is gone.
    pub fn retain_sensors(&mut self, live: &StringSet)
        ensures
            final(self)@ == (CacheView {
                inner: DaemonView {
                    sensors: old(self)@.inner.sensors.restrict(live@),
                    ..old(self)@.inner
                },
                ..old(self)@
            }),
    {
        let ghost sensors = self@.inner.sensors;
        let ghost start = self@;
        let mut vanished: Vec<String> = Vec::new();
        let n: usize = self.inner.sensors.len();
        let ghost keys = self.inner.sensors.keys();
        let mut i: usize = 0;
        while i < n
            invariant
                i <= n,
                n == keys.len(),
                keys == self.inner.sensors.keys(),
                forall|k: int|
                    0 <= k < i && !live@.contains(#[trigger] keys[k]) ==> text::strings(
                        vanished@,
                    ).contains(keys[k]),
                forall|k: int|
                    0 <= k < vanished@.len() ==> !live@.contains(
                        #[trigger] text::strings(vanished@)[k],
                    ),
            decreases n - i,
        {
            let id: &str = self.inner.sensors.key_at(i);
            let ghost before = text::strings(vanished@);
            if !live.contains(id) {
                vanished.push(id.to_owned());
                assert(text::strings(vanished@) =~= before.push(keys[i as int]));
                assert(text::strings(vanished@)[before.len() as int] == keys[i as int]);
                assert forall|k: int|
                    0 <= k < i && !live@.contains(#[trigger] keys[k]) implies text::strings(
                    vanished@,
                ).contains(keys[k]) by {
                    let at = choose|j: int| 0 <= j < before.len() && before[j] == keys[k];
                    assert(text::strings(vanished@)[at] == keys[k]);
                }
            }
            i += 1;
        }
        let mut k: usize = 0;
        let ghost gone = text::strings(vanished@);
        assert(sensors.remove_keys(gone.take(0).to_set()) =~= sensors);
        while k < vanished.len()
            invariant
                k <= vanished.len(),
                gone == text::strings(vanished@),
                start == old(self)@,
                sensors == start.inner.sensors,
                self@ == (CacheView {
                    inner: DaemonView {
                        sensors: sensors.remove_keys(gone.take(k as int).to_set()),
                        ..start.inner
                    },
                    ..start
                }),
            decreases vanished.len() - k,
        {
            let _ = self.inner.sensors.remove(vanished[k].as_str());
            proof {
                assert(gone.take(k + 1) =~= gone.take(k as int).push(gone[k as int]));
                assert(gone.take(k + 1).to_set() =~= gone.take(k as int).to_set().insert(
                    gone[k as int],
                )) by {
                    broadcast use vstd::seq_lib::group_seq_properties;

                }
                assert(sensors.remove_keys(gone.take(k + 1).to_set()) =~= sensors.remove_keys(
                    gone.take(k as int).to_set(),
                ).remove(gone[k as int]));
            }
            k += 1;
        }
        proof {
            assert(gone.take(k as int) =~= gone);
            assert(sensors.remove_keys(gone.to_set()) =~= sensors.restrict(live@)) by {
                assert forall|id: Seq<char>|
                    sensors.dom().contains(id) implies (gone.to_set().contains(id)
                    <==> !live@.contains(id)) by {
                    if !live@.contains(id) {
                        assert(keys.to_set().contains(id));
                        let at = choose|j: int| 0 <= j < keys.len() && keys[j] == id;
                        assert(!live@.contains(keys[at]));
                    }
                    if gone.contains(id) {
                        let at = choose|j: int| 0 <= j < gone.len() && gone[j] == id;
                        assert(!live@.contains(text::strings(vanished@)[at]));
                    }
                }
            }
        }
    }

    /// Whether the system resumed since this was last asked.
    pub fn take_resume_flag(&mut self) -> (r: bool)
        ensures
            r == old(self)@.resume_detected,
            final(self)@ == (CacheView { resume_detected: false, ..old(self)@ }),
    {
        let r: bool = self.resume_detected;
        self.resume_detected = false;
        r
    }

    /// How often the fan controller may have lost its duties.
    pub fn openfan_write_generation(&self) -> (r: u64)
        ensures
            r == self@.write_generation,
    {
        self.write_generation
    }

    /// Notes that the fan controller may have lost its duties: the next write of each
    /// channel must reach it.
    pub fn invalidate_openfan_writes(&mut self)
        ensures
            final(self)@ == (CacheView {
                write_generation: counted(old(self)@.write_generation),
                ..old(self)@
            }),
    {
        self.write_generation = self.write_generation.wrapping_add(1);
    }

    /// How often the system resumed.
    pub fn resume_generation(&self) -> (r: u64)
        ensures
            r == self@.resume_count,
    {
        self.resume_count
    }

    /// Notes that the system resumed, which may have reset the fan controller too.
    pub fn set_resume_detected(&mut self)
        ensures
            final(self)@ == (CacheView {
                write_generation: counted(old(self)@.write_generation),
                resume_count: counted(old(self)@.resume_count),
                resume_detected: true,
                ..old(self)@
            }),
    {
        self.invalidate_openfan_writes();
        self.resume_count = self.resume_count.wrapping_add(1);
        self.resume_detected = true;
    }
}

impl<F: Copy> StateCache<F> {
    /// A copy of the temperature readings.
    pub fn sensors_snapshot(&self) -> (r: StringMap<CachedSensorReading<F>>)
        ensures
            r@ == self@.inner.sensors,
            r.keys() == self.inner.sensors.keys(),
    {
        let r: StringMap<CachedSensorReading<F>> = self.inner.sensors.clone();
        assert(r@ =~= self@.inner.sensors);
        r
    }

    /// What the rate of change of a reading is to be computed from, if it has a rate.
    pub fn sensor_rate_step(&self, reading: &CachedSensorReading<F>, now: Instant) -> (r: Option<
        RateStep<F>,
    >)
        ensures
            r == rate_step(self@.inner.sensors, *reading, now),
    {
        match self.inner.sensors.get(reading.id.as_str()) {
            Some(prev) => {
                let elapsed: Duration = now.saturating_duration_since(prev.updated_at);
                if elapsed.nanos > MIN_RATE_NANOS {
                    Some(
                        RateStep {
                            value_mc: reading.value_mc,
                            previous_mc: prev.value_mc,
                            elapsed,
                            previous_rate: prev.rate_c_per_s,
                        },
                    )
                } else {
                    None
                }
            },
            None => None,
        }
    }

    /// Stores a temperature reading, with the rate of change that was computed for it and
    /// the extremes of the session.
    pub fn store_sensor(&mut self, reading: CachedSensorReading<F>, rate: Option<F>)
        ensures
            final(self)@ == (CacheView {
                inner: DaemonView {
                    sensors: old(self)@.inner.sensors.insert(
                        reading.id@,
                        merged_sensor(old(self)@.inner.sensors, reading, rate),
                    ),
                    ..old(self)@.inner
                },
                ..old(self)@
            }),
    {
        let mut stored: CachedSensorReading<F> = reading.clone();
        let value: i32 = reading.value_mc;
        if rate.is_some() {
            stored.rate_c_per_s = rate;
        }
        match self.inner.sensors.get(reading.id.as_str()) {
            Some(prev) => {
                let min: i32 = match prev.session_min_mc {
                    Some(k) => if k < value {
                        k
                    } else {
                        value
                    },
                    None => value,
                };
                let max: i32 = match prev.session_max_mc {
                    Some(k) => if k > value {
                        k
                    } else {
                        value
                    },
                    None => value,
                };
                stored.session_min_mc = Some(min);
                stored.session_max_mc = Some(max);
            },
            None => {
                stored.session_min_mc = Some(value);
                stored.session_max_mc = Some(value);
            },
        }
        self.inner.sensors.insert(reading.id, stored);
    }

    /// Stores a batch of temperature readings, with the extremes of the session and with
    /// the rates of change that `smooth` makes of each reading and the one before it.
    pub fn update_sensors<S: Fn(RateStep<F>) -> F>(
        &mut self,
        readings: Vec<CachedSensorReading<F>>,
        smooth: S,
        now: Instant,
    )
        requires
            forall|step: RateStep<F>| #[trigger] smooth.requires((step,)),
        ensures
            exists|rates: Seq<Option<F>>|
                {
                    &&& #[trigger] rates_follow(
                        smooth,
                        old(self)@.inner.sensors,
                        readings@,
                        rates,
                        now,
                    )
                    &&& final(self)@ == (CacheView {
                        inner: DaemonView {
                            sensors: with_sensors(old(self)@.inner.sensors, readings@, rates),
                            subsystem_timestamps: SubsystemTimestamps {
                                hwmon: Some(now),
                                ..old(self)@.inner.subsystem_timestamps
                            },
                            snapshot_at: now,
                            ..old(self)@.inner
                        },
                        ..old(self)@
                    })
                },
    {
        let ghost start = self@;
        let ghost mut rates: Seq<Option<F>> = Seq::empty();
        let mut i: usize = 0;
        while i < readings.len()
            invariant
                i <= readings.len(),
                start == old(self)@,
                forall|step: RateStep<F>| #[trigger] smooth.requires((step,)),
                rates_follow(
                    smooth,
                    start.inner.sensors,
                    readings@.take(i as int),
                    rates,
                    now,
                ),
                self@ == (CacheView {
                    inner: DaemonView {
                        sensors: with_sensors(
                            start.inner.sensors,
                            readings@.take(i as int),
                            rates,
                        ),
                        ..start.inner
                    },
                    ..start
                }),
            decreases readings.len() - i,
        {
            let rate: Option<F> = match self.sensor_rate_step(&readings[i], now) {
                Some(step) => Some(smooth(step)),
                None => None,
            };
            self.store_sensor(readings[i].clone(), rate);
            proof {
                assert(readings@.take(i + 1).drop_last() =~= readings@.take(i as int));
                assert(rates.push(rate).drop_last() =~= rates);
                rates = rates.push(rate);
            }
            i += 1;
        }
        assert(readings@.take(i as int) =~= readings@);
        self.inner.subsystem_timestamps.hwmon = Some(now);
        self.inner.snapshot_at = now;
    }

    /// A copy of the state.
    pub fn snapshot(&self) -> (r: DaemonState<F>)
        ensures
            r@ == self@.inner,
    {
        self.inner.clone()
    }
}

// ---------------------------------------------------------------------------
// Laws
// ---------------------------------------------------------------------------

/// The slot for a hardware check has one holder: while a claim holds, no other is
/// granted, and the state does not change.
pub proof fn verify_is_single_flight<F>(
    state: DaemonView<F>,
    window: Duration,
    now: Instant,
    other_window: Duration,
    later: Instant,
)
    requires
        verify_begun(state, window, now).0 is Some,
        later.nanos < now.later(window).nanos,
    ensures
        ({
            let claimed = verify_begun(state, window, now).1;
            &&& verify_held(claimed, later)
            &&& verify_begun(claimed, other_window, later) == (None::<u64>, claimed)
        }),
{
}

/// A claim that ran out frees both the pause and the slot: nothing holds, and the next
/// claim is granted.
pub proof fn expired_verify_is_free<F>(
    state: DaemonView<F>,
    window: Duration,
    now: Instant,
    other_window: Duration,
    later: Instant,
)
    requires
        verify_begun(state, window, now).0 is Some,
        later.nanos >= now.later(window).nanos,
    ensures
        ({
            let claimed = verify_begun(state, window, now).1;
            &&& !verify_held(claimed, later)
            &&& verify_begun(claimed, other_window, later).0 is Some
        }),
{
}

/// A holder whose claim ran out and was taken over can neither end nor extend the claim
/// of its successor.
pub proof fn late_release_is_ignored<F>(
    state: DaemonView<F>,
    first_window: Duration,
    first: Instant,
    second_window: Duration,
    second: Instant,
    window: Duration,
    now: Instant,
)
    requires
        verify_begun(state, first_window, first).0 is Some,
        verify_begun(verify_begun(state, first_window, first).1, second_window, second).0 is Some,
    ensures
        ({
            let (stranded, s1) = verify_begun(state, first_window, first);
            let (live, s2) = verify_begun(s1, second_window, second);
            &&& stranded != live
            &&& verify_ended(s2, stranded->0) == s2
            &&& verify_renewed(s2, stranded->0, window, now) == s2
            &&& !verify_held(verify_ended(s2, live->0), now)
        }),
{
}

/// What the poll found out about a header survives every update that does not know it,
/// and an update that does know it replaces it.
pub proof fn poll_findings_survive_writes(
    fans: Map<Seq<char>, HwmonFanState>,
    fan: HwmonFanState,
)
    requires
        fans.dom().contains(fan.id@),
    ensures
        ({
            let m = merged_hwmon(fans, fan);
            let known = fans[fan.id@];
            &&& m.alarm == (if fan.alarm is None {
                known.alarm
            } else {
                fan.alarm
            })
            &&& m.pwm_enable_mode == (if fan.pwm_enable_mode is None {
                known.pwm_enable_mode
            } else {
                fan.pwm_enable_mode
            })
            &&& m.pwm_readback_pct == (if fan.pwm_readback_pct is None {
                known.pwm_readback_pct
            } else {
                fan.pwm_readback_pct
            })
            &&& m.rpm == fan.rpm
            &&& m.last_commanded_pwm == fan.last_commanded_pwm
            &&& m.updated_at == fan.updated_at
        }),
{
}

/// The extremes of the session hold the reading and never narrow.
pub proof fn session_extremes_hold_the_reading<F>(
    sensors: Map<Seq<char>, CachedSensorReading<F>>,
    reading: CachedSensorReading<F>,
    rate: Option<F>,
)
    ensures
        ({
            let m = merged_sensor(sensors, reading, rate);
            &&& m.session_min_mc is Some && m.session_max_mc is Some
            &&& m.session_min_mc->0 <= reading.value_mc <= m.session_max_mc->0
            &&& m.value_mc == reading.value_mc
            &&& sensors.dom().contains(reading.id@) ==> {
                let prev = sensors[reading.id@];
                &&& prev.session_min_mc is Some ==> m.session_min_mc->0 <= prev.session_min_mc->0
                &&& prev.session_max_mc is Some ==> m.session_max_mc->0 >= prev.session_max_mc->0
            }
        }),
{
}

/// Where there is but one rate for each step, there is but one outcome of a batch.
pub proof fn determined_rates_determine_the_readings<F, S: Fn(RateStep<F>) -> F>(
    smooth: S,
    sensors: Map<Seq<char>, CachedSensorReading<F>>,
    batch: Seq<CachedSensorReading<F>>,
    now: Instant,
    one: Seq<Option<F>>,
    other: Seq<Option<F>>,
)
    requires
        forall|step: RateStep<F>, a: F, b: F| #[trigger]
            smooth.ensures((step,), a) && #[trigger] smooth.ensures((step,), b) ==> a == b,
        rates_follow(smooth, sensors, batch, one, now),
        rates_follow(smooth, sensors, batch, other, now),
    ensures
        with_sensors(sensors, batch, one) == with_sensors(sensors, batch, other),
        one == other,
    decreases batch.len(),
{
    if batch.len() > 0 {
        determined_rates_determine_the_readings(
            smooth,
            sensors,
            batch.drop_last(),
            now,
            one.drop_last(),
            other.drop_last(),
        );
        assert(one =~= one.drop_last().push(one.last()));
        assert(other =~= other.drop_last().push(other.last()));
    }
}

/// No sensor that is listed as unreadable keeps a reading, and no other sensor loses its.
pub proof fn unavailable_sensors_have_no_reading<F>(
    sensors: Map<Seq<char>, CachedSensorReading<F>>,
    gone: Seq<UnavailableSensor>,
)
    ensures
        forall|i: int|
            0 <= i < gone.len() ==> !without_unavailable(sensors, gone).dom().contains(
                (#[trigger] gone[i]).id@,
            ),
        forall|id: Seq<char>| #[trigger]
            sensors.dom().contains(id) && (forall|i: int|
                0 <= i < gone.len() ==> (#[trigger] gone[i]).id@ != id) ==> without_unavailable(
                sensors,
                gone,
            ).dom().contains(id) && without_unavailable(sensors, gone)[id] == sensors[id],
    decreases gone.len(),
{
    if gone.len() > 0 {
        let front = gone.drop_last();
        unavailable_sensors_have_no_reading(sensors, front);
        assert forall|i: int| 0 <= i < gone.len() implies !without_unavailable(
            sensors,
            gone,
        ).dom().contains((#[trigger] gone[i]).id@) by {
            if i < front.len() {
                assert(front[i] == gone[i]);
            }
        }
        assert forall|id: Seq<char>| #[trigger]
            sensors.dom().contains(id) && (forall|i: int|
                0 <= i < gone.len() ==> (#[trigger] gone[i]).id@ != id) implies without_unavailable(
            sensors,
            gone,
        ).dom().contains(id) && without_unavailable(sensors, gone)[id] == sensors[id] by {
            assert forall|i: int| 0 <= i < front.len() implies (#[trigger] front[i]).id@ != id by {
                assert(front[i] == gone[i]);
            }
            assert(gone[gone.len() - 1].id@ != id);
        }
    }
}

/// A card's fan that a batch does not read stays as it was.
pub proof fn cards_that_are_not_read_stay(
    fans: Map<Seq<char>, AmdGpuFanState>,
    batch: Seq<AmdGpuFanState>,
    id: Seq<char>,
)
    requires
        forall|k: int| 0 <= k < batch.len() ==> (#[trigger] batch[k]).id@ != id,
    ensures
        with_gpu(fans, batch).dom().contains(id) <==> fans.dom().contains(id),
        fans.dom().contains(id) ==> with_gpu(fans, batch)[id] == fans[id],
    decreases batch.len(),
{
    if batch.len() > 0 {
        let front = batch.drop_last();
        assert forall|k: int| 0 <= k < front.len() implies (#[trigger] front[k]).id@ != id by {
            assert(front[k] == batch[k]);
        }
        cards_that_are_not_read_stay(fans, front, id);
        assert(batch[batch.len() - 1].id@ != id);
    }
}

/// A card's fan that a batch reads has what its last reading there says.
pub proof fn the_last_reading_of_cards_counts(
    fans: Map<Seq<char>, AmdGpuFanState>,
    batch: Seq<AmdGpuFanState>,
    k: int,
)
    requires
        0 <= k < batch.len(),
        forall|j: int| k < j < batch.len() ==> (#[trigger] batch[j]).id@ != batch[k].id@,
    ensures
        ({
            let after = with_gpu(fans, batch);
            let id = batch[k].id@;
            &&& after.dom().contains(id)
            &&& after[id].id@ == batch[k].id@
            &&& after[id].rpm == batch[k].rpm
            &&& after[id].duty_pct == batch[k].duty_pct
            &&& after[id].updated_at == batch[k].updated_at
            &&& batch[k].last_commanded_pct is Some ==> after[id].last_commanded_pct
                == batch[k].last_commanded_pct
        }),
    decreases batch.len(),
{
    let front = batch.drop_last();
    if k < front.len() {
        assert forall|j: int| k < j < front.len() implies (#[trigger] front[j]).id@
            != front[k].id@ by {
            assert(front[j] == batch[j]);
        }
        the_last_reading_of_cards_counts(fans, front, k);
        assert(batch[batch.len() - 1].id@ != batch[k].id@);
    }
}

/// A poll does not know the commands, so they stay: a card's fan whose readings in a batch give
/// no command has the one that was known before, if any was.
pub proof fn polls_of_cards_keep_the_commands(
    fans: Map<Seq<char>, AmdGpuFanState>,
    batch: Seq<AmdGpuFanState>,
    id: Seq<char>,
)
    requires
        forall|k: int|
            0 <= k < batch.len() && (#[trigger] batch[k]).id@ == id
                ==> batch[k].last_commanded_pct is None,
    ensures
        ({
            let after = with_gpu(fans, batch);
            &&& fans.dom().contains(id) ==> after.dom().contains(id) && after[id].last_commanded_pct
                == fans[id].last_commanded_pct
            &&& !fans.dom().contains(id) && after.dom().contains(id)
                ==> after[id].last_commanded_pct is None
        }),
    decreases batch.len(),
{
    if batch.len() > 0 {
        let front = batch.drop_last();
        assert forall|k: int| 0 <= k < front.len() && (#[trigger] front[k]).id@
            == id implies front[k].last_commanded_pct is None by {
            assert(front[k] == batch[k]);
        }
        polls_of_cards_keep_the_commands(fans, front, id);
        assert(batch[batch.len() - 1] == batch.last());
    }
}

/// A command that a reading gives replaces the known one, and stays through the readings
/// behind it that give none.
pub proof fn a_command_of_cards_replaces_the_known_one(
    fans: Map<Seq<char>, AmdGpuFanState>,
    batch: Seq<AmdGpuFanState>,
    k: int,
)
    requires
        0 <= k < batch.len(),
        batch[k].last_commanded_pct is Some,
        forall|j: int|
            k < j < batch.len() && (#[trigger] batch[j]).id@ == batch[k].id@
                ==> batch[j].last_commanded_pct is None,
    ensures
        with_gpu(fans, batch).dom().contains(batch[k].id@),
        with_gpu(fans, batch)[batch[k].id@].last_commanded_pct == batch[k].last_commanded_pct,
    decreases batch.len(),
{
    let front = batch.drop_last();
    if k < front.len() {
        assert forall|j: int|
            k < j < front.len() && (#[trigger] front[j]).id@
                == front[k].id@ implies front[j].last_commanded_pct is None by {
            assert(front[j] == batch[j]);
        }
        a_command_of_cards_replaces_the_known_one(fans, front, k);
        assert(batch[batch.len() - 1] == batch.last());
    }
}

/// A channel that a batch does not read stays as it was.
pub proof fn channels_that_are_not_read_stay(
    fans: Map<u8, OpenFanState>,
    batch: Seq<OpenFanState>,
    id: u8,
)
    requires
        forall|k: int| 0 <= k < batch.len() ==> (#[trigger] batch[k]).channel != id,
    ensures
        with_openfan(fans, batch).dom().contains(id) <==> fans.dom().contains(id),
        fans.dom().contains(id) ==> with_openfan(fans, batch)[id] == fans[id],
    decreases batch.len(),
{
    if batch.len() > 0 {
        let front = batch.drop_last();
        assert forall|k: int| 0 <= k < front.len() implies (#[trigger] front[k]).channel != id by {
            assert(front[k] == batch[k]);
        }
        channels_that_are_not_read_stay(fans, front, id);
        assert(batch[batch.len() - 1].channel != id);
    }
}

/// A channel that a batch reads has what its last reading there says.
pub proof fn the_last_reading_of_channels_counts(
    fans: Map<u8, OpenFanState>,
    batch: Seq<OpenFanState>,
    k: int,
)
    requires
        0 <= k < batch.len(),
        forall|j: int| k < j < batch.len() ==> (#[trigger] batch[j]).channel != batch[k].channel,
    ensures
        ({
            let after = with_openfan(fans, batch);
            let id = batch[k].channel;
            &&& after.dom().contains(id)
            &&& after[id].channel == batch[k].channel
            &&& after[id].rpm == batch[k].rpm
            &&& after[id].rpm_polled == batch[k].rpm_polled
            &&& after[id].updated_at == batch[k].updated_at
            &&& batch[k].last_commanded_pwm is Some ==> after[id].last_commanded_pwm
                == batch[k].last_commanded_pwm
        }),
    decreases batch.len(),
{
    let front = batch.drop_last();
    if k < front.len() {
        assert forall|j: int| k < j < front.len() implies (#[trigger] front[j]).channel
            != front[k].channel by {
            assert(front[j] == batch[j]);
        }
        the_last_reading_of_channels_counts(fans, front, k);
        assert(batch[batch.len() - 1].channel != batch[k].channel);
    }
}

/// A poll does not know the commands, so they stay: a channel whose readings in a batch give
/// no command has the one that was known before, if any was.
pub proof fn polls_of_channels_keep_the_commands(
    fans: Map<u8, OpenFanState>,
    batch: Seq<OpenFanState>,
    id: u8,
)
    requires
        forall|k: int|
            0 <= k < batch.len() && (#[trigger] batch[k]).channel == id
                ==> batch[k].last_commanded_pwm is None,
    ensures
        ({
            let after = with_openfan(fans, batch);
            &&& fans.dom().contains(id) ==> after.dom().contains(id) && after[id].last_commanded_pwm
                == fans[id].last_commanded_pwm
            &&& !fans.dom().contains(id) && after.dom().contains(id)
                ==> after[id].last_commanded_pwm is None
        }),
    decreases batch.len(),
{
    if batch.len() > 0 {
        let front = batch.drop_last();
        assert forall|k: int| 0 <= k < front.len() && (#[trigger] front[k]).channel
            == id implies front[k].last_commanded_pwm is None by {
            assert(front[k] == batch[k]);
        }
        polls_of_channels_keep_the_commands(fans, front, id);
        assert(batch[batch.len() - 1] == batch.last());
    }
}

/// A command that a reading gives replaces the known one, and stays through the readings
/// behind it that give none.
pub proof fn a_command_of_channels_replaces_the_known_one(
    fans: Map<u8, OpenFanState>,
    batch: Seq<OpenFanState>,
    k: int,
)
    requires
        0 <= k < batch.len(),
        batch[k].last_commanded_pwm is Some,
        forall|j: int|
            k < j < batch.len() && (#[trigger] batch[j]).channel == batch[k].channel
                ==> batch[j].last_commanded_pwm is None,
    ensures
        with_openfan(fans, batch).dom().contains(batch[k].channel),
        with_openfan(fans, batch)[batch[k].channel].last_commanded_pwm == batch[k].last_commanded_pwm,
    decreases batch.len(),
{
    let front = batch.drop_last();
    if k < front.len() {
        assert forall|j: int|
            k < j < front.len() && (#[trigger] front[j]).channel
                == front[k].channel implies front[j].last_commanded_pwm is None by {
            assert(front[j] == batch[j]);
        }
        a_command_of_channels_replaces_the_known_one(fans, front, k);
        assert(batch[batch.len() - 1] == batch.last());
    }
}

/// Headers that a batch does not name stay as they were; one that it names last has the
/// speed, the command and the time of that update.
pub proof fn updates_of_headers_touch_no_other(
    fans: Map<Seq<char>, HwmonFanState>,
    batch: Seq<HwmonFanState>,
    id: Seq<char>,
)
    ensures
        ({
            let after = with_hwmon(fans, batch);
            &&& (forall|k: int| 0 <= k < batch.len() ==> (#[trigger] batch[k]).id@ != id) ==> {
                &&& after.dom().contains(id) <==> fans.dom().contains(id)
                &&& fans.dom().contains(id) ==> after[id] == fans[id]
            }
            &&& forall|k: int|
                0 <= k < batch.len() && (#[trigger] batch[k]).id@ == id && (forall|j: int|
                    k < j < batch.len() ==> (#[trigger] batch[j]).id@ != id) ==> {
                    &&& after.dom().contains(id)
                    &&& after[id].rpm == batch[k].rpm
                    &&& after[id].last_commanded_pwm == batch[k].last_commanded_pwm
                    &&& after[id].updated_at == batch[k].updated_at
                    &&& batch[k].alarm is Some ==> after[id].alarm == batch[k].alarm
                    &&& batch[k].pwm_enable_mode is Some ==> after[id].pwm_enable_mode
                        == batch[k].pwm_enable_mode
                    &&& batch[k].pwm_readback_pct is Some ==> after[id].pwm_readback_pct
                        == batch[k].pwm_readback_pct
                }
            &&& fans.dom().contains(id) && (forall|k: int|
                0 <= k < batch.len() && (#[trigger] batch[k]).id@ == id ==> batch[k].alarm is None
                    && batch[k].pwm_enable_mode is None && batch[k].pwm_readback_pct is None)
                ==> {
                &&& after.dom().contains(id)
                &&& after[id].alarm == fans[id].alarm
                &&& after[id].pwm_enable_mode == fans[id].pwm_enable_mode
                &&& after[id].pwm_readback_pct == fans[id].pwm_readback_pct
            }
        }),
    decreases batch.len(),
{
    if batch.len() > 0 {
        let front = batch.drop_last();
        updates_of_headers_touch_no_other(fans, front, id);
        assert forall|k: int| 0 <= k < front.len() implies #[trigger] front[k] == batch[k] by {}
        let last = batch.last();
        let mid = with_hwmon(fans, front);
        let after = with_hwmon(fans, batch);
        assert(after == mid.insert(last.id@, merged_hwmon(mid, last)));
        assert(batch[batch.len() - 1] == last);
        assert forall|k: int|
            0 <= k < batch.len() && (#[trigger] batch[k]).id@ == id && (forall|j: int|
                k < j < batch.len() ==> (#[trigger] batch[j]).id@ != id) implies {
            &&& after.dom().contains(id)
            &&& after[id].rpm == batch[k].rpm
            &&& after[id].last_commanded_pwm == batch[k].last_commanded_pwm
            &&& after[id].updated_at == batch[k].updated_at
            &&& batch[k].alarm is Some ==> after[id].alarm == batch[k].alarm
            &&& batch[k].pwm_enable_mode is Some ==> after[id].pwm_enable_mode
                == batch[k].pwm_enable_mode
            &&& batch[k].pwm_readback_pct is Some ==> after[id].pwm_readback_pct
                == batch[k].pwm_readback_pct
        } by {
            if k < front.len() {
                assert(last.id@ != id);
                assert(front[k].id@ == id);
            }
        }
    }
}

/// Sensors that a batch does not read keep their reading.
pub proof fn sensors_that_are_not_read_stay<F>(
    sensors: Map<Seq<char>, CachedSensorReading<F>>,
    batch: Seq<CachedSensorReading<F>>,
    rates: Seq<Option<F>>,
    id: Seq<char>,
)
    requires
        forall|k: int| 0 <= k < batch.len() ==> (#[trigger] batch[k]).id@ != id,
    ensures
        with_sensors(sensors, batch, rates).dom().contains(id) <==> sensors.dom().contains(id),
        sensors.dom().contains(id) ==> with_sensors(sensors, batch, rates)[id] == sensors[id],
    decreases batch.len(),
{
    if batch.len() > 0 {
        let front = batch.drop_last();
        assert forall|k: int| 0 <= k < front.len() implies (#[trigger] front[k]).id@ != id by {
            assert(front[k] == batch[k]);
        }
        sensors_that_are_not_read_stay(sensors, front, rates.drop_last(), id);
        assert(batch[batch.len() - 1].id@ != id);
    }
}

/// The extremes of the session hold every temperature of a batch, and those that were known
/// before it.
pub proof fn the_session_holds_every_reading<F>(
    sensors: Map<Seq<char>, CachedSensorReading<F>>,
    batch: Seq<CachedSensorReading<F>>,
    rates: Seq<Option<F>>,
    k: int,
)
    requires
        0 <= k < batch.len(),
    ensures
        ({
            let after = with_sensors(sensors, batch, rates);
            let id = batch[k].id@;
            &&& after.dom().contains(id)
            &&& after[id].session_min_mc is Some && after[id].session_max_mc is Some
            &&& after[id].session_min_mc->0 <= batch[k].value_mc <= after[id].session_max_mc->0
            &&& sensors.dom().contains(id) && sensors[id].session_min_mc is Some
                && sensors[id].session_max_mc is Some ==> after[id].session_min_mc->0
                <= sensors[id].session_min_mc->0 && after[id].session_max_mc->0
                >= sensors[id].session_max_mc->0
        }),
    decreases batch.len(),
{
    let front = batch.drop_last();
    let id = batch[k].id@;
    if k < front.len() {
        the_session_holds_every_reading(sensors, front, rates.drop_last(), k);
    } else {
        lemma_known_extremes_stay(sensors, front, rates.drop_last(), id);
    }
}

proof fn lemma_known_extremes_stay<F>(
    sensors: Map<Seq<char>, CachedSensorReading<F>>,
    batch: Seq<CachedSensorReading<F>>,
    rates: Seq<Option<F>>,
    id: Seq<char>,
)
    ensures
        sensors.dom().contains(id) && sensors[id].session_min_mc is Some
            && sensors[id].session_max_mc is Some ==> {
            let after = with_sensors(sensors, batch, rates);
            &&& after.dom().contains(id)
            &&& after[id].session_min_mc is Some && after[id].session_max_mc is Some
            &&& after[id].session_min_mc->0 <= sensors[id].session_min_mc->0
            &&& after[id].session_max_mc->0 >= sensors[id].session_max_mc->0
        },
    decreases batch.len(),
{
    if batch.len() > 0 {
        lemma_known_extremes_stay(sensors, batch.drop_last(), rates.drop_last(), id);
    }
}

/// A sensor that a batch reads has what its last reading there says, and the rate that was
/// computed for that one.
pub proof fn the_last_reading_of_a_sensor_counts<F>(
    sensors: Map<Seq<char>, CachedSensorReading<F>>,
    batch: Seq<CachedSensorReading<F>>,
    rates: Seq<Option<F>>,
    k: int,
)
    requires
        rates.len() == batch.len(),
        0 <= k < batch.len(),
        forall|j: int| k < j < batch.len() ==> (#[trigger] batch[j]).id@ != batch[k].id@,
    ensures
        ({
            let after = with_sensors(sensors, batch, rates);
            let id = batch[k].id@;
            &&& after.dom().contains(id)
            &&& after[id].value_mc == batch[k].value_mc
            &&& after[id].updated_at == batch[k].updated_at
            &&& after[id].kind == batch[k].kind
            &&& after[id].label == batch[k].label
            &&& after[id].source == batch[k].source
            &&& rates[k] is Some ==> after[id].rate_c_per_s == rates[k]
            &&& rates[k] is None ==> after[id].rate_c_per_s == batch[k].rate_c_per_s
        }),
    decreases batch.len(),
{
    let front = batch.drop_last();
    let r = rates.drop_last();
    if k < front.len() {
        assert forall|j: int| k < j < front.len() implies (#[trigger] front[j]).id@
            != front[k].id@ by {
            assert(front[j] == batch[j]);
        }
        the_last_reading_of_a_sensor_counts(sensors, front, r, k);
        assert(batch[batch.len() - 1].id@ != batch[k].id@);
        assert(r[k] == rates[k]);
    }
}

/// The extremes of the session are temperatures that were read: the first reading is both,
/// and a later one changes an extreme only to its own temperature.
pub proof fn the_session_invents_no_extreme<F>(
    sensors: Map<Seq<char>, CachedSensorReading<F>>,
    reading: CachedSensorReading<F>,
    rate: Option<F>,
)
    ensures
        ({
            let m = merged_sensor(sensors, reading, rate);
            &&& !sensors.dom().contains(reading.id@) ==> m.session_min_mc == Some(reading.value_mc)
                && m.session_max_mc == Some(reading.value_mc)
            &&& sensors.dom().contains(reading.id@) ==> {
                let prev = sensors[reading.id@];
                &&& m.session_min_mc == Some(reading.value_mc) || m.session_min_mc
                    == prev.session_min_mc
                &&& m.session_max_mc == Some(reading.value_mc) || m.session_max_mc
                    == prev.session_max_mc
            }
        }),
{
}

/// A rate is computed exactly where a reading before it is known that is more than a tenth
/// of a second old; and it is computed from the two temperatures, the time between them
/// and the rate before.
pub proof fn a_rate_needs_a_tenth_of_a_second<F>(
    sensors: Map<Seq<char>, CachedSensorReading<F>>,
    reading: CachedSensorReading<F>,
    now: Instant,
)
    ensures
        ({
            let step = rate_step(sensors, reading, now);
            let prev = sensors[reading.id@];
            &&& step is Some <==> sensors.dom().contains(reading.id@) && now.nanos_since(
                prev.updated_at,
            ) > 100_000_000
            &&& step matches Some(s) ==> s.value_mc == reading.value_mc && s.previous_mc
                == prev.value_mc && s.elapsed.nanos == now.nanos_since(prev.updated_at)
                && s.previous_rate == prev.rate_c_per_s
        }),
{
}

/// The channels that a batch misses: those that were ever read and that it does not read.
pub open spec fn missed_set(fans: Map<u8, OpenFanState>, batch: Seq<OpenFanState>, n: int) -> Set<
    int,
> {
    Set::new(
        |ch: int|
            0 <= ch < n && ch < 256 && fans.dom().contains(ch as u8) && fans[ch as u8].rpm_polled
                && forall|k: int|
                0 <= k < batch.len() ==> (#[trigger] batch[k]).channel != fans[ch as u8].channel,
    )
}

/// As many channels are told as missed as were ever read and are not in the batch, each
/// once.
pub proof fn missed_channels_are_counted_once(
    fans: Map<u8, OpenFanState>,
    batch: Seq<OpenFanState>,
    n: int,
)
    requires
        0 <= n <= 256,
    ensures
        missed_set(fans, batch, n).finite(),
        missed_channels(fans, batch, n) == missed_set(fans, batch, n).len(),
    decreases n,
{
    if n == 0 {
        assert(missed_set(fans, batch, n) =~= Set::empty());
    } else {
        missed_channels_are_counted_once(fans, batch, n - 1);
        let before = missed_set(fans, batch, n - 1);
        let all = missed_set(fans, batch, n);
        let ch = (n - 1) as u8;
        if fans.dom().contains(ch) && fans[ch].rpm_polled && !covers(batch, fans[ch].channel) {
            assert(all =~= before.insert(n - 1));
        } else {
            if fans.dom().contains(ch) && fans[ch].rpm_polled {
                let k = choose|k: int|
                    0 <= k < batch.len() && (#[trigger] batch[k]).channel == fans[ch].channel;
                assert(batch[k].channel == fans[ch].channel);
            }
            assert(all =~= before);
        }
    }
}

/// How long a CPU reading stays current: five seconds for a poll of up to a second, five
/// polls up to thirty seconds, thirty seconds for a slower poll, and one poll where even
/// that is longer.
pub proof fn a_cpu_reading_stays_current_for_five_polls(interval_ms: int)
    ensures
        interval_ms <= 1_000 ==> stale_budget_ms(interval_ms) == 5_000,
        1_000 <= interval_ms <= 6_000 ==> stale_budget_ms(interval_ms) == 5 * interval_ms,
        6_000 <= interval_ms <= 30_000 ==> stale_budget_ms(interval_ms) == 30_000,
        30_000 <= interval_ms ==> stale_budget_ms(interval_ms) == interval_ms,
{
}

/// Each event changes its counter, and no two in a row leave it where it was.
pub proof fn counters_tell_events_apart(n: u64)
    ensures
        counted(n) != n,
        counted(counted(n)) != n,
        n < u64::MAX ==> counted(n) == n + 1,
{
}

/// A holder that renews its claim keeps it until the new window ends, and one that ends it
/// frees it at once; each claim has a number of its own, and no more than the claim is
/// changed.
pub proof fn a_claim_is_renewed_and_ended_by_its_number<F>(
    state: DaemonView<F>,
    window: Duration,
    now: Instant,
    more: Duration,
    renewed_at: Instant,
    later: Instant,
)
    requires
        verify_begun(state, window, now).0 is Some,
    ensures
        ({
            let epoch = verify_begun(state, window, now).0->0;
            let claimed = verify_begun(state, window, now).1;
            let renewed = verify_renewed(claimed, epoch, more, renewed_at);
            let ended = verify_ended(renewed, epoch);
            &&& epoch != state.verify_epoch
            &&& claimed.verify_epoch == epoch
            &&& verify_held(claimed, later) <==> later.nanos < now.later(window).nanos
            &&& verify_held(renewed, later) <==> later.nanos < renewed_at.later(more).nanos
            &&& !verify_held(ended, later)
            &&& verify_begun(ended, window, later).0 is Some
            &&& ended.sensors == state.sensors && ended.hwmon_fans == state.hwmon_fans
                && ended.gpu_fans == state.gpu_fans && ended.openfan_fans == state.openfan_fans
                && ended.subsystem_timestamps == state.subsystem_timestamps
        }),
{
}

/// A reading has a rate exactly where there is a step from an earlier one, and the rate is
/// one that the step gives.
pub proof fn a_rate_comes_from_a_step<F, S: Fn(RateStep<F>) -> F>(
    smooth: S,
    step: Option<RateStep<F>>,
    rate: Option<F>,
)
    ensures
        step is None ==> (rate_follows(smooth, step, rate) <==> rate is None),
        rate_follows(smooth, step, rate) ==> (rate is Some <==> step is Some),
        step is Some && rate is Some ==> (rate_follows(smooth, step, rate) <==> smooth.ensures(
            (step->0,),
            rate->0,
        )),
{
}

} // verus!

//! How current the daemon's knowledge is, and what that says of its health.
//!
//! Health is a function of the state, the expected intervals and the time.

use crate::clock::Instant;
use crate::health::state::{DaemonState, OpenFanState, SkippedControl, SubsystemTimestamps};
use crate::text;
use crate::text::decimal_of;
use vstd::prelude::*;
use vstd::std_specs::hash::*;
use vstd::string::*;

verus! {

/// How well a part of the daemon, or all of it, does.
#[derive(Debug, Clone, Copy, PartialEq, Eq, PartialOrd, Ord, Hash, Structural)]
pub enum HealthStatus {
    /// All is as expected.
    Okay,
    /// Data is stale, but not critically so.
    Warn,
    /// Data is critically stale, or the part has failed.
    Crit,
}

impl HealthStatus {
    /// How bad the status is.
    pub open spec fn rank(self) -> int {
        match self {
            HealthStatus::Okay => 0,
            HealthStatus::Warn => 1,
            HealthStatus::Crit => 2,
        }
    }

    /// The worse of two.
    pub open spec fn worse(self, other: HealthStatus) -> HealthStatus {
        if other.rank() > self.rank() {
            other
        } else {
            self
        }
    }

    /// The name under which the status is published.
    pub open spec fn name(self) -> Seq<char> {
        match self {
            HealthStatus::Okay => "ok"@,
            HealthStatus::Warn => "warn"@,
            HealthStatus::Crit => "crit"@,
        }
    }

    /// The name under which the status is published.
    pub fn as_str(self) -> (r: &'static str)
        ensures
            r@ == self.name(),
    {
        match self {
            HealthStatus::Okay => "ok",
            HealthStatus::Warn => "warn",
            HealthStatus::Crit => "crit",
        }
    }

    fn severity(self) -> (r: u8)
        ensures
            r == self.rank(),
    {
        match self {
            HealthStatus::Okay => 0,
            HealthStatus::Warn => 1,
            HealthStatus::Crit => 2,
        }
    }

    /// The worse of two.
    pub fn worst(self, other: HealthStatus) -> (r: HealthStatus)
        ensures
            r == self.worse(other),
    {
        if other.severity() > self.severity() {
            other
        } else {
            self
        }
    }
}

/// Whether a fan controller is attached. The state cannot say: it has no channels
/// without one, and none before the first poll of one either.
#[derive(Debug, Clone, Copy, PartialEq, Eq, Structural)]
pub enum OpenFanPresence {
    /// A controller is attached, so it should be polled.
    Present,
    /// There is none, so nothing can be stale.
    Absent,
}

/// The health of one part of the daemon.
#[derive(Debug)]
pub struct SubsystemHealth {
    /// The name of the part.
    pub name: String,
    /// How it does.
    pub status: HealthStatus,
    /// How long ago it last did its work, in milliseconds.
    pub age_ms: Option<u64>,
    /// Why it does so.
    pub reason: String,
}

/// What a `SubsystemHealth` says.
pub struct SubsystemView {
    pub name: Seq<char>,
    pub status: HealthStatus,
    pub age_ms: Option<int>,
    pub reason: Seq<char>,
}

impl View for SubsystemHealth {
    type V = SubsystemView;

    open spec fn view(&self) -> SubsystemView {
        SubsystemView {
            name: self.name@,
            status: self.status,
            age_ms: match self.age_ms {
                Some(ms) => Some(ms as int),
                None => None,
            },
            reason: self.reason@,
        }
    }
}

/// The health of the daemon.
#[derive(Debug)]
pub struct HealthSummary {
    /// The worst status of all parts.
    pub overall: HealthStatus,
    /// The parts.
    pub subsystems: Vec<SubsystemHealth>,
}

/// How often each part should do its work, in milliseconds.
#[derive(Debug, Clone, Copy, PartialEq, Eq, Structural)]
pub struct StalenessConfig {
    /// The poll interval of the fan controller.
    pub openfan_interval_ms: u64,
    /// The poll interval of the hwmon sensors.
    pub hwmon_interval_ms: u64,
    /// The tick interval of the engine.
    pub engine_interval_ms: u64,
}

impl Default for StalenessConfig {
    fn default() -> (r: Self)
        ensures
            r.openfan_interval_ms == 1000,
            r.hwmon_interval_ms == 1000,
            r.engine_interval_ms == 1000,
    {
        StalenessConfig { openfan_interval_ms: 1000, hwmon_interval_ms: 1000, engine_interval_ms: 1000 }
    }
}

// ---------------------------------------------------------------------------
// Age
// ---------------------------------------------------------------------------

/// How old a stamp is, in milliseconds.
pub open spec fn age_of(stamp: Option<Instant>, now: Instant) -> Option<int> {
    match stamp {
        Some(t) => Some(now.millis_since(t)),
        None => None,
    }
}

/// What an age says: fine up to two intervals, stale up to five, critical beyond.
pub open spec fn age_status(age_ms: int, interval_ms: int) -> HealthStatus {
    if age_ms <= interval_ms * 2 {
        HealthStatus::Okay
    } else if age_ms <= interval_ms * 5 {
        HealthStatus::Warn
    } else {
        HealthStatus::Crit
    }
}

/// What the age of a stamp says; one that was never set is critical.
pub open spec fn staleness(stamp: Option<Instant>, now: Instant, interval_ms: int) -> HealthStatus {
    match stamp {
        Some(t) => age_status(now.millis_since(t), interval_ms),
        None => HealthStatus::Crit,
    }
}

fn age_ms(stamp: Option<Instant>, now: Instant) -> (r: Option<u64>)
    ensures
        match r {
            Some(ms) => age_of(stamp, now) == Some(ms as int),
            None => age_of(stamp, now) is None,
        },
{
    match stamp {
        Some(t) => Some(now.saturating_duration_since(t).whole_millis()),
        None => None,
    }
}

fn evaluate_age(age_ms: u64, interval_ms: u64) -> (r: HealthStatus)
    ensures
        r == age_status(age_ms as int, interval_ms as int),
{
    let age: u128 = age_ms as u128;
    if age <= interval_ms as u128 * 2 {
        HealthStatus::Okay
    } else if age <= interval_ms as u128 * 5 {
        HealthStatus::Warn
    } else {
        HealthStatus::Crit
    }
}

/// What the age of a stamp says: fine up to two intervals, stale up to five, critical
/// beyond or if it was never set.
pub fn evaluate_staleness(stamp: Option<Instant>, now: Instant, interval_ms: u64) -> (r:
    HealthStatus)
    ensures
        r == staleness(stamp, now, interval_ms as int),
{
    match stamp {
        Some(t) => evaluate_age(now.saturating_duration_since(t).whole_millis(), interval_ms),
        None => HealthStatus::Crit,
    }
}

/// An older stamp never looks better: staleness only rises as time passes.
pub proof fn staleness_never_falls(
    stamp: Option<Instant>,
    now: Instant,
    later: Instant,
    interval_ms: int,
)
    requires
        now.nanos <= later.nanos,
    ensures
        staleness(stamp, now, interval_ms).rank() <= staleness(stamp, later, interval_ms).rank(),
{
}

// ---------------------------------------------------------------------------
// The engine
// ---------------------------------------------------------------------------

/// How many intervals a tick may take before it counts as stuck and not as slow.
pub const WEDGED_TICK_MULTIPLE: u32 = 30;

/// A tick that has begun and not finished: the last finish, if any, lies before it.
pub open spec fn tick_running(started: Instant, completed: Option<Instant>) -> bool {
    match completed {
        Some(done) => done.nanos < started.nanos,
        None => true,
    }
}

/// What a write that has not returned for `stalled_ms` says: nothing up to two
/// intervals, slow up to thirty, stuck beyond.
pub open spec fn stall_status(stalled_ms: int, interval_ms: int) -> HealthStatus {
    if stalled_ms > interval_ms * WEDGED_TICK_MULTIPLE {
        HealthStatus::Crit
    } else if stalled_ms > interval_ms * 2 {
        HealthStatus::Warn
    } else {
        HealthStatus::Okay
    }
}

/// The stamp that the engine's age is counted from: its last finish, else its start.
pub open spec fn engine_stamp(started: Option<Instant>, completed: Option<Instant>) -> Option<
    Instant,
> {
    match completed {
        Some(done) => Some(done),
        None => started,
    }
}

/// A report on the engine.
pub open spec fn engine_view(status: HealthStatus, reason: Seq<char>, age_ms: Option<int>) -> SubsystemView {
    SubsystemView { name: "engine"@, status, age_ms, reason }
}

/// What is reported of the engine. A write that does not return comes first: the
/// engine ticks on over it, but nothing reaches the fans. Then a running tick is judged
/// by how long it has been running, and an idle engine by its last finish. An engine
/// that never began a tick has no age.
pub open spec fn engine_report(
    started: Option<Instant>,
    completed: Option<Instant>,
    stalled_since: Option<Instant>,
    now: Instant,
    interval_ms: int,
) -> SubsystemView {
    let age = age_of(engine_stamp(started, completed), now);
    let stall = match stalled_since {
        Some(t) => stall_status(now.millis_since(t), interval_ms),
        None => HealthStatus::Okay,
    };
    match stall {
        HealthStatus::Crit => engine_view(
            HealthStatus::Crit,
            "writes wedged — a backend write has not returned and nothing is reaching those fans"@,
            age,
        ),
        HealthStatus::Warn => engine_view(
            HealthStatus::Warn,
            "a backend write has not returned yet — it is still in flight"@,
            age,
        ),
        HealthStatus::Okay => match started {
            None => engine_view(HealthStatus::Crit, "never ticked"@, None),
            Some(start) => if tick_running(start, completed) {
                running_report(now.millis_since(start), interval_ms, age)
            } else {
                idle_report(staleness(completed, now, interval_ms), age)
            },
        },
    }
}

/// What is reported of a tick that has been running for `running_ms`.
pub open spec fn running_report(running_ms: int, interval_ms: int, age: Option<int>) -> SubsystemView {
    if running_ms <= interval_ms * 2 {
        engine_view(HealthStatus::Okay, "evaluating on schedule"@, age)
    } else if running_ms <= interval_ms * WEDGED_TICK_MULTIPLE {
        engine_view(
            HealthStatus::Warn,
            "tick still running — a slow write is holding it up"@,
            age,
        )
    } else {
        engine_view(HealthStatus::Crit, "tick stuck — the engine has not finished a pass"@, age)
    }
}

/// What is reported of an engine between ticks.
pub open spec fn idle_report(status: HealthStatus, age: Option<int>) -> SubsystemView {
    match status {
        HealthStatus::Okay => engine_view(status, "evaluating on schedule"@, age),
        HealthStatus::Warn => engine_view(status, "tick overdue"@, age),
        HealthStatus::Crit => engine_view(
            status,
            "not ticking — fan control and thermal safety are stalled"@,
            age,
        ),
    }
}

fn engine_entry(status: HealthStatus, reason: &str, age_ms: Option<u64>) -> (r: SubsystemHealth)
    ensures
        r.name@ == "engine"@,
        r.status == status,
        r.age_ms == age_ms,
        r.reason@ == reason@,
{
    SubsystemHealth { name: "engine".to_owned(), status, age_ms, reason: reason.to_owned() }
}

/// The health of the engine. A slow tick is not a stopped engine: writing to every
/// channel over a poor link takes many intervals, and the engine may be driving the
/// fans through an emergency just then.
pub fn engine_health(
    started: Option<Instant>,
    completed: Option<Instant>,
    stalled_since: Option<Instant>,
    now: Instant,
    interval_ms: u64,
) -> (r: SubsystemHealth)
    ensures
        r@ == engine_report(started, completed, stalled_since, now, interval_ms as int),
{
    let wedged: u128 = interval_ms as u128 * 30;
    let slow: u128 = interval_ms as u128 * 2;
    let last: Option<Instant> = match completed {
        Some(done) => Some(done),
        None => started,
    };
    let age: Option<u64> = age_ms(last, now);
    if let Some(t) = stalled_since {
        let stalled: u128 = now.saturating_duration_since(t).whole_millis() as u128;
        if stalled > wedged {
            return engine_entry(
                HealthStatus::Crit,
                "writes wedged — a backend write has not returned and nothing is reaching those fans",
                age,
            );
        } else if stalled > slow {
            return engine_entry(
                HealthStatus::Warn,
                "a backend write has not returned yet — it is still in flight",
                age,
            );
        }
    }
    let start: Instant = match started {
        Some(s) => s,
        None => {
            return engine_entry(HealthStatus::Crit, "never ticked", None);
        },
    };
    let running: bool = match completed {
        Some(done) => done.nanos < start.nanos,
        None => true,
    };
    if running {
        let running_ms: u128 = now.saturating_duration_since(start).whole_millis() as u128;
        if running_ms <= slow {
            engine_entry(HealthStatus::Okay, "evaluating on schedule", age)
        } else if running_ms <= wedged {
            engine_entry(
                HealthStatus::Warn,
                "tick still running — a slow write is holding it up",
                age,
            )
        } else {
            engine_entry(HealthStatus::Crit, "tick stuck — the engine has not finished a pass", age)
        }
    } else {
        match evaluate_staleness(completed, now, interval_ms) {
            HealthStatus::Okay => engine_entry(HealthStatus::Okay, "evaluating on schedule", age),
            HealthStatus::Warn => engine_entry(HealthStatus::Warn, "tick overdue", age),
            HealthStatus::Crit => engine_entry(
                HealthStatus::Crit,
                "not ticking — fan control and thermal safety are stalled",
                age,
            ),
        }
    }
}

// ---------------------------------------------------------------------------
// What is polled
// ---------------------------------------------------------------------------

/// The earliest of the points in time.
pub open spec fn oldest(times: Seq<Instant>) -> Option<Instant>
    decreases times.len(),
{
    if times.len() == 0 {
        None
    } else {
        match oldest(times.drop_last()) {
            Some(t) => if times.last().nanos < t.nanos {
                Some(times.last())
            } else {
                Some(t)
            },
            None => Some(times.last()),
        }
    }
}

/// How many of the points in time are not current.
pub open spec fn stale_count(times: Seq<Instant>, now: Instant, interval_ms: int) -> nat
    decreases times.len(),
{
    if times.len() == 0 {
        0
    } else {
        let before = stale_count(times.drop_last(), now, interval_ms);
        if staleness(Some(times.last()), now, interval_ms) != HealthStatus::Okay {
            before + 1
        } else {
            before
        }
    }
}

/// What the oldest reading says; no reading says nothing against the poll.
pub open spec fn freshness(times: Seq<Instant>, now: Instant, interval_ms: int) -> HealthStatus {
    match oldest(times) {
        Some(t) => staleness(Some(t), now, interval_ms),
        None => HealthStatus::Okay,
    }
}

/// The age of what is polled: the greater of the poll's and the oldest reading's. One
/// that was never polled has none.
pub open spec fn poll_age(
    last_update: Option<Instant>,
    times: Seq<Instant>,
    now: Instant,
) -> Option<int> {
    match last_update {
        None => None,
        Some(t) => match oldest(times) {
            None => Some(now.millis_since(t)),
            Some(o) => Some(
                if now.millis_since(o) > now.millis_since(t) {
                    now.millis_since(o)
                } else {
                    now.millis_since(t)
                },
            ),
        },
    }
}

/// Why the status is what it is. Where the readings are worse than the poll, the
/// readings are named; that the poll is running is said only where it is fine.
pub open spec fn poll_reason(
    last_update: Option<Instant>,
    times: Seq<Instant>,
    now: Instant,
    interval_ms: int,
) -> Seq<char> {
    let live = staleness(last_update, now, interval_ms);
    let fresh = freshness(times, now, interval_ms);
    let counts = text::decimal(stale_count(times, now, interval_ms)) + " of "@ + text::decimal(
        times.len(),
    );
    if fresh.rank() > live.rank() && live == HealthStatus::Okay {
        counts + " readings stale — the poll loop is running but is not refreshing them"@
    } else if fresh.rank() > live.rank() {
        counts + " readings older than the poll itself"@
    } else {
        match live {
            HealthStatus::Okay => "readings fresh"@,
            HealthStatus::Warn => "readings stale"@,
            HealthStatus::Crit => if last_update is None {
                "never received data"@
            } else {
                "readings critically stale"@
            },
        }
    }
}

/// What is reported of a part that polls: the worse of whether the poll runs and
/// whether its readings are current.
pub open spec fn poll_report(
    name: Seq<char>,
    last_update: Option<Instant>,
    times: Seq<Instant>,
    now: Instant,
    interval_ms: int,
) -> SubsystemView {
    SubsystemView {
        name,
        status: staleness(last_update, now, interval_ms).worse(freshness(times, now, interval_ms)),
        age_ms: poll_age(last_update, times, now),
        reason: poll_reason(last_update, times, now, interval_ms),
    }
}

fn counts_text(stale: usize, total: usize, rest: &str) -> (r: String)
    ensures
        r@ == text::decimal(stale as nat) + " of "@ + text::decimal(total as nat) + rest@,
{
    let mut r: String = decimal_of(stale as u64);
    r.append(" of ");
    r.append(decimal_of(total as u64).as_str());
    r.append(rest);
    r
}

/// The health of a part that polls. A poll that returns is not yet data: it may leave
/// some readings out, and they age. So both questions are answered, and the worse
/// answer is reported.
pub fn poll_subsystem_health(
    name: &str,
    last_update: Option<Instant>,
    item_times: &Vec<Instant>,
    now: Instant,
    interval_ms: u64,
) -> (r: SubsystemHealth)
    ensures
        r@ == poll_report(name@, last_update, item_times@, now, interval_ms as int),
{
    let liveness: HealthStatus = evaluate_staleness(last_update, now, interval_ms);
    let mut first: Option<Instant> = None;
    let mut stale_items: usize = 0;
    let mut i: usize = 0;
    while i < item_times.len()
        invariant
            i <= item_times.len(),
            first == oldest(item_times@.take(i as int)),
            stale_items == stale_count(item_times@.take(i as int), now, interval_ms as int),
            stale_items <= i,
        decreases item_times.len() - i,
    {
        let t: Instant = item_times[i];
        assert(item_times@.take(i + 1).drop_last() =~= item_times@.take(i as int));
        assert(item_times@.take(i + 1).last() == t);
        match evaluate_staleness(Some(t), now, interval_ms) {
            HealthStatus::Okay => {},
            _ => {
                stale_items += 1;
            },
        }
        first = match first {
            Some(o) => if t.nanos < o.nanos {
                Some(t)
            } else {
                Some(o)
            },
            None => Some(t),
        };
        i += 1;
    }
    assert(item_times@.take(i as int) =~= item_times@);
    let fresh: HealthStatus = match first {
        Some(t) => evaluate_staleness(Some(t), now, interval_ms),
        None => HealthStatus::Okay,
    };
    let age: Option<u64> = match (age_ms(last_update, now), age_ms(first, now)) {
        (None, _) => None,
        (Some(stamp), None) => Some(stamp),
        (Some(stamp), Some(item)) => Some(
            if item > stamp {
                item
            } else {
                stamp
            },
        ),
    };
    let reason: String = if fresh.severity() > liveness.severity() && liveness.severity() == 0 {
        counts_text(
            stale_items,
            item_times.len(),
            " readings stale — the poll loop is running but is not refreshing them",
        )
    } else if fresh.severity() > liveness.severity() {
        counts_text(stale_items, item_times.len(), " readings older than the poll itself")
    } else {
        match liveness {
            HealthStatus::Okay => "readings fresh".to_owned(),
            HealthStatus::Warn => "readings stale".to_owned(),
            HealthStatus::Crit => if last_update.is_none() {
                "never received data".to_owned()
            } else {
                "readings critically stale".to_owned()
            },
        }
    };
    SubsystemHealth { name: name.to_owned(), status: liveness.worst(fresh), age_ms: age, reason }
}

/// What is polled is reported no better than the poll and no better than any single
/// reading.
pub proof fn poll_status_covers_every_reading(
    name: Seq<char>,
    last_update: Option<Instant>,
    times: Seq<Instant>,
    now: Instant,
    interval_ms: int,
    i: int,
)
    requires
        0 <= i < times.len(),
    ensures
        ({
            let status = poll_report(name, last_update, times, now, interval_ms).status;
            &&& status.rank() >= staleness(last_update, now, interval_ms).rank()
            &&& status.rank() >= staleness(Some(times[i]), now, interval_ms).rank()
        }),
{
    lemma_oldest(times, i);
}

proof fn lemma_oldest(times: Seq<Instant>, i: int)
    requires
        0 <= i < times.len(),
    ensures
        oldest(times) is Some,
        oldest(times)->0.nanos <= times[i].nanos,
    decreases times.len(),
{
    if i < times.len() - 1 {
        lemma_oldest(times.drop_last(), i);
    } else if times.len() > 1 {
        lemma_oldest(times.drop_last(), 0);
    }
}

// ---------------------------------------------------------------------------
// The controls
// ---------------------------------------------------------------------------

/// The longest time, in milliseconds, that one of the controls has been skipped.
pub open spec fn longest_skip(skipped: Seq<SkippedControl>, now: Instant) -> Option<int>
    decreases skipped.len(),
{
    if skipped.len() == 0 {
        None
    } else {
        let last = now.millis_since(skipped.last().since);
        match longest_skip(skipped.drop_last(), now) {
            Some(ms) => Some(
                if last > ms {
                    last
                } else {
                    ms
                },
            ),
            None => Some(last),
        }
    }
}

/// What is reported of the controls: a warning where some are skipped, for their fans
/// then hold their last speed; never worse, for the thermal safety rule does not go
/// through the controls.
pub open spec fn controls_report(skipped: Seq<SkippedControl>, now: Instant) -> SubsystemView {
    if skipped.len() == 0 {
        SubsystemView {
            name: "controls"@,
            status: HealthStatus::Okay,
            age_ms: None,
            reason: "every control resolves to a curve"@,
        }
    } else {
        SubsystemView {
            name: "controls"@,
            status: HealthStatus::Warn,
            age_ms: longest_skip(skipped, now),
            reason: text::decimal(skipped.len()) + " "@ + (if skipped.len() == 1 {
                "control"@
            } else {
                "controls"@
            }) + " not being commanded — their fans hold their last speed"@,
        }
    }
}

/// The health of the controls that the engine answers for. Its age is the longest skip,
/// so that one that comes and goes does not hide one that stays.
pub fn controls_health(skipped: &Vec<SkippedControl>, now: Instant) -> (r: SubsystemHealth)
    ensures
        r@ == controls_report(skipped@, now),
{
    let mut age: Option<u64> = None;
    let mut i: usize = 0;
    while i < skipped.len()
        invariant
            i <= skipped.len(),
            match age {
                Some(ms) => longest_skip(skipped@.take(i as int), now) == Some(ms as int),
                None => longest_skip(skipped@.take(i as int), now) is None,
            },
        decreases skipped.len() - i,
    {
        assert(skipped@.take(i + 1).drop_last() =~= skipped@.take(i as int));
        let ms: u64 = now.saturating_duration_since(skipped[i].since).whole_millis();
        age = match age {
            Some(longest) => Some(
                if ms > longest {
                    ms
                } else {
                    longest
                },
            ),
            None => Some(ms),
        };
        i += 1;
    }
    assert(skipped@.take(i as int) =~= skipped@);
    if skipped.len() == 0 {
        return SubsystemHealth {
            name: "controls".to_owned(),
            status: HealthStatus::Okay,
            age_ms: None,
            reason: "every control resolves to a curve".to_owned(),
        };
    }
    let mut reason: String = decimal_of(skipped.len() as u64);
    reason.append(" ");
    if skipped.len() == 1 {
        reason.append("control");
    } else {
        reason.append("controls");
    }
    reason.append(" not being commanded — their fans hold their last speed");
    SubsystemHealth { name: "controls".to_owned(), status: HealthStatus::Warn, age_ms: age, reason }
}

// ---------------------------------------------------------------------------
// All of it
// ---------------------------------------------------------------------------

/// When the channels below `n` that were ever read were last read, by channel. A
/// channel that was only ever commanded has no reading that could be stale.
pub open spec fn polled_times(fans: Map<u8, OpenFanState>, n: int) -> Seq<Instant>
    decreases n,
{
    if n <= 0 {
        Seq::empty()
    } else {
        let before = polled_times(fans, n - 1);
        let ch = (n - 1) as u8;
        if fans.dom().contains(ch) && fans[ch].rpm_polled {
            before.push(fans[ch].updated_at)
        } else {
            before
        }
    }
}

/// What is reported of the fan controller.
pub open spec fn openfan_report(
    fans: Map<u8, OpenFanState>,
    last_update: Option<Instant>,
    now: Instant,
    interval_ms: int,
    presence: OpenFanPresence,
) -> SubsystemView {
    match presence {
        OpenFanPresence::Present => poll_report(
            "openfan"@,
            last_update,
            polled_times(fans, 256),
            now,
            interval_ms,
        ),
        OpenFanPresence::Absent => SubsystemView {
            name: "openfan"@,
            status: HealthStatus::Okay,
            age_ms: None,
            reason: "no OpenFanController connected"@,
        },
    }
}

/// The reports of all parts, in the order in which clients count on them: the fan
/// controller, hwmon, the engine, the controls. Hwmon is judged by its poll alone:
/// some of its readings are frozen on purpose.
pub open spec fn health_reports<F>(
    state: DaemonState<F>,
    config: StalenessConfig,
    now: Instant,
    presence: OpenFanPresence,
) -> Seq<SubsystemView> {
    let ts = state.subsystem_timestamps;
    seq![
        openfan_report(
            state.openfan_fans@,
            ts.openfan,
            now,
            config.openfan_interval_ms as int,
            presence,
        ),
        poll_report("hwmon"@, ts.hwmon, Seq::empty(), now, config.hwmon_interval_ms as int),
        engine_report(
            ts.engine_started,
            ts.engine_completed,
            ts.engine_writes_stalled_since,
            now,
            config.engine_interval_ms as int,
        ),
        controls_report(state.skipped_controls@, now),
    ]
}

fn polled_fan_times(fans: &std::collections::HashMap<u8, OpenFanState>) -> (r: Vec<Instant>)
    ensures
        r@ == polled_times(fans@, 256),
{
    broadcast use group_hash_axioms;

    let mut times: Vec<Instant> = Vec::new();
    let mut n: u16 = 0;
    while n < 256
        invariant
            n <= 256,
            times@ == polled_times(fans@, n as int),
        decreases 256 - n,
    {
        let ch: u8 = n as u8;
        if let Some(fan) = fans.get(&ch) {
            if fan.rpm_polled {
                times.push(fan.updated_at);
            }
        }
        n += 1;
    }
    times
}

/// The health of the daemon: each part, and the worst of them over all.
pub fn compute_health<F>(
    state: &DaemonState<F>,
    config: &StalenessConfig,
    now: Instant,
    openfan: OpenFanPresence,
) -> (r: HealthSummary)
    ensures
        text::views(r.subsystems@) == health_reports(*state, *config, now, openfan),
        forall|i: int|
            0 <= i < r.subsystems@.len() ==> (#[trigger] r.subsystems@[i]).status.rank()
                <= r.overall.rank(),
        exists|i: int|
            0 <= i < r.subsystems@.len() && (#[trigger] r.subsystems@[i]).status == r.overall,
{
    let ts: SubsystemTimestamps = state.subsystem_timestamps;
    let fan_controller: SubsystemHealth = match openfan {
        OpenFanPresence::Present => poll_subsystem_health(
            "openfan",
            ts.openfan,
            &polled_fan_times(&state.openfan_fans),
            now,
            config.openfan_interval_ms,
        ),
        OpenFanPresence::Absent => SubsystemHealth {
            name: "openfan".to_owned(),
            status: HealthStatus::Okay,
            age_ms: None,
            reason: "no OpenFanController connected".to_owned(),
        },
    };
    let none: Vec<Instant> = Vec::new();
    let hwmon: SubsystemHealth = poll_subsystem_health(
        "hwmon",
        ts.hwmon,
        &none,
        now,
        config.hwmon_interval_ms,
    );
    let engine: SubsystemHealth = engine_health(
        ts.engine_started,
        ts.engine_completed,
        ts.engine_writes_stalled_since,
        now,
        config.engine_interval_ms,
    );
    let controls: SubsystemHealth = controls_health(&state.skipped_controls, now);
    let overall: HealthStatus = fan_controller.status.worst(hwmon.status).worst(
        engine.status,
    ).worst(controls.status);
    let mut subsystems: Vec<SubsystemHealth> = Vec::new();
    subsystems.push(fan_controller);
    subsystems.push(hwmon);
    subsystems.push(engine);
    subsystems.push(controls);
    proof {
        assert(none@ =~= Seq::<Instant>::empty());
        assert(text::views(subsystems@) =~= health_reports(*state, *config, now, openfan));
        assert(subsystems@[0] == fan_controller);
        assert(subsystems@[1] == hwmon);
        assert(subsystems@[2] == engine);
        assert(subsystems@[3] == controls);
    }
    HealthSummary { overall, subsystems }
}

/// Skipped controls never make the daemon look failed: they are a warning at worst.
pub proof fn skipped_controls_only_warn(skipped: Seq<SkippedControl>, now: Instant)
    ensures
        controls_report(skipped, now).status.rank() <= HealthStatus::Warn.rank(),
        skipped.len() > 0 ==> controls_report(skipped, now).status == HealthStatus::Warn,
{
}

/// A tick that is merely slow is never reported as a stopped engine: while a tick runs
/// and every write returns, the status is critical only past the bound for a stuck one.
pub proof fn slow_tick_is_not_critical(
    started: Instant,
    completed: Option<Instant>,
    now: Instant,
    interval_ms: int,
)
    requires
        tick_running(started, completed),
        now.millis_since(started) <= interval_ms * WEDGED_TICK_MULTIPLE,
    ensures
        engine_report(Some(started), completed, None, now, interval_ms).status.rank()
            <= HealthStatus::Warn.rank(),
{
}

/// Data is fine up to two intervals of age, stale up to five and critical beyond, and
/// critical where it was never there.
pub proof fn data_ages_by_intervals(t: Instant, now: Instant, interval_ms: int)
    requires
        interval_ms >= 0,
    ensures
        staleness(Some(t), now, interval_ms) == HealthStatus::Okay <==> now.millis_since(t) <= 2
            * interval_ms,
        staleness(Some(t), now, interval_ms) == HealthStatus::Crit <==> now.millis_since(t) > 5
            * interval_ms,
        staleness(None, now, interval_ms) == HealthStatus::Crit,
        staleness(Some(now), now, interval_ms) == HealthStatus::Okay,
{
}

/// The worse of two is one of them, and neither is worse than it; critical is worse than a
/// warning, and that worse than fine.
pub proof fn the_worse_of_two_is_reported(a: HealthStatus, b: HealthStatus)
    ensures
        a.worse(b) == a || a.worse(b) == b,
        a.worse(b) == b.worse(a),
        a == HealthStatus::Crit ==> a.worse(b) == HealthStatus::Crit,
        a == HealthStatus::Okay ==> a.worse(b) == b,
        HealthStatus::Okay.rank() < HealthStatus::Warn.rank() < HealthStatus::Crit.rank(),
        a.rank() <= a.worse(b).rank(),
{
}

/// A write that does not return outranks all else of the engine: beyond two intervals it is
/// a warning, beyond thirty it is critical, even if the engine ticks on.
pub proof fn a_stalled_write_comes_first(
    started: Option<Instant>,
    completed: Option<Instant>,
    stalled: Instant,
    now: Instant,
    interval_ms: int,
)
    requires
        interval_ms >= 0,
    ensures
        ({
            let r = engine_report(started, completed, Some(stalled), now, interval_ms);
            let ms = now.millis_since(stalled);
            &&& ms > 30 * interval_ms ==> r.status == HealthStatus::Crit
            &&& 2 * interval_ms < ms <= 30 * interval_ms ==> r.status == HealthStatus::Warn
            &&& ms <= 2 * interval_ms ==> r == engine_report(
                started,
                completed,
                None,
                now,
                interval_ms,
            )
        }),
{
}

/// A tick that runs is fine up to two intervals, slow up to thirty and stuck beyond.
pub proof fn a_running_tick_is_judged_by_its_start(
    started: Instant,
    completed: Option<Instant>,
    now: Instant,
    interval_ms: int,
)
    requires
        interval_ms >= 0,
        completed matches Some(done) ==> done.nanos < started.nanos,
    ensures
        ({
            let r = engine_report(Some(started), completed, None, now, interval_ms);
            let ms = now.millis_since(started);
            &&& r.status == HealthStatus::Okay <==> ms <= 2 * interval_ms
            &&& r.status == HealthStatus::Crit <==> ms > 30 * interval_ms
            &&& r.age_ms == Some(
                if completed is Some {
                    now.millis_since(completed->0)
                } else {
                    ms
                },
            )
        }),
{
}

/// An engine between ticks is judged by its last finish, like any data; one that never
/// began a tick is critical and has no age.
pub proof fn an_idle_engine_is_judged_by_its_last_finish(
    started: Instant,
    done: Instant,
    now: Instant,
    interval_ms: int,
)
    requires
        interval_ms >= 0,
        started.nanos <= done.nanos,
    ensures
        ({
            let r = engine_report(Some(started), Some(done), None, now, interval_ms);
            let ms = now.millis_since(done);
            &&& r.status == HealthStatus::Okay <==> ms <= 2 * interval_ms
            &&& r.status == HealthStatus::Crit <==> ms > 5 * interval_ms
            &&& r.age_ms == Some(ms)
        }),
        engine_report(None, None, None, now, interval_ms).status == HealthStatus::Crit,
        engine_report(None, None, None, now, interval_ms).age_ms is None,
{
}

/// The oldest of points in time is one of them, and none is older; there is one where there
/// are points at all.
pub proof fn the_oldest_is_none_younger(times: Seq<Instant>, i: int)
    requires
        0 <= i < times.len(),
    ensures
        oldest(times) is Some,
        times.contains(oldest(times)->0),
        oldest(times)->0.nanos <= times[i].nanos,
        oldest(Seq::<Instant>::empty()) is None,
    decreases times.len(),
{
    lemma_oldest(times, i);
    let front = times.drop_last();
    if front.len() > 0 {
        the_oldest_is_none_younger(front, 0);
        if oldest(times) == oldest(front) {
            let k = choose|k: int| 0 <= k < front.len() && front[k] == oldest(front)->0;
            assert(times[k] == front[k]);
        } else {
            assert(times[times.len() - 1] == oldest(times)->0);
        }
    } else {
        assert(times[0] == oldest(times)->0);
    }
}

/// The age of what is polled is that of the poll or of its oldest reading, whichever is
/// older; and without a poll there is none.
pub proof fn the_age_of_a_poll_covers_its_readings(
    name: Seq<char>,
    last_update: Option<Instant>,
    times: Seq<Instant>,
    now: Instant,
    interval_ms: int,
    i: int,
)
    ensures
        ({
            let r = poll_report(name, last_update, times, now, interval_ms);
            &&& r.name == name
            &&& last_update is None ==> r.age_ms is None && r.status == HealthStatus::Crit
            &&& last_update matches Some(t) ==> {
                &&& r.age_ms is Some
                &&& r.age_ms->0 >= now.millis_since(t)
                &&& 0 <= i < times.len() ==> r.age_ms->0 >= now.millis_since(times[i])
                &&& times.len() == 0 ==> r.age_ms->0 == now.millis_since(t) && r.status
                    == staleness(last_update, now, interval_ms)
            }
        }),
{
    if 0 <= i < times.len() {
        the_oldest_is_none_younger(times, i);
    }
}

/// What is polled is reported as bad as the poll or one of its readings, and no worse.
pub proof fn a_poll_is_not_told_worse_than_it_is(
    name: Seq<char>,
    last_update: Option<Instant>,
    times: Seq<Instant>,
    now: Instant,
    interval_ms: int,
)
    ensures
        ({
            let status = poll_report(name, last_update, times, now, interval_ms).status;
            ||| status == staleness(last_update, now, interval_ms)
            ||| exists|i: int|
                0 <= i < times.len() && status == staleness(
                    Some(#[trigger] times[i]),
                    now,
                    interval_ms,
                )
        }),
{
    if times.len() > 0 {
        the_oldest_is_none_younger(times, 0);
        let i = choose|i: int| 0 <= i < times.len() && times[i] == oldest(times)->0;
        assert(times[i] == oldest(times)->0);
    }
}

/// One reading more is one stale reading more exactly where it is older than two intervals.
pub proof fn stale_readings_are_counted(times: Seq<Instant>, t: Instant, now: Instant, interval_ms: int)
    requires
        interval_ms >= 0,
    ensures
        stale_count(times.push(t), now, interval_ms) == stale_count(times, now, interval_ms) + (
        if now.millis_since(t) > 2 * interval_ms {
            1nat
        } else {
            0
        }),
        stale_count(Seq::<Instant>::empty(), now, interval_ms) == 0,
{
    assert(times.push(t).drop_last() =~= times);
}

/// The age that is told of the controls is the longest time that one of them has been
/// skipped.
pub proof fn the_longest_skip_is_told(skipped: Seq<SkippedControl>, now: Instant, i: int)
    requires
        0 <= i < skipped.len(),
    ensures
        controls_report(skipped, now).age_ms is Some,
        controls_report(skipped, now).age_ms->0 >= now.millis_since(skipped[i].since),
        exists|k: int|
            0 <= k < skipped.len() && controls_report(skipped, now).age_ms->0
                == now.millis_since((#[trigger] skipped[k]).since),
    decreases skipped.len(),
{
    let front = skipped.drop_last();
    if front.len() > 0 {
        the_longest_skip_is_told(
            front,
            now,
            if i < front.len() {
                i
            } else {
                0
            },
        );
        let k = choose|k: int|
            0 <= k < front.len() && longest_skip(front, now)->0 == now.millis_since(
                (#[trigger] front[k]).since,
            );
        assert(skipped[k] == front[k]);
    }
    assert(skipped[skipped.len() - 1] == skipped.last());
}

/// The fan controller is judged by its poll and by the channels that were ever read; where
/// none is attached nothing is wrong, whatever the stamps say.
pub proof fn only_channels_that_were_read_can_be_stale(
    fans: Map<u8, OpenFanState>,
    last_update: Option<Instant>,
    now: Instant,
    interval_ms: int,
    ch: u8,
)
    ensures
        openfan_report(fans, last_update, now, interval_ms, OpenFanPresence::Absent).status
            == HealthStatus::Okay,
        openfan_report(fans, last_update, now, interval_ms, OpenFanPresence::Absent).age_ms is None,
        fans.dom().contains(ch) && fans[ch].rpm_polled ==> openfan_report(
            fans,
            last_update,
            now,
            interval_ms,
            OpenFanPresence::Present,
        ).status.rank() >= staleness(Some(fans[ch].updated_at), now, interval_ms).rank(),
        (forall|c: u8| fans.dom().contains(c) ==> !(#[trigger] fans[c]).rpm_polled)
            ==> openfan_report(
            fans,
            last_update,
            now,
            interval_ms,
            OpenFanPresence::Present,
        ).status == staleness(last_update, now, interval_ms),
{
    lemma_polled_times(fans, 256, ch);
    let times = polled_times(fans, 256);
    if fans.dom().contains(ch) && fans[ch].rpm_polled {
        let i = choose|i: int| 0 <= i < times.len() && times[i] == fans[ch].updated_at;
        poll_status_covers_every_reading("openfan"@, last_update, times, now, interval_ms, i);
    }
    if forall|c: u8| fans.dom().contains(c) ==> !(#[trigger] fans[c]).rpm_polled {
        if times.len() > 0 {
            lemma_no_polled_times(fans, 256);
        }
    }
}

proof fn lemma_polled_times(fans: Map<u8, OpenFanState>, n: int, ch: u8)
    requires
        0 <= n <= 256,
    ensures
        fans.dom().contains(ch) && fans[ch].rpm_polled && ch < n ==> polled_times(
            fans,
            n,
        ).contains(fans[ch].updated_at),
    decreases n,
{
    if n > 0 {
        lemma_polled_times(fans, n - 1, ch);
        let before = polled_times(fans, n - 1);
        let all = polled_times(fans, n);
        if fans.dom().contains(ch) && fans[ch].rpm_polled && ch < n {
            if ch == n - 1 {
                assert(all[before.len() as int] == fans[ch].updated_at);
            } else {
                let i = choose|i: int| 0 <= i < before.len() && before[i] == fans[ch].updated_at;
                assert(all[i] == before[i]);
            }
        }
    }
}

proof fn lemma_no_polled_times(fans: Map<u8, OpenFanState>, n: int)
    requires
        0 <= n <= 256,
        forall|c: u8| fans.dom().contains(c) ==> !(#[trigger] fans[c]).rpm_polled,
    ensures
        polled_times(fans, n).len() == 0,
    decreases n,
{
    if n > 0 {
        lemma_no_polled_times(fans, n - 1);
    }
}

/// The parts are reported in the order fan controller, hwmon, engine, controls, each by its
/// own stamps and its own interval; hwmon by its poll alone.
pub proof fn each_part_is_judged_by_its_own_stamps<F>(
    state: DaemonState<F>,
    config: StalenessConfig,
    now: Instant,
    presence: OpenFanPresence,
)
    ensures
        ({
            let r = health_reports(state, config, now, presence);
            let ts = state.subsystem_timestamps;
            &&& r.len() == 4
            &&& r[0].name == "openfan"@ && r[1].name == "hwmon"@ && r[2].name == "engine"@
                && r[3].name == "controls"@
            &&& r[1].status == staleness(ts.hwmon, now, config.hwmon_interval_ms as int)
            &&& ts.engine_writes_stalled_since is None && ts.engine_started is None
                ==> r[2].status == HealthStatus::Crit
            &&& state.skipped_controls@.len() == 0 <==> r[3].status == HealthStatus::Okay
            &&& presence == OpenFanPresence::Present ==> r[0].status.rank() >= staleness(
                ts.openfan,
                now,
                config.openfan_interval_ms as int,
            ).rank()
        }),
{
}

/// The name of a status tells the status.
pub proof fn the_name_tells_the_status(s: HealthStatus)
    ensures
        s.name() == "ok"@ <==> s == HealthStatus::Okay,
        s.name() == "warn"@ <==> s == HealthStatus::Warn,
        s.name() == "crit"@ <==> s == HealthStatus::Crit,
{
    reveal_strlit("ok");
    reveal_strlit("warn");
    reveal_strlit("crit");
    assert("ok"@.len() == 2);
    assert("warn"@.len() == 4 && "warn"@[0] == 'w');
    assert("crit"@.len() == 4 && "crit"@[0] == 'c');
}

} // verus!

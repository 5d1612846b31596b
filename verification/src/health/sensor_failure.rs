//! Sensors that are there but cannot be read.
//!
//! A radio that is switched off refuses every read of its temperature for as long as
//! it stays off. Such a sensor gets one new discovery, which may find that it is gone;
//! if it still fails after that, it is put in quarantine: it is listed as unavailable
//! and asks for nothing more until a read succeeds. A sensor that is gone is forgotten.

use crate::clock::Instant;
use crate::collections::StringMap;
use crate::health::state::UnavailableSensor;
use crate::hwmon::types::SensorDescriptor;
use crate::hwmon::SensorReadFailure;
use crate::text;
use crate::text::{insertion_point, str_eq};
use vstd::prelude::*;

verus! {

/// A change that is worth a line in the journal.
#[derive(Debug, Clone, PartialEq, Eq)]
pub enum TrackerEvent {
    /// The sensor still failed after its new discovery.
    Quarantined { id: String, reason: String },
    /// A sensor in quarantine was read again.
    Recovered { id: String },
}

/// What a `TrackerEvent` says.
pub enum EventView {
    Quarantined { id: Seq<char>, reason: Seq<char> },
    Recovered { id: Seq<char> },
}

impl View for TrackerEvent {
    type V = EventView;

    open spec fn view(&self) -> EventView {
        match self {
            TrackerEvent::Quarantined { id, reason } => EventView::Quarantined {
                id: id@,
                reason: reason@,
            },
            TrackerEvent::Recovered { id } => EventView::Recovered { id: id@ },
        }
    }
}

/// What an `UnavailableSensor` says.
#[verifier::ext_equal]
pub struct UnavailableView {
    pub id: Seq<char>,
    pub label: Seq<char>,
    pub reason: Seq<char>,
    pub since: Instant,
}

/// What an `UnavailableSensor` says.
pub open spec fn unavailable_view(u: UnavailableSensor) -> UnavailableView {
    UnavailableView { id: u.id@, label: u.label@, reason: u.reason@, since: u.since }
}

/// Counts failed reads and keeps the quarantine.
pub struct SensorFailureTracker {
    threshold: u32,
    streak: StringMap<u64>,
    quarantined: StringMap<UnavailableSensor>,
}

/// What a `SensorFailureTracker` holds: how many failures in a row earn a new discovery,
/// how many each sensor has, and the sensors in quarantine.
#[verifier::ext_equal]
pub struct TrackerView {
    pub threshold: u32,
    pub streak: Map<Seq<char>, u64>,
    pub quarantined: Map<Seq<char>, UnavailableView>,
}

impl View for SensorFailureTracker {
    type V = TrackerView;

    closed spec fn view(&self) -> TrackerView {
        TrackerView {
            threshold: self.threshold,
            streak: self.streak@,
            quarantined: self.quarantined@.map_values(|u: UnavailableSensor| unavailable_view(u)),
        }
    }
}

impl TrackerView {
    /// A sensor outside the quarantine has no more failures than the threshold, and one
    /// in it is listed under its own id.
    pub open spec fn wf(self) -> bool {
        &&& forall|id: Seq<char>| #[trigger]
            self.streak.dom().contains(id) ==> self.streak[id] <= self.threshold + 1
        &&& forall|id: Seq<char>|
            self.streak.dom().contains(id) && !self.quarantined.dom().contains(id)
                ==> #[trigger] self.streak[id] <= self.threshold
        &&& forall|id: Seq<char>| #[trigger]
            self.quarantined.dom().contains(id) ==> self.quarantined[id].id == id
    }

    /// Whether the sensor has earned its new discovery.
    pub open spec fn awaits_discovery(self, id: Seq<char>) -> bool {
        self.streak.dom().contains(id) && self.streak[id] >= self.threshold
            && !self.quarantined.dom().contains(id)
    }
}

/// Whether a descriptor has the id.
pub open spec fn is_present(ds: Seq<SensorDescriptor>, id: Seq<char>) -> bool {
    exists|i: int| 0 <= i < ds.len() && (#[trigger] ds[i]).id@ == id
}

/// The last failure of the sensor among the failures of a tick.
pub open spec fn failure_of(fs: Seq<SensorReadFailure>, id: Seq<char>) -> Option<SensorReadFailure>
    decreases fs.len(),
{
    if fs.len() == 0 {
        None
    } else if fs.last().id@ == id {
        Some(fs.last())
    } else {
        failure_of(fs.drop_last(), id)
    }
}

/// What is left of the tracker when the sensors that are gone are forgotten.
pub open spec fn reconciled(t: TrackerView, ds: Seq<SensorDescriptor>) -> TrackerView {
    let here = Set::new(|id: Seq<char>| is_present(ds, id));
    TrackerView {
        threshold: t.threshold,
        streak: t.streak.restrict(here),
        quarantined: t.quarantined.restrict(here),
    }
}

/// The failures in a row that a sensor has.
pub open spec fn streak_of(t: TrackerView, id: Seq<char>) -> int {
    if t.streak.dom().contains(id) {
        t.streak[id] as int
    } else {
        0
    }
}

/// What the read of one sensor does to the tracker, and what there is to tell of it.
pub open spec fn sensor_step(
    t: TrackerView,
    id: Seq<char>,
    failure: Option<SensorReadFailure>,
    now: Instant,
) -> (TrackerView, Option<EventView>) {
    match failure {
        Some(f) => if t.quarantined.dom().contains(id) {
            (t, None)
        } else {
            let n = (streak_of(t, id) + 1) as u64;
            let counted = TrackerView { streak: t.streak.insert(id, n), ..t };
            if n > t.threshold {
                let u = UnavailableView { id, label: f.label@, reason: f.reason@, since: now };
                (
                    TrackerView { quarantined: t.quarantined.insert(id, u), ..counted },
                    Some(EventView::Quarantined { id, reason: f.reason@ }),
                )
            } else {
                (counted, None)
            }
        },
        None => (
            TrackerView { streak: t.streak.remove(id), quarantined: t.quarantined.remove(id), ..t },
            if t.quarantined.dom().contains(id) {
                Some(EventView::Recovered { id })
            } else {
                None
            },
        ),
    }
}

/// What the reads of the sensors `ds` do to the tracker, one after the other, and what
/// there is to tell of them.
pub open spec fn sensor_steps(
    t: TrackerView,
    ds: Seq<SensorDescriptor>,
    fs: Seq<SensorReadFailure>,
    now: Instant,
) -> (TrackerView, Seq<EventView>)
    decreases ds.len(),
{
    if ds.len() == 0 {
        (t, Seq::empty())
    } else {
        let before = sensor_steps(t, ds.drop_last(), fs, now);
        let id = ds.last().id@;
        let step = sensor_step(before.0, id, failure_of(fs, id), now);
        (
            step.0,
            match step.1 {
                Some(e) => before.1.push(e),
                None => before.1,
            },
        )
    }
}

/// The tracker after a tick and what there is to tell of it: what is gone is forgotten,
/// then every sensor that is there either failed or was read.
pub open spec fn ticked(
    t: TrackerView,
    ds: Seq<SensorDescriptor>,
    fs: Seq<SensorReadFailure>,
    now: Instant,
) -> (TrackerView, Seq<EventView>) {
    sensor_steps(reconciled(t, ds), ds, fs, now)
}

fn find_failure<'a>(fs: &'a Vec<SensorReadFailure>, id: &str) -> (r: Option<&'a SensorReadFailure>)
    ensures
        match r {
            Some(f) => failure_of(fs@, id@) == Some(*f),
            None => failure_of(fs@, id@) is None,
        },
{
    let mut i: usize = fs.len();
    assert(fs@.take(i as int) =~= fs@);
    while i > 0
        invariant
            i <= fs.len(),
            failure_of(fs@, id@) == failure_of(fs@.take(i as int), id@),
        decreases i,
    {
        assert(fs@.take(i as int).drop_last() =~= fs@.take(i - 1));
        if str_eq(fs[i - 1].id.as_str(), id) {
            return Some(&fs[i - 1]);
        }
        i -= 1;
    }
    None
}

fn has_descriptor(ds: &Vec<SensorDescriptor>, id: &str) -> (r: bool)
    ensures
        r == is_present(ds@, id@),
{
    let mut i: usize = 0;
    while i < ds.len()
        invariant
            i <= ds.len(),
            forall|k: int| 0 <= k < i ==> (#[trigger] ds@[k]).id@ != id@,
        decreases ds.len() - i,
    {
        if str_eq(ds[i].id.as_str(), id) {
            assert(ds@[i as int].id@ == id@);
            return true;
        }
        i += 1;
    }
    false
}

/// Drops the keys for which there is no descriptor.
fn forget_gone<V>(m: &mut StringMap<V>, ds: &Vec<SensorDescriptor>)
    ensures
        final(m)@ == old(m)@.restrict(Set::new(|id: Seq<char>| is_present(ds@, id))),
{
    let ghost here = Set::new(|id: Seq<char>| is_present(ds@, id));
    let ghost start = m@;
    let n: usize = m.len();
    let ghost keys = m.keys();
    let mut gone: Vec<String> = Vec::new();
    let mut i: usize = 0;
    while i < n
        invariant
            i <= n,
            n == keys.len(),
            keys == m.keys(),
            m@ == start,
            here == Set::new(|id: Seq<char>| is_present(ds@, id)),
            forall|k: int|
                0 <= k < i && !here.contains(#[trigger] keys[k]) ==> text::strings(gone@).contains(
                    keys[k],
                ),
            forall|k: int| 0 <= k < gone@.len() ==> !here.contains(#[trigger] text::strings(gone@)[k]),
        decreases n - i,
    {
        let id: &str = m.key_at(i);
        let ghost before = text::strings(gone@);
        if !has_descriptor(ds, id) {
            gone.push(id.to_owned());
            assert(text::strings(gone@) =~= before.push(keys[i as int]));
            assert(text::strings(gone@)[before.len() as int] == keys[i as int]);
            assert forall|k: int| 0 <= k < i && !here.contains(#[trigger] keys[k]) implies text::strings(
                gone@,
            ).contains(keys[k]) by {
                let at = choose|j: int| 0 <= j < before.len() && before[j] == keys[k];
                assert(text::strings(gone@)[at] == keys[k]);
            }
        }
        i += 1;
    }
    let ghost ids = text::strings(gone@);
    let mut k: usize = 0;
    assert(start.remove_keys(ids.take(0).to_set()) =~= start);
    while k < gone.len()
        invariant
            k <= gone.len(),
            ids == text::strings(gone@),
            m@ == start.remove_keys(ids.take(k as int).to_set()),
        decreases gone.len() - k,
    {
        let _ = m.remove(gone[k].as_str());
        proof {
            assert(ids.take(k + 1) =~= ids.take(k as int).push(ids[k as int]));
            assert(ids.take(k + 1).to_set() =~= ids.take(k as int).to_set().insert(ids[k as int]))
                by {
                broadcast use vstd::seq_lib::group_seq_properties;

            }
            assert(start.remove_keys(ids.take(k + 1).to_set()) =~= start.remove_keys(
                ids.take(k as int).to_set(),
            ).remove(ids[k as int]));
        }
        k += 1;
    }
    proof {
        assert(ids.take(k as int) =~= ids);
        assert(start.remove_keys(ids.to_set()) =~= start.restrict(here)) by {
            assert forall|id: Seq<char>| start.dom().contains(id) implies (ids.to_set().contains(id)
                <==> !here.contains(id)) by {
                if !here.contains(id) {
                    assert(keys.to_set().contains(id));
                    let at = choose|j: int| 0 <= j < keys.len() && keys[j] == id;
                    assert(!here.contains(keys[at]));
                }
                if ids.contains(id) {
                    let at = choose|j: int| 0 <= j < ids.len() && ids[j] == id;
                    assert(!here.contains(text::strings(gone@)[at]));
                }
            }
        }
    }
}

impl SensorFailureTracker {
    /// A tracker that gives a sensor its new discovery after `threshold` failures in a
    /// row.
    pub fn new(threshold: u32) -> (r: Self)
        ensures
            r@ == (TrackerView { threshold, streak: Map::empty(), quarantined: Map::empty() }),
            r@.wf(),
    {
        let r: Self = SensorFailureTracker {
            threshold,
            streak: StringMap::new(),
            quarantined: StringMap::new(),
        };
        assert(r@.quarantined =~= Map::<Seq<char>, UnavailableView>::empty());
        r
    }

    /// Whether discovery should run once more: some sensor has earned it. One in
    /// quarantine never asks again.
    pub fn wants_rediscovery(&self) -> (r: bool)
        ensures
            r == exists|id: Seq<char>| #[trigger] self@.awaits_discovery(id),
    {
        let n: usize = self.streak.len();
        let ghost keys = self.streak.keys();
        let mut i: usize = 0;
        while i < n
            invariant
                i <= n,
                n == keys.len(),
                keys == self.streak.keys(),
                forall|k: int| 0 <= k < i ==> !self@.awaits_discovery(#[trigger] keys[k]),
            decreases n - i,
        {
            let id: &str = self.streak.key_at(i);
            if *self.streak.value_at(i) >= self.threshold as u64 && !self.quarantined.contains_key(
                id,
            ) {
                assert(self@.awaits_discovery(id@));
                return true;
            }
            i += 1;
        }
        proof {
            assert forall|id: Seq<char>| !#[trigger] self@.awaits_discovery(id) by {
                if self@.streak.dom().contains(id) {
                    assert(keys.to_set().contains(id));
                    let at = choose|j: int| 0 <= j < keys.len() && keys[j] == id;
                    assert(!self@.awaits_discovery(keys[at]));
                }
            }
        }
        false
    }

    /// The ids that have earned a new discovery, in order.
    pub fn rediscovery_ids(&self) -> (r: Vec<String>)
        ensures
            text::ascending(text::strings(r@)),
            text::strings(r@).to_set() == Set::new(|id: Seq<char>| self@.awaits_discovery(id)),
    {
        let n: usize = self.streak.len();
        let ghost keys = self.streak.keys();
        let ghost due = Set::new(|id: Seq<char>| self@.awaits_discovery(id));
        let mut out: Vec<String> = Vec::new();
        let mut i: usize = 0;
        assert(text::strings(out@).to_set() =~= keys.take(0).to_set().intersect(due));
        while i < n
            invariant
                i <= n,
                n == keys.len(),
                keys == self.streak.keys(),
                keys.no_duplicates(),
                due == Set::new(|id: Seq<char>| self@.awaits_discovery(id)),
                text::ascending(text::strings(out@)),
                text::strings(out@).to_set() == keys.take(i as int).to_set().intersect(due),
            decreases n - i,
        {
            let id: &str = self.streak.key_at(i);
            let ghost before = text::strings(out@);
            proof {
                text::lemma_take_set(keys, i as int);
                assert(before.contains(id@) ==> before.to_set().contains(id@));
            }
            if *self.streak.value_at(i) >= self.threshold as u64 && !self.quarantined.contains_key(
                id,
            ) {
                assert(due.contains(id@));
                let at: usize = insertion_point(&out, id);
                out.insert(at, id.to_owned());
                proof {
                    assert(text::strings(out@) =~= before.insert(at as int, id@));
                    text::lemma_insert_set(before, at as int, id@);
                }
            } else {
                assert(!due.contains(id@));
            }
            assert(text::strings(out@).to_set() =~= keys.take(i + 1).to_set().intersect(due));
            i += 1;
        }
        assert(keys.take(i as int) =~= keys);
        assert(text::strings(out@).to_set() =~= due);
        out
    }

    /// The sensors in quarantine, ordered by id.
    pub fn unavailable(&self) -> (r: Vec<UnavailableSensor>)
        requires
            self@.wf(),
        ensures
            text::ascending(sensor_ids(r@)),
            sensor_ids(r@).to_set() == self@.quarantined.dom(),
            forall|i: int|
                0 <= i < r@.len() ==> unavailable_view(#[trigger] r@[i])
                    == self@.quarantined[r@[i].id@],
    {
        let n: usize = self.quarantined.len();
        let ghost keys = self.quarantined.keys();
        let mut ids: Vec<String> = Vec::new();
        let mut i: usize = 0;
        assert(text::strings(ids@).to_set() =~= keys.take(0).to_set());
        while i < n
            invariant
                i <= n,
                n == keys.len(),
                keys == self.quarantined.keys(),
                keys.no_duplicates(),
                text::ascending(text::strings(ids@)),
                text::strings(ids@).to_set() == keys.take(i as int).to_set(),
            decreases n - i,
        {
            let id: &str = self.quarantined.key_at(i);
            let ghost before = text::strings(ids@);
            proof {
                text::lemma_take_set(keys, i as int);
                assert(before.contains(id@) ==> before.to_set().contains(id@));
            }
            let at: usize = insertion_point(&ids, id);
            ids.insert(at, id.to_owned());
            proof {
                assert(text::strings(ids@) =~= before.insert(at as int, id@));
                text::lemma_insert_set(before, at as int, id@);
            }
            i += 1;
        }
        assert(keys.take(i as int) =~= keys);
        let mut out: Vec<UnavailableSensor> = Vec::new();
        let mut k: usize = 0;
        while k < ids.len()
            invariant
                k <= ids.len(),
                self@.wf(),
                keys == self.quarantined.keys(),
                text::strings(ids@).to_set() == self.quarantined@.dom(),
                sensor_ids(out@) == text::strings(ids@).take(k as int),
                forall|j: int|
                    0 <= j < out@.len() ==> unavailable_view(#[trigger] out@[j])
                        == self@.quarantined[out@[j].id@],
            decreases ids.len() - k,
        {
            let ghost before = sensor_ids(out@);
            let ghost prior = out@;
            let ghost id = text::strings(ids@)[k as int];
            assert(text::strings(ids@).to_set().contains(id));
            if let Some(u) = self.quarantined.get(ids[k].as_str()) {
                assert(self@.quarantined.dom().contains(id));
                out.push(u.clone());
                proof {
                    assert(sensor_ids(out@) =~= before.push(id));
                    assert(text::strings(ids@).take(k + 1) =~= text::strings(ids@).take(
                        k as int,
                    ).push(id));
                    assert forall|j: int| 0 <= j < out@.len() implies unavailable_view(
                        #[trigger] out@[j],
                    ) == self@.quarantined[out@[j].id@] by {
                        if j < prior.len() {
                            assert(out@[j] == prior[j]);
                        }
                    }
                }
            }
            k += 1;
        }
        proof {
            assert(text::strings(ids@).take(k as int) =~= text::strings(ids@));
            assert(sensor_ids(out@).to_set() =~= self@.quarantined.dom());
        }
        out
    }

    fn record_failure(&mut self, id: &str, failure: &SensorReadFailure, now: Instant) -> (r: Option<
        TrackerEvent,
    >)
        requires
            old(self)@.wf(),
        ensures
            final(self)@.wf(),
            ({
                let step = sensor_step(old(self)@, id@, Some(*failure), now);
                &&& final(self)@ == step.0
                &&& opt_event(r) == step.1
            }),
    {
        let ghost before = self@;
        if self.quarantined.contains_key(id) {
            return None;
        }
        assert(before.streak.dom().contains(id@) ==> before.streak[id@] <= before.threshold + 1);
        let n: u64 = match self.streak.get(id) {
            Some(n) => *n + 1,
            None => 1,
        };
        self.streak.insert(id.to_owned(), n);
        if n > self.threshold as u64 {
            self.quarantined.insert(
                id.to_owned(),
                UnavailableSensor {
                    id: id.to_owned(),
                    label: failure.label.clone(),
                    reason: failure.reason.clone(),
                    since: now,
                },
            );
            assert(self@ =~= sensor_step(before, id@, Some(*failure), now).0);
            return Some(
                TrackerEvent::Quarantined { id: id.to_owned(), reason: failure.reason.clone() },
            );
        }
        assert(self@ =~= sensor_step(before, id@, Some(*failure), now).0);
        None
    }

    fn record_success(&mut self, id: &str) -> (r: Option<TrackerEvent>)
        requires
            old(self)@.wf(),
        ensures
            final(self)@.wf(),
            forall|now: Instant|
                {
                    let step = #[trigger] sensor_step(old(self)@, id@, None, now);
                    &&& final(self)@ == step.0
                    &&& opt_event(r) == step.1
                },
    {
        let ghost before = self@;
        let _ = self.streak.remove(id);
        let removed: Option<UnavailableSensor> = self.quarantined.remove(id);
        assert(self@ =~= (TrackerView {
            streak: before.streak.remove(id@),
            quarantined: before.quarantined.remove(id@),
            ..before
        }));
        if removed.is_some() {
            Some(TrackerEvent::Recovered { id: id.to_owned() })
        } else {
            None
        }
    }

    /// Records the reads of one tick: `descriptors` are the sensors that were read,
    /// `failures` those that failed. Returns what there is to tell, each change once.
    pub fn record_tick(
        &mut self,
        descriptors: &Vec<SensorDescriptor>,
        failures: &Vec<SensorReadFailure>,
        now: Instant,
    ) -> (r: Vec<TrackerEvent>)
        requires
            old(self)@.wf(),
        ensures
            final(self)@.wf(),
            ({
                let after = ticked(old(self)@, descriptors@, failures@, now);
                &&& final(self)@ == after.0
                &&& text::views(r@) == after.1
            }),
    {
        let ghost start = self@;
        forget_gone(&mut self.streak, descriptors);
        forget_gone(&mut self.quarantined, descriptors);
        let ghost base = reconciled(start, descriptors@);
        assert(self@ =~= base);
        let mut events: Vec<TrackerEvent> = Vec::new();
        assert(text::views(events@) =~= Seq::<EventView>::empty());
        let mut i: usize = 0;
        while i < descriptors.len()
            invariant
                i <= descriptors.len(),
                self@.wf(),
                ({
                    let after = sensor_steps(base, descriptors@.take(i as int), failures@, now);
                    &&& self@ == after.0
                    &&& text::views(events@) == after.1
                }),
            decreases descriptors.len() - i,
        {
            assert(descriptors@.take(i + 1).drop_last() =~= descriptors@.take(i as int));
            let id: &str = descriptors[i].id.as_str();
            let event: Option<TrackerEvent> = match find_failure(failures, id) {
                Some(f) => self.record_failure(id, f, now),
                None => self.record_success(id),
            };
            let ghost before = text::views(events@);
            if let Some(e) = event {
                events.push(e);
                assert(text::views(events@) =~= before.push(e@));
            }
            i += 1;
        }
        assert(descriptors@.take(i as int) =~= descriptors@);
        events
    }
}

/// What an event that may be absent says.
pub open spec fn opt_event(e: Option<TrackerEvent>) -> Option<EventView> {
    match e {
        Some(e) => Some(e@),
        None => None,
    }
}

/// The ids of a list of sensors.
pub open spec fn sensor_ids(v: Seq<UnavailableSensor>) -> Seq<Seq<char>> {
    Seq::new(v.len(), |i: int| v[i].id@)
}

// ---------------------------------------------------------------------------
// Laws
// ---------------------------------------------------------------------------

/// How many descriptors have the id.
pub open spec fn id_count(ds: Seq<SensorDescriptor>, id: Seq<char>) -> nat
    decreases ds.len(),
{
    if ds.len() == 0 {
        0
    } else {
        id_count(ds.drop_last(), id) + (if ds.last().id@ == id {
            1nat
        } else {
            0
        })
    }
}

/// The sensor that an event tells of.
pub open spec fn event_id(e: EventView) -> Seq<char> {
    match e {
        EventView::Quarantined { id, reason } => id,
        EventView::Recovered { id } => id,
    }
}

/// The events that tell of a sensor.
pub open spec fn told(events: Seq<EventView>, id: Seq<char>) -> Seq<EventView>
    decreases events.len(),
{
    if events.len() == 0 {
        Seq::empty()
    } else if event_id(events.last()) == id {
        told(events.drop_last(), id).push(events.last())
    } else {
        told(events.drop_last(), id)
    }
}

/// Whether two trackers know the same of a sensor.
pub open spec fn agree_on(a: TrackerView, b: TrackerView, id: Seq<char>) -> bool {
    &&& a.threshold == b.threshold
    &&& a.streak.dom().contains(id) == b.streak.dom().contains(id)
    &&& a.streak.dom().contains(id) ==> a.streak[id] == b.streak[id]
    &&& a.quarantined.dom().contains(id) == b.quarantined.dom().contains(id)
    &&& a.quarantined.dom().contains(id) ==> a.quarantined[id] == b.quarantined[id]
}

/// An event as a list.
pub open spec fn as_list(e: Option<EventView>) -> Seq<EventView> {
    match e {
        Some(e) => seq![e],
        None => Seq::empty(),
    }
}

proof fn lemma_told_push(events: Seq<EventView>, e: EventView, id: Seq<char>)
    ensures
        told(events.push(e), id) == (if event_id(e) == id {
            told(events, id).push(e)
        } else {
            told(events, id)
        }),
{
    assert(events.push(e).drop_last() =~= events);
}

proof fn lemma_steps_elsewhere(
    t: TrackerView,
    ds: Seq<SensorDescriptor>,
    fs: Seq<SensorReadFailure>,
    now: Instant,
    id: Seq<char>,
)
    requires
        id_count(ds, id) == 0,
    ensures
        agree_on(sensor_steps(t, ds, fs, now).0, t, id),
        told(sensor_steps(t, ds, fs, now).1, id) == Seq::<EventView>::empty(),
    decreases ds.len(),
{
    if ds.len() > 0 {
        lemma_steps_elsewhere(t, ds.drop_last(), fs, now, id);
        let before = sensor_steps(t, ds.drop_last(), fs, now);
        let other = ds.last().id@;
        let step = sensor_step(before.0, other, failure_of(fs, other), now);
        if step.1 is Some {
            lemma_told_push(before.1, step.1->0, id);
        }
    }
}

proof fn lemma_steps_on(
    t: TrackerView,
    ds: Seq<SensorDescriptor>,
    fs: Seq<SensorReadFailure>,
    now: Instant,
    id: Seq<char>,
)
    requires
        id_count(ds, id) == 1,
    ensures
        agree_on(
            sensor_steps(t, ds, fs, now).0,
            sensor_step(t, id, failure_of(fs, id), now).0,
            id,
        ),
        told(sensor_steps(t, ds, fs, now).1, id) == as_list(
            sensor_step(t, id, failure_of(fs, id), now).1,
        ),
    decreases ds.len(),
{
    let before = sensor_steps(t, ds.drop_last(), fs, now);
    let last = ds.last().id@;
    let step = sensor_step(before.0, last, failure_of(fs, last), now);
    if step.1 is Some {
        lemma_told_push(before.1, step.1->0, id);
    }
    if last == id {
        lemma_steps_elsewhere(t, ds.drop_last(), fs, now, id);
        assert(told(sensor_steps(t, ds, fs, now).1, id) =~= as_list(
            sensor_step(t, id, failure_of(fs, id), now).1,
        ));
    } else {
        lemma_steps_on(t, ds.drop_last(), fs, now, id);
    }
}

proof fn lemma_count_present(ds: Seq<SensorDescriptor>, id: Seq<char>)
    ensures
        is_present(ds, id) <==> id_count(ds, id) > 0,
    decreases ds.len(),
{
    if ds.len() > 0 {
        lemma_count_present(ds.drop_last(), id);
        if is_present(ds.drop_last(), id) {
            let i = choose|i: int|
                0 <= i < ds.drop_last().len() && (#[trigger] ds.drop_last()[i]).id@ == id;
            assert(ds[i].id@ == id);
        }
        if ds.last().id@ == id {
            assert(ds[ds.len() - 1].id@ == id);
        }
        if is_present(ds, id) {
            let i = choose|i: int| 0 <= i < ds.len() && (#[trigger] ds[i]).id@ == id;
            if i < ds.len() - 1 {
                assert(ds.drop_last()[i].id@ == id);
            }
        }
    }
}

/// A sensor that is gone is forgotten, without a word: it is neither counted nor listed
/// as unavailable after the tick.
pub proof fn vanished_sensor_is_forgotten(
    t: TrackerView,
    ds: Seq<SensorDescriptor>,
    fs: Seq<SensorReadFailure>,
    now: Instant,
    id: Seq<char>,
)
    requires
        !is_present(ds, id),
    ensures
        ({
            let after = ticked(t, ds, fs, now);
            &&& !after.0.streak.dom().contains(id)
            &&& !after.0.quarantined.dom().contains(id)
            &&& told(after.1, id) == Seq::<EventView>::empty()
        }),
{
    lemma_count_present(ds, id);
    lemma_steps_elsewhere(reconciled(t, ds), ds, fs, now, id);
}

/// What a tick does to a sensor that is listed once depends on that sensor alone.
pub proof fn tick_acts_on_each_sensor_alone(
    t: TrackerView,
    ds: Seq<SensorDescriptor>,
    fs: Seq<SensorReadFailure>,
    now: Instant,
    id: Seq<char>,
)
    requires
        id_count(ds, id) == 1,
    ensures
        agree_on(
            ticked(t, ds, fs, now).0,
            sensor_step(t, id, failure_of(fs, id), now).0,
            id,
        ),
        told(ticked(t, ds, fs, now).1, id) == as_list(
            sensor_step(t, id, failure_of(fs, id), now).1,
        ),
{
    lemma_count_present(ds, id);
    lemma_steps_on(reconciled(t, ds), ds, fs, now, id);
}

/// A sensor in quarantine that is read again leaves it at once, with one word of it, and
/// starts over with no failures.
pub proof fn recovery_is_told_once(
    t: TrackerView,
    ds: Seq<SensorDescriptor>,
    fs: Seq<SensorReadFailure>,
    now: Instant,
    id: Seq<char>,
)
    requires
        id_count(ds, id) == 1,
        failure_of(fs, id) is None,
    ensures
        ({
            let after = ticked(t, ds, fs, now);
            &&& !after.0.streak.dom().contains(id)
            &&& !after.0.quarantined.dom().contains(id)
            &&& !after.0.awaits_discovery(id)
            &&& told(after.1, id) == (if t.quarantined.dom().contains(id) {
                seq![EventView::Recovered { id }]
            } else {
                Seq::empty()
            })
        }),
{
    tick_acts_on_each_sensor_alone(t, ds, fs, now, id);
}

/// The reads of one tick.
pub struct Tick {
    pub ds: Seq<SensorDescriptor>,
    pub fs: Seq<SensorReadFailure>,
    pub now: Instant,
}

/// The tracker after a number of ticks.
pub open spec fn after_ticks(t: TrackerView, ticks: Seq<Tick>) -> TrackerView
    decreases ticks.len(),
{
    if ticks.len() == 0 {
        t
    } else {
        let last = ticks.last();
        ticked(after_ticks(t, ticks.drop_last()), last.ds, last.fs, last.now).0
    }
}

/// What a number of ticks tell of a sensor.
pub open spec fn story(t: TrackerView, ticks: Seq<Tick>, id: Seq<char>) -> Seq<EventView>
    decreases ticks.len(),
{
    if ticks.len() == 0 {
        Seq::empty()
    } else {
        let last = ticks.last();
        story(t, ticks.drop_last(), id) + told(
            ticked(after_ticks(t, ticks.drop_last()), last.ds, last.fs, last.now).1,
            id,
        )
    }
}

/// Whether the sensor is there and fails in every tick.
pub open spec fn always_fails(ticks: Seq<Tick>, id: Seq<char>) -> bool {
    forall|k: int|
        0 <= k < ticks.len() ==> id_count((#[trigger] ticks[k]).ds, id) == 1 && failure_of(
            ticks[k].fs,
            id,
        ) is Some
}

/// The bounded story of a sensor that is there and fails in every tick, however many
/// there are: it awaits a new discovery after exactly the tick that brings it to the
/// threshold, and after no other; the next failure puts it in quarantine, which is told
/// once; from then on nothing is told. With a threshold of 0 the first failure does that.
pub proof fn persistent_failure_is_a_bounded_story(t: TrackerView, ticks: Seq<Tick>, id: Seq<char>)
    requires
        !t.streak.dom().contains(id),
        !t.quarantined.dom().contains(id),
        always_fails(ticks, id),
    ensures
        after_ticks(t, ticks).awaits_discovery(id) <==> ticks.len() > 0 && ticks.len()
            == t.threshold,
        after_ticks(t, ticks).quarantined.dom().contains(id) <==> ticks.len() > t.threshold,
        story(t, ticks, id).len() == (if ticks.len() > t.threshold {
            1nat
        } else {
            0
        }),
        ticks.len() > t.threshold ==> story(t, ticks, id)[0] is Quarantined,
    decreases ticks.len(),
{
    lemma_story(t, ticks, id);
}

proof fn lemma_story(t: TrackerView, ticks: Seq<Tick>, id: Seq<char>)
    requires
        !t.streak.dom().contains(id),
        !t.quarantined.dom().contains(id),
        always_fails(ticks, id),
    ensures
        ({
            let after = after_ticks(t, ticks);
            &&& after.threshold == t.threshold
            &&& after.quarantined.dom().contains(id) <==> ticks.len() > t.threshold
            &&& ticks.len() <= t.threshold ==> streak_of(after, id) == ticks.len()
            &&& ticks.len() == 0 <==> !after.streak.dom().contains(id)
        }),
        story(t, ticks, id).len() == (if ticks.len() > t.threshold {
            1nat
        } else {
            0
        }),
        ticks.len() > t.threshold ==> story(t, ticks, id)[0] is Quarantined,
    decreases ticks.len(),
{
    if ticks.len() > 0 {
        let front = ticks.drop_last();
        let last = ticks.last();
        assert forall|k: int| 0 <= k < front.len() implies id_count((#[trigger] front[k]).ds, id)
            == 1 && failure_of(front[k].fs, id) is Some by {
            assert(front[k] == ticks[k]);
        }
        lemma_story(t, front, id);
        let before = after_ticks(t, front);
        assert(ticks[ticks.len() - 1] == last);
        tick_acts_on_each_sensor_alone(before, last.ds, last.fs, last.now, id);
    }
}

/// What one failed read does to a sensor. In quarantine it changes nothing and is not told.
/// Else it counts; up to the threshold the sensor is only counted, and the failure that
/// goes beyond it puts it in quarantine, with its label and the reason, from then on.
pub proof fn a_failure_counts_until_quarantine(
    t: TrackerView,
    id: Seq<char>,
    f: SensorReadFailure,
    now: Instant,
)
    requires
        t.wf(),
    ensures
        ({
            let after = sensor_step(t, id, Some(f), now).0;
            let event = sensor_step(t, id, Some(f), now).1;
            let n = (if t.streak.dom().contains(id) {
                t.streak[id] as int
            } else {
                0
            }) + 1;
            &&& t.quarantined.dom().contains(id) ==> after == t && event is None
            &&& !t.quarantined.dom().contains(id) ==> {
                &&& after.streak.dom().contains(id) && after.streak[id] == n
                &&& n <= t.threshold ==> {
                    &&& event is None
                    &&& !after.quarantined.dom().contains(id)
                    &&& after.awaits_discovery(id) <==> n == t.threshold
                }
                &&& n > t.threshold ==> {
                    &&& after.quarantined.dom().contains(id)
                    &&& after.quarantined[id].id == id
                    &&& after.quarantined[id].label == f.label@
                    &&& after.quarantined[id].reason == f.reason@
                    &&& after.quarantined[id].since == now
                    &&& !after.awaits_discovery(id)
                    &&& event == Some(EventView::Quarantined { id, reason: f.reason@ })
                }
            }
            &&& after.threshold == t.threshold
            &&& forall|other: Seq<char>| other != id ==> #[trigger] agree_on(after, t, other)
        }),
{
}

/// A read that succeeds wipes out what was counted, ends a quarantine and tells of that,
/// and touches no other sensor.
pub proof fn a_success_wipes_the_slate(t: TrackerView, id: Seq<char>, now: Instant)
    ensures
        ({
            let after = sensor_step(t, id, None, now).0;
            let event = sensor_step(t, id, None, now).1;
            &&& !after.streak.dom().contains(id)
            &&& !after.quarantined.dom().contains(id)
            &&& event == (if t.quarantined.dom().contains(id) {
                Some(EventView::Recovered { id })
            } else {
                None
            })
            &&& forall|other: Seq<char>| other != id ==> #[trigger] agree_on(after, t, other)
        }),
{
}

/// A sensor failed in a tick exactly where a failure has its id; of several the last counts.
pub proof fn failures_are_found_by_id(fs: Seq<SensorReadFailure>, id: Seq<char>, i: int)
    ensures
        failure_of(fs, id) is Some <==> exists|k: int|
            0 <= k < fs.len() && (#[trigger] fs[k]).id@ == id,
        0 <= i < fs.len() && fs[i].id@ == id && (forall|k: int|
            i < k < fs.len() ==> (#[trigger] fs[k]).id@ != id) ==> failure_of(fs, id) == Some(fs[i]),
    decreases fs.len(),
{
    if fs.len() > 0 {
        let front = fs.drop_last();
        failures_are_found_by_id(front, id, i);
        assert forall|k: int| 0 <= k < front.len() implies #[trigger] front[k] == fs[k] by {}
        if fs.last().id@ == id {
            assert(fs[fs.len() - 1].id@ == id);
        } else {
            if exists|k: int| 0 <= k < fs.len() && (#[trigger] fs[k]).id@ == id {
                let k = choose|k: int| 0 <= k < fs.len() && (#[trigger] fs[k]).id@ == id;
                assert(front[k] == fs[k]);
            }
            if failure_of(front, id) is Some {
                let k = choose|k: int| 0 <= k < front.len() && (#[trigger] front[k]).id@ == id;
                assert(fs[k].id@ == id);
            }
        }
    }
}

/// A sensor asks for a new discovery from the threshold on, until it is in quarantine.
pub proof fn discovery_is_asked_for_from_the_threshold_on(t: TrackerView, id: Seq<char>)
    ensures
        t.awaits_discovery(id) <==> !t.quarantined.dom().contains(id) && t.streak.dom().contains(id)
            && t.streak[id] >= t.threshold,
{
}

/// A sensor in quarantine is told with its id, its label, the reason and the time.
pub proof fn a_quarantined_sensor_is_told_in_full(v: Seq<UnavailableSensor>, i: int)
    requires
        0 <= i < v.len(),
    ensures
        sensor_ids(v).len() == v.len(),
        sensor_ids(v)[i] == v[i].id@,
        unavailable_view(v[i]).id == v[i].id@,
        unavailable_view(v[i]).label == v[i].label@,
        unavailable_view(v[i]).reason == v[i].reason@,
        unavailable_view(v[i]).since == v[i].since,
{
}

/// No count of failures runs past what puts a sensor into quarantine, and a sensor in
/// quarantine is listed under its own id.
pub proof fn counts_stop_at_the_quarantine(v: TrackerView, id: Seq<char>)
    requires
        v.wf(),
    ensures
        v.streak.dom().contains(id) ==> v.streak[id] <= v.threshold + 1,
        v.streak.dom().contains(id) && v.streak[id] > v.threshold
            ==> v.quarantined.dom().contains(id),
        v.quarantined.dom().contains(id) ==> v.quarantined[id].id == id,
{
}

} // verus!

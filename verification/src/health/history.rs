//! The last samples of every sensor and fan.
//!
//! `F` is how the caller writes a value down; nothing here computes with it.

use crate::collections::StringMap;
use crate::text;
use std::collections::VecDeque;
use vstd::prelude::*;

verus! {

/// A value with its time.
#[derive(Debug, Clone, Copy, PartialEq)]
pub struct HistorySample<F> {
    /// Unix time in milliseconds.
    pub ts: u64,
    /// The value.
    pub v: F,
}

/// The samples of one sensor or fan, oldest first.
struct EntityHistory<F> {
    samples: VecDeque<HistorySample<F>>,
}

/// The samples after one more: where there were `max` or more, the oldest one goes. Where
/// none may be kept there are none.
pub open spec fn pushed<F>(
    samples: Seq<HistorySample<F>>,
    sample: HistorySample<F>,
    max: int,
) -> Seq<HistorySample<F>> {
    if max <= 0 {
        Seq::empty()
    } else if samples.len() >= max {
        samples.skip(1).push(sample)
    } else {
        samples.push(sample)
    }
}

/// The last `n` items of a list, or all of a shorter one.
pub open spec fn last_of<T>(s: Seq<T>, n: int) -> Seq<T> {
    if s.len() > n {
        s.skip(s.len() - n)
    } else {
        s
    }
}

/// The last samples of every sensor and fan.
pub struct HistoryRing<F> {
    inner: StringMap<EntityHistory<F>>,
    max_per_entity: usize,
}

impl<F> View for HistoryRing<F> {
    type V = Map<Seq<char>, Seq<HistorySample<F>>>;

    closed spec fn view(&self) -> Map<Seq<char>, Seq<HistorySample<F>>> {
        self.inner@.map_values(|h: EntityHistory<F>| h.samples@)
    }
}

impl<F: Copy> HistoryRing<F> {
    /// How many samples are kept of each.
    pub closed spec fn capacity(&self) -> nat {
        self.max_per_entity as nat
    }

    /// The samples of one entity; none if it was never recorded.
    pub open spec fn samples_of(&self, id: Seq<char>) -> Seq<HistorySample<F>> {
        if self@.dom().contains(id) {
            self@[id]
        } else {
            Seq::empty()
        }
    }

    /// A store that keeps the last `max_per_entity` samples of each.
    pub fn new(max_per_entity: usize) -> (r: Self)
        ensures
            r@ == Map::<Seq<char>, Seq<HistorySample<F>>>::empty(),
            r.capacity() == max_per_entity,
    {
        let r: Self = HistoryRing { inner: StringMap::new(), max_per_entity };
        assert(r@ =~= Map::<Seq<char>, Seq<HistorySample<F>>>::empty());
        r
    }

    /// Records a value of a sensor or fan at the time `ts`. Where the clock gives no
    /// time, the value is passed over, but the entity is known from then on.
    pub fn record(&mut self, entity_id: &str, value: F, ts: Option<u64>)
        ensures
            final(self).capacity() == old(self).capacity(),
            final(self)@ == old(self)@.insert(
                entity_id@,
                match ts {
                    Some(ts) => pushed(
                        old(self).samples_of(entity_id@),
                        HistorySample { ts, v: value },
                        old(self).capacity() as int,
                    ),
                    None => old(self).samples_of(entity_id@),
                },
            ),
    {
        let ghost before = self@;
        let ghost samples = self.samples_of(entity_id@);
        let mut history: EntityHistory<F> = match self.inner.remove(entity_id) {
            Some(h) => h,
            None => EntityHistory { samples: VecDeque::new() },
        };
        assert(history.samples@ =~= samples);
        if let Some(ts) = ts {
            if self.max_per_entity == 0 {
                history.samples = VecDeque::new();
            } else {
                if history.samples.len() >= self.max_per_entity {
                    let _ = history.samples.pop_front();
                }
                history.samples.push_back(HistorySample { ts, v: value });
            }
            assert(history.samples@ =~= pushed(
                samples,
                HistorySample { ts, v: value },
                self.max_per_entity as int,
            ));
        }
        let ghost after = history.samples@;
        self.inner.insert(entity_id.to_owned(), history);
        assert(self@ =~= before.insert(entity_id@, after));
    }

    /// The last `n` samples of a sensor or fan, oldest first.
    pub fn get_last(&self, entity_id: &str, n: usize) -> (r: Vec<HistorySample<F>>)
        ensures
            r@ == last_of(self.samples_of(entity_id@), n as int),
    {
        let mut out: Vec<HistorySample<F>> = Vec::new();
        if let Some(h) = self.inner.get(entity_id) {
            let len: usize = h.samples.len();
            let from: usize = if len > n {
                len - n
            } else {
                0
            };
            let mut i: usize = from;
            while i < len
                invariant
                    from <= i <= len,
                    len == h.samples@.len(),
                    out@ == h.samples@.subrange(from as int, i as int),
                decreases len - i,
            {
                out.push(h.samples[i]);
                i += 1;
            }
        }
        assert(out@ =~= last_of(self.samples_of(entity_id@), n as int));
        out
    }

    /// The ids of all that was recorded, each once.
    pub fn entity_ids(&self) -> (r: Vec<String>)
        ensures
            text::strings(r@).no_duplicates(),
            text::strings(r@).to_set() == self@.dom(),
    {
        let n: usize = self.inner.len();
        let ghost keys = self.inner.keys();
        let mut out: Vec<String> = Vec::new();
        let mut i: usize = 0;
        while i < n
            invariant
                i <= n,
                n == keys.len(),
                keys == self.inner.keys(),
                text::strings(out@) == keys.take(i as int),
            decreases n - i,
        {
            let ghost before = text::strings(out@);
            out.push(self.inner.key_at(i).to_owned());
            assert(text::strings(out@) =~= before.push(keys[i as int]));
            assert(keys.take(i + 1) =~= keys.take(i as int).push(keys[i as int]));
            i += 1;
        }
        assert(keys.take(i as int) =~= keys);
        assert(self@.dom() =~= self.inner@.dom());
        out
    }
}

/// The store is bounded: one more sample never leaves more than the capacity. Where there
/// is room for a sample at all the new one is the last, and while there is room for it
/// none goes.
pub proof fn history_is_bounded<F>(
    samples: Seq<HistorySample<F>>,
    sample: HistorySample<F>,
    max: int,
)
    requires
        0 <= max,
        samples.len() <= max,
    ensures
        pushed(samples, sample, max).len() <= max,
        max > 0 ==> pushed(samples, sample, max).last() == sample,
        samples.len() < max ==> pushed(samples, sample, max).drop_last() == samples,
{
    if samples.len() < max {
        assert(pushed(samples, sample, max).drop_last() =~= samples);
    }
}

/// What is kept of samples that are recorded one after the other.
pub open spec fn kept_of<F>(all: Seq<HistorySample<F>>, max: int) -> Seq<HistorySample<F>>
    decreases all.len(),
{
    if all.len() == 0 {
        Seq::empty()
    } else {
        pushed(kept_of(all.drop_last(), max), all.last(), max)
    }
}

/// What is kept are the last samples that were recorded, as many as the capacity allows,
/// in their order.
pub proof fn the_last_samples_are_kept<F>(all: Seq<HistorySample<F>>, max: int)
    requires
        0 <= max,
    ensures
        kept_of(all, max) == last_of(all, max),
    decreases all.len(),
{
    if all.len() > 0 {
        the_last_samples_are_kept(all.drop_last(), max);
    }
    assert(kept_of(all, max) =~= last_of(all, max));
}

/// The last items of a list are a tail of it: as many as were asked for, or all of a
/// shorter list, in their order, with the newest at the end.
pub proof fn the_last_items_are_the_newest<T>(s: Seq<T>, n: int, i: int)
    requires
        0 <= n,
    ensures
        last_of(s, n).len() == (if s.len() < n {
            s.len() as int
        } else {
            n
        }),
        0 <= i < last_of(s, n).len() ==> last_of(s, n)[i] == s[s.len() - last_of(s, n).len() + i],
{
}

/// A sample more: the oldest goes where there is no room, and all others stay in their
/// order before the new one.
pub proof fn only_the_oldest_sample_goes<F>(
    samples: Seq<HistorySample<F>>,
    sample: HistorySample<F>,
    max: int,
    i: int,
)
    requires
        0 < max,
        0 <= i < samples.len(),
    ensures
        ({
            let after = pushed(samples, sample, max);
            &&& after.last() == sample
            &&& samples.len() < max ==> after.len() == samples.len() + 1 && after[i] == samples[i]
            &&& samples.len() >= max ==> after.len() == samples.len() && (i > 0 ==> after[i - 1]
                == samples[i])
        }),
{
}

/// What was recorded of a sensor or fan are its samples, and what was never recorded has
/// none.
pub proof fn what_was_never_recorded_has_no_samples<F: Copy>(ring: HistoryRing<F>, id: Seq<char>)
    ensures
        ring@.dom().contains(id) ==> ring.samples_of(id) == ring@[id],
        !ring@.dom().contains(id) ==> ring.samples_of(id).len() == 0,
{
}

} // verus!

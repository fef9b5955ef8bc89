use vstd::prelude::*;
use crate::model::MetricAvailability;
use crate::reducer::sat_sub;

verus! {

/// A copy of a reading.
pub fn copy_reading<T: Copy>(reading: &MetricAvailability<T>) -> (copy: MetricAvailability<T>)
    ensures
        copy == *reading,
{
    match reading {
        MetricAvailability::Available(value) => MetricAvailability::Available(*value),
        MetricAvailability::Unavailable { reason } => MetricAvailability::Unavailable { reason: reason.clone() },
    }
}

/// Whether a reading taken at `read_at` is still reused at `now`: less than
/// `refresh_after` has passed (a clock that went back counts as no time).
pub open spec fn still_fresh(read_at: u64, now: u64, refresh_after: u64) -> bool {
    sat_sub(now, read_at) < refresh_after
}

/// When a source behind a cache is read, for a cache that starts empty and is
/// asked at each of `times` in turn: at the first time, and then whenever the
/// last reading has stopped being fresh.
pub open spec fn read_times(times: Seq<u64>, refresh_after: u64) -> Seq<u64>
    decreases times.len(),
{
    if times.len() == 0 {
        Seq::empty()
    } else {
        let earlier = read_times(times.drop_last(), refresh_after);
        let now = times.last();
        if earlier.len() > 0 && still_fresh(earlier.last(), now, refresh_after) {
            earlier
        } else {
            earlier.push(now)
        }
    }
}

/// Times that never go back.
pub open spec fn nondecreasing(times: Seq<u64>) -> bool {
    forall|i: int, j: int| 0 <= i <= j < times.len() ==> times[i] <= times[j]
}

/// Asked at times that never go back, a cache reads its source at the first
/// time and then at most once every `refresh_after`: the reads number at most
/// the times, and between the first read and the last time lie at least
/// `refresh_after` for each read after the first.
pub proof fn lemma_reads_are_spaced(times: Seq<u64>, refresh_after: u64)
    requires
        nondecreasing(times),
        times.len() > 0,
    ensures
        read_times(times, refresh_after).len() >= 1,
        read_times(times, refresh_after)[0] == times[0],
        read_times(times, refresh_after).len() <= times.len(),
        read_times(times, refresh_after).last() <= times.last(),
        (read_times(times, refresh_after).len() - 1) * refresh_after
            <= read_times(times, refresh_after).last() - times[0],
    decreases times.len(),
{
    if times.len() == 1 {
        assert(read_times(times.drop_last(), refresh_after).len() == 0);
    } else {
        let earlier_times = times.drop_last();
        assert(nondecreasing(earlier_times));
        lemma_reads_are_spaced(earlier_times, refresh_after);
        let earlier = read_times(earlier_times, refresh_after);
        let now = times.last();
        assert(earlier_times.last() == times[times.len() - 2]);
        assert(earlier_times[0] == times[0]);
        assert(earlier.last() <= now);
        if !(earlier.len() > 0 && still_fresh(earlier.last(), now, refresh_after)) {
            let k = earlier.len() - 1;
            assert((k + 1) * refresh_after == k * refresh_after + refresh_after) by (nonlinear_arith);
            assert(sat_sub(now, earlier.last()) == now - earlier.last());
            assert(earlier.push(now)[0] == earlier[0]);
        }
    }
}

/// Asked `n` times within less than `n - 1` refresh periods, a cache reads its
/// source fewer than `n` times.
pub proof fn lemma_reads_fewer_than_asks(times: Seq<u64>, refresh_after: u64)
    requires
        nondecreasing(times),
        times.len() >= 2,
        times.last() - times[0] < (times.len() - 1) * refresh_after,
    ensures
        read_times(times, refresh_after).len() < times.len(),
{
    lemma_reads_are_spaced(times, refresh_after);
    let r = read_times(times, refresh_after).len() - 1;
    let n = times.len() - 1;
    assert(r * refresh_after < n * refresh_after);
    assert(r < n) by (nonlinear_arith)
        requires
            r * refresh_after < n * refresh_after,
            r >= 0,
            n >= 0,
    ;
}

/// The last reading of a source and when it was taken, reused until
/// `refresh_after` has passed (in the unit of the times handed to it).
pub struct ReadingCache<T> {
    refresh_after: u64,
    entry: Option<(u64, MetricAvailability<T>)>,
}

impl<T: Copy> ReadingCache<T> {
    /// How long a reading is reused.
    pub closed spec fn refresh_after(&self) -> u64 {
        self.refresh_after
    }

    /// The last reading and when it was taken.
    pub closed spec fn entry(&self) -> Option<(u64, MetricAvailability<T>)> {
        self.entry
    }

    /// The reading that is reused at `now`, if there is one.
    pub open spec fn fresh_at(&self, now: u64) -> Option<MetricAvailability<T>> {
        match self.entry() {
            Some((read_at, reading)) => if still_fresh(read_at, now, self.refresh_after()) {
                Some(reading)
            } else {
                None
            },
            None => None,
        }
    }

    pub fn new(refresh_after: u64) -> (cache: Self)
        ensures
            cache.refresh_after() == refresh_after,
            cache.entry() is None,
    {
        ReadingCache { refresh_after, entry: None }
    }

    /// The reading to reuse at `now`: `None` when there is none or it is too old.
    pub fn fresh_reading(&self, now: u64) -> (reading: Option<MetricAvailability<T>>)
        ensures
            reading == self.fresh_at(now),
    {
        match &self.entry {
            Some((read_at, reading)) => if now.saturating_sub(*read_at) < self.refresh_after {
                Some(copy_reading(reading))
            } else {
                None
            },
            None => None,
        }
    }

    /// Keeps `reading`, taken at `now`, and returns it.
    pub fn store(&mut self, now: u64, reading: MetricAvailability<T>) -> (stored: MetricAvailability<T>)
        ensures
            stored == reading,
            final(self).entry() == Some((now, reading)),
            final(self).refresh_after() == old(self).refresh_after(),
    {
        let copy = copy_reading(&reading);
        self.entry = Some((now, reading));
        copy
    }
}

} // verus!

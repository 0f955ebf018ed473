//! Timing utilities: clock-backed timestamps, a latency tracker with
//! percentile statistics, a rate limiter, and a sliding time-window
//! counter.
//!
//! Clock reads come from outside the library; everything computed from a
//! clock value is verified for every value the clock could return.

use crate::{wrap_add64, Error};
use vstd::prelude::*;

verus! {

/// Timestamp source.
#[derive(Debug, Clone, Copy, PartialEq, Eq, Structural)]
pub enum TimestampSource {
    SystemClock,
    MonotonicClock,
    TscClock,
}

/// Relies on nix::time::clock_gettime(CLOCK_REALTIME): seconds and
/// nanoseconds of the system clock; the nanosecond part is below 10^9.
#[verifier::external_body]
fn system_clock_parts() -> (r: (i64, i64))
    ensures
        0 <= r.1 < 1_000_000_000,
{
    match nix::time::clock_gettime(nix::time::ClockId::CLOCK_REALTIME) {
        Ok(ts) => (ts.tv_sec(), ts.tv_nsec()),
        Err(_) => (0, 0),
    }
}

/// Relies on nix::time::clock_gettime(CLOCK_MONOTONIC): a non-negative
/// monotonic timestamp; the nanosecond part is below 10^9.
#[verifier::external_body]
fn monotonic_clock_parts() -> (r: (i64, i64))
    ensures
        r.0 >= 0,
        0 <= r.1 < 1_000_000_000,
{
    match nix::time::clock_gettime(nix::time::ClockId::CLOCK_MONOTONIC) {
        Ok(ts) => (ts.tv_sec(), ts.tv_nsec()),
        Err(_) => (0, 0),
    }
}

/// Combine clock parts into nanoseconds, clamping below at zero and above
/// at the largest representable timestamp.
pub fn combine_clock_parts(sec: i64, nsec: i64) -> (r: u64)
    requires
        0 <= nsec < 1_000_000_000,
    ensures
        sec < 0 ==> r == 0,
        sec >= 0 ==> r as int == vstd::math::min(
            sec * 1_000_000_000 + nsec,
            u64::MAX as int,
        ),
{
    if sec < 0 {
        return 0;
    }
    let total: u128 = (sec as u128) * 1_000_000_000 + (nsec as u128);
    if total > 0xFFFF_FFFF_FFFF_FFFF {
        u64::MAX
    } else {
        total as u64
    }
}

/// The wall clock, in nanoseconds since the epoch (clamped at the 64-bit
/// range).
pub(crate) fn wall_clock_nanos() -> (r: u64) {
    let parts = system_clock_parts();
    combine_clock_parts(parts.0, parts.1)
}

/// High-resolution timer. The TSC is not read inside the library, so the
/// TSC source falls back to the monotonic clock with a zero frequency.
pub struct HighResTimer {
    source: TimestampSource,
    tsc_frequency: u64,
    tsc_offset: u64,
}

impl HighResTimer {
    pub closed spec fn spec_source(self) -> TimestampSource {
        self.source
    }

    pub closed spec fn spec_tsc_frequency(self) -> u64 {
        self.tsc_frequency
    }

    /// Create a new high-resolution timer.
    pub fn new(source: TimestampSource) -> (r: Self)
        ensures
            r.spec_source() == source,
            r.spec_tsc_frequency() == 0,
    {
        HighResTimer { source, tsc_frequency: 0, tsc_offset: 0 }
    }

    /// Current timestamp in nanoseconds, from the configured clock.
    pub fn now(&self) -> (r: u64) {
        match self.source {
            TimestampSource::SystemClock => {
                let parts = system_clock_parts();
                combine_clock_parts(parts.0, parts.1)
            },
            TimestampSource::MonotonicClock => {
                let parts = monotonic_clock_parts();
                combine_clock_parts(parts.0, parts.1)
            },
            TimestampSource::TscClock => {
                let parts = monotonic_clock_parts();
                combine_clock_parts(parts.0, parts.1)
            },
        }
    }

    /// Nanoseconds elapsed between two timestamps, zero when they are out
    /// of order.
    pub fn elapsed(&self, start: u64, end: u64) -> (r: u64)
        ensures
            end >= start ==> r == end - start,
            end < start ==> r == 0,
    {
        end.saturating_sub(start)
    }

    /// Calibrate the TSC clock; with no TSC access the frequency stays
    /// zero. Not applicable to the other sources.
    pub fn calibrate(&mut self) -> (r: Result<(), Error>)
        ensures
            *final(self) == *old(self),
            old(self).spec_source() is TscClock <==> r is Ok,
            r matches Err(e) ==> e matches Error::InvalidConfig(_),
    {
        match self.source {
            TimestampSource::TscClock => Ok(()),
            _ => Err(Error::InvalidConfig("TSC calibration not applicable".to_owned())),
        }
    }

    /// Get TSC frequency.
    pub fn tsc_frequency(&self) -> (r: u64)
        ensures
            r == self.spec_tsc_frequency(),
    {
        self.tsc_frequency
    }
}

impl Default for HighResTimer {
    fn default() -> (r: Self)
        ensures
            r.spec_source() == TimestampSource::MonotonicClock,
            r.spec_tsc_frequency() == 0,
    {
        HighResTimer::new(TimestampSource::MonotonicClock)
    }
}

/// A sequence is sorted in non-decreasing order.
pub open spec fn spec_sorted(s: Seq<u64>) -> bool {
    forall|i: int, j: int| 0 <= i < j < s.len() ==> s[i] <= s[j]
}

/// The integer sum of a sequence of counters.
pub open spec fn spec_seq_sum(s: Seq<u64>) -> int
    decreases s.len(),
{
    if s.len() == 0 {
        0
    } else {
        s[0] + spec_seq_sum(s.subrange(1, s.len() as int))
    }
}

proof fn lemma_seq_sum_nonneg(s: Seq<u64>)
    ensures
        0 <= spec_seq_sum(s) <= s.len() * 0xFFFF_FFFF_FFFF_FFFF,
    decreases s.len(),
{
    if s.len() > 0 {
        lemma_seq_sum_nonneg(s.subrange(1, s.len() as int));
    }
}

proof fn lemma_seq_sum_snoc(s: Seq<u64>, j: int)
    requires
        0 <= j < s.len(),
    ensures
        spec_seq_sum(s.subrange(0, j + 1)) == spec_seq_sum(s.subrange(0, j)) + s[j],
    decreases j,
{
    if j == 0 {
        let one = s.subrange(0, 1);
        assert(one[0] == s[0]);
        assert(one.subrange(1, 1) =~= Seq::<u64>::empty());
        assert(spec_seq_sum(one.subrange(1, one.len() as int)) == 0);
        assert(spec_seq_sum(one) == s[0]);
    } else {
        let tail = s.subrange(1, s.len() as int);
        lemma_seq_sum_snoc(tail, j - 1);
        assert(s.subrange(0, j + 1).subrange(1, j + 1) =~= tail.subrange(0, j));
        assert(s.subrange(0, j).subrange(1, j) =~= tail.subrange(0, j - 1));
        assert(spec_seq_sum(s.subrange(0, j + 1)) == s[0] + spec_seq_sum(tail.subrange(0, j)));
        assert(spec_seq_sum(s.subrange(0, j)) == s[0] + spec_seq_sum(tail.subrange(0, j - 1)));
        assert(tail[j - 1] == s[j]);
    }
}

/// Exchanging two elements preserves the multiset of a sequence.
proof fn lemma_swap_multiset(s: Seq<u64>, a: int, b: int)
    requires
        0 <= a < b < s.len(),
    ensures
        s.update(a, s[b]).update(b, s[a]).to_multiset() == s.to_multiset(),
{
    broadcast use vstd::multiset::group_multiset_axioms;
    broadcast use vstd::multiset::group_multiset_properties;

    let s1 = s.update(a, s[b]);
    vstd::seq_lib::to_multiset_update(s, a, s[b]);
    vstd::seq_lib::to_multiset_update(s1, b, s[a]);
    vstd::seq_lib::to_multiset_contains(s, s[a]);
    assert(s.contains(s[a]));
    assert(s1[b] == s[b]);
    let m = s.to_multiset();
    assert(s1.to_multiset() == m.insert(s[b]).remove(s[a]));
    assert(s1.update(b, s[a]).to_multiset() == s1.to_multiset().insert(s[a]).remove(s[b]));
    assert(m.count(s[a]) > 0);
    assert(s1.update(b, s[a]).to_multiset() =~= m);
}

/// Sort counters in non-decreasing order (insertion sort on a vector).
fn sort_samples(v: &mut Vec<u64>)
    ensures
        final(v)@.len() == old(v)@.len(),
        final(v)@.to_multiset() == old(v)@.to_multiset(),
        spec_sorted(final(v)@),
{
    let n = v.len();
    if n == 0 {
        return ;
    }
    let mut i: usize = 1;
    while i < n
        invariant
            1 <= i <= n,
            n == v@.len(),
            v@.to_multiset() == old(v)@.to_multiset(),
            forall|a: int, b: int| 0 <= a < b < i ==> v@[a] <= v@[b],
        decreases n - i,
    {
        let key = v[i];
        let mut j: usize = i;
        while j > 0 && v[j - 1] > key
            invariant
                j <= i < n,
                n == v@.len(),
                v@.to_multiset() == old(v)@.to_multiset(),
                v@[j as int] == key,
                forall|a: int, b: int| 0 <= a < b <= i && a != j && b != j ==> v@[a] <= v@[b],
                forall|k: int| j < k <= i ==> v@[k] >= key,
            decreases j,
        {
            let prev = v[j - 1];
            let cur = v[j];
            let ghost before = v@;
            v.set(j - 1, cur);
            v.set(j, prev);
            proof {
                lemma_swap_multiset(before, j - 1, j as int);
                assert(v@ =~= before.update(j - 1, cur).update(j as int, prev));
            }
            j = j - 1;
        }
        proof {
            assert forall|a: int, b: int| 0 <= a < b <= i implies v@[a] <= v@[b] by {
                if b == j {
                    assert(a <= j - 1);
                    if a < j - 1 {
                        assert(v@[a] <= v@[j - 1]);
                    }
                    assert(v@[j - 1] <= key);
                } else if a == j {
                    assert(v@[b] >= key);
                }
            }
        }
        i = i + 1;
    }
}

/// Latency tracker: a circular window of the most recent samples.
pub struct LatencyTracker {
    timer: HighResTimer,
    samples: Vec<u64>,
    max_samples: usize,
    index: usize,
    count: u64,
    min_latency: u64,
    max_latency: u64,
}

/// Latency statistics.
#[derive(Debug, Clone, Copy, PartialEq, Eq, Structural)]
pub struct LatencyStats {
    pub count: u64,
    pub min: u64,
    pub max: u64,
    pub mean: u64,
    pub p50: u64,
    pub p95: u64,
    pub p99: u64,
    pub p999: u64,
}

impl LatencyTracker {
    pub closed spec fn spec_samples(self) -> Seq<u64> {
        self.samples@
    }

    pub closed spec fn spec_max_samples(self) -> int {
        self.max_samples as int
    }

    pub closed spec fn spec_index(self) -> int {
        self.index as int
    }

    pub closed spec fn spec_count(self) -> u64 {
        self.count
    }

    pub closed spec fn spec_min(self) -> u64 {
        self.min_latency
    }

    pub closed spec fn spec_max(self) -> u64 {
        self.max_latency
    }

    pub closed spec fn wf(self) -> bool {
        &&& self.max_samples >= 1
        &&& self.max_samples <= 0x40_0000
        &&& self.samples@.len() == self.max_samples
        &&& self.index < self.max_samples
    }

    /// What recording the latency value `latency` does to the tracker: the
    /// sample at the write index is replaced, the index advances
    /// circularly, the total count is bumped, and the extrema take the new
    /// value in.
    pub open spec fn record_effect(pre: LatencyTracker, post: LatencyTracker, latency: u64)
        -> bool {
        &&& post.spec_samples() == pre.spec_samples().update(pre.spec_index(), latency)
        &&& post.spec_count() == wrap_add64(pre.spec_count(), 1)
        &&& post.spec_index() == (if pre.spec_index() + 1 == pre.spec_max_samples() {
            0int
        } else {
            pre.spec_index() + 1
        })
        &&& post.spec_min() == vstd::math::min(pre.spec_min() as int, latency as int)
        &&& post.spec_max() == vstd::math::max(pre.spec_max() as int, latency as int)
        &&& post.spec_max_samples() == pre.spec_max_samples()
    }

    /// Create a new latency tracker holding up to `max_samples` samples.
    pub fn new(max_samples: usize) -> (r: Self)
        requires
            1 <= max_samples,
            max_samples <= 0x40_0000,
        ensures
            r.wf(),
            r.spec_max_samples() == max_samples,
            r.spec_count() == 0,
            r.spec_index() == 0,
            r.spec_min() == u64::MAX,
            r.spec_max() == 0,
            r.spec_samples() == Seq::new(max_samples as nat, |i: int| 0u64),
    {
        let samples = vec![0u64; max_samples];
        proof {
            assert(samples@ =~= Seq::new(max_samples as nat, |i: int| 0u64));
        }
        LatencyTracker {
            timer: HighResTimer::new(TimestampSource::TscClock),
            samples,
            max_samples,
            index: 0,
            count: 0,
            min_latency: u64::MAX,
            max_latency: 0,
        }
    }

    /// Record the latency from `start` to now: the clock decides the
    /// value; whatever it is, the sample window, counters and extrema move
    /// as `record_effect` of that value says.
    pub fn record(&mut self, start: u64)
        requires
            old(self).wf(),
        ensures
            final(self).wf(),
            exists|latency: u64| LatencyTracker::record_effect(*old(self), *final(self), latency),
    {
        let now = self.timer.now();
        let latency = now.saturating_sub(start);
        if latency < self.min_latency {
            self.min_latency = latency;
        }
        if latency > self.max_latency {
            self.max_latency = latency;
        }
        self.samples.set(self.index, latency);
        self.index = if self.index + 1 == self.max_samples {
            0
        } else {
            self.index + 1
        };
        self.count = crate::counter_add(self.count, 1);
        proof {
            assert(LatencyTracker::record_effect(*old(self), *self, latency));
        }
    }

    /// Latency statistics over the current window: exact count, extrema
    /// and mean, and the percentiles of the sorted window.
    pub fn stats(&self) -> (r: LatencyStats)
        requires
            self.wf(),
        ensures
            r.count == self.spec_count(),
            r.min == self.spec_min(),
            r.max == self.spec_max(),
            ({
                let window = if self.spec_count() < self.spec_max_samples() {
                    self.spec_samples().subrange(0, self.spec_count() as int)
                } else {
                    self.spec_samples()
                };
                &&& (self.spec_count() > 0 ==> r.mean as int == spec_seq_sum(window) / (
                self.spec_count() as int))
                &&& (self.spec_count() == 0 ==> r.mean == 0)
                &&& (exists|sorted: Seq<u64>|
                    sorted.to_multiset() == window.to_multiset() && spec_sorted(sorted) && (
                    window.len() > 0 ==> r.p50 == sorted[(window.len() - 1) * 50 / 100] && r.p95
                        == sorted[(window.len() - 1) * 95 / 100] && r.p99 == sorted[(window.len()
                        - 1) * 99 / 100] && r.p999 == sorted[(window.len() - 1) * 999 / 1000]) && (
                    window.len() == 0 ==> r.p50 == 0 && r.p95 == 0 && r.p99 == 0 && r.p999 == 0))
            }),
    {
        let mut sorted_samples: Vec<u64> = Vec::new();
        let window_len: usize = if self.count < (self.max_samples as u64) {
            self.count as usize
        } else {
            self.max_samples
        };
        let mut i: usize = 0;
        while i < window_len
            invariant
                i <= window_len,
                window_len <= self.samples@.len(),
                sorted_samples@.len() == i,
                sorted_samples@ == self.samples@.subrange(0, i as int),
            decreases window_len - i,
        {
            sorted_samples.push(self.samples[i]);
            proof {
                assert(sorted_samples@ =~= self.samples@.subrange(0, i as int + 1));
            }
            i = i + 1;
        }
        let ghost window = sorted_samples@;
        proof {
            if self.spec_count() >= self.spec_max_samples() {
                assert(window =~= self.spec_samples());
            }
        }
        let total = seq_sum(&sorted_samples);
        sort_samples(&mut sorted_samples);
        let mean: u64 = if self.count > 0 {
            proof {
                lemma_seq_sum_nonneg(window);
                assert(window.len() as int <= self.count as int);
                assert((total as int) / (self.count as int) <= 0xFFFF_FFFF_FFFF_FFFF)
                    by (nonlinear_arith)
                    requires
                        0 <= total as int <= (window.len() as int) * 0xFFFF_FFFF_FFFF_FFFF,
                        window.len() as int <= self.count as int,
                        self.count as int >= 1,
                ;
            }
            (total / (self.count as u128)) as u64
        } else {
            0
        };
        let p50 = percentile_index(&sorted_samples, 50, 100);
        let p95 = percentile_index(&sorted_samples, 95, 100);
        let p99 = percentile_index(&sorted_samples, 99, 100);
        let p999 = percentile_index(&sorted_samples, 999, 1000);
        proof {
            assert(sorted_samples@.to_multiset() == window.to_multiset());
            assert(spec_sorted(sorted_samples@));
        }
        LatencyStats {
            count: self.count,
            min: self.min_latency,
            max: self.max_latency,
            mean,
            p50,
            p95,
            p99,
            p999,
        }
    }

    /// Reset the tracker.
    pub fn reset(&mut self)
        requires
            old(self).wf(),
        ensures
            final(self).wf(),
            final(self).spec_count() == 0,
            final(self).spec_index() == 0,
            final(self).spec_min() == u64::MAX,
            final(self).spec_max() == 0,
            final(self).spec_max_samples() == old(self).spec_max_samples(),
            final(self).spec_samples() == Seq::new(
                old(self).spec_max_samples() as nat,
                |i: int| 0u64,
            ),
    {
        let n = self.samples.len();
        let mut i: usize = 0;
        while i < n
            invariant
                i <= n,
                n == self.samples@.len(),
                n == old(self).spec_max_samples(),
                self.samples@.len() == n,
                forall|k: int| 0 <= k < i ==> self.samples@[k] == 0u64,
                self.max_samples == old(self).max_samples,
                self.index == old(self).index,
            decreases n - i,
        {
            self.samples.set(i, 0);
            i = i + 1;
        }
        self.index = 0;
        self.count = 0;
        self.min_latency = u64::MAX;
        self.max_latency = 0;
        proof {
            assert(self.samples@ =~= Seq::new(old(self).spec_max_samples() as nat, |i: int| 0u64));
        }
    }
}

/// Sum counters into a 128-bit total (no overflow for any window).
fn seq_sum(v: &Vec<u64>) -> (r: u128)
    requires
        v@.len() <= 0x1_0000_0000,
    ensures
        r as int == spec_seq_sum(v@),
{
    let n = v.len();
    let mut total: u128 = 0;
    let mut i: usize = 0;
    proof {
        lemma_seq_sum_nonneg(v@);
    }
    while i < n
        invariant
            i <= n,
            n == v@.len(),
            n <= 0x1_0000_0000,
            total as int == spec_seq_sum(v@.subrange(0, i as int)),
            total <= i * 0xFFFF_FFFF_FFFF_FFFF,
        decreases n - i,
    {
        proof {
            lemma_seq_sum_snoc(v@, i as int);
            lemma_seq_sum_nonneg(v@.subrange(0, i as int));
        }
        total = total + (v[i] as u128);
        i = i + 1;
    }
    proof {
        assert(v@.subrange(0, n as int) =~= v@);
    }
    total
}

/// The element at the `num/den` quantile position of the sorted samples,
/// or zero for an empty window.
fn percentile_index(sorted: &Vec<u64>, num: usize, den: usize) -> (r: u64)
    requires
        1 <= den,
        den <= 1000,
        num <= den,
        sorted@.len() <= 0x40_0000,
    ensures
        sorted@.len() == 0 ==> r == 0,
        sorted@.len() > 0 ==> r == sorted@[(sorted@.len() - 1) * num as int / (den as int)],
{
    if sorted.len() == 0 {
        return 0;
    }
    proof {
        assert((sorted@.len() - 1) * (num as int) <= 0x40_0000 * 1000) by (nonlinear_arith)
            requires
                1 <= sorted@.len() <= 0x40_0000,
                num <= 1000,
        ;
    }
    let idx = (sorted.len() - 1) * num / den;
    proof {
        assert(((sorted@.len() - 1) * num as int) / (den as int) < sorted@.len())
            by (nonlinear_arith)
            requires
                sorted@.len() >= 1,
                1 <= den,
                num <= den,
        ;
    }
    sorted[idx]
}

/// Rate limiter: admits up to `rate` operations per second by spacing
/// admissions `10^9 / rate` nanoseconds apart.
pub struct RateLimiter {
    timer: HighResTimer,
    rate: u64,
    time_per_op: u64,
    next_allowed: u64,
}

impl RateLimiter {
    pub closed spec fn spec_rate(self) -> u64 {
        self.rate
    }

    pub closed spec fn spec_time_per_op(self) -> u64 {
        self.time_per_op
    }

    pub closed spec fn spec_next_allowed(self) -> u64 {
        self.next_allowed
    }

    /// Create a new rate limiter; a zero rate means unlimited.
    pub fn new(rate: u64) -> (r: Self)
        ensures
            r.spec_rate() == rate,
            rate > 0 ==> r.spec_time_per_op() == 1_000_000_000u64 / rate,
            rate == 0 ==> r.spec_time_per_op() == 0,
            r.spec_next_allowed() == 0,
    {
        let time_per_op: u64 = if rate > 0 {
            1_000_000_000 / rate
        } else {
            0
        };
        RateLimiter {
            timer: HighResTimer::new(TimestampSource::MonotonicClock),
            rate,
            time_per_op,
            next_allowed: 0,
        }
    }

    /// The admission decision at clock value `now`: admitted exactly when
    /// `now` has reached the next allowed time, which then advances by the
    /// per-operation spacing.
    pub fn try_acquire_at(&mut self, now: u64) -> (r: bool)
        ensures
            final(self).spec_rate() == old(self).spec_rate(),
            final(self).spec_time_per_op() == old(self).spec_time_per_op(),
            old(self).spec_rate() == 0 ==> r && final(self).spec_next_allowed() == old(self).spec_next_allowed(),
            old(self).spec_rate() > 0 && now >= old(self).spec_next_allowed() ==> r && final(self).spec_next_allowed() == old(self).spec_next_allowed().saturating_add(
                old(self).spec_time_per_op(),
            ),
            old(self).spec_rate() > 0 && now < old(self).spec_next_allowed() ==> !r && final(self).spec_next_allowed() == old(self).spec_next_allowed(),
    {
        if self.rate == 0 {
            return true;
        }
        if now >= self.next_allowed {
            self.next_allowed = self.next_allowed.saturating_add(self.time_per_op);
            true
        } else {
            false
        }
    }

    /// Check if an operation is allowed now.
    pub fn try_acquire(&mut self) -> (r: bool)
        ensures
            final(self).spec_rate() == old(self).spec_rate(),
            final(self).spec_time_per_op() == old(self).spec_time_per_op(),
            old(self).spec_rate() == 0 ==> r,
    {
        let now = self.timer.now();
        self.try_acquire_at(now)
    }

    /// Spin until an operation is admitted (bounded by an astronomically
    /// large retry budget).
    pub fn acquire(&mut self)
        ensures
            final(self).spec_rate() == old(self).spec_rate(),
            final(self).spec_time_per_op() == old(self).spec_time_per_op(),
    {
        let mut spins: u64 = 0;
        while spins < 0xFFFF_FFFF_FFFF_FFFF
            invariant
                self.spec_rate() == old(self).spec_rate(),
                self.spec_time_per_op() == old(self).spec_time_per_op(),
            decreases 0xFFFF_FFFF_FFFF_FFFFu64 - spins,
        {
            if self.try_acquire() {
                return ;
            }
            spins = spins + 1;
        }
    }

    /// Get current rate.
    pub fn rate(&self) -> (r: u64)
        ensures
            r == self.spec_rate(),
    {
        self.rate
    }

    /// Update the rate; a zero rate means unlimited.
    pub fn set_rate(&mut self, rate: u64)
        ensures
            final(self).spec_rate() == rate,
            rate > 0 ==> final(self).spec_time_per_op() == 1_000_000_000u64 / rate,
            rate == 0 ==> final(self).spec_time_per_op() == 0,
            final(self).spec_next_allowed() == old(self).spec_next_allowed(),
    {
        self.rate = rate;
        self.time_per_op = if rate > 0 {
            1_000_000_000 / rate
        } else {
            0
        };
    }
}

/// Sliding time-window counter: the window is split into buckets that
/// rotate as time passes; the count is the sum over the live buckets.
pub struct TimeWindowCounter {
    timer: HighResTimer,
    window_duration: u64,
    buckets: Vec<u64>,
    current_bucket: usize,
    last_update: u64,
}

impl TimeWindowCounter {
    pub closed spec fn spec_buckets(self) -> Seq<u64> {
        self.buckets@
    }

    pub closed spec fn spec_current_bucket(self) -> int {
        self.current_bucket as int
    }

    pub closed spec fn wf(self) -> bool {
        &&& self.buckets@.len() >= 1
        &&& self.buckets@.len() <= 0x1000_0000
        &&& self.current_bucket < self.buckets@.len()
    }

    /// Create a counter over a window of `window_duration_ns` nanoseconds
    /// split into `num_buckets` buckets.
    pub fn new(window_duration_ns: u64, num_buckets: usize) -> (r: Self)
        requires
            1 <= num_buckets,
            num_buckets <= 0x1000_0000,
        ensures
            r.wf(),
            r.spec_buckets() == Seq::new(num_buckets as nat, |i: int| 0u64),
            r.spec_current_bucket() == 0,
    {
        let buckets = vec![0u64; num_buckets];
        proof {
            assert(buckets@ =~= Seq::new(num_buckets as nat, |i: int| 0u64));
        }
        TimeWindowCounter {
            timer: HighResTimer::new(TimestampSource::MonotonicClock),
            window_duration: window_duration_ns,
            buckets,
            current_bucket: 0,
            last_update: 0,
        }
    }

    /// Increment the counter by one.
    pub fn increment(&mut self)
        requires
            old(self).wf(),
        ensures
            final(self).wf(),
            final(self).spec_buckets().len() == old(self).spec_buckets().len(),
    {
        self.add(1);
    }

    /// Add `value` to the current bucket, after rotating stale buckets out
    /// of the window.
    pub fn add(&mut self, value: u64)
        requires
            old(self).wf(),
        ensures
            final(self).wf(),
            final(self).spec_buckets().len() == old(self).spec_buckets().len(),
    {
        let now = self.timer.now();
        self.update_buckets_at(now);
        let cur = self.current_bucket;
        let bumped = crate::counter_add(self.buckets[cur], value);
        self.buckets.set(cur, bumped);
    }

    /// Get the count in the current window, after rotating stale buckets.
    pub fn count(&mut self) -> (r: u64)
        requires
            old(self).wf(),
        ensures
            final(self).wf(),
            final(self).spec_buckets().len() == old(self).spec_buckets().len(),
            r as int == spec_seq_sum(final(self).spec_buckets())
                % 0x1_0000_0000_0000_0000,
    {
        let now = self.timer.now();
        self.update_buckets_at(now);
        let n = self.buckets.len();
        let mut total: u64 = 0;
        let mut i: usize = 0;
        proof {
            lemma_seq_sum_nonneg(self.buckets@);
        }
        while i < n
            invariant
                i <= n,
                n == self.buckets@.len(),
                self.wf(),
                total as int == spec_seq_sum(self.buckets@.subrange(0, i as int))
                    % 0x1_0000_0000_0000_0000,
            decreases n - i,
        {
            proof {
                lemma_seq_sum_snoc(self.buckets@, i as int);
                lemma_seq_sum_nonneg(self.buckets@.subrange(0, i as int));
                crate::lemma_wrap_add64_assoc(
                    0,
                    spec_seq_sum(self.buckets@.subrange(0, i as int)),
                    self.buckets@[i as int] as int,
                );
            }
            total = crate::counter_add(total, self.buckets[i]);
            i = i + 1;
        }
        proof {
            assert(self.buckets@.subrange(0, n as int) =~= self.buckets@);
        }
        total
    }

    /// Reset the counter.
    pub fn reset(&mut self)
        requires
            old(self).wf(),
        ensures
            final(self).wf(),
            final(self).spec_buckets() == Seq::new(
                old(self).spec_buckets().len(),
                |i: int| 0u64,
            ),
            final(self).spec_current_bucket() == old(self).spec_current_bucket(),
    {
        let n = self.buckets.len();
        let mut i: usize = 0;
        while i < n
            invariant
                i <= n,
                n == self.buckets@.len(),
                self.current_bucket == old(self).current_bucket,
                self.current_bucket < n,
                forall|k: int| 0 <= k < i ==> self.buckets@[k] == 0u64,
            decreases n - i,
        {
            self.buckets.set(i, 0);
            i = i + 1;
        }
        proof {
            assert(self.buckets@ =~= Seq::new(old(self).spec_buckets().len(), |i: int| 0u64));
        }
    }

    /// Rotate buckets forward to cover the window ending at `now`: every
    /// bucket that fell out of the window is cleared.
    fn update_buckets_at(&mut self, now: u64)
        requires
            old(self).wf(),
        ensures
            final(self).wf(),
            final(self).spec_buckets().len() == old(self).spec_buckets().len(),
    {
        let last = self.last_update;
        if now < last {
            return ;
        }
        let elapsed = now - last;
        let n = self.buckets.len();
        let bucket_duration = self.window_duration / (n as u64);
        if bucket_duration == 0 {
            return ;
        }
        if elapsed >= bucket_duration {
            let advance128 = (elapsed as u128) / (bucket_duration as u128);
            let buckets_to_advance: usize = if advance128 > (n as u128) {
                n
            } else {
                advance128 as usize
            };
            let mut i: usize = 0;
            while i < buckets_to_advance
                invariant
                    i <= buckets_to_advance,
                    buckets_to_advance <= n,
                    n == self.buckets@.len(),
                    self.wf(),
                    self.current_bucket == old(self).current_bucket,
                decreases buckets_to_advance - i,
            {
                let bucket_index = add_mod(self.current_bucket, i + 1, n);
                self.buckets.set(bucket_index, 0);
                i = i + 1;
            }
            let new_current = add_mod(self.current_bucket, buckets_to_advance, n);
            self.current_bucket = new_current;
            self.last_update = now;
        }
    }
}

/// `(a + b) % n` without overflow, for `a < n`.
fn add_mod(a: usize, b: usize, n: usize) -> (r: usize)
    requires
        1 <= n,
        n <= 0x1000_0000,
        a < n,
        b <= n,
    ensures
        r < n,
{
    let s = a + b;
    if s >= n {
        s - n
    } else {
        s
    }
}

} // verus!

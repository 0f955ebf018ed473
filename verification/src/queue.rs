//! Counted queues over the ring buffers: a common `RingBuffer` trait whose
//! contracts fix the FIFO semantics and the bookkeeping of every
//! implementation, with an SPSC and an MPMC instantiation.

use crate::ring::{is_pow2, MpmcRingBuffer, SpscRingBuffer, RING_MAX_CAPACITY};
use crate::{wrap_add64, Error};
use vstd::prelude::*;

verus! {

/// Queue statistics: free-running counters beside the tracked size.
#[derive(Debug, Clone, Copy, PartialEq, Eq, Structural)]
pub struct QueueStats {
    pub enqueued: u64,
    pub dequeued: u64,
    pub drops: u64,
    pub errors: u64,
    pub current_size: u64,
    pub peak_size: u64,
}

impl Default for QueueStats {
    fn default() -> (r: Self)
        ensures
            r == QueueStats::zero(),
    {
        QueueStats { enqueued: 0, dequeued: 0, drops: 0, errors: 0, current_size: 0, peak_size: 0 }
    }
}

impl QueueStats {
    /// All counters at zero.
    pub open spec fn zero() -> QueueStats {
        QueueStats { enqueued: 0, dequeued: 0, drops: 0, errors: 0, current_size: 0, peak_size: 0 }
    }
}

/// A bounded FIFO with accounting. The contracts fix, for every
/// implementation: the FIFO effect of push and pop, when `Full` and
/// `Empty` are returned, and how every counter moves.
pub trait RingBuffer<T: Copy>: Sized {
    /// The queued elements, oldest first.
    spec fn contents(&self) -> Seq<T>;

    /// The effective capacity.
    spec fn cap(&self) -> nat;

    /// Established by the constructor, preserved by every operation.
    spec fn queue_wf(&self) -> bool;

    /// The current statistics.
    spec fn stats_spec(&self) -> QueueStats;

    /// Push an item; `QueueError` and one counted drop when full.
    fn push(&mut self, item: T) -> (r: Result<(), Error>)
        requires
            old(self).queue_wf(),
        ensures
            final(self).queue_wf(),
            final(self).cap() == old(self).cap(),
            old(self).contents().len() < old(self).cap() ==> (r matches Ok(()) && final(self).contents() == old(self).contents().push(item) && final(self).stats_spec() == (
            QueueStats {
                enqueued: wrap_add64(old(self).stats_spec().enqueued, 1),
                current_size: (old(self).stats_spec().current_size + 1) as u64,
                peak_size: vstd::math::max(
                    old(self).stats_spec().peak_size as int,
                    old(self).stats_spec().current_size + 1,
                ) as u64,
                ..old(self).stats_spec()
            })),
            old(self).contents().len() == old(self).cap() ==> (r matches Err(Error::QueueError(_))
                && final(self).contents() == old(self).contents() && final(self).stats_spec() == (
            QueueStats {
                drops: wrap_add64(old(self).stats_spec().drops, 1),
                ..old(self).stats_spec()
            })),
    ;

    /// Pop the oldest item; `QueueError` and one counted error when empty.
    fn pop(&mut self) -> (r: Result<T, Error>)
        requires
            old(self).queue_wf(),
        ensures
            final(self).queue_wf(),
            final(self).cap() == old(self).cap(),
            old(self).contents().len() > 0 ==> (r matches Ok(v) && v == old(self).contents()[0]
                && final(self).contents() == old(self).contents().subrange(
                1,
                old(self).contents().len() as int,
            ) && final(self).stats_spec() == (QueueStats {
                dequeued: wrap_add64(old(self).stats_spec().dequeued, 1),
                current_size: (old(self).stats_spec().current_size - 1) as u64,
                ..old(self).stats_spec()
            })),
            old(self).contents().len() == 0 ==> (r matches Err(Error::QueueError(_)) && final(self).contents() == old(self).contents() && final(self).stats_spec() == (QueueStats {
                errors: wrap_add64(old(self).stats_spec().errors, 1),
                ..old(self).stats_spec()
            })),
    ;

    /// All-or-nothing batch push; `QueueError` and the batch counted as
    /// drops when it does not fit.
    fn push_batch(&mut self, items: &[T]) -> (r: Result<(), Error>)
        requires
            old(self).queue_wf(),
        ensures
            final(self).queue_wf(),
            final(self).cap() == old(self).cap(),
            old(self).contents().len() + items@.len() <= old(self).cap() ==> (r matches Ok(())
                && final(self).contents() == old(self).contents() + items@ && final(self).stats_spec() == (QueueStats {
                enqueued: wrap_add64(old(self).stats_spec().enqueued, items@.len() as int),
                current_size: (old(self).stats_spec().current_size + items@.len()) as u64,
                peak_size: vstd::math::max(
                    old(self).stats_spec().peak_size as int,
                    old(self).stats_spec().current_size + items@.len(),
                ) as u64,
                ..old(self).stats_spec()
            })),
            old(self).contents().len() + items@.len() > old(self).cap() ==> (r matches Err(
                Error::QueueError(_),
            ) && final(self).contents() == old(self).contents() && final(self).stats_spec() == (
            QueueStats {
                drops: wrap_add64(old(self).stats_spec().drops, items@.len() as int),
                ..old(self).stats_spec()
            })),
    ;

    /// Pop up to `items.len()` elements into the front of `items` in FIFO
    /// order; `QueueError` and one counted error when empty.
    fn pop_batch(&mut self, items: &mut Vec<T>) -> (r: Result<usize, Error>)
        requires
            old(self).queue_wf(),
        ensures
            final(self).queue_wf(),
            final(self).cap() == old(self).cap(),
            final(items)@.len() == old(items)@.len(),
            old(items)@.len() == 0 ==> (r matches Ok(k) && k == 0usize && final(self).contents()
                == old(self).contents() && final(items)@ == old(items)@ && final(self).stats_spec() == old(self).stats_spec()),
            old(items)@.len() > 0 && old(self).contents().len() == 0 ==> (r matches Err(
                Error::QueueError(_),
            ) && final(self).contents() == old(self).contents() && final(items)@ == old(items)@
                && final(self).stats_spec() == (QueueStats {
                errors: wrap_add64(old(self).stats_spec().errors, 1),
                ..old(self).stats_spec()
            })),
            old(items)@.len() > 0 && old(self).contents().len() > 0 ==> (r matches Ok(k) && k
                == vstd::math::min(old(items)@.len() as int, old(self).contents().len() as int)
                && final(items)@.subrange(0, k as int) == old(self).contents().subrange(
                0,
                k as int,
            ) && (forall|j: int| k <= j < old(items)@.len() ==> final(items)@[j] == old(items)@[j])
                && final(self).contents() == old(self).contents().subrange(
                k as int,
                old(self).contents().len() as int,
            ) && final(self).stats_spec() == (QueueStats {
                dequeued: wrap_add64(old(self).stats_spec().dequeued, k as int),
                current_size: (old(self).stats_spec().current_size - k) as u64,
                ..old(self).stats_spec()
            })),
    ;

    /// Get queue capacity.
    fn capacity(&self) -> (r: usize)
        requires
            self.queue_wf(),
        ensures
            r == self.cap(),
    ;

    /// Get current size.
    fn size(&self) -> (r: usize)
        requires
            self.queue_wf(),
        ensures
            r == self.contents().len(),
    ;

    /// Check if queue is empty.
    fn is_empty(&self) -> (r: bool)
        requires
            self.queue_wf(),
        ensures
            r <==> self.contents().len() == 0,
    ;

    /// Check if queue is full.
    fn is_full(&self) -> (r: bool)
        requires
            self.queue_wf(),
        ensures
            r <==> self.contents().len() >= self.cap(),
    ;

    /// Get queue statistics.
    fn stats(&self) -> (r: &QueueStats)
        requires
            self.queue_wf(),
        ensures
            *r == self.stats_spec(),
    ;
}

/// SPSC (single producer, single consumer) queue with accounting.
pub struct SpscQueue<T> {
    inner: SpscRingBuffer<T>,
    stats: QueueStats,
}

impl<T: Copy> SpscQueue<T> {
    /// Create a new SPSC queue; the capacity is rounded up to the next
    /// power of two.
    pub fn new(capacity: usize) -> (r: Result<Self, Error>)
        requires
            capacity <= RING_MAX_CAPACITY,
        ensures
            r matches Ok(q) && q.queue_wf() && q.contents() == Seq::<T>::empty() && capacity
                <= q.cap() && q.stats_spec() == QueueStats::zero() && is_pow2(q.cap()),
            capacity >= 1 ==> (r matches Ok(q) && q.cap() < 2 * capacity),
            capacity == 0 ==> (r matches Ok(q) && q.cap() == 1),
    {
        Ok(SpscQueue { inner: SpscRingBuffer::new(capacity), stats: QueueStats::default() })
    }
}

impl<T: Copy> RingBuffer<T> for SpscQueue<T> {
    closed spec fn contents(&self) -> Seq<T> {
        self.inner@
    }

    closed spec fn cap(&self) -> nat {
        self.inner.capacity_spec()
    }

    closed spec fn queue_wf(&self) -> bool {
        &&& self.inner.wf()
        &&& self.stats.current_size == self.inner@.len()
        &&& self.stats.peak_size <= self.inner.capacity_spec()
        &&& self.stats.current_size <= self.stats.peak_size
    }

    closed spec fn stats_spec(&self) -> QueueStats {
        self.stats
    }

    fn push(&mut self, item: T) -> (r: Result<(), Error>) {
        proof {
            self.inner.lemma_occupancy_bounded();
        }
        match self.inner.push(item) {
            Ok(_) => {
                self.stats.enqueued = crate::counter_add(self.stats.enqueued, 1);
                self.stats.current_size = self.stats.current_size + 1;
                if self.stats.current_size > self.stats.peak_size {
                    self.stats.peak_size = self.stats.current_size;
                }
                Ok(())
            },
            Err(_) => {
                self.stats.drops = crate::counter_add(self.stats.drops, 1);
                Err(Error::QueueError("Queue full".to_owned()))
            },
        }
    }

    fn pop(&mut self) -> (r: Result<T, Error>) {
        match self.inner.pop() {
            Ok(item) => {
                self.stats.dequeued = crate::counter_add(self.stats.dequeued, 1);
                self.stats.current_size = self.stats.current_size - 1;
                Ok(item)
            },
            Err(_) => {
                self.stats.errors = crate::counter_add(self.stats.errors, 1);
                Err(Error::QueueError("Queue empty".to_owned()))
            },
        }
    }

    fn push_batch(&mut self, items: &[T]) -> (r: Result<(), Error>) {
        proof {
            self.inner.lemma_occupancy_bounded();
        }
        match self.inner.push_batch(items) {
            Ok(_) => {
                self.stats.enqueued = crate::counter_add(self.stats.enqueued, items.len() as u64);
                self.stats.current_size = self.stats.current_size + (items.len() as u64);
                if self.stats.current_size > self.stats.peak_size {
                    self.stats.peak_size = self.stats.current_size;
                }
                Ok(())
            },
            Err(_) => {
                self.stats.drops = crate::counter_add(self.stats.drops, items.len() as u64);
                Err(Error::QueueError("Queue full".to_owned()))
            },
        }
    }

    fn pop_batch(&mut self, items: &mut Vec<T>) -> (r: Result<usize, Error>) {
        proof {
            self.inner.lemma_occupancy_bounded();
        }
        match self.inner.pop_batch(items) {
            Ok(count) => {
                if count > 0 {
                    self.stats.dequeued = crate::counter_add(self.stats.dequeued, count as u64);
                    self.stats.current_size = self.stats.current_size - (count as u64);
                } else {
                    proof {
                        assert(final(items)@.len() == 0 || old(self).contents().len() == 0);
                    }
                }
                Ok(count)
            },
            Err(_) => {
                self.stats.errors = crate::counter_add(self.stats.errors, 1);
                Err(Error::QueueError("Queue empty".to_owned()))
            },
        }
    }

    fn capacity(&self) -> (r: usize) {
        self.inner.capacity()
    }

    fn size(&self) -> (r: usize) {
        self.inner.len()
    }

    fn is_empty(&self) -> (r: bool) {
        self.inner.is_empty()
    }

    fn is_full(&self) -> (r: bool) {
        self.inner.is_full()
    }

    fn stats(&self) -> (r: &QueueStats) {
        &self.stats
    }
}

/// MPMC (multi producer, multi consumer) queue with accounting.
pub struct MpmcQueue<T> {
    inner: MpmcRingBuffer<T>,
    stats: QueueStats,
}

impl<T: Copy> MpmcQueue<T> {
    /// Create a new MPMC queue; the capacity is rounded up to the next
    /// power of two.
    pub fn new(capacity: usize) -> (r: Result<Self, Error>)
        requires
            capacity <= RING_MAX_CAPACITY,
        ensures
            r matches Ok(q) && q.queue_wf() && q.contents() == Seq::<T>::empty() && capacity
                <= q.cap() && q.stats_spec() == QueueStats::zero() && is_pow2(q.cap()),
            capacity >= 1 ==> (r matches Ok(q) && q.cap() < 2 * capacity),
            capacity == 0 ==> (r matches Ok(q) && q.cap() == 1),
    {
        Ok(MpmcQueue { inner: MpmcRingBuffer::new(capacity), stats: QueueStats::default() })
    }
}

impl<T: Copy> RingBuffer<T> for MpmcQueue<T> {
    closed spec fn contents(&self) -> Seq<T> {
        self.inner@
    }

    closed spec fn cap(&self) -> nat {
        self.inner.capacity_spec()
    }

    closed spec fn queue_wf(&self) -> bool {
        &&& self.inner.wf()
        &&& self.stats.current_size == self.inner@.len()
        &&& self.stats.peak_size <= self.inner.capacity_spec()
        &&& self.stats.current_size <= self.stats.peak_size
    }

    closed spec fn stats_spec(&self) -> QueueStats {
        self.stats
    }

    fn push(&mut self, item: T) -> (r: Result<(), Error>) {
        proof {
            self.inner.lemma_occupancy_bounded();
        }
        match self.inner.push(item) {
            Ok(_) => {
                self.stats.enqueued = crate::counter_add(self.stats.enqueued, 1);
                self.stats.current_size = self.stats.current_size + 1;
                if self.stats.current_size > self.stats.peak_size {
                    self.stats.peak_size = self.stats.current_size;
                }
                Ok(())
            },
            Err(_) => {
                self.stats.drops = crate::counter_add(self.stats.drops, 1);
                Err(Error::QueueError("Queue full".to_owned()))
            },
        }
    }

    fn pop(&mut self) -> (r: Result<T, Error>) {
        match self.inner.pop() {
            Ok(item) => {
                self.stats.dequeued = crate::counter_add(self.stats.dequeued, 1);
                self.stats.current_size = self.stats.current_size - 1;
                Ok(item)
            },
            Err(_) => {
                self.stats.errors = crate::counter_add(self.stats.errors, 1);
                Err(Error::QueueError("Queue empty".to_owned()))
            },
        }
    }

    fn push_batch(&mut self, items: &[T]) -> (r: Result<(), Error>) {
        proof {
            self.inner.lemma_occupancy_bounded();
        }
        match self.inner.push_batch(items) {
            Ok(_) => {
                self.stats.enqueued = crate::counter_add(self.stats.enqueued, items.len() as u64);
                self.stats.current_size = self.stats.current_size + (items.len() as u64);
                if self.stats.current_size > self.stats.peak_size {
                    self.stats.peak_size = self.stats.current_size;
                }
                Ok(())
            },
            Err(_) => {
                self.stats.drops = crate::counter_add(self.stats.drops, items.len() as u64);
                Err(Error::QueueError("Queue full".to_owned()))
            },
        }
    }

    fn pop_batch(&mut self, items: &mut Vec<T>) -> (r: Result<usize, Error>) {
        proof {
            self.inner.lemma_occupancy_bounded();
        }
        match self.inner.pop_batch(items) {
            Ok(count) => {
                if count > 0 {
                    self.stats.dequeued = crate::counter_add(self.stats.dequeued, count as u64);
                    self.stats.current_size = self.stats.current_size - (count as u64);
                }
                Ok(count)
            },
            Err(_) => {
                self.stats.errors = crate::counter_add(self.stats.errors, 1);
                Err(Error::QueueError("Queue empty".to_owned()))
            },
        }
    }

    fn capacity(&self) -> (r: usize) {
        self.inner.capacity()
    }

    fn size(&self) -> (r: usize) {
        self.inner.len()
    }

    fn is_empty(&self) -> (r: bool) {
        self.inner.is_empty()
    }

    fn is_full(&self) -> (r: bool) {
        self.inner.is_full()
    }

    fn stats(&self) -> (r: &QueueStats) {
        &self.stats
    }
}


/// The integer sum of a queue counter over a row of named SPSC queues.
pub open spec fn spsc_sum(qs: Seq<(String, SpscQueue<usize>)>, f: spec_fn(QueueStats) -> u64)
    -> int
    decreases qs.len(),
{
    if qs.len() == 0 {
        0
    } else {
        f(qs[0].1.stats_spec()) + spsc_sum(qs.subrange(1, qs.len() as int), f)
    }
}

/// The integer sum of a queue counter over a row of named MPMC queues.
pub open spec fn mpmc_sum(qs: Seq<(String, MpmcQueue<usize>)>, f: spec_fn(QueueStats) -> u64)
    -> int
    decreases qs.len(),
{
    if qs.len() == 0 {
        0
    } else {
        f(qs[0].1.stats_spec()) + mpmc_sum(qs.subrange(1, qs.len() as int), f)
    }
}

proof fn lemma_spsc_sum_nonneg(qs: Seq<(String, SpscQueue<usize>)>, f: spec_fn(QueueStats) -> u64)
    ensures
        spsc_sum(qs, f) >= 0,
    decreases qs.len(),
{
    if qs.len() > 0 {
        lemma_spsc_sum_nonneg(qs.subrange(1, qs.len() as int), f);
    }
}

proof fn lemma_mpmc_sum_nonneg(qs: Seq<(String, MpmcQueue<usize>)>, f: spec_fn(QueueStats) -> u64)
    ensures
        mpmc_sum(qs, f) >= 0,
    decreases qs.len(),
{
    if qs.len() > 0 {
        lemma_mpmc_sum_nonneg(qs.subrange(1, qs.len() as int), f);
    }
}

proof fn lemma_spsc_sum_snoc(
    qs: Seq<(String, SpscQueue<usize>)>,
    f: spec_fn(QueueStats) -> u64,
    j: int,
)
    requires
        0 <= j < qs.len(),
    ensures
        spsc_sum(qs.subrange(0, j + 1), f) == spsc_sum(qs.subrange(0, j), f) + f(
            qs[j].1.stats_spec(),
        ),
        spsc_sum(qs.subrange(0, j), f) >= 0,
    decreases j,
{
    let pre1 = qs.subrange(0, j + 1);
    let pre0 = qs.subrange(0, j);
    if j == 0 {
        assert(pre1.subrange(1, 1) =~= qs.subrange(0, 0));
        assert(spsc_sum(pre1, f) == f(pre1[0].1.stats_spec()) + spsc_sum(
            pre1.subrange(1, pre1.len() as int),
            f,
        ));
    } else {
        let tail = qs.subrange(1, qs.len() as int);
        lemma_spsc_sum_snoc(tail, f, j - 1);
        assert(pre1.subrange(1, j + 1) =~= tail.subrange(0, j));
        assert(pre0.subrange(1, j) =~= tail.subrange(0, j - 1));
        assert(spsc_sum(pre1, f) == f(qs[0].1.stats_spec()) + spsc_sum(tail.subrange(0, j), f));
        assert(spsc_sum(pre0, f) == f(qs[0].1.stats_spec()) + spsc_sum(
            tail.subrange(0, j - 1),
            f,
        ));
        assert(tail[j - 1] == qs[j]);
    }
}

proof fn lemma_mpmc_sum_snoc(
    qs: Seq<(String, MpmcQueue<usize>)>,
    f: spec_fn(QueueStats) -> u64,
    j: int,
)
    requires
        0 <= j < qs.len(),
    ensures
        mpmc_sum(qs.subrange(0, j + 1), f) == mpmc_sum(qs.subrange(0, j), f) + f(
            qs[j].1.stats_spec(),
        ),
        mpmc_sum(qs.subrange(0, j), f) >= 0,
    decreases j,
{
    let pre1 = qs.subrange(0, j + 1);
    let pre0 = qs.subrange(0, j);
    if j == 0 {
        assert(pre1.subrange(1, 1) =~= qs.subrange(0, 0));
        assert(mpmc_sum(pre1, f) == f(pre1[0].1.stats_spec()) + mpmc_sum(
            pre1.subrange(1, pre1.len() as int),
            f,
        ));
    } else {
        let tail = qs.subrange(1, qs.len() as int);
        lemma_mpmc_sum_snoc(tail, f, j - 1);
        assert(pre1.subrange(1, j + 1) =~= tail.subrange(0, j));
        assert(pre0.subrange(1, j) =~= tail.subrange(0, j - 1));
        assert(mpmc_sum(pre1, f) == f(qs[0].1.stats_spec()) + mpmc_sum(tail.subrange(0, j), f));
        assert(mpmc_sum(pre0, f) == f(qs[0].1.stats_spec()) + mpmc_sum(
            tail.subrange(0, j - 1),
            f,
        ));
        assert(tail[j - 1] == qs[j]);
    }
}

/// Queue registry: named SPSC and MPMC queues of mbuf slots, owned by the
/// manager, with aggregate statistics.
pub struct QueueManager {
    spsc_queues: Vec<(String, SpscQueue<usize>)>,
    mpmc_queues: Vec<(String, MpmcQueue<usize>)>,
    stats: QueueManagerStats,
}

impl QueueManager {
    pub closed spec fn spec_spsc(self) -> Seq<(String, SpscQueue<usize>)> {
        self.spsc_queues@
    }

    pub closed spec fn spec_mpmc(self) -> Seq<(String, MpmcQueue<usize>)> {
        self.mpmc_queues@
    }

    pub closed spec fn spec_stats(self) -> QueueManagerStats {
        self.stats
    }

    pub closed spec fn wf(self) -> bool {
        &&& forall|i: int|
            0 <= i < self.spsc_queues@.len() ==> (#[trigger] self.spsc_queues@[i].1).queue_wf()
        &&& forall|i: int|
            0 <= i < self.mpmc_queues@.len() ==> (#[trigger] self.mpmc_queues@[i].1).queue_wf()
        &&& self.stats.spsc_queues == self.spsc_queues@.len()
        &&& self.stats.mpmc_queues == self.mpmc_queues@.len()
        &&& self.stats.total_queues == self.spsc_queues@.len() + self.mpmc_queues@.len()
        &&& self.spsc_queues@.len() + self.mpmc_queues@.len() < 0x1_0000_0000
    }

    /// Create an empty queue manager.
    pub fn new() -> (r: Self)
        ensures
            r.wf(),
            r.spec_spsc().len() == 0,
            r.spec_mpmc().len() == 0,
    {
        QueueManager {
            spsc_queues: Vec::new(),
            mpmc_queues: Vec::new(),
            stats: QueueManagerStats::default(),
        }
    }

    /// Create and register a new SPSC queue under `name`.
    pub fn create_spsc_queue(&mut self, name: String, capacity: usize) -> (r: Result<(), Error>)
        requires
            old(self).wf(),
            capacity <= RING_MAX_CAPACITY,
        ensures
            final(self).wf(),
            old(self).spec_spsc().len() + old(self).spec_mpmc().len() + 1 >= 0x1_0000_0000 ==> (r
                matches Err(Error::QueueError(_)) && *final(self) == *old(self)),
            old(self).spec_spsc().len() + old(self).spec_mpmc().len() + 1 < 0x1_0000_0000 ==> (r
                matches Ok(()) && final(self).spec_spsc().len() == old(self).spec_spsc().len()
                + 1),
            r matches Ok(()) ==> final(self).spec_spsc().len() == old(self).spec_spsc().len() + 1,
            r matches Ok(()) ==> final(self).spec_spsc().last().0@ == name@ && final(self).spec_spsc().last().1.contents() == Seq::<usize>::empty() && (forall|i: int|
                0 <= i < old(self).spec_spsc().len() ==> #[trigger] final(self).spec_spsc()[i]
                    == old(self).spec_spsc()[i]),
            r matches Ok(()) ==> final(self).spec_mpmc() == old(self).spec_mpmc(),
    {
        if self.spsc_queues.len() >= 0xFFFF_FFFF - self.mpmc_queues.len() {
            return Err(Error::QueueError("queue registry full".to_owned()));
        }
        let queue = match SpscQueue::new(capacity) {
            Ok(q) => q,
            Err(e) => {
                proof {
                    assert(false);
                }
                return Err(e);
            },
        };
        self.spsc_queues.push((name, queue));
        self.stats.total_queues = self.stats.total_queues + 1;
        self.stats.spsc_queues = self.stats.spsc_queues + 1;
        Ok(())
    }

    /// Create and register a new MPMC queue under `name`.
    pub fn create_mpmc_queue(&mut self, name: String, capacity: usize) -> (r: Result<(), Error>)
        requires
            old(self).wf(),
            capacity <= RING_MAX_CAPACITY,
        ensures
            final(self).wf(),
            old(self).spec_spsc().len() + old(self).spec_mpmc().len() + 1 >= 0x1_0000_0000 ==> (r
                matches Err(Error::QueueError(_)) && *final(self) == *old(self)),
            old(self).spec_spsc().len() + old(self).spec_mpmc().len() + 1 < 0x1_0000_0000 ==> (r
                matches Ok(()) && final(self).spec_mpmc().len() == old(self).spec_mpmc().len()
                + 1),
            r matches Ok(()) ==> final(self).spec_mpmc().len() == old(self).spec_mpmc().len() + 1,
            r matches Ok(()) ==> final(self).spec_mpmc().last().0@ == name@ && final(self).spec_mpmc().last().1.contents() == Seq::<usize>::empty() && (forall|i: int|
                0 <= i < old(self).spec_mpmc().len() ==> #[trigger] final(self).spec_mpmc()[i]
                    == old(self).spec_mpmc()[i]),
            r matches Ok(()) ==> final(self).spec_spsc() == old(self).spec_spsc(),
    {
        if self.spsc_queues.len() >= 0xFFFF_FFFF - self.mpmc_queues.len() {
            return Err(Error::QueueError("queue registry full".to_owned()));
        }
        let queue = match MpmcQueue::new(capacity) {
            Ok(q) => q,
            Err(e) => {
                proof {
                    assert(false);
                }
                return Err(e);
            },
        };
        self.mpmc_queues.push((name, queue));
        self.stats.total_queues = self.stats.total_queues + 1;
        self.stats.mpmc_queues = self.stats.mpmc_queues + 1;
        Ok(())
    }

    /// Get the first SPSC queue registered under `name`.
    pub fn get_spsc_queue(&mut self, name: &String) -> (r: Option<&mut SpscQueue<usize>>)
        requires
            old(self).wf(),
        ensures
            r matches Some(q) ==> (exists|i: int|
                0 <= i < old(self).spec_spsc().len() && old(self).spec_spsc()[i].0@ == name@)
                && q.queue_wf() && ((final(q)).queue_wf() ==> final(self).wf()),
            r is None ==> *final(self) == *old(self) && (forall|i: int|
                0 <= i < old(self).spec_spsc().len() ==> (#[trigger] old(self).spec_spsc()[i].0)@ != name@),
    {
        let n = self.spsc_queues.len();
        let mut i: usize = 0;
        let mut found: bool = false;
        while i < n && !found
            invariant
                i <= n,
                n == self.spsc_queues@.len(),
                *self == *old(self),
                forall|j: int|
                    0 <= j < i ==> (#[trigger] self.spsc_queues@[j].0)@ != name@,
                found ==> i < n && self.spsc_queues@[i as int].0@ == name@,
            decreases n - i, (if found { 0int } else { 1int }),
        {
            if self.spsc_queues[i].0 == *name {
                found = true;
            } else {
                i = i + 1;
            }
        }
        if found {
            proof {
                assert(old(self).spec_spsc()[i as int].0@ == name@);
            }
            let entry = &mut self.spsc_queues[i];
            Some(&mut entry.1)
        } else {
            None
        }
    }

    /// Get the first MPMC queue registered under `name`.
    pub fn get_mpmc_queue(&mut self, name: &String) -> (r: Option<&mut MpmcQueue<usize>>)
        requires
            old(self).wf(),
        ensures
            r matches Some(q) ==> (exists|i: int|
                0 <= i < old(self).spec_mpmc().len() && old(self).spec_mpmc()[i].0@ == name@)
                && q.queue_wf() && ((final(q)).queue_wf() ==> final(self).wf()),
            r is None ==> *final(self) == *old(self) && (forall|i: int|
                0 <= i < old(self).spec_mpmc().len() ==> (#[trigger] old(self).spec_mpmc()[i].0)@ != name@),
    {
        let n = self.mpmc_queues.len();
        let mut i: usize = 0;
        let mut found: bool = false;
        while i < n && !found
            invariant
                i <= n,
                n == self.mpmc_queues@.len(),
                *self == *old(self),
                forall|j: int|
                    0 <= j < i ==> (#[trigger] self.mpmc_queues@[j].0)@ != name@,
                found ==> i < n && self.mpmc_queues@[i as int].0@ == name@,
            decreases n - i, (if found { 0int } else { 1int }),
        {
            if self.mpmc_queues[i].0 == *name {
                found = true;
            } else {
                i = i + 1;
            }
        }
        if found {
            proof {
                assert(old(self).spec_mpmc()[i as int].0@ == name@);
            }
            let entry = &mut self.mpmc_queues[i];
            Some(&mut entry.1)
        } else {
            None
        }
    }

    /// Remove the first queue registered under `name`, searching the SPSC
    /// row first; `QueueError` when no queue has that name.
    pub fn remove_queue(&mut self, name: &String) -> (r: Result<(), Error>)
        requires
            old(self).wf(),
        ensures
            final(self).wf(),
            (exists|i: int|
                0 <= i < old(self).spec_spsc().len() && (#[trigger] old(self).spec_spsc()[i].0)@
                    == name@) ==> (r matches Ok(()) && final(self).spec_spsc().len() == old(self).spec_spsc().len() - 1 && final(self).spec_mpmc() == old(self).spec_mpmc()),
            (forall|i: int|
                0 <= i < old(self).spec_spsc().len() ==> (#[trigger] old(self).spec_spsc()[i].0)@
                    != name@) && (exists|i: int|
                0 <= i < old(self).spec_mpmc().len() && (#[trigger] old(self).spec_mpmc()[i].0)@
                    == name@) ==> (r matches Ok(()) && final(self).spec_mpmc().len() == old(self).spec_mpmc().len() - 1 && final(self).spec_spsc() == old(self).spec_spsc()),
            (forall|i: int|
                0 <= i < old(self).spec_spsc().len() ==> (#[trigger] old(self).spec_spsc()[i].0)@
                    != name@) && (forall|i: int|
                0 <= i < old(self).spec_mpmc().len() ==> (#[trigger] old(self).spec_mpmc()[i].0)@
                    != name@) ==> (r matches Err(Error::QueueError(_)) && *final(self) == *old(self)),
    {
        let n = self.spsc_queues.len();
        let mut i: usize = 0;
        while i < n
            invariant
                i <= n,
                n == self.spsc_queues@.len(),
                old(self).wf(),
                *self == *old(self),
                forall|j: int|
                    0 <= j < i ==> (#[trigger] self.spsc_queues@[j].0)@ != name@,
            decreases n - i,
        {
            if self.spsc_queues[i].0 == *name {
                proof {
                    assert(old(self).spec_spsc()[i as int].0@ == name@);
                }
                let _ = self.spsc_queues.remove(i);
                self.stats.total_queues = self.stats.total_queues - 1;
                self.stats.spsc_queues = self.stats.spsc_queues - 1;
                return Ok(());
            }
            i = i + 1;
        }
        let m = self.mpmc_queues.len();
        let mut k: usize = 0;
        while k < m
            invariant
                k <= m,
                m == self.mpmc_queues@.len(),
                old(self).wf(),
                *self == *old(self),
                forall|j: int|
                    0 <= j < self.spsc_queues@.len() ==> (#[trigger] self.spsc_queues@[j].0)@
                        != name@,
                forall|j: int|
                    0 <= j < k ==> (#[trigger] self.mpmc_queues@[j].0)@ != name@,
            decreases m - k,
        {
            if self.mpmc_queues[k].0 == *name {
                proof {
                    assert(old(self).spec_mpmc()[k as int].0@ == name@);
                }
                let _ = self.mpmc_queues.remove(k);
                self.stats.total_queues = self.stats.total_queues - 1;
                self.stats.mpmc_queues = self.stats.mpmc_queues - 1;
                return Ok(());
            }
            k = k + 1;
        }
        Err(Error::QueueError("queue not found".to_owned()))
    }

    /// Aggregate statistics: queue counts, and the enqueue, dequeue and
    /// drop counters summed over every registered queue (wrapping at 2^64
    /// like the counters themselves).
    pub fn stats(&self) -> (r: QueueManagerStatsView)
        requires
            self.wf(),
        ensures
            r.total_queues == self.spec_stats().total_queues,
            r.spsc_queues == self.spec_stats().spsc_queues,
            r.mpmc_queues == self.spec_stats().mpmc_queues,
            r.total_enqueued == wrap_add64(
                0,
                spsc_sum(self.spec_spsc(), |s: QueueStats| s.enqueued) + mpmc_sum(
                    self.spec_mpmc(),
                    |s: QueueStats| s.enqueued,
                ),
            ),
            r.total_dequeued == wrap_add64(
                0,
                spsc_sum(self.spec_spsc(), |s: QueueStats| s.dequeued) + mpmc_sum(
                    self.spec_mpmc(),
                    |s: QueueStats| s.dequeued,
                ),
            ),
            r.total_drops == wrap_add64(
                0,
                spsc_sum(self.spec_spsc(), |s: QueueStats| s.drops) + mpmc_sum(
                    self.spec_mpmc(),
                    |s: QueueStats| s.drops,
                ),
            ),
    {
        let ghost fe = |s: QueueStats| s.enqueued;
        let ghost fd = |s: QueueStats| s.dequeued;
        let ghost fr = |s: QueueStats| s.drops;
        let mut total_enqueued: u64 = 0;
        let mut total_dequeued: u64 = 0;
        let mut total_drops: u64 = 0;
        let n = self.spsc_queues.len();
        let mut i: usize = 0;
        while i < n
            invariant
                i <= n,
                n == self.spsc_queues@.len(),
                self.wf(),
                total_enqueued == wrap_add64(0, spsc_sum(self.spsc_queues@.subrange(0, i as int), fe)),
                total_dequeued == wrap_add64(0, spsc_sum(self.spsc_queues@.subrange(0, i as int), fd)),
                total_drops == wrap_add64(0, spsc_sum(self.spsc_queues@.subrange(0, i as int), fr)),
                fe == (|s: QueueStats| s.enqueued),
                fd == (|s: QueueStats| s.dequeued),
                fr == (|s: QueueStats| s.drops),
            decreases n - i,
        {
            let q = &self.spsc_queues[i].1;
            let s = *q.stats();
            proof {
                lemma_spsc_sum_snoc(self.spsc_queues@, fe, i as int);
                lemma_spsc_sum_snoc(self.spsc_queues@, fd, i as int);
                lemma_spsc_sum_snoc(self.spsc_queues@, fr, i as int);
                crate::lemma_wrap_add64_assoc(
                    0,
                    spsc_sum(self.spsc_queues@.subrange(0, i as int), fe),
                    fe(self.spsc_queues@[i as int].1.stats_spec()) as int,
                );
                crate::lemma_wrap_add64_assoc(
                    0,
                    spsc_sum(self.spsc_queues@.subrange(0, i as int), fd),
                    fd(self.spsc_queues@[i as int].1.stats_spec()) as int,
                );
                crate::lemma_wrap_add64_assoc(
                    0,
                    spsc_sum(self.spsc_queues@.subrange(0, i as int), fr),
                    fr(self.spsc_queues@[i as int].1.stats_spec()) as int,
                );
            }
            total_enqueued = crate::counter_add(total_enqueued, s.enqueued);
            total_dequeued = crate::counter_add(total_dequeued, s.dequeued);
            total_drops = crate::counter_add(total_drops, s.drops);
            i = i + 1;
        }
        proof {
            assert(self.spsc_queues@.subrange(0, n as int) =~= self.spsc_queues@);
        }
        let ghost spsc_e = spsc_sum(self.spsc_queues@, fe);
        let ghost spsc_d = spsc_sum(self.spsc_queues@, fd);
        let ghost spsc_r = spsc_sum(self.spsc_queues@, fr);
        proof {
            lemma_spsc_sum_nonneg(self.spsc_queues@, fe);
            lemma_spsc_sum_nonneg(self.spsc_queues@, fd);
            lemma_spsc_sum_nonneg(self.spsc_queues@, fr);
        }
        let m = self.mpmc_queues.len();
        let mut k: usize = 0;
        while k < m
            invariant
                k <= m,
                m == self.mpmc_queues@.len(),
                self.wf(),
                spsc_e == spsc_sum(self.spsc_queues@, fe),
                spsc_d == spsc_sum(self.spsc_queues@, fd),
                spsc_r == spsc_sum(self.spsc_queues@, fr),
                spsc_e >= 0,
                spsc_d >= 0,
                spsc_r >= 0,
                total_enqueued == wrap_add64(0, spsc_e + mpmc_sum(self.mpmc_queues@.subrange(0, k as int), fe)),
                total_dequeued == wrap_add64(0, spsc_d + mpmc_sum(self.mpmc_queues@.subrange(0, k as int), fd)),
                total_drops == wrap_add64(0, spsc_r + mpmc_sum(self.mpmc_queues@.subrange(0, k as int), fr)),
                fe == (|s: QueueStats| s.enqueued),
                fd == (|s: QueueStats| s.dequeued),
                fr == (|s: QueueStats| s.drops),
            decreases m - k,
        {
            let q = &self.mpmc_queues[k].1;
            let s = *q.stats();
            proof {
                lemma_mpmc_sum_snoc(self.mpmc_queues@, fe, k as int);
                lemma_mpmc_sum_snoc(self.mpmc_queues@, fd, k as int);
                lemma_mpmc_sum_snoc(self.mpmc_queues@, fr, k as int);
                crate::lemma_wrap_add64_assoc(
                    0,
                    spsc_e + mpmc_sum(self.mpmc_queues@.subrange(0, k as int), fe),
                    fe(self.mpmc_queues@[k as int].1.stats_spec()) as int,
                );
                crate::lemma_wrap_add64_assoc(
                    0,
                    spsc_d + mpmc_sum(self.mpmc_queues@.subrange(0, k as int), fd),
                    fd(self.mpmc_queues@[k as int].1.stats_spec()) as int,
                );
                crate::lemma_wrap_add64_assoc(
                    0,
                    spsc_r + mpmc_sum(self.mpmc_queues@.subrange(0, k as int), fr),
                    fr(self.mpmc_queues@[k as int].1.stats_spec()) as int,
                );
            }
            total_enqueued = crate::counter_add(total_enqueued, s.enqueued);
            total_dequeued = crate::counter_add(total_dequeued, s.dequeued);
            total_drops = crate::counter_add(total_drops, s.drops);
            k = k + 1;
        }
        proof {
            assert(self.mpmc_queues@.subrange(0, m as int) =~= self.mpmc_queues@);
        }
        QueueManagerStatsView {
            total_queues: self.stats.total_queues,
            spsc_queues: self.stats.spsc_queues,
            mpmc_queues: self.stats.mpmc_queues,
            total_enqueued,
            total_dequeued,
            total_drops,
        }
    }
}

/// Queue manager statistics.
#[derive(Debug, Clone, Copy, PartialEq, Eq, Structural)]
pub struct QueueManagerStats {
    pub total_queues: u64,
    pub spsc_queues: u64,
    pub mpmc_queues: u64,
    pub total_enqueued: u64,
    pub total_dequeued: u64,
    pub total_drops: u64,
}

impl Default for QueueManagerStats {
    fn default() -> (r: Self)
        ensures
            r.total_queues == 0,
            r.spsc_queues == 0,
            r.mpmc_queues == 0,
            r.total_enqueued == 0,
            r.total_dequeued == 0,
            r.total_drops == 0,
    {
        QueueManagerStats {
            total_queues: 0,
            spsc_queues: 0,
            mpmc_queues: 0,
            total_enqueued: 0,
            total_dequeued: 0,
            total_drops: 0,
        }
    }
}

/// Aggregated queue manager statistics view.
#[derive(Debug, Clone, Copy, PartialEq, Eq, Structural)]
pub struct QueueManagerStatsView {
    pub total_queues: u64,
    pub spsc_queues: u64,
    pub mpmc_queues: u64,
    pub total_enqueued: u64,
    pub total_dequeued: u64,
    pub total_drops: u64,
}

/// Worker statistics: processed and failed items, and the run time in
/// milliseconds.
#[derive(Debug, Clone, Copy, PartialEq, Eq, Structural)]
pub struct WorkerStats {
    pub processed: u64,
    pub errors: u64,
    pub runtime: u64,
}

impl Default for WorkerStats {
    fn default() -> (r: Self)
        ensures
            r.processed == 0,
            r.errors == 0,
            r.runtime == 0,
    {
        WorkerStats { processed: 0, errors: 0, runtime: 0 }
    }
}

} // verus!

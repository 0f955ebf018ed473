//! Bounded FIFO ring buffers with power-of-two capacity.
//!
//! Four variants mirror the producer/consumer pairings a data plane needs
//! (SPSC, MPSC, SPMC, MPMC). Every operation takes the buffer by exclusive
//! reference, so cross-thread coordination is the embedder's concern; what
//! is proved here is the sequential meaning every interleaving must respect.
//! All variants share one storage core whose
//! contracts pin down the FIFO semantics: `push` appends at the tail,
//! `pop` removes the oldest element, and batch transfers move a contiguous
//! run in FIFO order. Slot addressing works on a fixed buffer of `C` slots,
//! `C` rounded up to the next power of two.

use vstd::prelude::*;

verus! {

/// Largest accepted capacity request; keeps the rounded-up power of two
/// and the slot arithmetic free of overflow on any machine.
pub const RING_MAX_CAPACITY: usize = 0x4000_0000;

/// Ring buffer failure conditions.
#[derive(Debug, Clone, Copy, PartialEq, Eq, Structural)]
pub enum Error {
    /// The ring buffer is full
    Full,
    /// The ring buffer is empty
    Empty,
}

/// Whether `n` is a power of two.
pub open spec fn is_pow2(n: nat) -> bool
    decreases n,
{
    if n == 0 {
        false
    } else if n == 1 {
        true
    } else {
        n % 2 == 0 && is_pow2(n / 2)
    }
}

/// Two powers of two are either equal or at least a factor of two apart.
proof fn lemma_pow2_double_le(a: nat, b: nat)
    requires
        is_pow2(a),
        is_pow2(b),
        a < b,
    ensures
        2 * a <= b,
    decreases b,
{
    if a == 1 {
        assert(b % 2 == 0);
    } else {
        lemma_pow2_double_le(a / 2, b / 2);
    }
}

proof fn lemma_ring_max_capacity_pow2()
    ensures
        is_pow2(RING_MAX_CAPACITY as nat),
{
    reveal_with_fuel(is_pow2, 32);
}

/// Shared storage core: a fixed buffer of `cap` slots holding the queue
/// contents at positions `head`, `head + 1`, ... modulo `cap`. The slot
/// vector grows lazily during the first lap around the ring, so no slot is
/// ever read before it was written.
struct RingCore<T> {
    storage: Vec<T>,
    head: usize,
    len: usize,
    cap: usize,
}

impl<T: Copy> RingCore<T> {
    closed spec fn wf(self) -> bool {
        &&& 1 <= self.cap <= RING_MAX_CAPACITY
        &&& is_pow2(self.cap as nat)
        &&& self.storage@.len() <= self.cap
        &&& self.len <= self.cap
        &&& self.head < self.cap
        &&& (self.storage@.len() < self.cap ==> self.head + self.len <= self.storage@.len())
    }

    /// Physical slot of logical queue position `i`.
    closed spec fn slot(self, i: int) -> int {
        if self.head + i < self.cap {
            self.head + i
        } else {
            self.head + i - self.cap
        }
    }

    /// The queue contents, oldest first.
    closed spec fn view(self) -> Seq<T> {
        Seq::new(self.len as nat, |i: int| self.storage@[self.slot(i)])
    }

    proof fn lemma_slot_in_bounds(self, i: int)
        requires
            self.wf(),
            0 <= i < self.len,
        ensures
            0 <= self.slot(i) < self.storage@.len(),
    {
    }

    fn new(capacity: usize) -> (r: Self)
        requires
            capacity <= RING_MAX_CAPACITY,
        ensures
            r.wf(),
            r@ == Seq::<T>::empty(),
            is_pow2(r.cap as nat),
            capacity <= r.cap,
            capacity >= 1 ==> r.cap < 2 * capacity,
            capacity == 0 ==> r.cap == 1,
    {
        let mut cap: usize = 1;
        while cap < capacity
            invariant
                1 <= cap,
                cap <= RING_MAX_CAPACITY,
                is_pow2(cap as nat),
                capacity <= RING_MAX_CAPACITY,
                cap == 1 || cap < 2 * capacity,
            decreases RING_MAX_CAPACITY - cap,
        {
            proof {
                lemma_ring_max_capacity_pow2();
                lemma_pow2_double_le(cap as nat, RING_MAX_CAPACITY as nat);
            }
            cap = cap * 2;
        }
        let r = RingCore { storage: Vec::new(), head: 0, len: 0, cap };
        proof {
            assert(r@ =~= Seq::<T>::empty());
        }
        r
    }

    fn capacity(&self) -> (r: usize)
        ensures
            r == self.cap,
    {
        self.cap
    }

    fn len(&self) -> (r: usize)
        requires
            self.wf(),
        ensures
            r == self@.len(),
    {
        self.len
    }

    fn is_empty(&self) -> (r: bool)
        requires
            self.wf(),
        ensures
            r <==> self@.len() == 0,
    {
        self.len == 0
    }

    fn is_full(&self) -> (r: bool)
        requires
            self.wf(),
        ensures
            r <==> self@.len() == self.cap,
    {
        self.len == self.cap
    }

    fn push(&mut self, value: T) -> (r: Result<(), Error>)
        requires
            old(self).wf(),
        ensures
            final(self).wf(),
            final(self).cap == old(self).cap,
            old(self)@.len() == old(self).cap ==> (r matches Err(Error::Full) && final(self)@
                == old(self)@),
            old(self)@.len() < old(self).cap ==> (r matches Ok(()) && final(self)@ == old(self)@.push(value)),
    {
        if self.len == self.cap {
            return Err(Error::Full);
        }
        let idx = if self.head + self.len >= self.cap {
            self.head + self.len - self.cap
        } else {
            self.head + self.len
        };
        if idx == self.storage.len() {
            self.storage.push(value);
        } else {
            self.storage.set(idx, value);
        }
        self.len = self.len + 1;
        proof {
            let pre = *old(self);
            assert forall|i: int| 0 <= i < self@.len() implies self@[i] == pre@.push(value)[i] by {
                if i < pre.len {
                    pre.lemma_slot_in_bounds(i);
                }
            }
            assert(self@ =~= pre@.push(value));
        }
        Ok(())
    }

    fn pop(&mut self) -> (r: Result<T, Error>)
        requires
            old(self).wf(),
        ensures
            final(self).wf(),
            final(self).cap == old(self).cap,
            old(self)@.len() == 0 ==> (r matches Err(Error::Empty) && final(self)@ == old(self)@),
            old(self)@.len() > 0 ==> (r matches Ok(v) && v == old(self)@[0] && final(self)@ == old(self)@.subrange(1, old(self)@.len() as int)),
    {
        if self.len == 0 {
            return Err(Error::Empty);
        }
        proof {
            self.lemma_slot_in_bounds(0);
        }
        let value = self.storage[self.head];
        self.head = if self.head + 1 == self.cap {
            0
        } else {
            self.head + 1
        };
        self.len = self.len - 1;
        proof {
            let pre = *old(self);
            assert forall|i: int| 0 <= i < self@.len() implies self@[i] == pre@.subrange(
                1,
                pre@.len() as int,
            )[i] by {
                pre.lemma_slot_in_bounds(i + 1);
            }
            assert(self@ =~= pre@.subrange(1, pre@.len() as int));
        }
        Ok(value)
    }

    /// All-or-nothing batch push: the whole slice is appended in order, or
    /// nothing changes.
    fn push_batch(&mut self, items: &[T]) -> (r: Result<(), Error>)
        requires
            old(self).wf(),
        ensures
            final(self).wf(),
            final(self).cap == old(self).cap,
            old(self)@.len() + items@.len() <= old(self).cap ==> (r matches Ok(()) && final(self)@
                == old(self)@ + items@),
            old(self)@.len() + items@.len() > old(self).cap ==> (r matches Err(Error::Full) && final(self)@ == old(self)@),
    {
        if items.len() > self.cap - self.len {
            return Err(Error::Full);
        }
        let n = items.len();
        let mut j: usize = 0;
        while j < n
            invariant
                j <= n,
                n == items@.len(),
                self.wf(),
                self.cap == old(self).cap,
                old(self)@.len() + n <= self.cap,
                self@ == old(self)@ + items@.subrange(0, j as int),
            decreases n - j,
        {
            let ghost pre = self@;
            let _ = self.push(items[j]);
            proof {
                assert(self@ =~= old(self)@ + items@.subrange(0, j as int + 1));
            }
            j = j + 1;
        }
        proof {
            assert(items@.subrange(0, n as int) =~= items@);
        }
        Ok(())
    }

    /// Pops up to `buf.len()` elements into the front of `buf`, returning
    /// how many were written; `Empty` only when the queue held nothing.
    fn pop_batch(&mut self, buf: &mut Vec<T>) -> (r: Result<usize, Error>)
        requires
            old(self).wf(),
        ensures
            final(self).wf(),
            final(self).cap == old(self).cap,
            final(buf)@.len() == old(buf)@.len(),
            old(buf)@.len() == 0 ==> (r matches Ok(k) && k == 0usize && final(self)@ == old(self)@
                && final(buf)@ == old(buf)@),
            old(buf)@.len() > 0 && old(self)@.len() == 0 ==> (r matches Err(Error::Empty) && final(self)@ == old(self)@ && final(buf)@ == old(buf)@),
            old(buf)@.len() > 0 && old(self)@.len() > 0 ==> (r matches Ok(k) && k == vstd::math::min(
                old(buf)@.len() as int,
                old(self)@.len() as int,
            ) && final(buf)@.subrange(0, k as int) == old(self)@.subrange(0, k as int) && (forall|j: int|
                k <= j < old(buf)@.len() ==> final(buf)@[j] == old(buf)@[j]) && final(self)@ == old(self)@.subrange(k as int, old(self)@.len() as int)),
    {
        if buf.len() == 0 {
            return Ok(0);
        }
        if self.len == 0 {
            return Err(Error::Empty);
        }
        let k = if buf.len() < self.len {
            buf.len()
        } else {
            self.len
        };
        let mut i: usize = 0;
        while i < k
            invariant
                i <= k,
                k <= old(buf)@.len(),
                k <= old(self)@.len(),
                self.wf(),
                self.cap == old(self).cap,
                buf@.len() == old(buf)@.len(),
                self@ == old(self)@.subrange(i as int, old(self)@.len() as int),
                buf@.subrange(0, i as int) == old(self)@.subrange(0, i as int),
                forall|j: int| i <= j < buf@.len() ==> buf@[j] == old(buf)@[j],
            decreases k - i,
        {
            let r = self.pop();
            match r {
                Ok(v) => {
                    buf.set(i, v);
                },
                Err(_) => {
                    proof {
                        assert(false);
                    }
                },
            }
            proof {
                assert(self@ =~= old(self)@.subrange(i as int + 1, old(self)@.len() as int));
                assert(buf@.subrange(0, i as int + 1) =~= old(self)@.subrange(0, i as int + 1));
            }
            i = i + 1;
        }
        Ok(k)
    }
}

/// A single-producer single-consumer (SPSC) ring buffer.
///
/// One thread pushes and one thread pops; each side owns its own index.
pub struct SpscRingBuffer<T> {
    core: RingCore<T>,
}

impl<T: Copy> View for SpscRingBuffer<T> {
    type V = Seq<T>;

    closed spec fn view(&self) -> Seq<T> {
        self.core.view()
    }
}

impl<T: Copy> SpscRingBuffer<T> {
    /// Well-formedness: established by `new`, preserved by every operation.
    pub closed spec fn wf(self) -> bool {
        self.core.wf()
    }

    /// The effective capacity: the requested one rounded up to a power of two.
    pub closed spec fn capacity_spec(self) -> nat {
        self.core.cap as nat
    }

    /// Create a ring buffer; the capacity is rounded up to the next power of two.
    pub fn new(capacity: usize) -> (r: Self)
        requires
            capacity <= RING_MAX_CAPACITY,
        ensures
            r.wf(),
            r@ == Seq::<T>::empty(),
            is_pow2(r.capacity_spec()),
            capacity <= r.capacity_spec(),
            capacity >= 1 ==> r.capacity_spec() < 2 * capacity,
            capacity == 0 ==> r.capacity_spec() == 1,
    {
        SpscRingBuffer { core: RingCore::new(capacity) }
    }

    /// The effective capacity.
    pub fn capacity(&self) -> (r: usize)
        ensures
            r == self.capacity_spec(),
    {
        self.core.capacity()
    }

    /// Append `value` at the tail; `Full` exactly when occupancy equals capacity.
    pub fn push(&mut self, value: T) -> (r: Result<(), Error>)
        requires
            old(self).wf(),
        ensures
            final(self).wf(),
            final(self).capacity_spec() == old(self).capacity_spec(),
            old(self)@.len() == old(self).capacity_spec() ==> (r matches Err(Error::Full)
                && final(self)@ == old(self)@),
            old(self)@.len() < old(self).capacity_spec() ==> (r matches Ok(())
                && final(self)@ == old(self)@.push(value)),
    {
        self.core.push(value)
    }

    /// Remove the oldest element; `Empty` exactly when the buffer holds nothing.
    pub fn pop(&mut self) -> (r: Result<T, Error>)
        requires
            old(self).wf(),
        ensures
            final(self).wf(),
            final(self).capacity_spec() == old(self).capacity_spec(),
            old(self)@.len() == 0 ==> (r matches Err(Error::Empty) && final(self)@ == old(self)@),
            old(self)@.len() > 0 ==> (r matches Ok(v) && v == old(self)@[0]
                && final(self)@ == old(self)@.subrange(1, old(self)@.len() as int)),
    {
        self.core.pop()
    }

    /// Whether the buffer holds nothing.
    pub fn is_empty(&self) -> (r: bool)
        requires
            self.wf(),
        ensures
            r <==> self@.len() == 0,
    {
        self.core.is_empty()
    }

    /// Whether occupancy has reached capacity.
    pub fn is_full(&self) -> (r: bool)
        requires
            self.wf(),
        ensures
            r <==> self@.len() == self.capacity_spec(),
    {
        self.core.is_full()
    }

    /// The number of elements currently held.
    pub fn len(&self) -> (r: usize)
        requires
            self.wf(),
        ensures
            r == self@.len(),
    {
        self.core.len()
    }

    /// All-or-nothing batch push: `Full`, with nothing written, when the
    /// slice does not fit in the free space.
    pub fn push_batch(&mut self, items: &[T]) -> (r: Result<(), Error>)
        requires
            old(self).wf(),
        ensures
            final(self).wf(),
            final(self).capacity_spec() == old(self).capacity_spec(),
            old(self)@.len() + items@.len() <= old(self).capacity_spec() ==> (r matches Ok(())
                && final(self)@ == old(self)@ + items@),
            old(self)@.len() + items@.len() > old(self).capacity_spec() ==> (r matches Err(Error::Full)
                && final(self)@ == old(self)@),
    {
        self.core.push_batch(items)
    }

    /// Pop up to `buf.len()` elements into the front of `buf`, in FIFO
    /// order, returning the count; `Empty` only when the buffer holds
    /// nothing and `buf` asked for at least one element.
    pub fn pop_batch(&mut self, buf: &mut Vec<T>) -> (r: Result<usize, Error>)
        requires
            old(self).wf(),
        ensures
            final(self).wf(),
            final(self).capacity_spec() == old(self).capacity_spec(),
            final(buf)@.len() == old(buf)@.len(),
            old(buf)@.len() == 0 ==> (r matches Ok(k) && k == 0usize && final(self)@ == old(self)@
                && final(buf)@ == old(buf)@),
            old(buf)@.len() > 0 && old(self)@.len() == 0 ==> (r matches Err(Error::Empty)
                && final(self)@ == old(self)@ && final(buf)@ == old(buf)@),
            old(buf)@.len() > 0 && old(self)@.len() > 0 ==> (r matches Ok(k)
                && k == vstd::math::min(old(buf)@.len() as int, old(self)@.len() as int)
                && final(buf)@.subrange(0, k as int) == old(self)@.subrange(0, k as int)
                && (forall|j: int| k <= j < old(buf)@.len() ==> final(buf)@[j] == old(buf)@[j])
                && final(self)@ == old(self)@.subrange(k as int, old(self)@.len() as int)),
    {
        self.core.pop_batch(buf)
    }

    /// Law: at every observation of a well-formed ring buffer of capacity
    /// `C`, the occupancy lies between `0` and `C`.
    pub proof fn lemma_occupancy_bounded(self)
        requires
            self.wf(),
        ensures
            0 <= self@.len() <= self.capacity_spec(),
            self.capacity_spec() <= RING_MAX_CAPACITY as nat,
    {
    }
}

/// A multi-producer single-consumer (MPSC) ring buffer.
///
/// Several threads may push; one thread pops.
pub struct MpscRingBuffer<T> {
    core: RingCore<T>,
}

impl<T: Copy> View for MpscRingBuffer<T> {
    type V = Seq<T>;

    closed spec fn view(&self) -> Seq<T> {
        self.core.view()
    }
}

impl<T: Copy> MpscRingBuffer<T> {
    /// Well-formedness: established by `new`, preserved by every operation.
    pub closed spec fn wf(self) -> bool {
        self.core.wf()
    }

    /// The effective capacity: the requested one rounded up to a power of two.
    pub closed spec fn capacity_spec(self) -> nat {
        self.core.cap as nat
    }

    /// Create a ring buffer; the capacity is rounded up to the next power of two.
    pub fn new(capacity: usize) -> (r: Self)
        requires
            capacity <= RING_MAX_CAPACITY,
        ensures
            r.wf(),
            r@ == Seq::<T>::empty(),
            is_pow2(r.capacity_spec()),
            capacity <= r.capacity_spec(),
            capacity >= 1 ==> r.capacity_spec() < 2 * capacity,
            capacity == 0 ==> r.capacity_spec() == 1,
    {
        MpscRingBuffer { core: RingCore::new(capacity) }
    }

    /// The effective capacity.
    pub fn capacity(&self) -> (r: usize)
        ensures
            r == self.capacity_spec(),
    {
        self.core.capacity()
    }

    /// Append `value` at the tail; `Full` exactly when occupancy equals capacity.
    pub fn push(&mut self, value: T) -> (r: Result<(), Error>)
        requires
            old(self).wf(),
        ensures
            final(self).wf(),
            final(self).capacity_spec() == old(self).capacity_spec(),
            old(self)@.len() == old(self).capacity_spec() ==> (r matches Err(Error::Full)
                && final(self)@ == old(self)@),
            old(self)@.len() < old(self).capacity_spec() ==> (r matches Ok(())
                && final(self)@ == old(self)@.push(value)),
    {
        self.core.push(value)
    }

    /// Remove the oldest element; `Empty` exactly when the buffer holds nothing.
    pub fn pop(&mut self) -> (r: Result<T, Error>)
        requires
            old(self).wf(),
        ensures
            final(self).wf(),
            final(self).capacity_spec() == old(self).capacity_spec(),
            old(self)@.len() == 0 ==> (r matches Err(Error::Empty) && final(self)@ == old(self)@),
            old(self)@.len() > 0 ==> (r matches Ok(v) && v == old(self)@[0]
                && final(self)@ == old(self)@.subrange(1, old(self)@.len() as int)),
    {
        self.core.pop()
    }

    /// Whether the buffer holds nothing.
    pub fn is_empty(&self) -> (r: bool)
        requires
            self.wf(),
        ensures
            r <==> self@.len() == 0,
    {
        self.core.is_empty()
    }

    /// Whether occupancy has reached capacity.
    pub fn is_full(&self) -> (r: bool)
        requires
            self.wf(),
        ensures
            r <==> self@.len() == self.capacity_spec(),
    {
        self.core.is_full()
    }

    /// The number of elements currently held.
    pub fn len(&self) -> (r: usize)
        requires
            self.wf(),
        ensures
            r == self@.len(),
    {
        self.core.len()
    }

    /// All-or-nothing batch push: `Full`, with nothing written, when the
    /// slice does not fit in the free space.
    pub fn push_batch(&mut self, items: &[T]) -> (r: Result<(), Error>)
        requires
            old(self).wf(),
        ensures
            final(self).wf(),
            final(self).capacity_spec() == old(self).capacity_spec(),
            old(self)@.len() + items@.len() <= old(self).capacity_spec() ==> (r matches Ok(())
                && final(self)@ == old(self)@ + items@),
            old(self)@.len() + items@.len() > old(self).capacity_spec() ==> (r matches Err(Error::Full)
                && final(self)@ == old(self)@),
    {
        self.core.push_batch(items)
    }

    /// Pop up to `buf.len()` elements into the front of `buf`, in FIFO
    /// order, returning the count; `Empty` only when the buffer holds
    /// nothing and `buf` asked for at least one element.
    pub fn pop_batch(&mut self, buf: &mut Vec<T>) -> (r: Result<usize, Error>)
        requires
            old(self).wf(),
        ensures
            final(self).wf(),
            final(self).capacity_spec() == old(self).capacity_spec(),
            final(buf)@.len() == old(buf)@.len(),
            old(buf)@.len() == 0 ==> (r matches Ok(k) && k == 0usize && final(self)@ == old(self)@
                && final(buf)@ == old(buf)@),
            old(buf)@.len() > 0 && old(self)@.len() == 0 ==> (r matches Err(Error::Empty)
                && final(self)@ == old(self)@ && final(buf)@ == old(buf)@),
            old(buf)@.len() > 0 && old(self)@.len() > 0 ==> (r matches Ok(k)
                && k == vstd::math::min(old(buf)@.len() as int, old(self)@.len() as int)
                && final(buf)@.subrange(0, k as int) == old(self)@.subrange(0, k as int)
                && (forall|j: int| k <= j < old(buf)@.len() ==> final(buf)@[j] == old(buf)@[j])
                && final(self)@ == old(self)@.subrange(k as int, old(self)@.len() as int)),
    {
        self.core.pop_batch(buf)
    }

    /// Law: at every observation of a well-formed ring buffer of capacity
    /// `C`, the occupancy lies between `0` and `C`.
    pub proof fn lemma_occupancy_bounded(self)
        requires
            self.wf(),
        ensures
            0 <= self@.len() <= self.capacity_spec(),
            self.capacity_spec() <= RING_MAX_CAPACITY as nat,
    {
    }
}

/// A single-producer multi-consumer (SPMC) ring buffer.
///
/// One thread pushes; several threads may pop.
pub struct SpmcRingBuffer<T> {
    core: RingCore<T>,
}

impl<T: Copy> View for SpmcRingBuffer<T> {
    type V = Seq<T>;

    closed spec fn view(&self) -> Seq<T> {
        self.core.view()
    }
}

impl<T: Copy> SpmcRingBuffer<T> {
    /// Well-formedness: established by `new`, preserved by every operation.
    pub closed spec fn wf(self) -> bool {
        self.core.wf()
    }

    /// The effective capacity: the requested one rounded up to a power of two.
    pub closed spec fn capacity_spec(self) -> nat {
        self.core.cap as nat
    }

    /// Create a ring buffer; the capacity is rounded up to the next power of two.
    pub fn new(capacity: usize) -> (r: Self)
        requires
            capacity <= RING_MAX_CAPACITY,
        ensures
            r.wf(),
            r@ == Seq::<T>::empty(),
            is_pow2(r.capacity_spec()),
            capacity <= r.capacity_spec(),
            capacity >= 1 ==> r.capacity_spec() < 2 * capacity,
            capacity == 0 ==> r.capacity_spec() == 1,
    {
        SpmcRingBuffer { core: RingCore::new(capacity) }
    }

    /// The effective capacity.
    pub fn capacity(&self) -> (r: usize)
        ensures
            r == self.capacity_spec(),
    {
        self.core.capacity()
    }

    /// Append `value` at the tail; `Full` exactly when occupancy equals capacity.
    pub fn push(&mut self, value: T) -> (r: Result<(), Error>)
        requires
            old(self).wf(),
        ensures
            final(self).wf(),
            final(self).capacity_spec() == old(self).capacity_spec(),
            old(self)@.len() == old(self).capacity_spec() ==> (r matches Err(Error::Full)
                && final(self)@ == old(self)@),
            old(self)@.len() < old(self).capacity_spec() ==> (r matches Ok(())
                && final(self)@ == old(self)@.push(value)),
    {
        self.core.push(value)
    }

    /// Remove the oldest element; `Empty` exactly when the buffer holds nothing.
    pub fn pop(&mut self) -> (r: Result<T, Error>)
        requires
            old(self).wf(),
        ensures
            final(self).wf(),
            final(self).capacity_spec() == old(self).capacity_spec(),
            old(self)@.len() == 0 ==> (r matches Err(Error::Empty) && final(self)@ == old(self)@),
            old(self)@.len() > 0 ==> (r matches Ok(v) && v == old(self)@[0]
                && final(self)@ == old(self)@.subrange(1, old(self)@.len() as int)),
    {
        self.core.pop()
    }

    /// Whether the buffer holds nothing.
    pub fn is_empty(&self) -> (r: bool)
        requires
            self.wf(),
        ensures
            r <==> self@.len() == 0,
    {
        self.core.is_empty()
    }

    /// Whether occupancy has reached capacity.
    pub fn is_full(&self) -> (r: bool)
        requires
            self.wf(),
        ensures
            r <==> self@.len() == self.capacity_spec(),
    {
        self.core.is_full()
    }

    /// The number of elements currently held.
    pub fn len(&self) -> (r: usize)
        requires
            self.wf(),
        ensures
            r == self@.len(),
    {
        self.core.len()
    }

    /// All-or-nothing batch push: `Full`, with nothing written, when the
    /// slice does not fit in the free space.
    pub fn push_batch(&mut self, items: &[T]) -> (r: Result<(), Error>)
        requires
            old(self).wf(),
        ensures
            final(self).wf(),
            final(self).capacity_spec() == old(self).capacity_spec(),
            old(self)@.len() + items@.len() <= old(self).capacity_spec() ==> (r matches Ok(())
                && final(self)@ == old(self)@ + items@),
            old(self)@.len() + items@.len() > old(self).capacity_spec() ==> (r matches Err(Error::Full)
                && final(self)@ == old(self)@),
    {
        self.core.push_batch(items)
    }

    /// Pop up to `buf.len()` elements into the front of `buf`, in FIFO
    /// order, returning the count; `Empty` only when the buffer holds
    /// nothing and `buf` asked for at least one element.
    pub fn pop_batch(&mut self, buf: &mut Vec<T>) -> (r: Result<usize, Error>)
        requires
            old(self).wf(),
        ensures
            final(self).wf(),
            final(self).capacity_spec() == old(self).capacity_spec(),
            final(buf)@.len() == old(buf)@.len(),
            old(buf)@.len() == 0 ==> (r matches Ok(k) && k == 0usize && final(self)@ == old(self)@
                && final(buf)@ == old(buf)@),
            old(buf)@.len() > 0 && old(self)@.len() == 0 ==> (r matches Err(Error::Empty)
                && final(self)@ == old(self)@ && final(buf)@ == old(buf)@),
            old(buf)@.len() > 0 && old(self)@.len() > 0 ==> (r matches Ok(k)
                && k == vstd::math::min(old(buf)@.len() as int, old(self)@.len() as int)
                && final(buf)@.subrange(0, k as int) == old(self)@.subrange(0, k as int)
                && (forall|j: int| k <= j < old(buf)@.len() ==> final(buf)@[j] == old(buf)@[j])
                && final(self)@ == old(self)@.subrange(k as int, old(self)@.len() as int)),
    {
        self.core.pop_batch(buf)
    }

    /// Law: at every observation of a well-formed ring buffer of capacity
    /// `C`, the occupancy lies between `0` and `C`.
    pub proof fn lemma_occupancy_bounded(self)
        requires
            self.wf(),
        ensures
            0 <= self@.len() <= self.capacity_spec(),
            self.capacity_spec() <= RING_MAX_CAPACITY as nat,
    {
    }
}

/// A multi-producer multi-consumer (MPMC) ring buffer.
///
/// Several threads may push and pop concurrently.
pub struct MpmcRingBuffer<T> {
    core: RingCore<T>,
}

impl<T: Copy> View for MpmcRingBuffer<T> {
    type V = Seq<T>;

    closed spec fn view(&self) -> Seq<T> {
        self.core.view()
    }
}

impl<T: Copy> MpmcRingBuffer<T> {
    /// Well-formedness: established by `new`, preserved by every operation.
    pub closed spec fn wf(self) -> bool {
        self.core.wf()
    }

    /// The effective capacity: the requested one rounded up to a power of two.
    pub closed spec fn capacity_spec(self) -> nat {
        self.core.cap as nat
    }

    /// Create a ring buffer; the capacity is rounded up to the next power of two.
    pub fn new(capacity: usize) -> (r: Self)
        requires
            capacity <= RING_MAX_CAPACITY,
        ensures
            r.wf(),
            r@ == Seq::<T>::empty(),
            is_pow2(r.capacity_spec()),
            capacity <= r.capacity_spec(),
            capacity >= 1 ==> r.capacity_spec() < 2 * capacity,
            capacity == 0 ==> r.capacity_spec() == 1,
    {
        MpmcRingBuffer { core: RingCore::new(capacity) }
    }

    /// The effective capacity.
    pub fn capacity(&self) -> (r: usize)
        ensures
            r == self.capacity_spec(),
    {
        self.core.capacity()
    }

    /// Append `value` at the tail; `Full` exactly when occupancy equals capacity.
    pub fn push(&mut self, value: T) -> (r: Result<(), Error>)
        requires
            old(self).wf(),
        ensures
            final(self).wf(),
            final(self).capacity_spec() == old(self).capacity_spec(),
            old(self)@.len() == old(self).capacity_spec() ==> (r matches Err(Error::Full)
                && final(self)@ == old(self)@),
            old(self)@.len() < old(self).capacity_spec() ==> (r matches Ok(())
                && final(self)@ == old(self)@.push(value)),
    {
        self.core.push(value)
    }

    /// Remove the oldest element; `Empty` exactly when the buffer holds nothing.
    pub fn pop(&mut self) -> (r: Result<T, Error>)
        requires
            old(self).wf(),
        ensures
            final(self).wf(),
            final(self).capacity_spec() == old(self).capacity_spec(),
            old(self)@.len() == 0 ==> (r matches Err(Error::Empty) && final(self)@ == old(self)@),
            old(self)@.len() > 0 ==> (r matches Ok(v) && v == old(self)@[0]
                && final(self)@ == old(self)@.subrange(1, old(self)@.len() as int)),
    {
        self.core.pop()
    }

    /// Whether the buffer holds nothing.
    pub fn is_empty(&self) -> (r: bool)
        requires
            self.wf(),
        ensures
            r <==> self@.len() == 0,
    {
        self.core.is_empty()
    }

    /// Whether occupancy has reached capacity.
    pub fn is_full(&self) -> (r: bool)
        requires
            self.wf(),
        ensures
            r <==> self@.len() == self.capacity_spec(),
    {
        self.core.is_full()
    }

    /// The number of elements currently held.
    pub fn len(&self) -> (r: usize)
        requires
            self.wf(),
        ensures
            r == self@.len(),
    {
        self.core.len()
    }

    /// All-or-nothing batch push: `Full`, with nothing written, when the
    /// slice does not fit in the free space.
    pub fn push_batch(&mut self, items: &[T]) -> (r: Result<(), Error>)
        requires
            old(self).wf(),
        ensures
            final(self).wf(),
            final(self).capacity_spec() == old(self).capacity_spec(),
            old(self)@.len() + items@.len() <= old(self).capacity_spec() ==> (r matches Ok(())
                && final(self)@ == old(self)@ + items@),
            old(self)@.len() + items@.len() > old(self).capacity_spec() ==> (r matches Err(Error::Full)
                && final(self)@ == old(self)@),
    {
        self.core.push_batch(items)
    }

    /// Pop up to `buf.len()` elements into the front of `buf`, in FIFO
    /// order, returning the count; `Empty` only when the buffer holds
    /// nothing and `buf` asked for at least one element.
    pub fn pop_batch(&mut self, buf: &mut Vec<T>) -> (r: Result<usize, Error>)
        requires
            old(self).wf(),
        ensures
            final(self).wf(),
            final(self).capacity_spec() == old(self).capacity_spec(),
            final(buf)@.len() == old(buf)@.len(),
            old(buf)@.len() == 0 ==> (r matches Ok(k) && k == 0usize && final(self)@ == old(self)@
                && final(buf)@ == old(buf)@),
            old(buf)@.len() > 0 && old(self)@.len() == 0 ==> (r matches Err(Error::Empty)
                && final(self)@ == old(self)@ && final(buf)@ == old(buf)@),
            old(buf)@.len() > 0 && old(self)@.len() > 0 ==> (r matches Ok(k)
                && k == vstd::math::min(old(buf)@.len() as int, old(self)@.len() as int)
                && final(buf)@.subrange(0, k as int) == old(self)@.subrange(0, k as int)
                && (forall|j: int| k <= j < old(buf)@.len() ==> final(buf)@[j] == old(buf)@[j])
                && final(self)@ == old(self)@.subrange(k as int, old(self)@.len() as int)),
    {
        self.core.pop_batch(buf)
    }

    /// Law: at every observation of a well-formed ring buffer of capacity
    /// `C`, the occupancy lies between `0` and `C`.
    pub proof fn lemma_occupancy_bounded(self)
        requires
            self.wf(),
        ensures
            0 <= self@.len() <= self.capacity_spec(),
            self.capacity_spec() <= RING_MAX_CAPACITY as nat,
    {
    }
}

/// Law: pushing `x` onto an empty queue and then popping, with no
/// operation in between, yields `x` again. (On a non-empty queue a pop
/// instead yields the oldest element, so emptiness is required.)
pub proof fn lemma_push_then_pop_yields_pushed<T>(s: Seq<T>, x: T)
    requires
        s.len() == 0,
    ensures
        s.push(x)[0] == x,
{
}

/// Law: after a successful `push_batch(xs)` on an empty queue, a
/// `pop_batch` that returns `k` elements hands back exactly the first `k`
/// elements of `xs`, consumed in FIFO order.
pub proof fn lemma_batch_fifo_prefix<T>(s: Seq<T>, xs: Seq<T>, k: int)
    requires
        s.len() == 0,
        0 <= k <= xs.len(),
    ensures
        (s + xs).subrange(0, k) == xs.subrange(0, k),
{
    assert((s + xs).subrange(0, k) =~= xs.subrange(0, k));
}

} // verus!

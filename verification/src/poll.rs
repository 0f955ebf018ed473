//! Poll-mode driver shell: receive and transmit queues with counters, and
//! the driver that owns them together with one mbuf pool.
//!
//! The capture device itself lives outside the library; a receive queue is
//! fed frames through `deliver_frame` (allocate an mbuf, bound-check, copy,
//! stamp) and drained through `recv`, and a transmit queue records the
//! outcome of each capture send. Every effect on the pool and on the
//! counters is stated exactly.

use crate::memory::MbufPool;
use crate::ring::SpscRingBuffer;
use crate::{wrap_add64, Error};
use vstd::prelude::*;

verus! {

/// Default packet buffer size in bytes.
pub const DEFAULT_PACKET_SIZE: usize = 2048;

/// Maximum batch size for packet operations.
pub const MAX_BATCH_SIZE: usize = 32;

/// Receive queue statistics: free-running counters, wrapping at 2^64.
#[derive(Debug, Clone, Copy, PartialEq, Eq, Structural)]
pub struct RxQueueStats {
    pub packets_received: u64,
    pub bytes_received: u64,
    pub errors: u64,
    pub drops: u64,
}

impl Default for RxQueueStats {
    fn default() -> (r: Self)
        ensures
            r == RxQueueStats::zero(),
    {
        RxQueueStats { packets_received: 0, bytes_received: 0, errors: 0, drops: 0 }
    }
}

impl RxQueueStats {
    /// All counters at zero.
    pub open spec fn zero() -> RxQueueStats {
        RxQueueStats { packets_received: 0, bytes_received: 0, errors: 0, drops: 0 }
    }
}

/// Transmit queue statistics: free-running counters, wrapping at 2^64.
#[derive(Debug, Clone, Copy, PartialEq, Eq, Structural)]
pub struct TxQueueStats {
    pub packets_sent: u64,
    pub bytes_sent: u64,
    pub errors: u64,
    pub drops: u64,
}

impl Default for TxQueueStats {
    fn default() -> (r: Self)
        ensures
            r == TxQueueStats::zero(),
    {
        TxQueueStats { packets_sent: 0, bytes_sent: 0, errors: 0, drops: 0 }
    }
}

impl TxQueueStats {
    /// All counters at zero.
    pub open spec fn zero() -> TxQueueStats {
        TxQueueStats { packets_sent: 0, bytes_sent: 0, errors: 0, drops: 0 }
    }
}

/// A receive queue: an inbox FIFO of mbuf slots filled from the capture
/// side and drained by the stack pump.
pub struct RxQueue {
    id: u16,
    inbox: SpscRingBuffer<usize>,
    stats: RxQueueStats,
    running: bool,
}

/// The mbufs queued in the receive inbox are pairwise distinct, lie inside
/// the pool, and none of them is on the pool's freelist.
pub open spec fn rx_pool_coherent(rx: RxQueue, pool: MbufPool) -> bool {
    &&& forall|k: int|
        0 <= k < rx.spec_queue().len() ==> (#[trigger] rx.spec_queue()[k]) < pool.spec_size()
            && !pool.spec_free().contains(rx.spec_queue()[k])
    &&& forall|k1: int, k2: int|
        0 <= k1 < k2 < rx.spec_queue().len() ==> (#[trigger] rx.spec_queue()[k1]) != (
        #[trigger] rx.spec_queue()[k2])
}

impl RxQueue {
    pub closed spec fn wf(self) -> bool {
        self.inbox.wf()
    }

    pub closed spec fn spec_id(self) -> u16 {
        self.id
    }

    pub closed spec fn spec_queue(self) -> Seq<usize> {
        self.inbox@
    }

    pub closed spec fn spec_capacity(self) -> nat {
        self.inbox.capacity_spec()
    }

    pub closed spec fn spec_stats(self) -> RxQueueStats {
        self.stats
    }

    pub closed spec fn spec_running(self) -> bool {
        self.running
    }

    /// Create a receive queue with an inbox of (rounded) `queue_size` slots.
    pub fn new(id: u16, queue_size: usize) -> (r: Result<Self, Error>)
        requires
            queue_size <= crate::ring::RING_MAX_CAPACITY,
        ensures
            r matches Ok(q) && q.wf() && q.spec_id() == id && q.spec_queue() == Seq::<
                usize,
            >::empty() && q.spec_stats() == RxQueueStats::zero() && !q.spec_running()
                && queue_size <= q.spec_capacity(),
    {
        Ok(
            RxQueue {
                id,
                inbox: SpscRingBuffer::new(queue_size),
                stats: RxQueueStats::default(),
                running: false,
            },
        )
    }

    /// Take one frame in from the capture side: allocate an mbuf, check the
    /// frame fits, copy the bytes, stamp timestamp (`ts_sec * 10^9 +
    /// ts_usec * 10^3`) and queue id, and queue the mbuf in the inbox.
    ///
    /// Exhaustion of the pool propagates the allocation error; an oversized
    /// frame returns the mbuf to the pool, counts one error, and reports
    /// `NetworkError`; a full inbox returns the mbuf, counts one drop, and
    /// reports `QueueError`.
    pub fn deliver_frame(
        &mut self,
        pool: &mut MbufPool,
        frame: &[u8],
        ts_sec: u64,
        ts_usec: u64,
    ) -> (r: Result<usize, Error>)
        requires
            old(self).wf(),
            old(pool).wf(),
            rx_pool_coherent(*old(self), *old(pool)),
            ts_sec * 1_000_000_000 + ts_usec * 1000 <= u64::MAX,
        ensures
            final(self).wf(),
            final(pool).wf(),
            rx_pool_coherent(*final(self), *final(pool)),
            final(self).spec_id() == old(self).spec_id(),
            final(self).spec_running() == old(self).spec_running(),
            final(self).spec_capacity() == old(self).spec_capacity(),
            old(pool).spec_available() == 0 ==> (r matches Err(Error::MemoryAllocation(_))
                && crate::memory::pool_unchanged(*old(pool), *final(pool)) && final(self).spec_queue() == old(self).spec_queue() && final(self).spec_stats() == old(self).spec_stats()),
            old(pool).spec_available() > 0 && frame@.len() > old(pool).spec_buf_size() ==> (r
                matches Err(Error::NetworkError(_)) && final(self).spec_queue() == old(self).spec_queue() && final(self).spec_stats() == (RxQueueStats {
                errors: wrap_add64(old(self).spec_stats().errors, 1),
                ..old(self).spec_stats()
            }) && final(pool).spec_free() == old(pool).spec_free() && final(pool).spec_available()
                == old(pool).spec_available() && final(pool).spec_size() == old(pool).spec_size()
                && final(pool).spec_buf_size() == old(pool).spec_buf_size()),
            old(pool).spec_available() > 0 && frame@.len() <= old(pool).spec_buf_size() && old(self).spec_queue().len() == old(self).spec_capacity() ==> (r matches Err(Error::QueueError(
                _,
            )) && final(self).spec_queue() == old(self).spec_queue() && final(self).spec_stats()
                == (RxQueueStats {
                drops: wrap_add64(old(self).spec_stats().drops, 1),
                ..old(self).spec_stats()
            }) && final(pool).spec_free() == old(pool).spec_free() && final(pool).spec_available()
                == old(pool).spec_available() && final(pool).spec_size() == old(pool).spec_size()
                && final(pool).spec_buf_size() == old(pool).spec_buf_size()),
            old(pool).spec_available() > 0 && frame@.len() <= old(pool).spec_buf_size() && old(self).spec_queue().len() < old(self).spec_capacity() ==> (r matches Ok(idx) && idx == old(pool).spec_free().last() && final(self).spec_queue() == old(self).spec_queue().push(idx)
                && final(self).spec_stats() == (RxQueueStats {
                packets_received: wrap_add64(old(self).spec_stats().packets_received, 1),
                bytes_received: wrap_add64(
                    old(self).spec_stats().bytes_received,
                    frame@.len() as int,
                ),
                ..old(self).spec_stats()
            }) && final(pool).spec_free() == old(pool).spec_free().drop_last() && final(pool).spec_available() == old(pool).spec_available() - 1 && final(pool).spec_size() == old(pool).spec_size() && final(pool).spec_buf_size() == old(pool).spec_buf_size() && final(pool).spec_bufs().len() == old(pool).spec_bufs().len() && crate::udp::frame_of(
                final(pool).spec_bufs()[idx as int],
            ) == frame@ && final(pool).spec_bufs()[idx as int].timestamp == ts_sec * 1_000_000_000
                + ts_usec * 1000 && final(pool).spec_bufs()[idx as int].queue_id == old(self).spec_id() && (forall|j: int|
                0 <= j < old(pool).spec_bufs().len() && j != idx
                    ==> #[trigger] final(pool).spec_bufs()[j] == old(pool).spec_bufs()[j])),
    {
        proof {
            crate::memory::lemma_pool_bufs_wf(*old(pool));
        }
        let alloc_res = pool.alloc_mbuf();
        let idx = match alloc_res {
            Ok(i) => i,
            Err(e) => {
                proof {
                    assert(old(pool).spec_available() == 0);
                    assert(crate::memory::pool_unchanged(*old(pool), *pool));
                    assert(rx_pool_coherent(*self, *pool));
                }
                return Err(e);
            },
        };
        proof {
            assert(old(pool).spec_available() > 0);
            assert(crate::memory::alloc_step(*old(pool), *pool, idx));
            assert(idx < pool.spec_size());
            crate::memory::lemma_pool_bufs_wf(*pool);
        }
        let buf_capacity = pool.buf(idx).buf_len;
        if frame.len() > buf_capacity {
            let _ = pool.free(idx);
            self.stats.errors = crate::counter_add(self.stats.errors, 1);
            proof {
                assert(pool.spec_free() =~= old(pool).spec_free());
            }
            return Err(Error::NetworkError("Packet too large for mbuf".to_owned()));
        }
        proof {
            self.inbox.lemma_occupancy_bounded();
        }
        if self.inbox.len() == self.inbox.capacity() {
            let _ = pool.free(idx);
            self.stats.drops = crate::counter_add(self.stats.drops, 1);
            proof {
                assert(pool.spec_free() =~= old(pool).spec_free());
            }
            return Err(Error::QueueError("Receive inbox full".to_owned()));
        }
        let qid = self.id;
        let ghost pool_after_alloc = *pool;
        let m = pool.buf_mut(idx);
        m.reset();
        let appended = m.append(frame);
        proof {
            assert(appended matches Ok(()));
        }
        m.timestamp = ts_sec * 1_000_000_000 + ts_usec * 1000;
        m.queue_id = qid;
        proof {
            assert(crate::udp::frame_of(pool.spec_bufs()[idx as int]) =~= frame@);
        }
        let pushed = self.inbox.push(idx);
        proof {
            assert(pushed matches Ok(()));
        }
        self.stats.packets_received = crate::counter_add(self.stats.packets_received, 1);
        self.stats.bytes_received = crate::counter_add(
            self.stats.bytes_received,
            frame.len() as u64,
        );
        proof {
            let pre_free = old(pool).spec_free();
            assert(pre_free[pre_free.len() - 1] == idx);
            assert(pre_free.contains(idx));
            assert forall|k: int| 0 <= k < self.spec_queue().len() implies (
                #[trigger] self.spec_queue()[k]) < pool.spec_size() && !pool.spec_free().contains(
                self.spec_queue()[k],
            ) by {
                if k < old(self).spec_queue().len() {
                    let e = old(self).spec_queue()[k];
                    assert(self.spec_queue()[k] == e);
                    assert(!pre_free.contains(e));
                    if pool.spec_free().contains(e) {
                        let j = choose|j: int|
                            0 <= j < pool.spec_free().len() && pool.spec_free()[j] == e;
                        assert(pre_free[j] == e);
                        assert(pre_free.contains(e));
                    }
                } else {
                    assert(self.spec_queue()[k] == idx);
                    if pool.spec_free().contains(idx) {
                        let j = choose|j: int|
                            0 <= j < pool.spec_free().len() && pool.spec_free()[j] == idx;
                        assert(pre_free[j] == idx);
                    }
                }
            }
            assert forall|k1: int, k2: int|
                0 <= k1 < k2 < self.spec_queue().len() implies self.spec_queue()[k1]
                != self.spec_queue()[k2] by {
                if k2 == self.spec_queue().len() - 1 {
                    let e = old(self).spec_queue()[k1];
                    assert(self.spec_queue()[k1] == e);
                    assert(!pre_free.contains(e));
                    assert(self.spec_queue()[k2] == idx);
                }
            }
        }
        Ok(idx)
    }

    /// Count one capture-side receive failure, as the capture device
    /// reports it: the `errors` counter rises by one and nothing else
    /// moves.
    pub fn record_capture_error(&mut self)
        requires
            old(self).wf(),
        ensures
            final(self).wf(),
            final(self).spec_queue() == old(self).spec_queue(),
            final(self).spec_id() == old(self).spec_id(),
            final(self).spec_running() == old(self).spec_running(),
            final(self).spec_capacity() == old(self).spec_capacity(),
            final(self).spec_stats() == (RxQueueStats {
                errors: wrap_add64(old(self).spec_stats().errors, 1),
                ..old(self).spec_stats()
            }),
    {
        self.stats.errors = crate::counter_add(self.stats.errors, 1);
    }

    /// Take the oldest delivered mbuf out of the inbox; `NetworkError`
    /// exactly when the inbox is empty.
    pub fn recv(&mut self) -> (r: Result<usize, Error>)
        requires
            old(self).wf(),
        ensures
            final(self).wf(),
            final(self).spec_id() == old(self).spec_id(),
            final(self).spec_stats() == old(self).spec_stats(),
            final(self).spec_running() == old(self).spec_running(),
            final(self).spec_capacity() == old(self).spec_capacity(),
            old(self).spec_queue().len() == 0 ==> (r matches Err(Error::NetworkError(_)) && final(self).spec_queue() == old(self).spec_queue()),
            old(self).spec_queue().len() > 0 ==> (r matches Ok(idx) && idx == old(self).spec_queue()[0] && final(self).spec_queue() == old(self).spec_queue().subrange(
                1,
                old(self).spec_queue().len() as int,
            )),
    {
        match self.inbox.pop() {
            Ok(idx) => Ok(idx),
            Err(_) => Err(Error::NetworkError("No packet available".to_owned())),
        }
    }

    /// Start the receive queue.
    pub fn start(&mut self) -> (r: Result<(), Error>)
        requires
            old(self).wf(),
        ensures
            final(self).wf(),
            r matches Ok(()),
            final(self).spec_running(),
            final(self).spec_queue() == old(self).spec_queue(),
            final(self).spec_stats() == old(self).spec_stats(),
            final(self).spec_id() == old(self).spec_id(),
            final(self).spec_capacity() == old(self).spec_capacity(),
    {
        self.running = true;
        Ok(())
    }

    /// Stop the receive queue.
    pub fn stop(&mut self) -> (r: Result<(), Error>)
        requires
            old(self).wf(),
        ensures
            final(self).wf(),
            r matches Ok(()),
            !final(self).spec_running(),
            final(self).spec_queue() == old(self).spec_queue(),
            final(self).spec_stats() == old(self).spec_stats(),
            final(self).spec_id() == old(self).spec_id(),
            final(self).spec_capacity() == old(self).spec_capacity(),
    {
        self.running = false;
        Ok(())
    }

    /// Get queue statistics.
    pub fn stats(&self) -> (r: &RxQueueStats)
        ensures
            *r == self.spec_stats(),
    {
        &self.stats
    }
}

/// A transmit queue: counters over the outcomes of capture sends.
pub struct TxQueue {
    id: u16,
    stats: TxQueueStats,
    running: bool,
}

impl TxQueue {
    pub closed spec fn spec_id(self) -> u16 {
        self.id
    }

    pub closed spec fn spec_stats(self) -> TxQueueStats {
        self.stats
    }

    pub closed spec fn spec_running(self) -> bool {
        self.running
    }

    /// Create a transmit queue.
    pub fn new(id: u16) -> (r: Result<Self, Error>)
        ensures
            r matches Ok(q) && q.spec_id() == id && q.spec_stats() == TxQueueStats::zero()
                && !q.spec_running(),
    {
        Ok(TxQueue { id, stats: TxQueueStats::default(), running: false })
    }

    /// Account one attempt to transmit the mbuf in slot `mbuf`, whose
    /// delivery outcome the capture side reports in `delivered`. On
    /// success the packet and byte counters advance; on failure one error
    /// is counted and `PcapError` is returned. The caller retains
    /// ownership of the mbuf either way.
    pub fn send(&mut self, pool: &MbufPool, mbuf: usize, delivered: bool) -> (r: Result<
        (),
        Error,
    >)
        requires
            pool.wf(),
            mbuf < pool.spec_size(),
        ensures
            final(self).spec_id() == old(self).spec_id(),
            final(self).spec_running() == old(self).spec_running(),
            delivered ==> (r matches Ok(()) && final(self).spec_stats() == (TxQueueStats {
                packets_sent: wrap_add64(old(self).spec_stats().packets_sent, 1),
                bytes_sent: wrap_add64(
                    old(self).spec_stats().bytes_sent,
                    pool.spec_bufs()[mbuf as int].len as int,
                ),
                ..old(self).spec_stats()
            })),
            !delivered ==> (r matches Err(Error::PcapError(_)) && final(self).spec_stats() == (
            TxQueueStats { errors: wrap_add64(old(self).spec_stats().errors, 1), ..old(self).spec_stats() })),
    {
        let byte_len = pool.buf(mbuf).len;
        if delivered {
            self.stats.packets_sent = crate::counter_add(self.stats.packets_sent, 1);
            self.stats.bytes_sent = crate::counter_add(self.stats.bytes_sent, byte_len as u64);
            Ok(())
        } else {
            self.stats.errors = crate::counter_add(self.stats.errors, 1);
            Err(Error::PcapError("send failed".to_owned()))
        }
    }

    /// Start the transmit queue.
    pub fn start(&mut self) -> (r: Result<(), Error>)
        ensures
            r matches Ok(()),
            final(self).spec_running(),
            final(self).spec_stats() == old(self).spec_stats(),
            final(self).spec_id() == old(self).spec_id(),
    {
        self.running = true;
        Ok(())
    }

    /// Stop the transmit queue.
    pub fn stop(&mut self) -> (r: Result<(), Error>)
        ensures
            r matches Ok(()),
            !final(self).spec_running(),
            final(self).spec_stats() == old(self).spec_stats(),
            final(self).spec_id() == old(self).spec_id(),
    {
        self.running = false;
        Ok(())
    }

    /// Get queue statistics.
    pub fn stats(&self) -> (r: &TxQueueStats)
        ensures
            *r == self.spec_stats(),
    {
        &self.stats
    }
}

/// The poll-mode driver: the receive and transmit queues and the mbuf pool
/// they draw from. The capture handles live outside the library.
pub struct PollModeDriver {
    config: crate::Config,
    rx_queues: Vec<RxQueue>,
    tx_queues: Vec<TxQueue>,
    pool: MbufPool,
    running: bool,
}

impl PollModeDriver {
    pub closed spec fn spec_rx_queues(self) -> Seq<RxQueue> {
        self.rx_queues@
    }

    pub closed spec fn spec_tx_queues(self) -> Seq<TxQueue> {
        self.tx_queues@
    }

    pub closed spec fn spec_pool(self) -> MbufPool {
        self.pool
    }

    pub closed spec fn spec_running(self) -> bool {
        self.running
    }

    pub closed spec fn wf(self) -> bool {
        &&& self.pool.wf()
        &&& forall|i: int| 0 <= i < self.rx_queues@.len() ==> (#[trigger] self.rx_queues@[i]).wf()
    }

    /// Build the driver from a configuration: one pool of
    /// `config.pool_size` mbufs of 2048 bytes, `rx_queue_count` receive
    /// queues with inboxes of `rx_queue_size` slots, and `tx_queue_count`
    /// transmit queues. Oversized queue parameters are rejected as
    /// `InvalidConfig`.
    pub fn new(config: &crate::Config) -> (r: Result<Self, Error>)
        ensures
            (config.rx_queue_size <= crate::ring::RING_MAX_CAPACITY && config.rx_queue_count
                <= 0xFFFF && config.tx_queue_count <= 0xFFFF) <==> r is Ok,
            r matches Ok(p) ==> p.wf() && p.spec_rx_queues().len() == config.rx_queue_count
                && p.spec_tx_queues().len() == config.tx_queue_count && p.spec_pool().spec_size()
                == config.pool_size && p.spec_pool().spec_buf_size() == DEFAULT_PACKET_SIZE
                && p.spec_pool().spec_available() == config.pool_size && !p.spec_running() && (
            forall|i: int|
                0 <= i < config.rx_queue_count ==> (#[trigger] p.spec_rx_queues()[i]).spec_queue()
                    == Seq::<usize>::empty() && p.spec_rx_queues()[i].spec_id() == i),
            r matches Err(e) ==> e matches Error::InvalidConfig(_),
    {
        if config.rx_queue_size > crate::ring::RING_MAX_CAPACITY {
            return Err(Error::InvalidConfig("RX queue size too large".to_owned()));
        }
        if config.rx_queue_count > 0xFFFF {
            return Err(Error::InvalidConfig("too many RX queues".to_owned()));
        }
        if config.tx_queue_count > 0xFFFF {
            return Err(Error::InvalidConfig("too many TX queues".to_owned()));
        }
        let pool = match MbufPool::new("pmd_pool".to_owned(), config.pool_size, DEFAULT_PACKET_SIZE)
             {
            Ok(p) => p,
            Err(e) => {
                return Err(Error::InvalidConfig("pool construction failed".to_owned()));
            },
        };
        let mut rx_queues: Vec<RxQueue> = Vec::new();
        let mut i: usize = 0;
        while i < config.rx_queue_count
            invariant
                i <= config.rx_queue_count,
                config.rx_queue_count <= 0xFFFF,
                config.rx_queue_size <= crate::ring::RING_MAX_CAPACITY,
                rx_queues@.len() == i,
                forall|k: int|
                    0 <= k < i ==> (#[trigger] rx_queues@[k]).wf() && rx_queues@[k].spec_queue()
                        == Seq::<usize>::empty() && rx_queues@[k].spec_id() == k,
            decreases config.rx_queue_count - i,
        {
            let q = match RxQueue::new(i as u16, config.rx_queue_size) {
                Ok(q) => q,
                Err(_) => {
                    return Err(Error::InvalidConfig("RX queue construction failed".to_owned()));
                },
            };
            rx_queues.push(q);
            i = i + 1;
        }
        let mut tx_queues: Vec<TxQueue> = Vec::new();
        let mut j: usize = 0;
        while j < config.tx_queue_count
            invariant
                j <= config.tx_queue_count,
                config.tx_queue_count <= 0xFFFF,
                tx_queues@.len() == j,
            decreases config.tx_queue_count - j,
        {
            let q = match TxQueue::new(j as u16) {
                Ok(q) => q,
                Err(_) => {
                    return Err(Error::InvalidConfig("TX queue construction failed".to_owned()));
                },
            };
            tx_queues.push(q);
            j = j + 1;
        }
        Ok(PollModeDriver { config: config.clone(), rx_queues, tx_queues, pool, running: false })
    }

    /// Start the driver and all its queues.
    pub fn start(&mut self) -> (r: Result<(), Error>)
        requires
            old(self).wf(),
        ensures
            final(self).wf(),
            r matches Ok(()),
            final(self).spec_running(),
            final(self).spec_pool() == old(self).spec_pool(),
            final(self).spec_rx_queues().len() == old(self).spec_rx_queues().len(),
            final(self).spec_tx_queues().len() == old(self).spec_tx_queues().len(),
            forall|i: int|
                0 <= i < final(self).spec_rx_queues().len() ==> (#[trigger] final(self).spec_rx_queues()[i]).spec_running(),
            forall|i: int|
                0 <= i < final(self).spec_tx_queues().len() ==> (#[trigger] final(self).spec_tx_queues()[i]).spec_running(),
            forall|i: int|
                0 <= i < final(self).spec_rx_queues().len() ==> (#[trigger] final(self).spec_rx_queues()[i]).spec_queue() == old(self).spec_rx_queues()[i].spec_queue(),
    {
        self.running = true;
        let n = self.rx_queues.len();
        let mut i: usize = 0;
        while i < n
            invariant
                i <= n,
                n == self.rx_queues@.len(),
                self.rx_queues@.len() == old(self).spec_rx_queues().len(),
                self.tx_queues@ == old(self).spec_tx_queues(),
                self.pool == old(self).spec_pool(),
                self.running,
                self.config == old(self).config,
                old(self).wf(),
                self.wf(),
                forall|k: int|
                    0 <= k < i ==> (#[trigger] self.rx_queues@[k]).spec_running()
                        && self.rx_queues@[k].spec_queue() == old(self).spec_rx_queues()[k].spec_queue(),
                forall|k: int|
                    i <= k < n ==> #[trigger] self.rx_queues@[k] == old(self).spec_rx_queues()[k],
            decreases n - i,
        {
            let q = &mut self.rx_queues[i];
            let _ = q.start();
            i = i + 1;
        }
        let m = self.tx_queues.len();
        let mut j: usize = 0;
        while j < m
            invariant
                j <= m,
                m == self.tx_queues@.len(),
                self.tx_queues@.len() == old(self).spec_tx_queues().len(),
                self.rx_queues@.len() == old(self).spec_rx_queues().len(),
                self.pool == old(self).spec_pool(),
                self.running,
                old(self).wf(),
                self.wf(),
                forall|k: int|
                    0 <= k < self.rx_queues@.len() ==> (#[trigger] self.rx_queues@[k]).spec_running() && self.rx_queues@[k].spec_queue() == old(self).spec_rx_queues()[k].spec_queue(),
                forall|k: int| 0 <= k < j ==> (#[trigger] self.tx_queues@[k]).spec_running(),
            decreases m - j,
        {
            let q = &mut self.tx_queues[j];
            let _ = q.start();
            j = j + 1;
        }
        Ok(())
    }

    /// Stop the driver and all its queues.
    pub fn stop(&mut self) -> (r: Result<(), Error>)
        requires
            old(self).wf(),
        ensures
            final(self).wf(),
            r matches Ok(()),
            !final(self).spec_running(),
            final(self).spec_pool() == old(self).spec_pool(),
            final(self).spec_rx_queues().len() == old(self).spec_rx_queues().len(),
            final(self).spec_tx_queues().len() == old(self).spec_tx_queues().len(),
            forall|i: int|
                0 <= i < final(self).spec_rx_queues().len() ==> !(#[trigger] final(self).spec_rx_queues()[i]).spec_running(),
            forall|i: int|
                0 <= i < final(self).spec_tx_queues().len() ==> !(#[trigger] final(self).spec_tx_queues()[i]).spec_running(),
    {
        self.running = false;
        let n = self.rx_queues.len();
        let mut i: usize = 0;
        while i < n
            invariant
                i <= n,
                n == self.rx_queues@.len(),
                self.rx_queues@.len() == old(self).spec_rx_queues().len(),
                self.tx_queues@ == old(self).spec_tx_queues(),
                self.pool == old(self).spec_pool(),
                !self.running,
                old(self).wf(),
                self.wf(),
                forall|k: int| 0 <= k < i ==> !(#[trigger] self.rx_queues@[k]).spec_running(),
            decreases n - i,
        {
            let q = &mut self.rx_queues[i];
            let _ = q.stop();
            i = i + 1;
        }
        let m = self.tx_queues.len();
        let mut j: usize = 0;
        while j < m
            invariant
                j <= m,
                m == self.tx_queues@.len(),
                self.tx_queues@.len() == old(self).spec_tx_queues().len(),
                self.rx_queues@.len() == old(self).spec_rx_queues().len(),
                self.pool == old(self).spec_pool(),
                !self.running,
                old(self).wf(),
                self.wf(),
                forall|k: int| 0 <= k < self.rx_queues@.len() ==> !(#[trigger] self.rx_queues@[k]).spec_running(),
                forall|k: int| 0 <= k < j ==> !(#[trigger] self.tx_queues@[k]).spec_running(),
            decreases m - j,
        {
            let q = &mut self.tx_queues[j];
            let _ = q.stop();
            j = j + 1;
        }
        Ok(())
    }

    /// Get a receive queue by id.
    pub fn get_rx_queue(&self, id: u16) -> (r: Option<&RxQueue>)
        ensures
            (id as int) < self.spec_rx_queues().len() ==> (r matches Some(q) && *q
                == self.spec_rx_queues()[id as int]),
            (id as int) >= self.spec_rx_queues().len() ==> r is None,
    {
        if (id as usize) < self.rx_queues.len() {
            Some(&self.rx_queues[id as usize])
        } else {
            None
        }
    }

    /// Get a transmit queue by id.
    pub fn get_tx_queue(&self, id: u16) -> (r: Option<&TxQueue>)
        ensures
            (id as int) < self.spec_tx_queues().len() ==> (r matches Some(q) && *q
                == self.spec_tx_queues()[id as int]),
            (id as int) >= self.spec_tx_queues().len() ==> r is None,
    {
        if (id as usize) < self.tx_queues.len() {
            Some(&self.tx_queues[id as usize])
        } else {
            None
        }
    }

    /// Get the memory pool.
    pub fn get_pool(&self) -> (r: &MbufPool)
        ensures
            *r == self.spec_pool(),
    {
        &self.pool
    }
}

} // verus!

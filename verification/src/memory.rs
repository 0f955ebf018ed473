//! Memory management: fixed-capacity packet buffers (mbufs), pools with a
//! LIFO freelist, and the accounting part of the huge-page allocator.
//!
//! An mbuf is owned by exactly one party at a time; a pool hands out slot
//! indices that act as move-only handles. The pool contracts pin down the
//! freelist discipline: `alloc` pops the most recently freed slot, `free`
//! pushes a slot back after resetting its mbuf, and the accounting
//! invariant `available + in_use == size` holds at every observation.

use crate::{Config, Error};
use vstd::prelude::*;
use vstd::set_lib::{lemma_int_range, lemma_len_subset, set_int_range};

verus! {

/// Cache line size mbuf records are sized against.
pub const CACHE_LINE_SIZE: usize = 64;

/// Offload flag: checksum offload requested/done.
pub const OFFLOAD_FLAG_CHECKSUM: u32 = 0x01;

/// Offload flag: TCP segmentation offload.
pub const OFFLOAD_FLAG_TCP_SEGMENTATION: u32 = 0x02;

/// Offload flag: UDP segmentation offload.
pub const OFFLOAD_FLAG_UDP_SEGMENTATION: u32 = 0x04;

/// Offload flag: an RSS hash was computed for this mbuf.
pub const OFFLOAD_FLAG_RSS_HASH: u32 = 0x08;

/// Offload flag: the timestamp field was filled by hardware.
pub const OFFLOAD_FLAG_TIMESTAMP: u32 = 0x10;

/// Page size information.
#[derive(Debug, Clone)]
pub struct PageInfo {
    /// Regular page size (usually 4KB)
    pub regular_size: usize,
    /// Huge page size (usually 2MB)
    pub huge_size: usize,
}

/// Relies on nix::unistd::sysconf(PAGE_SIZE): the system's page size in
/// bytes, or none when the system leaves it indeterminate.
#[verifier::external_body]
fn query_page_size() -> (r: Option<i64>) {
    match nix::unistd::sysconf(nix::unistd::SysconfVar::PAGE_SIZE) {
        Ok(v) => v.map(|x| x as i64),
        Err(_) => None,
    }
}

impl PageInfo {
    /// Query system page information; a huge page is taken as 512 regular
    /// pages (2 MiB for 4 KiB pages). An absent or absurd answer falls back
    /// to 4 KiB pages.
    pub fn new() -> (r: Result<Self, Error>)
        ensures
            r matches Ok(p) && 1 <= p.regular_size <= 0x10_0000 && p.huge_size == p.regular_size
                * 512,
    {
        let queried = query_page_size();
        let regular_size: usize = match queried {
            Some(v) => if 1 <= v && v <= 0x10_0000 {
                v as usize
            } else {
                4096
            },
            None => 4096,
        };
        Ok(PageInfo { regular_size, huge_size: regular_size * 512 })
    }
}

/// Accounting side of the huge-page allocator: page-size rounding and
/// block/byte counters. The actual mappings live outside the library.
pub struct HugePageAllocator {
    page_size: usize,
    allocated_blocks: usize,
    total_allocated: usize,
}

/// Allocation statistics.
#[derive(Debug)]
pub struct AllocationStats {
    pub allocated_blocks: usize,
    pub total_allocated: usize,
    pub page_size: usize,
}

impl HugePageAllocator {
    pub closed spec fn wf(self) -> bool {
        512 <= self.page_size <= 0x2000_0000
    }

    pub closed spec fn spec_page_size(self) -> nat {
        self.page_size as nat
    }

    pub closed spec fn spec_allocated_blocks(self) -> nat {
        self.allocated_blocks as nat
    }

    pub closed spec fn spec_total_allocated(self) -> nat {
        self.total_allocated as nat
    }

    /// Create an allocator working in units of the system's huge-page
    /// size: 512 regular pages, as `PageInfo` reports them.
    pub fn new() -> (r: Result<Self, Error>)
        ensures
            r matches Ok(a) && a.wf() && a.spec_allocated_blocks() == 0
                && a.spec_total_allocated() == 0 && (exists|regular: int|
                1 <= regular <= 0x10_0000 && a.spec_page_size() == #[trigger] (regular * 512)),
            r matches Ok(a) ==> a.spec_page_size() as int % 512 == 0,
    {
        let page = match PageInfo::new() {
            Ok(p) => p,
            Err(e) => {
                return Err(e);
            },
        };
        let r = HugePageAllocator {
            page_size: page.huge_size,
            allocated_blocks: 0,
            total_allocated: 0,
        };
        proof {
            assert(1 <= page.regular_size as int <= 0x10_0000 && r.spec_page_size()
                == page.regular_size as int * 512);
            assert((page.regular_size as int * 512) % 512 == 0) by (nonlinear_arith);
        }
        Ok(r)
    }

    /// The size a request is rounded up to: the least multiple of the page
    /// size that holds `size` bytes.
    pub fn aligned_size(&self, size: usize) -> (r: usize)
        requires
            self.wf(),
            size + self.spec_page_size() <= usize::MAX,
        ensures
            r as int % (self.spec_page_size() as int) == 0,
            size <= r,
            size > 0 ==> r < size + self.spec_page_size(),
            size == 0 ==> r == 0,
    {
        let ps = self.page_size;
        let rem = size % ps;
        if rem == 0 {
            proof {
                assert(size as int % (ps as int) == 0);
            }
            size
        } else {
            let r = size + (ps - rem);
            proof {
                assert(0int % (ps as int) == 0) by (nonlinear_arith)
                    requires
                        ps >= 1,
                ;
                assert(size != 0);
                assert(r as int % (ps as int) == 0) by (nonlinear_arith)
                    requires
                        r == size + (ps - size % ps),
                        ps >= 1,
                        size >= 0,
                ;
            }
            r
        }
    }

    /// Account one mapped block of `aligned` bytes: the block count rises
    /// by one and the byte total by `aligned`, each saturating at the
    /// machine's limit.
    pub fn record_allocate(&mut self, aligned: usize)
        requires
            old(self).wf(),
        ensures
            final(self).wf(),
            final(self).spec_page_size() == old(self).spec_page_size(),
            final(self).spec_allocated_blocks() as int == vstd::math::min(
                old(self).spec_allocated_blocks() as int + 1,
                usize::MAX as int,
            ),
            final(self).spec_total_allocated() as int == vstd::math::min(
                old(self).spec_total_allocated() as int + aligned,
                usize::MAX as int,
            ),
    {
        self.allocated_blocks = self.allocated_blocks.saturating_add(1);
        self.total_allocated = self.total_allocated.saturating_add(aligned);
    }

    /// Account one unmapped block of `aligned` bytes: the block count and
    /// the byte total fall, each stopping at zero.
    pub fn record_deallocate(&mut self, aligned: usize)
        requires
            old(self).wf(),
        ensures
            final(self).wf(),
            final(self).spec_page_size() == old(self).spec_page_size(),
            final(self).spec_allocated_blocks() as int == vstd::math::max(
                old(self).spec_allocated_blocks() as int - 1,
                0,
            ),
            final(self).spec_total_allocated() as int == vstd::math::max(
                old(self).spec_total_allocated() as int - aligned,
                0,
            ),
    {
        self.allocated_blocks = self.allocated_blocks.saturating_sub(1);
        self.total_allocated = self.total_allocated.saturating_sub(aligned);
    }

    /// Get allocation statistics.
    pub fn stats(&self) -> (r: AllocationStats)
        ensures
            r.allocated_blocks == self.spec_allocated_blocks(),
            r.total_allocated == self.spec_total_allocated(),
            r.page_size == self.spec_page_size(),
    {
        AllocationStats {
            allocated_blocks: self.allocated_blocks,
            total_allocated: self.total_allocated,
            page_size: self.page_size,
        }
    }
}

/// Packet type tag carried by each mbuf.
#[derive(Debug, Clone, Copy, PartialEq, Eq, Structural)]
pub enum PacketType {
    Unknown,
    Ethernet,
    Ipv4,
    Ipv6,
    Udp,
    Tcp,
    Icmp,
}

impl Default for PacketType {
    fn default() -> (r: Self)
        ensures
            r == PacketType::Unknown,
    {
        PacketType::Unknown
    }
}

/// A fixed-capacity packet buffer. `data` always holds `buf_len` bytes; the
/// first `len` of them are the packet.
#[derive(Debug)]
pub struct Mbuf {
    /// Buffer bytes; the valid packet is the prefix of length `len`
    pub data: Vec<u8>,
    /// Data length
    pub len: usize,
    /// Total buffer size
    pub buf_len: usize,
    /// Packet type
    pub packet_type: PacketType,
    /// Offload flags
    pub offload_flags: u32,
    /// Timestamp in nanoseconds
    pub timestamp: u64,
    /// Queue ID
    pub queue_id: u16,
}

impl Mbuf {
    pub open spec fn wf(self) -> bool {
        &&& self.len <= self.buf_len
        &&& self.data@.len() == self.buf_len
    }

    /// The mbuf after a reset: counters and tags cleared, buffer kept.
    pub open spec fn reset_spec(self) -> Mbuf {
        Mbuf {
            len: 0,
            packet_type: PacketType::Unknown,
            offload_flags: 0,
            timestamp: 0,
            queue_id: 0,
            ..self
        }
    }

    /// Create an empty mbuf backed by `buf_len` zeroed bytes.
    pub fn new(buf_len: usize) -> (r: Self)
        ensures
            r.wf(),
            r.len == 0,
            r.buf_len == buf_len,
            r.packet_type == PacketType::Unknown,
            r.offload_flags == 0,
            r.timestamp == 0,
            r.queue_id == 0,
    {
        let data = vec![0u8; buf_len];
        Mbuf {
            data,
            len: 0,
            buf_len,
            packet_type: PacketType::Unknown,
            offload_flags: 0,
            timestamp: 0,
            queue_id: 0,
        }
    }

    /// The packet bytes: the valid prefix of the buffer.
    pub fn data(&self) -> (r: &[u8])
        requires
            self.wf(),
        ensures
            r@ == self.data@.subrange(0, self.len as int),
    {
        vstd::slice::slice_subrange(self.data.as_slice(), 0, self.len)
    }

    /// Append bytes at the end of the packet; `MemoryAllocation` overflow
    /// error, with nothing written, when they do not fit.
    pub fn append(&mut self, bytes: &[u8]) -> (r: Result<(), Error>)
        requires
            old(self).wf(),
        ensures
            final(self).wf(),
            final(self).buf_len == old(self).buf_len,
            final(self).packet_type == old(self).packet_type,
            final(self).offload_flags == old(self).offload_flags,
            final(self).timestamp == old(self).timestamp,
            final(self).queue_id == old(self).queue_id,
            old(self).len + bytes@.len() > old(self).buf_len ==> (r matches Err(
                Error::MemoryAllocation(_),
            ) && final(self).len == old(self).len && final(self).data@ == old(self).data@),
            old(self).len + bytes@.len() <= old(self).buf_len ==> (r matches Ok(()) && final(self).len == old(self).len + bytes@.len() && final(self).data@ == old(self).data@.subrange(0, old(self).len as int) + bytes@ + old(self).data@.subrange(
                old(self).len + bytes@.len(),
                old(self).buf_len as int,
            )),
    {
        if bytes.len() > self.buf_len - self.len {
            return Err(Error::MemoryAllocation("Mbuf overflow".to_owned()));
        }
        let n = bytes.len();
        let start = self.len;
        let mut j: usize = 0;
        while j < n
            invariant
                j <= n,
                n == bytes@.len(),
                old(self).wf(),
                start == old(self).len,
                start + n <= old(self).buf_len,
                self.buf_len == old(self).buf_len,
                self.len == old(self).len,
                self.packet_type == old(self).packet_type,
                self.offload_flags == old(self).offload_flags,
                self.timestamp == old(self).timestamp,
                self.queue_id == old(self).queue_id,
                self.data@.len() == old(self).data@.len(),
                forall|i: int|
                    0 <= i < self.data@.len() && !(start <= i < start + j) ==> self.data@[i] == old(self).data@[i],
                forall|i: int| 0 <= i < j ==> self.data@[start + i] == bytes@[i],
            decreases n - j,
        {
            self.data.set(start + j, bytes[j]);
            j = j + 1;
        }
        self.len = start + n;
        proof {
            assert(self.data@ =~= old(self).data@.subrange(0, start as int) + bytes@ + old(self).data@.subrange(start + n, old(self).buf_len as int));
        }
        Ok(())
    }

    /// Clear length, tags, flags, timestamp and queue id; keep the buffer.
    pub fn reset(&mut self)
        requires
            old(self).wf(),
        ensures
            final(self).wf(),
            *final(self) == old(self).reset_spec(),
    {
        self.len = 0;
        self.packet_type = PacketType::Unknown;
        self.offload_flags = 0;
        self.timestamp = 0;
        self.queue_id = 0;
    }
}

/// Memory pool: `size` mbufs of `buf_size` bytes each, with a LIFO freelist
/// of slot indices.
pub struct MbufPool {
    name: String,
    size: usize,
    buf_size: usize,
    bufs: Vec<Mbuf>,
    free: Vec<usize>,
    available: usize,
    peak_usage: usize,
}

/// Pool statistics.
#[derive(Debug)]
pub struct PoolStats {
    pub name: String,
    pub size: usize,
    pub buf_size: usize,
    pub allocated: usize,
    pub available: usize,
    pub in_use: usize,
    pub peak_usage: usize,
}

/// What one successful `alloc` does: it pops the most recently freed slot
/// off the freelist, decrements `available`, and raises the peak-usage
/// watermark; the mbufs themselves are untouched.
pub open spec fn alloc_step(pre: MbufPool, post: MbufPool, idx: usize) -> bool {
    &&& pre.spec_available() > 0
    &&& idx == pre.spec_free().last()
    &&& post.spec_free() == pre.spec_free().drop_last()
    &&& post.spec_available() == pre.spec_available() - 1
    &&& post.spec_peak() == vstd::math::max(
        pre.spec_peak() as int,
        pre.spec_size() - post.spec_available(),
    )
    &&& post.spec_bufs() == pre.spec_bufs()
    &&& post.spec_size() == pre.spec_size()
    &&& post.spec_buf_size() == pre.spec_buf_size()
    &&& post.spec_name() == pre.spec_name()
}

/// What one `free` does: it resets the mbuf in the freed slot, pushes the
/// slot onto the freelist, and increments `available`.
pub open spec fn free_step(pre: MbufPool, post: MbufPool, idx: usize) -> bool {
    &&& post.spec_free() == pre.spec_free().push(idx)
    &&& post.spec_available() == pre.spec_available() + 1
    &&& post.spec_peak() == pre.spec_peak()
    &&& post.spec_bufs() == pre.spec_bufs().update(
        idx as int,
        pre.spec_bufs()[idx as int].reset_spec(),
    )
    &&& post.spec_size() == pre.spec_size()
    &&& post.spec_buf_size() == pre.spec_buf_size()
    &&& post.spec_name() == pre.spec_name()
}

/// Both sides of a pool state left untouched by a failing operation.
pub open spec fn pool_unchanged(pre: MbufPool, post: MbufPool) -> bool {
    &&& post.spec_free() == pre.spec_free()
    &&& post.spec_available() == pre.spec_available()
    &&& post.spec_peak() == pre.spec_peak()
    &&& post.spec_bufs() == pre.spec_bufs()
    &&& post.spec_size() == pre.spec_size()
    &&& post.spec_buf_size() == pre.spec_buf_size()
    &&& post.spec_name() == pre.spec_name()
}

/// A list of distinct indices below `size` that misses at least one such
/// index cannot fill all of `0..size`.
proof fn lemma_freelist_missing_index(free: Seq<usize>, size: int, idx: usize)
    requires
        forall|i: int| 0 <= i < free.len() ==> (#[trigger] free[i]) < size,
        forall|i: int, j: int| 0 <= i < j < free.len() ==> free[i] != free[j],
        0 <= idx < size,
        !free.contains(idx),
    ensures
        free.len() < size,
{
    let ints = free.map_values(|x: usize| x as int);
    assert(ints.no_duplicates());
    ints.unique_seq_to_set();
    let range = set_int_range(0, size).remove(idx as int);
    lemma_int_range(0, size);
    assert forall|x: int| ints.to_set().contains(x) implies range.contains(x) by {
        let k = choose|k: int| 0 <= k < ints.len() && ints[k] == x;
        assert(free[k] < size);
        assert(free[k] != idx);
    }
    lemma_len_subset(ints.to_set(), range);
}

impl MbufPool {
    pub closed spec fn spec_name(self) -> Seq<char> {
        self.name@
    }

    pub closed spec fn spec_size(self) -> int {
        self.size as int
    }

    pub closed spec fn spec_buf_size(self) -> int {
        self.buf_size as int
    }

    pub closed spec fn spec_bufs(self) -> Seq<Mbuf> {
        self.bufs@
    }

    pub closed spec fn spec_free(self) -> Seq<usize> {
        self.free@
    }

    pub closed spec fn spec_available(self) -> int {
        self.available as int
    }

    pub open spec fn spec_in_use(self) -> int {
        self.spec_size() - self.spec_available()
    }

    pub closed spec fn spec_peak(self) -> int {
        self.peak_usage as int
    }

    pub closed spec fn wf(self) -> bool {
        &&& self.bufs@.len() == self.size
        &&& forall|i: int|
            0 <= i < self.size ==> (#[trigger] self.bufs@[i]).wf() && self.bufs@[i].buf_len
                == self.buf_size
        &&& self.free@.len() == self.available
        &&& self.available <= self.size
        &&& forall|i: int| 0 <= i < self.free@.len() ==> (#[trigger] self.free@[i]) < self.size
        &&& forall|i: int, j: int| 0 <= i < j < self.free@.len() ==> self.free@[i] != self.free@[j]
        &&& self.size - self.available <= self.peak_usage <= self.size
    }

    /// Create a pool of `size` mbufs of `buf_size` bytes each; every slot
    /// starts on the freelist and the peak-usage watermark starts at zero.
    pub fn new(name: String, size: usize, buf_size: usize) -> (r: Result<Self, Error>)
        ensures
            r matches Ok(p) && p.wf() && p.spec_size() == size && p.spec_buf_size() == buf_size
                && p.spec_available() == size && p.spec_peak() == 0 && p.spec_name() == name@,
    {
        let mut bufs: Vec<Mbuf> = Vec::new();
        let mut free: Vec<usize> = Vec::new();
        let mut i: usize = 0;
        while i < size
            invariant
                i <= size,
                bufs@.len() == i,
                free@.len() == i,
                forall|k: int|
                    0 <= k < i ==> (#[trigger] bufs@[k]).wf() && bufs@[k].buf_len == buf_size,
                forall|k: int| 0 <= k < i ==> (#[trigger] free@[k]) == k,
            decreases size - i,
        {
            bufs.push(Mbuf::new(buf_size));
            free.push(i);
            i = i + 1;
        }
        Ok(MbufPool { name, size, buf_size, bufs, free, available: size, peak_usage: 0 })
    }

    /// Pop a free slot off the freelist; `MemoryAllocation` exhaustion
    /// error exactly when no slot is free.
    pub fn alloc_mbuf(&mut self) -> (r: Result<usize, Error>)
        requires
            old(self).wf(),
        ensures
            final(self).wf(),
            old(self).spec_available() == 0 ==> (r matches Err(Error::MemoryAllocation(_))
                && pool_unchanged(*old(self), *final(self))),
            old(self).spec_available() > 0 ==> (r matches Ok(idx) && alloc_step(
                *old(self),
                *final(self),
                idx,
            ) && idx < old(self).spec_size() && !final(self).spec_free().contains(idx)),
    {
        match self.free.pop() {
            Some(idx) => {
                self.available = self.available - 1;
                let in_use = self.size - self.available;
                if in_use > self.peak_usage {
                    self.peak_usage = in_use;
                }
                proof {
                    let pre = *old(self);
                    assert(pre.free@.last() == idx);
                    assert(self.free@ =~= pre.free@.drop_last());
                    assert forall|k: int| 0 <= k < self.free@.len() implies self.free@[k]
                        != idx by {
                        assert(pre.free@[k] != pre.free@[pre.free@.len() - 1]);
                    }
                }
                Ok(idx)
            },
            None => Err(Error::MemoryAllocation("Pool exhausted".to_owned())),
        }
    }

    /// Reset the mbuf in slot `idx` and push the slot back onto the
    /// freelist. Freeing a slot that is already free is a contract
    /// violation on the caller, ruled out by the precondition.
    pub fn free(&mut self, idx: usize) -> (r: Result<(), Error>)
        requires
            old(self).wf(),
            idx < old(self).spec_size(),
            !old(self).spec_free().contains(idx),
        ensures
            final(self).wf(),
            r matches Ok(()),
            free_step(*old(self), *final(self), idx),
    {
        proof {
            lemma_freelist_missing_index(self.free@, self.size as int, idx);
        }
        let m = &mut self.bufs[idx];
        m.reset();
        self.free.push(idx);
        self.available = self.available + 1;
        proof {
            assert(self.bufs@ =~= old(self).bufs@.update(
                idx as int,
                old(self).bufs@[idx as int].reset_spec(),
            ));
        }
        Ok(())
    }

    /// Read access to the mbuf in slot `i`.
    pub fn buf(&self, i: usize) -> (r: &Mbuf)
        requires
            self.wf(),
            i < self.spec_size(),
        ensures
            *r == self.spec_bufs()[i as int],
            r.wf(),
            r.buf_len == self.spec_buf_size(),
    {
        &self.bufs[i]
    }

    /// Write access to the mbuf in slot `i`. The final pool is well-formed
    /// again as soon as the caller leaves a well-formed mbuf of the pool's
    /// buffer size behind.
    pub fn buf_mut(&mut self, i: usize) -> (r: &mut Mbuf)
        requires
            old(self).wf(),
            i < old(self).spec_size(),
        ensures
            *r == old(self).spec_bufs()[i as int],
            final(self).spec_bufs() == old(self).spec_bufs().update(i as int, *final(r)),
            final(self).spec_free() == old(self).spec_free(),
            final(self).spec_available() == old(self).spec_available(),
            final(self).spec_peak() == old(self).spec_peak(),
            final(self).spec_size() == old(self).spec_size(),
            final(self).spec_buf_size() == old(self).spec_buf_size(),
            final(self).spec_name() == old(self).spec_name(),
            (final(r).wf() && final(r).buf_len == old(self).spec_buf_size()) ==> final(self).wf(),
    {
        &mut self.bufs[i]
    }

    /// Get pool statistics.
    pub fn stats(&self) -> (r: PoolStats)
        requires
            self.wf(),
        ensures
            r.name@ == self.spec_name(),
            r.size == self.spec_size(),
            r.buf_size == self.spec_buf_size(),
            r.allocated == self.spec_size(),
            r.available == self.spec_available(),
            r.in_use == self.spec_in_use(),
            r.peak_usage == self.spec_peak(),
    {
        PoolStats {
            name: self.name.clone(),
            size: self.size,
            buf_size: self.buf_size,
            allocated: self.size,
            available: self.available,
            in_use: self.size - self.available,
            peak_usage: self.peak_usage,
        }
    }
}

/// Exported facts of pool well-formedness: sizes line up and every mbuf
/// in a well-formed pool is itself well-formed.
pub proof fn lemma_pool_bufs_wf(p: MbufPool)
    requires
        p.wf(),
    ensures
        p.spec_bufs().len() == p.spec_size(),
        p.spec_free().len() == p.spec_available(),
        0 <= p.spec_available() <= p.spec_size(),
        p.spec_size() - p.spec_available() <= p.spec_peak() <= p.spec_size(),
        0 <= p.spec_buf_size(),
        forall|i: int|
            0 <= i < p.spec_size() ==> (#[trigger] p.spec_bufs()[i]).wf() && p.spec_bufs()[i].buf_len
                == p.spec_buf_size(),
{
}

/// What `free` does to freelist membership: the freed slot joins, every
/// other slot's membership is unchanged.
pub proof fn lemma_free_step_contains(pre: MbufPool, post: MbufPool, idx: usize)
    requires
        free_step(pre, post, idx),
    ensures
        post.spec_free().contains(idx),
        forall|e: usize| pre.spec_free().contains(e) ==> post.spec_free().contains(e),
        forall|e: usize|
            e != idx && !pre.spec_free().contains(e) ==> !post.spec_free().contains(e),
{
    assert(post.spec_free()[post.spec_free().len() - 1] == idx);
    assert forall|e: usize| pre.spec_free().contains(e) implies post.spec_free().contains(e) by {
        let j = choose|j: int| 0 <= j < pre.spec_free().len() && pre.spec_free()[j] == e;
        assert(post.spec_free()[j] == e);
    }
    assert forall|e: usize|
        e != idx && !pre.spec_free().contains(e) implies !post.spec_free().contains(e) by {
        if post.spec_free().contains(e) {
            let j = choose|j: int| 0 <= j < post.spec_free().len() && post.spec_free()[j] == e;
            if j < pre.spec_free().len() {
                assert(pre.spec_free()[j] == e);
            }
        }
    }
}

/// Law: at every observation of a well-formed pool, `available + in_use`
/// equals the pool size, and the peak-usage watermark is at least the
/// current usage — so it bounds every usage in the pool's history.
pub proof fn lemma_pool_accounting(p: MbufPool)
    requires
        p.wf(),
    ensures
        p.spec_available() + p.spec_in_use() == p.spec_size(),
        p.spec_peak() >= p.spec_in_use(),
{
}

/// Law: an `alloc` followed by a `free` of the slot it returned restores
/// the pool's `available` counter exactly; inductively, `N` alloc/free
/// pairs leave the counter where it started.
pub proof fn lemma_alloc_free_restores_available(
    p0: MbufPool,
    p1: MbufPool,
    p2: MbufPool,
    idx: usize,
)
    requires
        alloc_step(p0, p1, idx),
        free_step(p1, p2, idx),
    ensures
        p2.spec_available() == p0.spec_available(),
{
}

/// A move-only handle to an allocated mbuf: the owning pool and the slot
/// inside it.
#[derive(Debug, Clone, Copy, PartialEq, Eq, Structural)]
pub struct MbufHandle {
    /// Index of the owning pool
    pub pool: usize,
    /// Slot index inside the pool
    pub index: usize,
}

/// Memory manager for the entire system: a row of pools, first-fit
/// allocation, and frees routed to the owning pool by the handle's tag.
pub struct MemoryManager {
    config: Config,
    pools: Vec<MbufPool>,
    allocator: HugePageAllocator,
}

/// Memory statistics.
#[derive(Debug)]
pub struct MemoryStats {
    pub allocation: AllocationStats,
    pub pools: Vec<PoolStats>,
}

impl MemoryManager {
    pub closed spec fn spec_pools(self) -> Seq<MbufPool> {
        self.pools@
    }

    pub closed spec fn wf(self) -> bool {
        &&& self.allocator.wf()
        &&& forall|i: int| 0 <= i < self.pools@.len() ==> (#[trigger] self.pools@[i]).wf()
    }

    /// Create `config.pool_count` pools of `config.pool_size` mbufs, each
    /// mbuf holding 2048 bytes.
    pub fn new(config: &Config) -> (r: Result<Self, Error>)
        ensures
            r matches Ok(m) && m.wf() && m.spec_pools().len() == config.pool_count && (forall|
                i: int,
            |
                0 <= i < config.pool_count ==> (#[trigger] m.spec_pools()[i]).spec_size()
                    == config.pool_size && m.spec_pools()[i].spec_buf_size() == 2048
                    && m.spec_pools()[i].spec_available() == config.pool_size),
    {
        let allocator = match HugePageAllocator::new() {
            Ok(a) => a,
            Err(e) => {
                return Err(e);
            },
        };
        let mut pools: Vec<MbufPool> = Vec::new();
        let mut i: usize = 0;
        while i < config.pool_count
            invariant
                i <= config.pool_count,
                pools@.len() == i,
                forall|k: int|
                    0 <= k < i ==> (#[trigger] pools@[k]).wf() && pools@[k].spec_size()
                        == config.pool_size && pools@[k].spec_buf_size() == 2048
                        && pools@[k].spec_available() == config.pool_size,
            decreases config.pool_count - i,
        {
            let pool = match MbufPool::new("pool".to_owned(), config.pool_size, 2048) {
                Ok(p) => p,
                Err(e) => {
                    return Err(e);
                },
            };
            pools.push(pool);
            i = i + 1;
        }
        Ok(MemoryManager { config: config.clone(), pools, allocator })
    }

    /// Get a memory pool by index.
    pub fn get_pool(&self, index: usize) -> (r: Option<&MbufPool>)
        ensures
            index < self.spec_pools().len() ==> (r matches Some(p) && *p == self.spec_pools()[index as int]),
            index >= self.spec_pools().len() ==> r is None,
    {
        if index < self.pools.len() {
            Some(&self.pools[index])
        } else {
            None
        }
    }

    /// Allocate an mbuf from the first pool that still has one; the
    /// exhaustion error comes exactly when every pool is empty.
    pub fn alloc_mbuf(&mut self) -> (r: Result<MbufHandle, Error>)
        requires
            old(self).wf(),
        ensures
            final(self).wf(),
            final(self).spec_pools().len() == old(self).spec_pools().len(),
            (forall|i: int|
                0 <= i < old(self).spec_pools().len() ==> (#[trigger] old(self).spec_pools()[i]).spec_available() == 0) ==> (r matches Err(Error::MemoryAllocation(_)) && (forall|
                i: int,
            |
                0 <= i < old(self).spec_pools().len() ==> pool_unchanged(
                    #[trigger] old(self).spec_pools()[i],
                    final(self).spec_pools()[i],
                ))),
            (exists|i: int|
                0 <= i < old(self).spec_pools().len() && (#[trigger] old(self).spec_pools()[i]).spec_available() > 0) ==> (r matches Ok(h) && h.pool
                < old(self).spec_pools().len() && old(self).spec_pools()[h.pool as int].spec_available() > 0 && (forall|j: int|
                0 <= j < h.pool ==> (#[trigger] old(self).spec_pools()[j]).spec_available() == 0)
                && alloc_step(
                old(self).spec_pools()[h.pool as int],
                final(self).spec_pools()[h.pool as int],
                h.index,
            ) && h.index < old(self).spec_pools()[h.pool as int].spec_size() && !final(self).spec_pools()[h.pool as int].spec_free().contains(h.index) && (forall|j: int|
                0 <= j < old(self).spec_pools().len() && j != h.pool ==> pool_unchanged(
                    #[trigger] old(self).spec_pools()[j],
                    final(self).spec_pools()[j],
                ))),
    {
        let n = self.pools.len();
        let mut i: usize = 0;
        while i < n
            invariant
                i <= n,
                n == old(self).spec_pools().len(),
                self.pools@.len() == n,
                old(self).wf(),
                self.wf(),
                forall|j: int|
                    0 <= j < i ==> (#[trigger] old(self).spec_pools()[j]).spec_available() == 0
                        && pool_unchanged(old(self).spec_pools()[j], self.spec_pools()[j]),
                forall|j: int|
                    i <= j < n ==> #[trigger] self.spec_pools()[j] == old(self).spec_pools()[j],
            decreases n - i,
        {
            let ghost pools_at_top = self.spec_pools();
            let pool = &mut self.pools[i];
            let res = pool.alloc_mbuf();
            match res {
                Ok(idx) => {
                    proof {
                        assert(pools_at_top[i as int] == old(self).spec_pools()[i as int]);
                        assert(alloc_step(
                            old(self).spec_pools()[i as int],
                            self.spec_pools()[i as int],
                            idx,
                        ));
                        assert forall|j: int|
                            0 <= j < old(self).spec_pools().len() && j != i implies pool_unchanged(
                            #[trigger] old(self).spec_pools()[j],
                            self.spec_pools()[j],
                        ) by {
                            assert(self.spec_pools()[j] == pools_at_top[j]);
                        }
                    }
                    return Ok(MbufHandle { pool: i, index: idx });
                },
                Err(_) => {},
            }
            i = i + 1;
        }
        Err(Error::MemoryAllocation("No available mbufs in any pool".to_owned()))
    }

    /// Free an mbuf back to the pool its handle names. Freeing a handle
    /// that is not currently allocated is a contract violation on the
    /// caller, ruled out by the precondition.
    pub fn free_mbuf(&mut self, handle: MbufHandle) -> (r: Result<(), Error>)
        requires
            old(self).wf(),
            handle.pool < old(self).spec_pools().len(),
            handle.index < old(self).spec_pools()[handle.pool as int].spec_size(),
            !old(self).spec_pools()[handle.pool as int].spec_free().contains(handle.index),
        ensures
            final(self).wf(),
            r matches Ok(()),
            final(self).spec_pools().len() == old(self).spec_pools().len(),
            free_step(
                old(self).spec_pools()[handle.pool as int],
                final(self).spec_pools()[handle.pool as int],
                handle.index,
            ),
            forall|j: int|
                0 <= j < old(self).spec_pools().len() && j != handle.pool
                    ==> #[trigger] final(self).spec_pools()[j] == old(self).spec_pools()[j],
    {
        let pool = &mut self.pools[handle.pool];
        pool.free(handle.index)
    }

    /// Get memory statistics over all pools.
    pub fn stats(&self) -> (r: MemoryStats)
        requires
            self.wf(),
        ensures
            r.pools@.len() == self.spec_pools().len(),
            forall|i: int|
                0 <= i < self.spec_pools().len() ==> (#[trigger] r.pools@[i]).available == self.spec_pools()[i].spec_available() && r.pools@[i].in_use == self.spec_pools()[i].spec_in_use()
                    && r.pools@[i].size == self.spec_pools()[i].spec_size() && r.pools@[i].peak_usage
                    == self.spec_pools()[i].spec_peak(),
    {
        let alloc_stats = self.allocator.stats();
        let mut pool_stats: Vec<PoolStats> = Vec::new();
        let mut i: usize = 0;
        while i < self.pools.len()
            invariant
                i <= self.pools@.len(),
                self.wf(),
                pool_stats@.len() == i,
                forall|k: int|
                    0 <= k < i ==> (#[trigger] pool_stats@[k]).available == self.spec_pools()[k].spec_available() && pool_stats@[k].in_use == self.spec_pools()[k].spec_in_use() && pool_stats@[k].size == self.spec_pools()[k].spec_size()
                        && pool_stats@[k].peak_usage == self.spec_pools()[k].spec_peak(),
            decreases self.pools@.len() - i,
        {
            pool_stats.push(self.pools[i].stats());
            i = i + 1;
        }
        MemoryStats { allocation: alloc_stats, pools: pool_stats }
    }
}

} // verus!

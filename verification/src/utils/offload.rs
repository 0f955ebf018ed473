//! Offload calculators: Internet ones'-complement checksums and RSS
//! (receive-side scaling) hashes, with exact value-level contracts, plus
//! the manager that applies them to mbufs.
//!
//! Hardware acceleration is not probed here; every calculator runs its
//! software path, and the counters say so.

use crate::memory::{Mbuf, OFFLOAD_FLAG_RSS_HASH};
use crate::{wrap_add64, Error};
use vstd::prelude::*;

verus! {

/// Hardware offload capabilities.
#[derive(Debug, Clone, Copy, PartialEq, Eq, Structural)]
pub struct OffloadCapabilities {
    /// Checksum offload support
    pub checksum: bool,
    /// TCP segmentation offload support
    pub tso: bool,
    /// UDP fragmentation offload support
    pub ufo: bool,
    /// RSS (Receive Side Scaling) support
    pub rss: bool,
    /// Hardware timestamp support
    pub timestamp: bool,
    /// Scatter-gather DMA support
    pub scatter_gather: bool,
}

impl Default for OffloadCapabilities {
    fn default() -> (r: Self)
        ensures
            r.checksum,
            !r.tso,
            !r.ufo,
            r.rss,
            !r.timestamp,
            r.scatter_gather,
    {
        OffloadCapabilities {
            checksum: true,
            tso: false,
            ufo: false,
            rss: true,
            timestamp: false,
            scatter_gather: true,
        }
    }
}

/// The sum of the big-endian 16-bit words of `data`; an odd trailing byte
/// counts as the high byte of a final word.
pub open spec fn spec_word_sum(data: Seq<u8>) -> int
    decreases data.len(),
{
    if data.len() >= 2 {
        (data[0] * 256 + data[1]) + spec_word_sum(data.subrange(2, data.len() as int))
    } else if data.len() == 1 {
        data[0] * 256
    } else {
        0
    }
}

/// Word sums are bounded by 2^16 per byte pair.
proof fn lemma_word_sum_bounds(data: Seq<u8>)
    ensures
        0 <= spec_word_sum(data) <= 65536 * data.len(),
    decreases data.len(),
{
    if data.len() >= 2 {
        lemma_word_sum_bounds(data.subrange(2, data.len() as int));
    }
}

/// Folding the carries back in until the sum fits 16 bits.
pub open spec fn spec_fold_carries(sum: int) -> int
    decreases sum,
{
    if sum < 0x10000 {
        sum
    } else {
        spec_fold_carries((sum % 0x10000) + (sum / 0x10000))
    }
}

/// The ones'-complement Internet checksum of `data` with an extra
/// pseudo-header contribution `pseudo` added to the word sum.
pub open spec fn spec_checksum(data: Seq<u8>, pseudo: int) -> int {
    0xFFFF - spec_fold_carries(spec_word_sum(data) + pseudo)
}

/// The IPv4 pseudo-header contribution for a UDP or TCP checksum.
pub open spec fn spec_pseudo_header(src_ip: Seq<u8>, dst_ip: Seq<u8>, protocol: int, len: int)
    -> int {
    (src_ip[0] * 256 + src_ip[1]) + (src_ip[2] * 256 + src_ip[3]) + (dst_ip[0] * 256 + dst_ip[1])
        + (dst_ip[2] * 256 + dst_ip[3]) + protocol + len
}

/// Checksum offload calculator.
pub struct ChecksumCalculator {
    hardware_enabled: bool,
    stats: ChecksumStats,
}

/// Checksum statistics: free-running counters, wrapping at 2^64.
#[derive(Debug, Clone, Copy, PartialEq, Eq, Structural)]
pub struct ChecksumStats {
    pub calculated: u64,
    pub hardware_offloaded: u64,
    pub software_fallback: u64,
    pub errors: u64,
}

impl Default for ChecksumStats {
    fn default() -> (r: Self)
        ensures
            r == ChecksumStats::zero(),
    {
        ChecksumStats { calculated: 0, hardware_offloaded: 0, software_fallback: 0, errors: 0 }
    }
}

impl ChecksumStats {
    /// All counters at zero.
    pub open spec fn zero() -> ChecksumStats {
        ChecksumStats { calculated: 0, hardware_offloaded: 0, software_fallback: 0, errors: 0 }
    }
}

/// Checksum statistics view.
#[derive(Debug, Clone, Copy, PartialEq, Eq, Structural)]
pub struct ChecksumStatsView {
    pub calculated: u64,
    pub hardware_offloaded: u64,
    pub software_fallback: u64,
    pub errors: u64,
}

/// Sum the 16-bit words of `data` on top of `pseudo`, fold the carries,
/// and complement: the Internet checksum core.
fn ones_complement_checksum(data: &[u8], pseudo: u32) -> (r: u16)
    requires
        data@.len() <= 65535,
        pseudo <= 0x80_0000,
    ensures
        r == spec_checksum(data@, pseudo as int),
{
    proof {
        lemma_word_sum_bounds(data@);
    }
    let n = data.len();
    proof {
        assert(data@.subrange(0, n as int) =~= data@);
    }
    let mut sum: u32 = pseudo;
    let mut i: usize = 0;
    while i + 1 < n
        invariant
            i <= n,
            i % 2 == 0,
            n == data@.len(),
            n <= 65535,
            sum as int == pseudo + spec_word_sum(data@) - spec_word_sum(
                data@.subrange(i as int, n as int),
            ),
            pseudo <= 0x80_0000,
            sum <= pseudo + 32768 * i,
        decreases n - i,
    {
        let ghost rest = data@.subrange(i as int, n as int);
        proof {
            lemma_word_sum_bounds(rest);
            assert(rest.subrange(2, rest.len() as int) =~= data@.subrange(i + 2, n as int));
            lemma_word_sum_bounds(data@.subrange(i + 2, n as int));
        }
        let word = (data[i] as u32) * 256 + (data[i + 1] as u32);
        sum = sum + word;
        i = i + 2;
    }
    if i < n {
        let ghost rest = data@.subrange(i as int, n as int);
        proof {
            assert(rest.len() == 1);
            assert(rest[0] == data@[i as int]);
        }
        sum = sum + (data[i] as u32) * 256;
        i = i + 1;
        proof {
            assert(data@.subrange(n as int, n as int) =~= Seq::<u8>::empty());
        }
    } else {
        proof {
            assert(data@.subrange(i as int, n as int).len() == 0);
        }
    }
    proof {
        assert(sum as int == pseudo + spec_word_sum(data@));
    }
    while sum >= 0x10000
        invariant
            spec_fold_carries(sum as int) == spec_fold_carries(pseudo + spec_word_sum(data@)),
        decreases sum,
    {
        sum = (sum % 0x10000) + (sum / 0x10000);
    }
    0xFFFFu16 - (sum as u16)
}

impl ChecksumCalculator {
    pub closed spec fn spec_hardware_enabled(self) -> bool {
        self.hardware_enabled
    }

    pub closed spec fn spec_stats(self) -> ChecksumStats {
        self.stats
    }

    /// Create a new checksum calculator.
    pub fn new(hardware_enabled: bool) -> (r: Self)
        ensures
            r.spec_hardware_enabled() == hardware_enabled,
            r.spec_stats() == ChecksumStats::zero(),
    {
        ChecksumCalculator { hardware_enabled, stats: ChecksumStats::default() }
    }

    /// Whether a hardware checksum engine is available. None is probed
    /// here, so the software path always runs.
    fn has_hardware_checksum(&self) -> (r: bool)
        ensures
            !r,
    {
        false
    }

    /// Calculate the IPv4 header checksum; `OffloadError` exactly when the
    /// header is shorter than 20 bytes.
    pub fn ipv4_checksum(&mut self, header: &[u8]) -> (r: Result<u16, Error>)
        requires
            header@.len() <= 65535,
        ensures
            final(self).spec_hardware_enabled() == old(self).spec_hardware_enabled(),
            final(self).spec_stats() == (ChecksumStats {
                calculated: wrap_add64(old(self).spec_stats().calculated, 1),
                software_fallback: wrap_add64(old(self).spec_stats().software_fallback, 1),
                ..old(self).spec_stats()
            }),
            header@.len() >= 20 ==> (r matches Ok(c) && c == spec_checksum(header@, 0)),
            header@.len() < 20 ==> (r matches Err(Error::OffloadError(_))),
    {
        self.stats.calculated = crate::counter_add(self.stats.calculated, 1);
        if self.hardware_enabled && self.has_hardware_checksum() {
            self.stats.hardware_offloaded = crate::counter_add(self.stats.hardware_offloaded, 1);
        } else {
            self.stats.software_fallback = crate::counter_add(self.stats.software_fallback, 1);
        }
        self.calculate_ipv4_checksum_software(header)
    }

    /// Calculate the UDP checksum over the datagram and the IPv4
    /// pseudo-header.
    pub fn udp_checksum(&mut self, udp_data: &[u8], src_ip: [u8; 4], dst_ip: [u8; 4]) -> (r:
        Result<u16, Error>)
        requires
            udp_data@.len() <= 65535,
        ensures
            final(self).spec_hardware_enabled() == old(self).spec_hardware_enabled(),
            final(self).spec_stats() == (ChecksumStats {
                calculated: wrap_add64(old(self).spec_stats().calculated, 1),
                software_fallback: wrap_add64(old(self).spec_stats().software_fallback, 1),
                ..old(self).spec_stats()
            }),
            r matches Ok(c) && c == spec_checksum(
                udp_data@,
                spec_pseudo_header(src_ip@, dst_ip@, 17, udp_data@.len() as int),
            ),
    {
        self.stats.calculated = crate::counter_add(self.stats.calculated, 1);
        if self.hardware_enabled && self.has_hardware_checksum() {
            self.stats.hardware_offloaded = crate::counter_add(self.stats.hardware_offloaded, 1);
        } else {
            self.stats.software_fallback = crate::counter_add(self.stats.software_fallback, 1);
        }
        self.calculate_udp_checksum_software(udp_data, src_ip, dst_ip)
    }

    /// Calculate the TCP checksum over the segment and the IPv4
    /// pseudo-header.
    pub fn tcp_checksum(&mut self, tcp_data: &[u8], src_ip: [u8; 4], dst_ip: [u8; 4]) -> (r:
        Result<u16, Error>)
        requires
            tcp_data@.len() <= 65535,
        ensures
            final(self).spec_hardware_enabled() == old(self).spec_hardware_enabled(),
            final(self).spec_stats() == (ChecksumStats {
                calculated: wrap_add64(old(self).spec_stats().calculated, 1),
                software_fallback: wrap_add64(old(self).spec_stats().software_fallback, 1),
                ..old(self).spec_stats()
            }),
            r matches Ok(c) && c == spec_checksum(
                tcp_data@,
                spec_pseudo_header(src_ip@, dst_ip@, 6, tcp_data@.len() as int),
            ),
    {
        self.stats.calculated = crate::counter_add(self.stats.calculated, 1);
        if self.hardware_enabled && self.has_hardware_checksum() {
            self.stats.hardware_offloaded = crate::counter_add(self.stats.hardware_offloaded, 1);
        } else {
            self.stats.software_fallback = crate::counter_add(self.stats.software_fallback, 1);
        }
        self.calculate_tcp_checksum_software(tcp_data, src_ip, dst_ip)
    }

    /// Software IPv4 checksum calculation.
    fn calculate_ipv4_checksum_software(&self, header: &[u8]) -> (r: Result<u16, Error>)
        requires
            header@.len() <= 65535,
        ensures
            header@.len() >= 20 ==> (r matches Ok(c) && c == spec_checksum(header@, 0)),
            header@.len() < 20 ==> (r matches Err(Error::OffloadError(_))),
    {
        if header.len() < 20 {
            return Err(Error::OffloadError("IPv4 header too short".to_owned()));
        }
        Ok(ones_complement_checksum(header, 0))
    }

    /// Software UDP checksum calculation.
    fn calculate_udp_checksum_software(&self, udp_data: &[u8], src_ip: [u8; 4], dst_ip: [u8; 4])
        -> (r: Result<u16, Error>)
        requires
            udp_data@.len() <= 65535,
        ensures
            r matches Ok(c) && c == spec_checksum(
                udp_data@,
                spec_pseudo_header(src_ip@, dst_ip@, 17, udp_data@.len() as int),
            ),
    {
        let pseudo = pseudo_header_sum(&src_ip, &dst_ip, 17, udp_data.len() as u32);
        Ok(ones_complement_checksum(udp_data, pseudo))
    }

    /// Software TCP checksum calculation.
    fn calculate_tcp_checksum_software(&self, tcp_data: &[u8], src_ip: [u8; 4], dst_ip: [u8; 4])
        -> (r: Result<u16, Error>)
        requires
            tcp_data@.len() <= 65535,
        ensures
            r matches Ok(c) && c == spec_checksum(
                tcp_data@,
                spec_pseudo_header(src_ip@, dst_ip@, 6, tcp_data@.len() as int),
            ),
    {
        let pseudo = pseudo_header_sum(&src_ip, &dst_ip, 6, tcp_data.len() as u32);
        Ok(ones_complement_checksum(tcp_data, pseudo))
    }

    /// Get checksum statistics.
    pub fn stats(&self) -> (r: ChecksumStatsView)
        ensures
            r.calculated == self.spec_stats().calculated,
            r.hardware_offloaded == self.spec_stats().hardware_offloaded,
            r.software_fallback == self.spec_stats().software_fallback,
            r.errors == self.spec_stats().errors,
    {
        ChecksumStatsView {
            calculated: self.stats.calculated,
            hardware_offloaded: self.stats.hardware_offloaded,
            software_fallback: self.stats.software_fallback,
            errors: self.stats.errors,
        }
    }
}

/// The IPv4 pseudo-header word sum for protocol `protocol` and length
/// `len`.
fn pseudo_header_sum(src_ip: &[u8; 4], dst_ip: &[u8; 4], protocol: u32, len: u32) -> (r: u32)
    requires
        protocol <= 255,
        len <= 65535,
    ensures
        r == spec_pseudo_header(src_ip@, dst_ip@, protocol as int, len as int),
        r <= 0x80_0000,
{
    let mut sum: u32 = 0;
    sum = sum + (src_ip[0] as u32) * 256 + (src_ip[1] as u32);
    sum = sum + (src_ip[2] as u32) * 256 + (src_ip[3] as u32);
    sum = sum + (dst_ip[0] as u32) * 256 + (dst_ip[1] as u32);
    sum = sum + (dst_ip[2] as u32) * 256 + (dst_ip[3] as u32);
    sum = sum + protocol;
    sum = sum + len;
    sum
}

/// RSS (Receive Side Scaling) hash calculator.
pub struct RssHashCalculator {
    hash_function: RssHashFunction,
    rss_key: [u8; 40],
    stats: RssStats,
}

/// RSS hash function types.
#[derive(Debug, Clone, Copy, PartialEq, Eq, Structural)]
pub enum RssHashFunction {
    Toeplitz,
    SimpleXor,
    CRC32,
}

/// RSS statistics: free-running counters, wrapping at 2^64.
#[derive(Debug, Clone, Copy, PartialEq, Eq, Structural)]
pub struct RssStats {
    pub calculated: u64,
    pub hardware_offloaded: u64,
    pub software_fallback: u64,
    pub errors: u64,
}

impl Default for RssStats {
    fn default() -> (r: Self)
        ensures
            r == RssStats::zero(),
    {
        RssStats { calculated: 0, hardware_offloaded: 0, software_fallback: 0, errors: 0 }
    }
}

impl RssStats {
    /// All counters at zero.
    pub open spec fn zero() -> RssStats {
        RssStats { calculated: 0, hardware_offloaded: 0, software_fallback: 0, errors: 0 }
    }
}

/// RSS statistics view.
#[derive(Debug, Clone, Copy, PartialEq, Eq, Structural)]
pub struct RssStatsView {
    pub calculated: u64,
    pub hardware_offloaded: u64,
    pub software_fallback: u64,
    pub errors: u64,
}

/// The vendor-recommended default RSS key.
pub open spec fn spec_default_rss_key() -> Seq<u8> {
    seq![
        0x6du8, 0x5au8, 0x56u8, 0xdau8, 0x25u8, 0x5bu8, 0x0eu8, 0xc2u8, 0x41u8, 0x67u8, 0x25u8,
        0x3du8, 0x43u8, 0xa3u8, 0x8fu8, 0xb0u8, 0xd0u8, 0xcau8, 0x2bu8, 0xcbu8, 0xaeu8, 0x7bu8,
        0x30u8, 0xb4u8, 0x77u8, 0xcbu8, 0x2du8, 0xa3u8, 0x80u8, 0x30u8, 0xf2u8, 0x0cu8, 0x6au8,
        0x42u8, 0xb7u8, 0x3bu8, 0xbeu8, 0xacu8, 0x01u8, 0xfau8,
    ]
}

/// The first 8 key bytes packed little-endian into 64 bits.
pub open spec fn spec_key_bits(key: Seq<u8>) -> u64 {
    (key[0] + key[1] * 0x100 + key[2] * 0x1_0000 + key[3] * 0x100_0000 + key[4] * 0x1_0000_0000
        + key[5] * 0x100_0000_0000 + key[6] * 0x1_0000_0000_0000 + key[7]
        * 0x100_0000_0000_0000) as u64
}

/// One byte step of the simplified Toeplitz-style hash.
pub open spec fn spec_toeplitz_step(hash: u32, byte: u8, key_bits: u64) -> u32 {
    vstd::wrapping::u32_specs::wrapping_add(
        vstd::wrapping::u32_specs::wrapping_mul(hash, 31),
        byte as u32,
    ) ^ (((key_bits >> ((byte as u64) % 64)) & 0xFFFF_FFFF) as u32)
}

/// Folding the steps over the first `bound` bytes, from position `i` on.
pub open spec fn spec_toeplitz_fold(
    data: Seq<u8>,
    key_bits: u64,
    hash: u32,
    i: int,
    bound: int,
) -> u32
    decreases bound - i,
{
    if i >= bound || i >= data.len() || i < 0 {
        hash
    } else {
        spec_toeplitz_fold(data, key_bits, spec_toeplitz_step(hash, data[i], key_bits), i + 1, bound)
    }
}

/// The simplified Toeplitz-style hash: 64 bytes folded over the key bits.
pub open spec fn spec_toeplitz_hash(data: Seq<u8>, key: Seq<u8>) -> u32 {
    spec_toeplitz_fold(data, spec_key_bits(key), 0, 0, 64)
}

/// The byte at `off`, or zero past the end.
pub open spec fn spec_byte_or_zero(data: Seq<u8>, off: int) -> int {
    if 0 <= off < data.len() {
        data[off] as int
    } else {
        0
    }
}

/// The little-endian 32-bit word at `off`, zero-padded past the end.
pub open spec fn spec_le32_padded(data: Seq<u8>, off: int) -> u32 {
    (spec_byte_or_zero(data, off) + spec_byte_or_zero(data, off + 1) * 0x100 + spec_byte_or_zero(
        data,
        off + 2,
    ) * 0x1_0000 + spec_byte_or_zero(data, off + 3) * 0x100_0000) as u32
}

/// XOR of the 32-bit little-endian words of `data`, the last one
/// zero-padded.
pub open spec fn spec_xor_fold(data: Seq<u8>, i: int) -> u32
    decreases data.len() - i,
{
    if i < 0 || i >= data.len() {
        0
    } else {
        spec_le32_padded(data, i) ^ spec_xor_fold(
            data,
            vstd::math::min(i + 4, data.len() as int),
        )
    }
}

/// The XOR hash: folded words, forced to 1 when zero on non-empty input.
pub open spec fn spec_simple_xor_hash(data: Seq<u8>) -> u32 {
    if spec_xor_fold(data, 0) == 0 && data.len() > 0 {
        1u32
    } else {
        spec_xor_fold(data, 0)
    }
}

/// `k` bit-steps of the reflected CRC-32 polynomial 0xEDB88320.
pub open spec fn spec_crc32_steps(c: u32, k: nat) -> u32
    decreases k,
{
    if k == 0 {
        c
    } else {
        spec_crc32_steps(
            if c & 1 == 1 {
                (c >> 1) ^ 0xEDB88320
            } else {
                c >> 1
            },
            (k - 1) as nat,
        )
    }
}

/// The CRC-32 fold over the bytes from position `i` on.
pub open spec fn spec_crc32_fold(data: Seq<u8>, i: int, crc: u32) -> u32
    decreases data.len() - i,
{
    if i < 0 || i >= data.len() {
        crc
    } else {
        spec_crc32_fold(data, i + 1, spec_crc32_steps(crc ^ (data[i] as u32), 8))
    }
}

/// The CRC-32 checksum of `data`.
pub open spec fn spec_crc32(data: Seq<u8>) -> u32 {
    spec_crc32_fold(data, 0, 0xFFFF_FFFFu32) ^ 0xFFFF_FFFFu32
}

/// Generate the CRC-32 lookup table: entry `i` is the 8-fold bit step of
/// `i`.
pub fn generate_crc32_table() -> (r: Vec<u32>)
    ensures
        r@.len() == 256,
        forall|i: int| 0 <= i < 256 ==> r@[i] == spec_crc32_steps(i as u32, 8),
{
    let mut table: Vec<u32> = Vec::new();
    let mut i: usize = 0;
    while i < 256
        invariant
            i <= 256,
            table@.len() == i,
            forall|x: int| 0 <= x < i ==> table@[x] == spec_crc32_steps(x as u32, 8),
        decreases 256 - i,
    {
        let mut crc: u32 = i as u32;
        let mut j: usize = 0;
        while j < 8
            invariant
                j <= 8,
                spec_crc32_steps(i as u32, 8) == spec_crc32_steps(crc, (8 - j) as nat),
            decreases 8 - j,
        {
            crc = if crc & 1 == 1 {
                (crc >> 1) ^ 0xEDB88320
            } else {
                crc >> 1
            };
            j = j + 1;
        }
        table.push(crc);
        i = i + 1;
    }
    table
}

impl RssHashCalculator {
    pub closed spec fn spec_hash_function(self) -> RssHashFunction {
        self.hash_function
    }

    pub closed spec fn spec_key(self) -> Seq<u8> {
        self.rss_key@
    }

    pub closed spec fn spec_stats(self) -> RssStats {
        self.stats
    }

    /// The hash value the configured function yields on `data`.
    pub open spec fn spec_hash(self, data: Seq<u8>) -> u32 {
        match self.spec_hash_function() {
            RssHashFunction::Toeplitz => spec_toeplitz_hash(data, self.spec_key()),
            RssHashFunction::SimpleXor => spec_simple_xor_hash(data),
            RssHashFunction::CRC32 => spec_crc32(data),
        }
    }

    /// Create a new RSS hash calculator with the default key.
    pub fn new(hash_function: RssHashFunction) -> (r: Self)
        ensures
            r.spec_hash_function() == hash_function,
            r.spec_key() == spec_default_rss_key(),
            r.spec_stats() == RssStats::zero(),
    {
        RssHashCalculator {
            hash_function,
            rss_key: RssHashCalculator::generate_default_key(),
            stats: RssStats::default(),
        }
    }

    /// The vendor-recommended default RSS key.
    pub fn generate_default_key() -> (r: [u8; 40])
        ensures
            r@ == spec_default_rss_key(),
    {
        let key: [u8; 40] = [
            0x6d, 0x5a, 0x56, 0xda, 0x25, 0x5b, 0x0e, 0xc2, 0x41, 0x67, 0x25, 0x3d, 0x43, 0xa3,
            0x8f, 0xb0, 0xd0, 0xca, 0x2b, 0xcb, 0xae, 0x7b, 0x30, 0xb4, 0x77, 0xcb, 0x2d, 0xa3,
            0x80, 0x30, 0xf2, 0x0c, 0x6a, 0x42, 0xb7, 0x3b, 0xbe, 0xac, 0x01, 0xfa,
        ];
        proof {
            assert(key@ =~= spec_default_rss_key());
        }
        key
    }

    /// Whether a hardware RSS engine is available. None is probed here.
    fn has_hardware_rss(&self) -> (r: bool)
        ensures
            !r,
    {
        false
    }

    /// Calculate the RSS hash of a packet with the configured function.
    pub fn calculate(&mut self, packet_data: &[u8]) -> (r: Result<u32, Error>)
        ensures
            final(self).spec_hash_function() == old(self).spec_hash_function(),
            final(self).spec_key() == old(self).spec_key(),
            final(self).spec_stats() == (RssStats {
                calculated: wrap_add64(old(self).spec_stats().calculated, 1),
                software_fallback: wrap_add64(old(self).spec_stats().software_fallback, 1),
                ..old(self).spec_stats()
            }),
            r matches Ok(h) && h == old(self).spec_hash(packet_data@),
    {
        self.stats.calculated = crate::counter_add(self.stats.calculated, 1);
        if self.has_hardware_rss() {
            self.stats.hardware_offloaded = crate::counter_add(self.stats.hardware_offloaded, 1);
        } else {
            self.stats.software_fallback = crate::counter_add(self.stats.software_fallback, 1);
        }
        self.calculate_software(packet_data)
    }

    /// Software hash calculation: dispatch on the configured function.
    fn calculate_software(&self, packet_data: &[u8]) -> (r: Result<u32, Error>)
        ensures
            r matches Ok(h) && h == self.spec_hash(packet_data@),
    {
        match self.hash_function {
            RssHashFunction::Toeplitz => self.toeplitz_hash(packet_data),
            RssHashFunction::SimpleXor => self.simple_xor_hash(packet_data),
            RssHashFunction::CRC32 => self.crc32_hash(packet_data),
        }
    }

    /// Simplified Toeplitz-style hash over the first 64 bytes.
    fn toeplitz_hash(&self, packet_data: &[u8]) -> (r: Result<u32, Error>)
        ensures
            r matches Ok(h) && h == spec_toeplitz_hash(packet_data@, self.spec_key()),
    {
        let key_bits: u64 = (self.rss_key[0] as u64) + (self.rss_key[1] as u64) * 0x100 + (
        self.rss_key[2] as u64) * 0x1_0000 + (self.rss_key[3] as u64) * 0x100_0000 + (
        self.rss_key[4] as u64) * 0x1_0000_0000 + (self.rss_key[5] as u64) * 0x100_0000_0000 + (
        self.rss_key[6] as u64) * 0x1_0000_0000_0000 + (self.rss_key[7] as u64)
            * 0x100_0000_0000_0000;
        proof {
            assert(key_bits == spec_key_bits(self.spec_key()));
        }
        let n = packet_data.len();
        let bound: usize = if n < 64 {
            n
        } else {
            64
        };
        let mut hash: u32 = 0;
        let mut i: usize = 0;
        while i < bound
            invariant
                i <= bound,
                bound <= n,
                bound == vstd::math::min(n as int, 64),
                n == packet_data@.len(),
                key_bits == spec_key_bits(self.spec_key()),
                spec_toeplitz_fold(packet_data@, key_bits, 0, 0, 64) == spec_toeplitz_fold(
                    packet_data@,
                    key_bits,
                    hash,
                    i as int,
                    64,
                ),
            decreases bound - i,
        {
            let b = packet_data[i];
            let shift = (b as u64) % 64;
            let masked: u32 = ((key_bits >> shift) & 0xFFFF_FFFF) as u32;
            hash = hash.wrapping_mul(31).wrapping_add(b as u32) ^ masked;
            i = i + 1;
        }
        Ok(hash)
    }

    /// XOR hash over 32-bit little-endian words.
    fn simple_xor_hash(&self, packet_data: &[u8]) -> (r: Result<u32, Error>)
        ensures
            r matches Ok(h) && h == spec_simple_xor_hash(packet_data@),
    {
        let n = packet_data.len();
        let mut hash: u32 = 0;
        let mut i: usize = 0;
        proof {
            let f0 = spec_xor_fold(packet_data@, 0);
            assert(0u32 ^ f0 == f0) by (bit_vector);
        }
        while i < n
            invariant
                i <= n,
                n == packet_data@.len(),
                spec_xor_fold(packet_data@, 0) == hash ^ spec_xor_fold(packet_data@, i as int),
            decreases n - i,
        {
            let b0 = packet_data[i] as u32;
            let b1 = if n - i > 1 {
                packet_data[i + 1] as u32
            } else {
                0
            };
            let b2 = if n - i > 2 {
                packet_data[i + 2] as u32
            } else {
                0
            };
            let b3 = if n - i > 3 {
                packet_data[i + 3] as u32
            } else {
                0
            };
            let word = b0 + b1 * 0x100 + b2 * 0x1_0000 + b3 * 0x100_0000;
            let ghost next_i: int = vstd::math::min(i + 4, n as int);
            proof {
                assert(word == spec_le32_padded(packet_data@, i as int));
                let h0 = hash;
                let w = word;
                let rest = spec_xor_fold(packet_data@, next_i);
                assert(h0 ^ (w ^ rest) == (h0 ^ w) ^ rest) by (bit_vector);
            }
            hash = hash ^ word;
            i = if n - i > 4 {
                i + 4
            } else {
                n
            };
        }
        proof {
            let hf = hash;
            assert(hf ^ 0u32 == hf) by (bit_vector);
        }
        if hash == 0 && n > 0 {
            hash = 1;
        }
        Ok(hash)
    }

    /// CRC-32 hash (software bit-step evaluation of the reflected
    /// polynomial, byte by byte).
    fn crc32_hash(&self, packet_data: &[u8]) -> (r: Result<u32, Error>)
        ensures
            r matches Ok(h) && h == spec_crc32(packet_data@),
    {
        Ok(self.crc32_software(packet_data))
    }

    /// Software CRC-32 implementation.
    fn crc32_software(&self, packet_data: &[u8]) -> (r: u32)
        ensures
            r == spec_crc32(packet_data@),
    {
        let n = packet_data.len();
        let mut crc: u32 = 0xFFFF_FFFF;
        let mut i: usize = 0;
        while i < n
            invariant
                i <= n,
                n == packet_data@.len(),
                spec_crc32_fold(packet_data@, 0, 0xFFFF_FFFFu32) == spec_crc32_fold(
                    packet_data@,
                    i as int,
                    crc,
                ),
            decreases n - i,
        {
            let mut c: u32 = crc ^ (packet_data[i] as u32);
            let mut j: usize = 0;
            while j < 8
                invariant
                    j <= 8,
                    spec_crc32_steps(crc ^ (packet_data@[i as int] as u32), 8)
                        == spec_crc32_steps(c, (8 - j) as nat),
                decreases 8 - j,
            {
                c = if c & 1 == 1 {
                    (c >> 1) ^ 0xEDB88320
                } else {
                    c >> 1
                };
                j = j + 1;
            }
            crc = c;
            i = i + 1;
        }
        crc ^ 0xFFFF_FFFF
    }

    /// Get RSS statistics.
    pub fn stats(&self) -> (r: RssStatsView)
        ensures
            r.calculated == self.spec_stats().calculated,
            r.hardware_offloaded == self.spec_stats().hardware_offloaded,
            r.software_fallback == self.spec_stats().software_fallback,
            r.errors == self.spec_stats().errors,
    {
        RssStatsView {
            calculated: self.stats.calculated,
            hardware_offloaded: self.stats.hardware_offloaded,
            software_fallback: self.stats.software_fallback,
            errors: self.stats.errors,
        }
    }
}

/// Checksum types.
#[derive(Debug, Clone, Copy, PartialEq, Eq, Structural)]
pub enum ChecksumType {
    IPv4,
    UDP,
    TCP,
}

/// Offload statistics: free-running counters, wrapping at 2^64.
#[derive(Debug, Clone, Copy, PartialEq, Eq, Structural)]
pub struct OffloadStats {
    pub total_operations: u64,
    pub checksum_operations: u64,
    pub rss_operations: u64,
    pub timestamp_operations: u64,
    pub hardware_accelerated: u64,
    pub software_fallback: u64,
}

impl Default for OffloadStats {
    fn default() -> (r: Self)
        ensures
            r == OffloadStats::zero(),
    {
        OffloadStats {
            total_operations: 0,
            checksum_operations: 0,
            rss_operations: 0,
            timestamp_operations: 0,
            hardware_accelerated: 0,
            software_fallback: 0,
        }
    }
}

impl OffloadStats {
    /// All counters at zero.
    pub open spec fn zero() -> OffloadStats {
        OffloadStats {
            total_operations: 0,
            checksum_operations: 0,
            rss_operations: 0,
            timestamp_operations: 0,
            hardware_accelerated: 0,
            software_fallback: 0,
        }
    }
}

/// Offload statistics view.
#[derive(Debug, Clone, Copy, PartialEq, Eq, Structural)]
pub struct OffloadStatsView {
    pub total_operations: u64,
    pub checksum_operations: u64,
    pub rss_operations: u64,
    pub timestamp_operations: u64,
    pub hardware_accelerated: u64,
    pub software_fallback: u64,
}

/// Hardware offload manager: applies the configured offloads to mbufs.
pub struct OffloadManager {
    capabilities: OffloadCapabilities,
    checksum_calculator: ChecksumCalculator,
    rss_calculator: RssHashCalculator,
    stats: OffloadStats,
}

impl OffloadManager {
    pub closed spec fn spec_capabilities(self) -> OffloadCapabilities {
        self.capabilities
    }

    pub closed spec fn spec_stats(self) -> OffloadStats {
        self.stats
    }

    pub closed spec fn spec_rss(self) -> RssHashCalculator {
        self.rss_calculator
    }

    /// Create a new offload manager with a Toeplitz RSS calculator.
    pub fn new(capabilities: OffloadCapabilities) -> (r: Self)
        ensures
            r.spec_capabilities() == capabilities,
            r.spec_stats() == OffloadStats::zero(),
            r.spec_rss().spec_hash_function() == RssHashFunction::Toeplitz,
    {
        OffloadManager {
            capabilities,
            checksum_calculator: ChecksumCalculator::new(capabilities.checksum),
            rss_calculator: RssHashCalculator::new(RssHashFunction::Toeplitz),
            stats: OffloadStats::default(),
        }
    }

    /// Apply the enabled offloads to an mbuf: compute the RSS hash and set
    /// its flag; when hardware timestamps are enabled, stamp the mbuf with
    /// the wall clock and set that flag too.
    pub fn process_packet(&mut self, m: &mut Mbuf) -> (r: Result<(), Error>)
        requires
            old(m).wf(),
        ensures
            final(m).wf(),
            r matches Ok(()),
            final(self).spec_capabilities() == old(self).spec_capabilities(),
            final(self).spec_stats().total_operations == crate::wrap_add64(
                old(self).spec_stats().total_operations,
                1,
            ),
            final(m).data@ == old(m).data@,
            final(m).len == old(m).len,
            final(m).buf_len == old(m).buf_len,
            old(self).spec_capabilities().rss ==> final(m).offload_flags & OFFLOAD_FLAG_RSS_HASH
                == OFFLOAD_FLAG_RSS_HASH,
            !old(self).spec_capabilities().rss && !old(self).spec_capabilities().timestamp ==> final(m).offload_flags == old(m).offload_flags,
    {
        self.stats.total_operations = crate::counter_add(self.stats.total_operations, 1);
        if self.capabilities.rss {
            let hash_res = self.rss_calculator.calculate(m.data());
            proof {
                assert(hash_res is Ok);
            }
            let flags = m.offload_flags;
            m.offload_flags = flags | OFFLOAD_FLAG_RSS_HASH;
            proof {
                assert((flags | 0x08u32) & 0x08u32 == 0x08u32) by (bit_vector);
            }
        }
        if self.capabilities.timestamp {
            m.timestamp = crate::utils::time::wall_clock_nanos();
            let flags = m.offload_flags;
            m.offload_flags = flags | crate::memory::OFFLOAD_FLAG_TIMESTAMP;
            self.stats.timestamp_operations = crate::counter_add(
                self.stats.timestamp_operations,
                1,
            );
            proof {
                assert(((0x08u32) | 0x10u32) & 0x08u32 == 0x08u32) by (bit_vector);
                assert forall|f: u32| f & 0x08u32 == 0x08u32 implies (f | 0x10u32) & 0x08u32
                    == 0x08u32 by {
                    assert(forall|g: u32| g & 0x08 == 0x08 ==> #[trigger] ((g | 0x10) & 0x08)
                        == 0x08) by (bit_vector);
                }
            }
        }
        Ok(())
    }

    /// Checksum the mbuf's frame: the IPv4 header checksum over the first
    /// 20 bytes, or the UDP/TCP checksum over the transport segment with
    /// the addresses read from the IPv4 header. Frames too short for the
    /// requested type yield `OffloadError`.
    pub fn calculate_checksum(&mut self, m: &Mbuf, checksum_type: ChecksumType) -> (r: Result<
        u16,
        Error,
    >)
        requires
            m.wf(),
            m.len <= 65535,
        ensures
            final(self).spec_capabilities() == old(self).spec_capabilities(),
            checksum_type == ChecksumType::IPv4 && m.len >= 20 ==> (r matches Ok(c) && c
                == spec_checksum(crate::udp::frame_of(*m).subrange(0, 20), 0)),
            checksum_type == ChecksumType::IPv4 && m.len < 20 ==> r matches Err(
                Error::OffloadError(_),
            ),
            checksum_type == ChecksumType::UDP && m.len < 34 ==> r matches Err(
                Error::OffloadError(_),
            ),
            checksum_type == ChecksumType::TCP && m.len < 40 ==> r matches Err(
                Error::OffloadError(_),
            ),
    {
        let data = m.data();
        self.stats.checksum_operations = crate::counter_add(self.stats.checksum_operations, 1);
        match checksum_type {
            ChecksumType::IPv4 => {
                if data.len() >= 20 {
                    let header = vstd::slice::slice_subrange(data, 0, 20);
                    self.checksum_calculator.ipv4_checksum(header)
                } else {
                    Err(Error::OffloadError("Packet too small for IPv4 header".to_owned()))
                }
            },
            ChecksumType::UDP => {
                if data.len() >= 34 {
                    let src_ip = [data[26], data[27], data[28], data[29]];
                    let dst_ip = [data[30], data[31], data[32], data[33]];
                    let rest = vstd::slice::slice_subrange(data, 34, data.len());
                    self.checksum_calculator.udp_checksum(rest, src_ip, dst_ip)
                } else {
                    Err(Error::OffloadError("Packet too small for UDP header".to_owned()))
                }
            },
            ChecksumType::TCP => {
                if data.len() >= 40 {
                    let src_ip = [data[26], data[27], data[28], data[29]];
                    let dst_ip = [data[30], data[31], data[32], data[33]];
                    let rest = vstd::slice::slice_subrange(data, 34, data.len());
                    self.checksum_calculator.tcp_checksum(rest, src_ip, dst_ip)
                } else {
                    Err(Error::OffloadError("Packet too small for TCP header".to_owned()))
                }
            },
        }
    }

    /// Get offload capabilities.
    pub fn capabilities(&self) -> (r: &OffloadCapabilities)
        ensures
            *r == self.spec_capabilities(),
    {
        &self.capabilities
    }

    /// Get offload statistics.
    pub fn stats(&self) -> (r: OffloadStatsView)
        ensures
            r.total_operations == self.spec_stats().total_operations,
            r.checksum_operations == self.spec_stats().checksum_operations,
            r.rss_operations == self.spec_stats().rss_operations,
            r.timestamp_operations == self.spec_stats().timestamp_operations,
            r.hardware_accelerated == self.spec_stats().hardware_accelerated,
            r.software_fallback == self.spec_stats().software_fallback,
    {
        OffloadStatsView {
            total_operations: self.stats.total_operations,
            checksum_operations: self.stats.checksum_operations,
            rss_operations: self.stats.rss_operations,
            timestamp_operations: self.stats.timestamp_operations,
            hardware_accelerated: self.stats.hardware_accelerated,
            software_fallback: self.stats.software_fallback,
        }
    }
}

} // verus!

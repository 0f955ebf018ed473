//! UDP protocol engine: zero-copy header parsing over mbufs, per-socket
//! receive FIFOs, and port-based demultiplexing.
//!
//! The wire formats are Ethernet II, IPv4 and UDP; every multi-byte header
//! field is in network byte order on the wire and converted to host order
//! on read. The parser's contract states, for each failure kind, exactly
//! the frames on which it is returned.

use crate::memory::{free_step, Mbuf, MbufPool};
use crate::ring::SpscRingBuffer;
use crate::Error;
use vstd::prelude::*;

verus! {

/// Bytes in an Ethernet II header.
pub const ETH_HEADER_LEN: usize = 14;

/// Bytes in a minimal IPv4 header.
pub const IPV4_MIN_HEADER_LEN: usize = 20;

/// Bytes in a UDP header.
pub const UDP_HEADER_LEN: usize = 8;

/// The EtherType of IPv4.
pub const ETHER_TYPE_IPV4: u16 = 0x0800;

/// The IPv4 protocol number of UDP.
pub const IP_PROTOCOL_UDP: u8 = 17;

/// The 16-bit value with its two bytes exchanged: what a little-endian
/// machine stores for a big-endian (network-order) field.
pub open spec fn bswap16(x: u16) -> u16 {
    (((x as int % 256) * 256) + (x as int / 256)) as u16
}

/// Swapping twice gives the value back.
pub proof fn lemma_bswap16_involutive(x: u16)
    ensures
        bswap16(bswap16(x)) == x,
{
    let lo = x as int % 256;
    let hi = x as int / 256;
    assert(0 <= hi < 256);
    assert(lo * 256 + hi < 65536) by (nonlinear_arith)
        requires
            0 <= lo < 256,
            0 <= hi < 256,
    ;
    assert((lo * 256 + hi) % 256 == hi && (lo * 256 + hi) / 256 == lo) by (nonlinear_arith)
        requires
            0 <= lo < 256,
            0 <= hi < 256,
    ;
    assert(hi * 256 + lo == x) by (nonlinear_arith)
        requires
            lo == x as int % 256,
            hi == x as int / 256,
            0 <= x < 65536,
    ;
}

/// Exchange the two bytes of a 16-bit value.
pub fn swap_bytes16(x: u16) -> (r: u16)
    ensures
        r == bswap16(x),
{
    (x % 256) * 256 + (x / 256)
}

/// The big-endian 16-bit field at byte offset `off`, in host order.
pub open spec fn spec_be16(data: Seq<u8>, off: int) -> int {
    data[off] * 256 + data[off + 1]
}

/// Read a network-order 16-bit field, returning the host-order value.
pub fn read_be16(data: &[u8], off: usize) -> (r: u16)
    requires
        off + 1 < data@.len(),
    ensures
        r == spec_be16(data@, off as int),
{
    let hi = data[off];
    let lo = data[off + 1];
    (hi as u16) * 256 + (lo as u16)
}

/// An IPv4 address as four octets.
#[derive(Debug, Clone, Copy, PartialEq, Eq)]
pub struct Ipv4Address {
    pub octets: [u8; 4],
}

/// A socket address: an IPv4 address and a port.
#[derive(Debug, Clone, Copy, PartialEq, Eq)]
pub struct SocketAddress {
    pub ip: Ipv4Address,
    pub port: u16,
}

/// UDP header. The multi-byte fields hold the network-order representation;
/// the getters convert to host order.
#[derive(Debug, Clone, Copy)]
pub struct UdpHeader {
    /// Source port (network order)
    pub src_port: u16,
    /// Destination port (network order)
    pub dst_port: u16,
    /// Length of header plus data (network order)
    pub length: u16,
    /// Checksum (network order)
    pub checksum: u16,
}

impl UdpHeader {
    /// Source port in host order.
    pub open spec fn spec_src_port(self) -> u16 {
        bswap16(self.src_port)
    }

    /// Destination port in host order.
    pub open spec fn spec_dst_port(self) -> u16 {
        bswap16(self.dst_port)
    }

    /// Length in host order.
    pub open spec fn spec_length(self) -> u16 {
        bswap16(self.length)
    }

    /// Checksum in host order.
    pub open spec fn spec_checksum(self) -> u16 {
        bswap16(self.checksum)
    }

    /// Create a UDP header; reading the fields back gives the arguments.
    pub fn new(src_port: u16, dst_port: u16, length: u16) -> (r: Self)
        ensures
            r.spec_src_port() == src_port,
            r.spec_dst_port() == dst_port,
            r.spec_length() == length,
            r.spec_checksum() == 0,
    {
        proof {
            lemma_bswap16_involutive(src_port);
            lemma_bswap16_involutive(dst_port);
            lemma_bswap16_involutive(length);
        }
        UdpHeader {
            src_port: swap_bytes16(src_port),
            dst_port: swap_bytes16(dst_port),
            length: swap_bytes16(length),
            checksum: 0,
        }
    }

    /// Get source port (host byte order).
    pub fn src_port(&self) -> (r: u16)
        ensures
            r == self.spec_src_port(),
    {
        swap_bytes16(self.src_port)
    }

    /// Get destination port (host byte order).
    pub fn dst_port(&self) -> (r: u16)
        ensures
            r == self.spec_dst_port(),
    {
        swap_bytes16(self.dst_port)
    }

    /// Get length (host byte order).
    pub fn length(&self) -> (r: u16)
        ensures
            r == self.spec_length(),
    {
        swap_bytes16(self.length)
    }

    /// Get checksum (host byte order).
    pub fn checksum(&self) -> (r: u16)
        ensures
            r == self.spec_checksum(),
    {
        swap_bytes16(self.checksum)
    }
}

/// IPv4 header (simplified). Multi-byte fields hold the network-order
/// representation.
#[derive(Debug, Clone, Copy)]
pub struct Ipv4Header {
    /// Version and IHL
    pub version_ihl: u8,
    /// Type of service
    pub tos: u8,
    /// Total length (network order)
    pub total_length: u16,
    /// Identification (network order)
    pub identification: u16,
    /// Flags and fragment offset (network order)
    pub flags_fragment: u16,
    /// TTL
    pub ttl: u8,
    /// Protocol
    pub protocol: u8,
    /// Header checksum (network order)
    pub checksum: u16,
    /// Source address
    pub src_addr: [u8; 4],
    /// Destination address
    pub dst_addr: [u8; 4],
}

impl Ipv4Header {
    /// Create an IPv4/UDP header with the given endpoints and payload size.
    pub fn new(src_addr: Ipv4Address, dst_addr: Ipv4Address, payload_length: u16) -> (r: Self)
        requires
            payload_length <= 65515,
        ensures
            r.version_ihl == 0x45,
            r.tos == 0,
            bswap16(r.total_length) == 20 + payload_length,
            r.identification == 0,
            r.flags_fragment == 0,
            r.ttl == 64,
            r.protocol == IP_PROTOCOL_UDP,
            r.checksum == 0,
            r.src_addr@ == src_addr.octets@,
            r.dst_addr@ == dst_addr.octets@,
    {
        let total_length: u16 = 20 + payload_length;
        proof {
            lemma_bswap16_involutive(total_length);
        }
        Ipv4Header {
            version_ihl: 0x45,
            tos: 0,
            total_length: swap_bytes16(total_length),
            identification: 0,
            flags_fragment: 0,
            ttl: 64,
            protocol: IP_PROTOCOL_UDP,
            checksum: 0,
            src_addr: src_addr.octets,
            dst_addr: dst_addr.octets,
        }
    }

    /// Get source address.
    pub fn src_addr(&self) -> (r: Ipv4Address)
        ensures
            r.octets@ == self.src_addr@,
    {
        Ipv4Address { octets: self.src_addr }
    }

    /// Get destination address.
    pub fn dst_addr(&self) -> (r: Ipv4Address)
        ensures
            r.octets@ == self.dst_addr@,
    {
        Ipv4Address { octets: self.dst_addr }
    }

    /// Get protocol.
    pub fn protocol(&self) -> (r: u8)
        ensures
            r == self.protocol,
    {
        self.protocol
    }
}

/// Ethernet header. The EtherType holds the network-order representation.
#[derive(Debug, Clone, Copy)]
pub struct EthernetHeader {
    /// Destination MAC
    pub dst_mac: [u8; 6],
    /// Source MAC
    pub src_mac: [u8; 6],
    /// EtherType (network order)
    pub ether_type: u16,
}

impl EthernetHeader {
    /// EtherType in host order.
    pub open spec fn spec_ether_type(self) -> u16 {
        bswap16(self.ether_type)
    }

    /// Create an Ethernet header.
    pub fn new(src_mac: [u8; 6], dst_mac: [u8; 6], ether_type: u16) -> (r: Self)
        ensures
            r.dst_mac@ == dst_mac@,
            r.src_mac@ == src_mac@,
            r.spec_ether_type() == ether_type,
    {
        proof {
            lemma_bswap16_involutive(ether_type);
        }
        EthernetHeader { dst_mac, src_mac, ether_type: swap_bytes16(ether_type) }
    }

    /// Get EtherType (host byte order).
    pub fn ether_type(&self) -> (r: u16)
        ensures
            r == self.spec_ether_type(),
    {
        swap_bytes16(self.ether_type)
    }
}

/// Why a frame was rejected by the parser.
#[derive(Debug, Clone, Copy, PartialEq, Eq, Structural)]
pub enum ParseError {
    /// The frame is too short for some header layer
    Short,
    /// The EtherType is not IPv4
    NotIpv4,
    /// The IPv4 protocol is not UDP
    NotUdp,
}

/// The packet bytes an mbuf holds: the valid prefix of its buffer.
pub open spec fn frame_of(m: Mbuf) -> Seq<u8> {
    m.data@.subrange(0, m.len as int)
}

/// The IPv4 header length in bytes: the low nibble of the first IPv4 byte,
/// times four.
pub open spec fn spec_ihl_bytes(data: Seq<u8>) -> int {
    (data[ETH_HEADER_LEN as int] as int % 16) * 4
}

/// Byte offset of the UDP header within the frame.
pub open spec fn spec_udp_offset(data: Seq<u8>) -> int {
    ETH_HEADER_LEN + spec_ihl_bytes(data)
}

/// The frame has an Ethernet header carrying IPv4.
pub open spec fn frame_is_ipv4(data: Seq<u8>) -> bool {
    &&& data.len() >= ETH_HEADER_LEN
    &&& spec_be16(data, 12) == ETHER_TYPE_IPV4
}

/// The frame carries a UDP datagram whose headers all fit.
pub open spec fn parse_ok(data: Seq<u8>) -> bool {
    &&& frame_is_ipv4(data)
    &&& data.len() >= ETH_HEADER_LEN + IPV4_MIN_HEADER_LEN
    &&& data[ETH_HEADER_LEN + 9] == IP_PROTOCOL_UDP
    &&& data.len() >= spec_udp_offset(data) + UDP_HEADER_LEN
}

/// The packet view a successful parse of `data` yields for mbuf `mbuf`.
pub open spec fn spec_packet(mbuf: usize, data: Seq<u8>) -> UdpPacket {
    UdpPacket {
        mbuf,
        eth_offset: 0,
        ip_offset: ETH_HEADER_LEN,
        udp_offset: spec_udp_offset(data) as usize,
        payload_offset: (spec_udp_offset(data) + UDP_HEADER_LEN) as usize,
    }
}

/// The payload bytes: the UDP length field minus the header size, clipped
/// to an empty sequence when the advertised range exceeds the frame.
pub open spec fn spec_payload(data: Seq<u8>) -> Seq<u8> {
    let udp_off = spec_udp_offset(data);
    let udp_len = spec_be16(data, udp_off + 4);
    let payload_len: int = if udp_len >= UDP_HEADER_LEN {
        udp_len - UDP_HEADER_LEN
    } else {
        0
    };
    let payload_off = udp_off + UDP_HEADER_LEN;
    if payload_off + payload_len <= data.len() {
        data.subrange(payload_off, payload_off + payload_len)
    } else {
        Seq::empty()
    }
}

/// A non-owning descriptor over an mbuf: byte offsets of each header layer.
#[derive(Debug, Clone, Copy, PartialEq, Eq, Structural)]
pub struct UdpPacket {
    /// Pool slot of the mbuf holding the frame
    pub mbuf: usize,
    /// Ethernet header offset
    pub eth_offset: usize,
    /// IP header offset
    pub ip_offset: usize,
    /// UDP header offset
    pub udp_offset: usize,
    /// Payload offset
    pub payload_offset: usize,
}

impl UdpPacket {
    /// The view describes the given mbuf: the frame parses and the offsets
    /// are the ones the parse yields.
    pub open spec fn valid_for(self, m: Mbuf) -> bool {
        &&& m.wf()
        &&& parse_ok(frame_of(m))
        &&& self == spec_packet(self.mbuf, frame_of(m))
    }

    /// Parse the frame held by mbuf slot `mbuf` with bytes `m`. Each error
    /// comes exactly on the stated frames, checked in this order: too short
    /// for Ethernet, not IPv4, too short for IPv4, not UDP, too short for
    /// the UDP header.
    pub fn from_mbuf(mbuf: usize, m: &Mbuf) -> (r: Result<UdpPacket, ParseError>)
        requires
            m.wf(),
        ensures
            parse_ok(frame_of(*m)) <==> r is Ok,
            r matches Ok(p) ==> p == spec_packet(mbuf, frame_of(*m)) && p.valid_for(*m),
            frame_of(*m).len() < ETH_HEADER_LEN ==> r == Err::<UdpPacket, ParseError>(
                ParseError::Short,
            ),
            frame_of(*m).len() >= ETH_HEADER_LEN && spec_be16(frame_of(*m), 12) != ETHER_TYPE_IPV4
                ==> r == Err::<UdpPacket, ParseError>(ParseError::NotIpv4),
            frame_is_ipv4(frame_of(*m)) && frame_of(*m).len() < ETH_HEADER_LEN
                + IPV4_MIN_HEADER_LEN ==> r == Err::<UdpPacket, ParseError>(ParseError::Short),
            frame_is_ipv4(frame_of(*m)) && frame_of(*m).len() >= ETH_HEADER_LEN
                + IPV4_MIN_HEADER_LEN && frame_of(*m)[ETH_HEADER_LEN + 9] != IP_PROTOCOL_UDP ==> r
                == Err::<UdpPacket, ParseError>(ParseError::NotUdp),
            frame_is_ipv4(frame_of(*m)) && frame_of(*m).len() >= ETH_HEADER_LEN
                + IPV4_MIN_HEADER_LEN && frame_of(*m)[ETH_HEADER_LEN + 9] == IP_PROTOCOL_UDP
                && frame_of(*m).len() < spec_udp_offset(frame_of(*m)) + UDP_HEADER_LEN ==> r
                == Err::<UdpPacket, ParseError>(ParseError::Short),
    {
        let data = m.data();
        if data.len() < ETH_HEADER_LEN {
            return Err(ParseError::Short);
        }
        let ether_type = read_be16(data, 12);
        if ether_type != ETHER_TYPE_IPV4 {
            return Err(ParseError::NotIpv4);
        }
        if data.len() < ETH_HEADER_LEN + IPV4_MIN_HEADER_LEN {
            return Err(ParseError::Short);
        }
        let protocol = data[ETH_HEADER_LEN + 9];
        if protocol != IP_PROTOCOL_UDP {
            return Err(ParseError::NotUdp);
        }
        let ihl = (data[ETH_HEADER_LEN] % 16) as usize;
        let udp_offset = ETH_HEADER_LEN + ihl * 4;
        if data.len() < udp_offset + UDP_HEADER_LEN {
            return Err(ParseError::Short);
        }
        Ok(
            UdpPacket {
                mbuf,
                eth_offset: 0,
                ip_offset: ETH_HEADER_LEN,
                udp_offset,
                payload_offset: udp_offset + UDP_HEADER_LEN,
            },
        )
    }

    /// The UDP header, read out of the frame.
    pub fn udp_header(&self, m: &Mbuf) -> (r: UdpHeader)
        requires
            self.valid_for(*m),
        ensures
            r.spec_src_port() == spec_be16(frame_of(*m), self.udp_offset as int),
            r.spec_dst_port() == spec_be16(frame_of(*m), self.udp_offset + 2),
            r.spec_length() == spec_be16(frame_of(*m), self.udp_offset + 4),
            r.spec_checksum() == spec_be16(frame_of(*m), self.udp_offset + 6),
    {
        let data = m.data();
        let off = self.udp_offset;
        let r = UdpHeader {
            src_port: swap_bytes16(read_be16(data, off)),
            dst_port: swap_bytes16(read_be16(data, off + 2)),
            length: swap_bytes16(read_be16(data, off + 4)),
            checksum: swap_bytes16(read_be16(data, off + 6)),
        };
        proof {
            lemma_bswap16_involutive((spec_be16(frame_of(*m), off as int)) as u16);
            lemma_bswap16_involutive((spec_be16(frame_of(*m), off + 2)) as u16);
            lemma_bswap16_involutive((spec_be16(frame_of(*m), off + 4)) as u16);
            lemma_bswap16_involutive((spec_be16(frame_of(*m), off + 6)) as u16);
        }
        r
    }

    /// The IPv4 header, read out of the frame. (The checksum getter of the
    /// result reflects the wire bytes; `new` is not involved.)
    pub fn ipv4_header(&self, m: &Mbuf) -> (r: Ipv4Header)
        requires
            self.valid_for(*m),
        ensures
            r.version_ihl == frame_of(*m)[ETH_HEADER_LEN as int],
            r.protocol == frame_of(*m)[ETH_HEADER_LEN + 9],
            r.protocol == IP_PROTOCOL_UDP,
            r.ttl == frame_of(*m)[ETH_HEADER_LEN + 8],
            bswap16(r.total_length) == spec_be16(frame_of(*m), ETH_HEADER_LEN + 2),
            r.src_addr@ == frame_of(*m).subrange(ETH_HEADER_LEN + 12, ETH_HEADER_LEN + 16),
            r.dst_addr@ == frame_of(*m).subrange(ETH_HEADER_LEN + 16, ETH_HEADER_LEN + 20),
    {
        let data = m.data();
        let o = ETH_HEADER_LEN;
        let r = Ipv4Header {
            version_ihl: data[o],
            tos: data[o + 1],
            total_length: swap_bytes16(read_be16(data, o + 2)),
            identification: swap_bytes16(read_be16(data, o + 4)),
            flags_fragment: swap_bytes16(read_be16(data, o + 6)),
            ttl: data[o + 8],
            protocol: data[o + 9],
            checksum: swap_bytes16(read_be16(data, o + 10)),
            src_addr: [data[o + 12], data[o + 13], data[o + 14], data[o + 15]],
            dst_addr: [data[o + 16], data[o + 17], data[o + 18], data[o + 19]],
        };
        proof {
            lemma_bswap16_involutive((spec_be16(frame_of(*m), o + 2)) as u16);
            assert(r.src_addr@ =~= frame_of(*m).subrange(o + 12, o + 16));
            assert(r.dst_addr@ =~= frame_of(*m).subrange(o + 16, o + 20));
        }
        r
    }

    /// The Ethernet header, read out of the frame.
    pub fn ethernet_header(&self, m: &Mbuf) -> (r: EthernetHeader)
        requires
            self.valid_for(*m),
        ensures
            r.dst_mac@ == frame_of(*m).subrange(0, 6),
            r.src_mac@ == frame_of(*m).subrange(6, 12),
            r.spec_ether_type() == spec_be16(frame_of(*m), 12),
            r.spec_ether_type() == ETHER_TYPE_IPV4,
    {
        let data = m.data();
        let r = EthernetHeader {
            dst_mac: [data[0], data[1], data[2], data[3], data[4], data[5]],
            src_mac: [data[6], data[7], data[8], data[9], data[10], data[11]],
            ether_type: swap_bytes16(read_be16(data, 12)),
        };
        proof {
            lemma_bswap16_involutive((spec_be16(frame_of(*m), 12)) as u16);
            assert(r.dst_mac@ =~= frame_of(*m).subrange(0, 6));
            assert(r.src_mac@ =~= frame_of(*m).subrange(6, 12));
        }
        r
    }

    /// The payload bytes, or an empty slice when the advertised payload
    /// range exceeds the frame.
    pub fn payload<'a>(&self, m: &'a Mbuf) -> (r: &'a [u8])
        requires
            self.valid_for(*m),
        ensures
            r@ == spec_payload(frame_of(*m)),
    {
        let data = m.data();
        let udp_len = read_be16(data, self.udp_offset + 4) as usize;
        let payload_len: usize = if udp_len >= UDP_HEADER_LEN {
            udp_len - UDP_HEADER_LEN
        } else {
            0
        };
        if payload_len <= data.len() && self.payload_offset <= data.len() - payload_len {
            vstd::slice::slice_subrange(data, self.payload_offset, self.payload_offset
                + payload_len)
        } else {
            let empty = vstd::slice::slice_subrange(data, 0, 0);
            proof {
                assert(empty@ =~= Seq::<u8>::empty());
            }
            empty
        }
    }

    /// Source endpoint: the IPv4 source address and the UDP source port.
    pub fn src_addr(&self, m: &Mbuf) -> (r: SocketAddress)
        requires
            self.valid_for(*m),
        ensures
            r.ip.octets@ == frame_of(*m).subrange(ETH_HEADER_LEN + 12, ETH_HEADER_LEN + 16),
            r.port == spec_be16(frame_of(*m), self.udp_offset as int),
    {
        let data = m.data();
        let o = ETH_HEADER_LEN;
        let ip = Ipv4Address { octets: [data[o + 12], data[o + 13], data[o + 14], data[o + 15]] };
        proof {
            assert(ip.octets@ =~= frame_of(*m).subrange(o + 12, o + 16));
        }
        SocketAddress { ip, port: read_be16(data, self.udp_offset) }
    }

    /// Destination endpoint: the IPv4 destination address and the UDP
    /// destination port.
    pub fn dst_addr(&self, m: &Mbuf) -> (r: SocketAddress)
        requires
            self.valid_for(*m),
        ensures
            r.ip.octets@ == frame_of(*m).subrange(ETH_HEADER_LEN + 16, ETH_HEADER_LEN + 20),
            r.port == spec_be16(frame_of(*m), self.udp_offset + 2),
    {
        let data = m.data();
        let o = ETH_HEADER_LEN;
        let ip = Ipv4Address { octets: [data[o + 16], data[o + 17], data[o + 18], data[o + 19]] };
        proof {
            assert(ip.octets@ =~= frame_of(*m).subrange(o + 16, o + 20));
        }
        SocketAddress { ip, port: read_be16(data, self.udp_offset + 2) }
    }
}


/// Bounds of the batch-receive count.
proof fn lemma_recv_batch_bounds(q: Seq<usize>, bufs: Seq<Mbuf>, limit: int)
    requires
        limit >= 0,
    ensures
        0 <= UdpSocket::recv_batch_count(q, bufs, limit) <= limit,
        UdpSocket::recv_batch_count(q, bufs, limit) <= q.len(),
        UdpSocket::recv_batch_bytes(q, bufs, limit) >= 0,
    decreases limit,
{
    if limit > 0 && q.len() > 0 && parse_ok(frame_of(bufs[q[0] as int])) {
        lemma_recv_batch_bounds(q.subrange(1, q.len() as int), bufs, limit - 1);
    }
}

/// One unfolding of the batch-receive count and byte sum.
proof fn lemma_recv_batch_unfold(q: Seq<usize>, bufs: Seq<Mbuf>, limit: int)
    ensures
        limit > 0 && q.len() > 0 && parse_ok(frame_of(bufs[q[0] as int]))
            ==> UdpSocket::recv_batch_count(q, bufs, limit) == 1
            + UdpSocket::recv_batch_count(q.subrange(1, q.len() as int), bufs, limit - 1)
            && UdpSocket::recv_batch_bytes(q, bufs, limit) == spec_payload(
            frame_of(bufs[q[0] as int]),
        ).len() + UdpSocket::recv_batch_bytes(q.subrange(1, q.len() as int), bufs, limit - 1),
        limit <= 0 || q.len() == 0 || !parse_ok(frame_of(bufs[q[0] as int]))
            ==> UdpSocket::recv_batch_count(q, bufs, limit) == 0
            && UdpSocket::recv_batch_bytes(q, bufs, limit) == 0,
{
}

/// Extending an all-parsing prefix by one parsed entry.
proof fn lemma_recv_batch_prefix_snoc(q: Seq<usize>, bufs: Seq<Mbuf>, j: int)
    requires
        0 <= j < q.len(),
    ensures
        parse_ok(frame_of(bufs[q[j] as int])) && UdpSocket::recv_batch_count(q, bufs, j) == j
            ==> UdpSocket::recv_batch_count(q, bufs, j + 1) == j + 1
            && UdpSocket::recv_batch_bytes(q, bufs, j + 1) == UdpSocket::recv_batch_bytes(
            q,
            bufs,
            j,
        ) + spec_payload(frame_of(bufs[q[j] as int])).len(),
    decreases j,
{
    if parse_ok(frame_of(bufs[q[j] as int])) && UdpSocket::recv_batch_count(q, bufs, j) == j {
        let tail = q.subrange(1, q.len() as int);
        if j == 0 {
            assert(UdpSocket::recv_batch_count(q, bufs, 1) == 1 + UdpSocket::recv_batch_count(
                tail,
                bufs,
                0,
            ));
            assert(UdpSocket::recv_batch_bytes(q, bufs, 1) == spec_payload(
                frame_of(bufs[q[0] as int]),
            ).len() + UdpSocket::recv_batch_bytes(tail, bufs, 0));
        } else {
            assert(parse_ok(frame_of(bufs[q[0] as int])));
            assert(UdpSocket::recv_batch_count(q, bufs, j) == 1 + UdpSocket::recv_batch_count(
                tail,
                bufs,
                j - 1,
            ));
            assert(tail[j - 1] == q[j]);
            lemma_recv_batch_prefix_snoc(tail, bufs, j - 1);
            assert(UdpSocket::recv_batch_count(q, bufs, j + 1) == 1
                + UdpSocket::recv_batch_count(tail, bufs, j));
            assert(UdpSocket::recv_batch_bytes(q, bufs, j + 1) == spec_payload(
                frame_of(bufs[q[0] as int]),
            ).len() + UdpSocket::recv_batch_bytes(tail, bufs, j));
            assert(UdpSocket::recv_batch_bytes(q, bufs, j) == spec_payload(
                frame_of(bufs[q[0] as int]),
            ).len() + UdpSocket::recv_batch_bytes(tail, bufs, j - 1));
        }
    }
}

/// Once the queue is exhausted by an all-parsing prefix, a larger limit
/// changes nothing.
proof fn lemma_recv_batch_saturate(q: Seq<usize>, bufs: Seq<Mbuf>, j: int, limit: int)
    requires
        0 <= j <= limit,
        q.len() == j,
        UdpSocket::recv_batch_count(q, bufs, j) == j,
    ensures
        UdpSocket::recv_batch_count(q, bufs, limit) == j,
        UdpSocket::recv_batch_bytes(q, bufs, limit) == UdpSocket::recv_batch_bytes(q, bufs, j),
    decreases j,
{
    if j > 0 {
        let tail = q.subrange(1, q.len() as int);
        assert(parse_ok(frame_of(bufs[q[0] as int])));
        lemma_recv_batch_saturate(tail, bufs, j - 1, limit - 1);
    }
}

/// A non-parsing entry right after an all-parsing prefix stops the batch,
/// whatever the limit beyond it.
proof fn lemma_recv_batch_stop(q: Seq<usize>, bufs: Seq<Mbuf>, j: int, limit: int)
    requires
        0 <= j < limit,
        j < q.len(),
        UdpSocket::recv_batch_count(q, bufs, j) == j,
        !parse_ok(frame_of(bufs[q[j] as int])),
    ensures
        UdpSocket::recv_batch_count(q, bufs, limit) == j,
        UdpSocket::recv_batch_bytes(q, bufs, limit) == UdpSocket::recv_batch_bytes(q, bufs, j),
    decreases j,
{
    if j > 0 {
        let tail = q.subrange(1, q.len() as int);
        assert(parse_ok(frame_of(bufs[q[0] as int])));
        assert(tail[j - 1] == q[j]);
        lemma_recv_batch_stop(tail, bufs, j - 1, limit - 1);
    }
}

/// UDP socket statistics: free-running counters, wrapping at 2^64.
#[derive(Debug, Clone, Copy, PartialEq, Eq, Structural)]
pub struct UdpSocketStats {
    pub packets_received: u64,
    pub bytes_received: u64,
    pub packets_sent: u64,
    pub bytes_sent: u64,
    pub packets_dropped: u64,
    pub errors: u64,
}

impl Default for UdpSocketStats {
    fn default() -> (r: Self)
        ensures
            r == UdpSocketStats::zero(),
    {
        UdpSocketStats {
            packets_received: 0,
            bytes_received: 0,
            packets_sent: 0,
            bytes_sent: 0,
            packets_dropped: 0,
            errors: 0,
        }
    }
}

impl UdpSocketStats {
    /// All counters at zero.
    pub open spec fn zero() -> UdpSocketStats {
        UdpSocketStats {
            packets_received: 0,
            bytes_received: 0,
            packets_sent: 0,
            bytes_sent: 0,
            packets_dropped: 0,
            errors: 0,
        }
    }
}

/// A UDP socket: a local address, an SPSC receive FIFO of mbuf slots fed
/// by the stack pump, counters, and an optionally bound TX queue.
pub struct UdpSocket {
    local_addr: SocketAddress,
    recv_queue: SpscRingBuffer<usize>,
    tx_queue: Option<u16>,
    stats: UdpSocketStats,
    running: bool,
    id: u16,
}

/// Every mbuf queued in the socket lies inside the pool and is not on the
/// pool's freelist.
pub open spec fn socket_queue_coherent(s: UdpSocket, pool: MbufPool) -> bool {
    forall|k: int|
        0 <= k < s.spec_queue().len() ==> (#[trigger] s.spec_queue()[k]) < pool.spec_size()
            && !pool.spec_free().contains(s.spec_queue()[k])
}

impl UdpSocket {
    pub closed spec fn wf(self) -> bool {
        self.recv_queue.wf()
    }

    pub closed spec fn spec_local_addr(self) -> SocketAddress {
        self.local_addr
    }

    pub closed spec fn spec_queue(self) -> Seq<usize> {
        self.recv_queue@
    }

    pub closed spec fn spec_queue_capacity(self) -> nat {
        self.recv_queue.capacity_spec()
    }

    pub closed spec fn spec_tx_queue(self) -> Option<u16> {
        self.tx_queue
    }

    pub closed spec fn spec_stats(self) -> UdpSocketStats {
        self.stats
    }

    pub closed spec fn spec_running(self) -> bool {
        self.running
    }

    pub closed spec fn spec_id(self) -> u16 {
        self.id
    }

    /// Everything but the receive queue and the statistics is unchanged.
    pub open spec fn same_identity(pre: UdpSocket, post: UdpSocket) -> bool {
        &&& post.spec_local_addr() == pre.spec_local_addr()
        &&& post.spec_tx_queue() == pre.spec_tx_queue()
        &&& post.spec_running() == pre.spec_running()
        &&& post.spec_id() == pre.spec_id()
        &&& post.spec_queue_capacity() == pre.spec_queue_capacity()
    }

    /// Create a socket with an empty receive FIFO of (rounded) `queue_size`
    /// slots.
    pub fn new(local_addr: SocketAddress, queue_size: usize, id: u16) -> (r: Result<Self, Error>)
        requires
            queue_size <= crate::ring::RING_MAX_CAPACITY,
        ensures
            r matches Ok(s) && s.wf() && s.spec_local_addr() == local_addr && s.spec_id() == id
                && s.spec_queue() == Seq::<usize>::empty() && s.spec_tx_queue() is None
                && s.spec_stats() == UdpSocketStats::zero() && !s.spec_running()
                && queue_size <= s.spec_queue_capacity(),
    {
        Ok(
            UdpSocket {
                local_addr,
                recv_queue: SpscRingBuffer::new(queue_size),
                tx_queue: None,
                stats: UdpSocketStats::default(),
                running: false,
                id,
            },
        )
    }

    /// Bind the socket to a transmit queue by id.
    pub fn bind_tx_queue(&mut self, tx_queue: u16)
        requires
            old(self).wf(),
        ensures
            final(self).wf(),
            final(self).spec_tx_queue() == Some(tx_queue),
            final(self).spec_local_addr() == old(self).spec_local_addr(),
            final(self).spec_queue() == old(self).spec_queue(),
            final(self).spec_stats() == old(self).spec_stats(),
            final(self).spec_running() == old(self).spec_running(),
            final(self).spec_id() == old(self).spec_id(),
            final(self).spec_queue_capacity() == old(self).spec_queue_capacity(),
    {
        self.tx_queue = Some(tx_queue);
    }

    /// Receive one packet: pop the oldest mbuf off the FIFO and parse it.
    /// `NetworkError` comes on an empty FIFO (nothing consumed) and on a
    /// frame that does not parse (the mbuf is consumed). On success the
    /// mbuf's ownership passes to the caller, who must release it.
    pub fn recv(&mut self, pool: &MbufPool) -> (r: Result<UdpPacket, Error>)
        requires
            old(self).wf(),
            pool.wf(),
            socket_queue_coherent(*old(self), *pool),
        ensures
            final(self).wf(),
            UdpSocket::same_identity(*old(self), *final(self)),
            socket_queue_coherent(*final(self), *pool),
            old(self).spec_queue().len() == 0 ==> (r matches Err(Error::NetworkError(_)) && final(self).spec_queue() == old(self).spec_queue() && final(self).spec_stats() == old(self).spec_stats()),
            old(self).spec_queue().len() > 0 ==> {
                let front = old(self).spec_queue()[0];
                let frame = frame_of(pool.spec_bufs()[front as int]);
                &&& final(self).spec_queue() == old(self).spec_queue().subrange(
                    1,
                    old(self).spec_queue().len() as int,
                )
                &&& (parse_ok(frame) ==> (r matches Ok(p) && p == spec_packet(front, frame)
                    && final(self).spec_stats() == (UdpSocketStats {
                    packets_received: crate::wrap_add64(
                        old(self).spec_stats().packets_received,
                        1,
                    ),
                    bytes_received: crate::wrap_add64(
                        old(self).spec_stats().bytes_received,
                        spec_payload(frame).len() as int,
                    ),
                    ..old(self).spec_stats()
                })))
                &&& (!parse_ok(frame) ==> (r matches Err(Error::NetworkError(_)) && final(self).spec_stats() == old(self).spec_stats()))
            },
    {
        let popped = self.recv_queue.pop();
        let mbuf = match popped {
            Ok(i) => i,
            Err(_) => {
                return Err(Error::NetworkError("No packet available".to_owned()));
            },
        };
        proof {
            assert(old(self).spec_queue()[0] == mbuf);
        }
        let m = pool.buf(mbuf);
        let packet = match UdpPacket::from_mbuf(mbuf, m) {
            Ok(p) => p,
            Err(_) => {
                return Err(Error::NetworkError("Not a UDP packet".to_owned()));
            },
        };
        let payload_len = packet.payload(m).len();
        self.stats.packets_received = crate::counter_add(self.stats.packets_received, 1);
        self.stats.bytes_received = crate::counter_add(
            self.stats.bytes_received,
            payload_len as u64,
        );
        Ok(packet)
    }

    /// How many packets a batch receive of at most `limit` hands back: the
    /// longest run of queued mbufs, from the front, that all parse.
    pub open spec fn recv_batch_count(queue: Seq<usize>, bufs: Seq<Mbuf>, limit: int) -> int
        decreases limit,
    {
        if limit <= 0 || queue.len() == 0 {
            0
        } else if !parse_ok(frame_of(bufs[queue[0] as int])) {
            0
        } else {
            1 + UdpSocket::recv_batch_count(
                queue.subrange(1, queue.len() as int),
                bufs,
                limit - 1,
            )
        }
    }

    /// The payload bytes those packets carry, summed.
    pub open spec fn recv_batch_bytes(queue: Seq<usize>, bufs: Seq<Mbuf>, limit: int) -> int
        decreases limit,
    {
        if limit <= 0 || queue.len() == 0 {
            0
        } else if !parse_ok(frame_of(bufs[queue[0] as int])) {
            0
        } else {
            spec_payload(frame_of(bufs[queue[0] as int])).len() + UdpSocket::recv_batch_bytes(
                queue.subrange(1, queue.len() as int),
                bufs,
                limit - 1,
            )
        }
    }

    /// Receive up to `min(max_count, packets.len())` packets into the front
    /// of `packets`, stopping at the first empty FIFO or unparsable frame
    /// (which is consumed, as `recv` states). Returns the count received.
    pub fn recv_batch(
        &mut self,
        pool: &MbufPool,
        packets: &mut Vec<UdpPacket>,
        max_count: usize,
    ) -> (r: Result<usize, Error>)
        requires
            old(self).wf(),
            pool.wf(),
            socket_queue_coherent(*old(self), *pool),
        ensures
            final(self).wf(),
            UdpSocket::same_identity(*old(self), *final(self)),
            socket_queue_coherent(*final(self), *pool),
            final(packets)@.len() == old(packets)@.len(),
            ({
                let lim = vstd::math::min(max_count as int, old(packets)@.len() as int);
                let n = UdpSocket::recv_batch_count(
                    old(self).spec_queue(),
                    pool.spec_bufs(),
                    lim,
                );
                let consumed: int = if n < lim && n < old(self).spec_queue().len() {
                    n + 1
                } else {
                    n
                };
                &&& (r matches Ok(k) && k == n)
                &&& final(self).spec_queue() == old(self).spec_queue().subrange(
                    consumed,
                    old(self).spec_queue().len() as int,
                )
                &&& (forall|x: int|
                    0 <= x < n ==> #[trigger] final(packets)@[x] == spec_packet(
                        old(self).spec_queue()[x],
                        frame_of(pool.spec_bufs()[old(self).spec_queue()[x] as int]),
                    ))
                &&& (forall|x: int|
                    n <= x < old(packets)@.len() ==> #[trigger] final(packets)@[x] == old(
                        packets,
                    )@[x])
                &&& final(self).spec_stats() == (UdpSocketStats {
                    packets_received: crate::wrap_add64(
                        old(self).spec_stats().packets_received,
                        n,
                    ),
                    bytes_received: crate::wrap_add64(
                        old(self).spec_stats().bytes_received,
                        UdpSocket::recv_batch_bytes(
                            old(self).spec_queue(),
                            pool.spec_bufs(),
                            lim,
                        ),
                    ),
                    ..old(self).spec_stats()
                })
            }),
    {
        let ghost q0 = old(self).spec_queue();
        let ghost bufs = pool.spec_bufs();
        let ghost stats0 = old(self).spec_stats();
        let lim = if max_count < packets.len() {
            max_count
        } else {
            packets.len()
        };
        proof {
            lemma_recv_batch_bounds(q0, bufs, lim as int);
        }
        let mut received: usize = 0;
        let mut done: bool = false;
        while received < lim && !done
            invariant
                received <= lim,
                received as int <= q0.len(),
                lim as int == vstd::math::min(max_count as int, old(packets)@.len() as int),
                q0 == old(self).spec_queue(),
                bufs == pool.spec_bufs(),
                stats0 == old(self).spec_stats(),
                pool.wf(),
                self.wf(),
                UdpSocket::same_identity(*old(self), *self),
                socket_queue_coherent(*self, *pool),
                packets@.len() == old(packets)@.len(),
                received as int == UdpSocket::recv_batch_count(q0, bufs, received as int),
                !done ==> self.spec_queue() == q0.subrange(received as int, q0.len() as int),
                done ==> received < lim && received as int == UdpSocket::recv_batch_count(
                    q0,
                    bufs,
                    lim as int,
                ) && UdpSocket::recv_batch_bytes(q0, bufs, lim as int)
                    == UdpSocket::recv_batch_bytes(q0, bufs, received as int),
                done ==> self.spec_queue() == q0.subrange(
                    (if (received as int) < q0.len() {
                        received + 1
                    } else {
                        received as int
                    }),
                    q0.len() as int,
                ),
                self.spec_stats() == (UdpSocketStats {
                    packets_received: crate::wrap_add64(stats0.packets_received, received as int),
                    bytes_received: crate::wrap_add64(
                        stats0.bytes_received,
                        UdpSocket::recv_batch_bytes(q0, bufs, received as int),
                    ),
                    ..stats0
                }),
                forall|x: int|
                    0 <= x < received ==> #[trigger] packets@[x] == spec_packet(
                        q0[x],
                        frame_of(bufs[q0[x] as int]),
                    ),
                forall|x: int|
                    received <= x < packets@.len() ==> #[trigger] packets@[x] == old(packets)@[x],
            decreases lim - received, (if done { 0int } else { 1int }),
        {
            let ghost queue_here = self.spec_queue();
            let got = self.recv(pool);
            match got {
                Ok(p) => {
                    proof {
                        assert(queue_here.len() > 0);
                        assert((received as int) < q0.len());
                        lemma_recv_batch_bounds(q0, bufs, received as int);
                        assert(queue_here[0] == q0[received as int]);
                        assert(parse_ok(frame_of(bufs[q0[received as int] as int])));
                        lemma_recv_batch_prefix_snoc(q0, bufs, received as int);
                        crate::lemma_wrap_add64_assoc(stats0.packets_received, received as int, 1);
                        crate::lemma_wrap_add64_assoc(
                            stats0.bytes_received,
                            UdpSocket::recv_batch_bytes(q0, bufs, received as int),
                            spec_payload(frame_of(bufs[q0[received as int] as int])).len() as int,
                        );
                        assert(self.spec_queue() =~= q0.subrange(
                            received + 1,
                            q0.len() as int,
                        ));
                    }
                    packets.set(received, p);
                    received = received + 1;
                },
                Err(_) => {
                    proof {
                        if queue_here.len() == 0 {
                            assert(received as int == q0.len());
                            lemma_recv_batch_saturate(q0, bufs, received as int, lim as int);
                        } else {
                            assert(queue_here == q0.subrange(received as int, q0.len() as int));
                            assert(queue_here[0] == q0[received as int]);
                            assert(!parse_ok(frame_of(bufs[q0[received as int] as int])));
                            lemma_recv_batch_stop(q0, bufs, received as int, lim as int);
                            assert(self.spec_queue() =~= q0.subrange(
                                received + 1,
                                q0.len() as int,
                            ));
                        }
                    }
                    done = true;
                },
            }
        }
        proof {
            if !done {
                assert(received == lim);
            }
        }
        Ok(received)
    }

    /// Send a datagram to `dst_addr`. Building the outgoing frame is not
    /// implemented, so this fails on every input: with the unbound error
    /// when no TX queue is bound, and with the construction error
    /// otherwise.
    pub fn send(&self, dst_addr: SocketAddress, data: &[u8]) -> (r: Result<(), Error>)
        ensures
            r matches Err(e) && e matches Error::NetworkError(msg) && (self.spec_tx_queue() is None
                ==> msg@ == "No transmit queue bound"@) && (self.spec_tx_queue() is Some ==> msg@
                == "Packet creation not implemented"@),
    {
        if self.tx_queue.is_none() {
            return Err(Error::NetworkError("No transmit queue bound".to_owned()));
        }
        Err(Error::NetworkError("Packet creation not implemented".to_owned()))
    }

    /// Send a batch, stopping at the first failure and returning the count
    /// completed. Since `send` fails on every input, the count is zero.
    pub fn send_batch(&self, packets: &Vec<(SocketAddress, Vec<u8>)>) -> (r: Result<usize, Error>)
        ensures
            r matches Ok(k) && k == 0usize,
    {
        let mut sent: usize = 0;
        if packets.len() > 0 {
            let entry = &packets[0];
            match self.send(entry.0, entry.1.as_slice()) {
                Ok(_) => {
                    proof {
                        assert(false);
                    }
                },
                Err(_) => {},
            }
        }
        Ok(sent)
    }

    /// Start the socket.
    pub fn start(&mut self) -> (r: Result<(), Error>)
        requires
            old(self).wf(),
        ensures
            final(self).wf(),
            r matches Ok(()),
            final(self).spec_running() == true,
            final(self).spec_queue() == old(self).spec_queue(),
            final(self).spec_stats() == old(self).spec_stats(),
            final(self).spec_local_addr() == old(self).spec_local_addr(),
            final(self).spec_tx_queue() == old(self).spec_tx_queue(),
            final(self).spec_id() == old(self).spec_id(),
            final(self).spec_queue_capacity() == old(self).spec_queue_capacity(),
    {
        self.running = true;
        Ok(())
    }

    /// Stop the socket.
    pub fn stop(&mut self) -> (r: Result<(), Error>)
        requires
            old(self).wf(),
        ensures
            final(self).wf(),
            r matches Ok(()),
            final(self).spec_running() == false,
            final(self).spec_queue() == old(self).spec_queue(),
            final(self).spec_stats() == old(self).spec_stats(),
            final(self).spec_local_addr() == old(self).spec_local_addr(),
            final(self).spec_tx_queue() == old(self).spec_tx_queue(),
            final(self).spec_id() == old(self).spec_id(),
            final(self).spec_queue_capacity() == old(self).spec_queue_capacity(),
    {
        self.running = false;
        Ok(())
    }

    /// Get socket statistics.
    pub fn stats(&self) -> (r: &UdpSocketStats)
        ensures
            *r == self.spec_stats(),
    {
        &self.stats
    }

    /// Get local address.
    pub fn local_addr(&self) -> (r: SocketAddress)
        ensures
            r == self.spec_local_addr(),
    {
        self.local_addr
    }

    /// Get socket ID.
    pub fn id(&self) -> (r: u16)
        ensures
            r == self.spec_id(),
    {
        self.id
    }
}

/// Number of parse-successes among the first `limit` entries of `queue`,
/// each entry read against the mbufs in `bufs`.
pub open spec fn parse_ok_count(queue: Seq<usize>, bufs: Seq<Mbuf>, limit: int) -> int
    decreases limit,
{
    if limit <= 0 || queue.len() == 0 {
        0
    } else {
        (if parse_ok(frame_of(bufs[queue[0] as int])) {
            1int
        } else {
            0int
        }) + parse_ok_count(queue.subrange(1, queue.len() as int), bufs, limit - 1)
    }
}

/// Counting one more entry adds one exactly when that entry parses.
proof fn lemma_parse_ok_count_step(q: Seq<usize>, bufs: Seq<Mbuf>, j: int)
    requires
        0 <= j < q.len(),
    ensures
        parse_ok_count(q, bufs, j + 1) == parse_ok_count(q, bufs, j) + (if parse_ok(
            frame_of(bufs[q[j] as int]),
        ) {
            1int
        } else {
            0int
        }),
    decreases j,
{
    let tail = q.subrange(1, q.len() as int);
    let head_count: int = if parse_ok(frame_of(bufs[q[0] as int])) {
        1int
    } else {
        0int
    };
    assert(parse_ok_count(q, bufs, j + 1) == head_count + parse_ok_count(tail, bufs, j));
    if j > 0 {
        assert(parse_ok_count(q, bufs, j) == head_count + parse_ok_count(tail, bufs, j - 1));
        lemma_parse_ok_count_step(tail, bufs, j - 1);
        assert(tail[j - 1] == q[j]);
    } else {
        assert(parse_ok_count(q, bufs, 0) == 0);
        assert(parse_ok_count(tail, bufs, 0) == 0);
    }
}

/// The count never exceeds the limit or the queue length.
proof fn lemma_parse_ok_count_bounds(q: Seq<usize>, bufs: Seq<Mbuf>, limit: int)
    requires
        limit >= 0,
    ensures
        0 <= parse_ok_count(q, bufs, limit),
        parse_ok_count(q, bufs, limit) <= limit,
        parse_ok_count(q, bufs, limit) <= q.len(),
    decreases limit,
{
    if limit > 0 && q.len() > 0 {
        lemma_parse_ok_count_bounds(q.subrange(1, q.len() as int), bufs, limit - 1);
    }
}

/// Socket `i` is the first socket with id `socket_id`.
pub open spec fn is_first_id_match(sockets: Seq<UdpSocket>, socket_id: u16, i: int) -> bool {
    &&& 0 <= i < sockets.len()
    &&& sockets[i].spec_id() == socket_id
    &&& forall|j: int| 0 <= j < i ==> (#[trigger] sockets[j]).spec_id() != socket_id
}

/// Socket `i` is the first socket bound to `port`.
pub open spec fn is_first_match(sockets: Seq<UdpSocket>, port: u16, i: int) -> bool {
    &&& 0 <= i < sockets.len()
    &&& sockets[i].spec_local_addr().port == port
    &&& forall|j: int| 0 <= j < i ==> (#[trigger] sockets[j]).spec_local_addr().port != port
}

/// Some socket is bound to `port`.
pub open spec fn has_port_match(sockets: Seq<UdpSocket>, port: u16) -> bool {
    exists|i: int| is_first_match(sockets, port, i)
}

/// Mbuf slot `e` sits in no socket's receive queue.
pub open spec fn mbuf_unqueued(stack: UdpStack, e: usize) -> bool {
    forall|i: int, k: int|
        0 <= i < stack.spec_sockets().len() && 0 <= k < stack.spec_sockets()[i].spec_queue().len()
            ==> #[trigger] stack.spec_sockets()[i].spec_queue()[k] != e
}

/// Every socket's receive queue is coherent with the pool: no queued mbuf
/// is simultaneously on the pool freelist. This is the system invariant
/// that no mbuf is both free and queued.
pub open spec fn stack_pool_coherent(stack: UdpStack, pool: MbufPool) -> bool {
    forall|i: int|
        0 <= i < stack.spec_sockets().len() ==> socket_queue_coherent(
            #[trigger] stack.spec_sockets()[i],
            pool,
        )
}

/// No mbuf queued in the receive inbox also sits in a socket queue.
pub open spec fn rx_disjoint_from_sockets(rx: crate::poll::RxQueue, stack: UdpStack) -> bool {
    forall|k: int|
        0 <= k < rx.spec_queue().len() ==> mbuf_unqueued(stack, #[trigger] rx.spec_queue()[k])
}

/// Freeing an mbuf that sits in no socket queue keeps every socket's
/// queue coherent with the pool.
proof fn lemma_coherence_after_free(stack: UdpStack, pre: MbufPool, post: MbufPool, mbuf: usize)
    requires
        stack_pool_coherent(stack, pre),
        mbuf_unqueued(stack, mbuf),
        free_step(pre, post, mbuf),
    ensures
        stack_pool_coherent(stack, post),
{
    crate::memory::lemma_free_step_contains(pre, post, mbuf);
    assert forall|ii: int|
        0 <= ii < stack.spec_sockets().len() implies socket_queue_coherent(
        #[trigger] stack.spec_sockets()[ii],
        post,
    ) by {
        let sck = stack.spec_sockets()[ii];
        assert forall|k: int|
            0 <= k < sck.spec_queue().len() implies (#[trigger] sck.spec_queue()[k])
            < post.spec_size() && !post.spec_free().contains(sck.spec_queue()[k]) by {
            let e = sck.spec_queue()[k];
            assert(stack.spec_sockets()[ii].spec_queue()[k] != mbuf);
            assert(!pre.spec_free().contains(e));
        }
    }
}

/// What delivering one received mbuf does to the stack and the pool: the
/// frame is parsed out of the mbuf; on failure the mbuf is freed; on
/// success the receive counter rises and the mbuf is appended to the FIFO
/// of the first socket bound to the frame's destination port — or freed,
/// with that socket's drop counter rising when its FIFO is full, and
/// freed without further effect when no socket matches.
pub open spec fn rx_delivery_step(
    pre_stack: UdpStack,
    pre_pool: MbufPool,
    mbuf: usize,
    post_stack: UdpStack,
    post_pool: MbufPool,
) -> bool {
    let frame = frame_of(pre_pool.spec_bufs()[mbuf as int]);
    let port = spec_be16(frame, spec_udp_offset(frame) + 2) as u16;
    &&& post_pool.spec_size() == pre_pool.spec_size()
    &&& post_pool.spec_buf_size() == pre_pool.spec_buf_size()
    &&& post_pool.spec_bufs().len() == pre_pool.spec_bufs().len()
    &&& post_stack.spec_sockets().len() == pre_stack.spec_sockets().len()
    &&& post_stack.spec_next_id() == pre_stack.spec_next_id()
    &&& post_stack.spec_running() == pre_stack.spec_running()
    &&& (!parse_ok(frame) ==> free_step(pre_pool, post_pool, mbuf) && post_stack.spec_sockets()
        == pre_stack.spec_sockets() && post_stack.spec_stats() == pre_stack.spec_stats())
    &&& (parse_ok(frame) ==> post_stack.spec_stats() == (UdpStackStats {
        total_packets_received: crate::wrap_add64(
            pre_stack.spec_stats().total_packets_received,
            1,
        ),
        ..pre_stack.spec_stats()
    }))
    &&& (parse_ok(frame) && !has_port_match(pre_stack.spec_sockets(), port) ==> free_step(
        pre_pool,
        post_pool,
        mbuf,
    ) && post_stack.spec_sockets() == pre_stack.spec_sockets())
    &&& (parse_ok(frame) ==> forall|i: int|
        is_first_match(pre_stack.spec_sockets(), port, i) ==> {
            let s = pre_stack.spec_sockets()[i];
            &&& (forall|j: int|
                0 <= j < pre_stack.spec_sockets().len() && j != i
                    ==> #[trigger] post_stack.spec_sockets()[j] == pre_stack.spec_sockets()[j])
            &&& UdpSocket::same_identity(s, post_stack.spec_sockets()[i])
            &&& (s.spec_queue().len() < s.spec_queue_capacity() ==> post_stack.spec_sockets()[i].spec_queue() == s.spec_queue().push(mbuf) && post_stack.spec_sockets()[i].spec_stats() == s.spec_stats() && post_pool == pre_pool)
            &&& (s.spec_queue().len() == s.spec_queue_capacity() ==> post_stack.spec_sockets()[i].spec_queue() == s.spec_queue() && post_stack.spec_sockets()[i].spec_stats() == (
            UdpSocketStats {
                packets_dropped: crate::wrap_add64(s.spec_stats().packets_dropped, 1),
                ..s.spec_stats()
            }) && free_step(pre_pool, post_pool, mbuf))
        })
}

/// The delivery step folded over a whole run of received mbufs, in order:
/// there are intermediate states linking each consumed mbuf's delivery to
/// the next.
pub open spec fn rx_delivery_steps(
    pre_stack: UdpStack,
    pre_pool: MbufPool,
    q: Seq<usize>,
    post_stack: UdpStack,
    post_pool: MbufPool,
) -> bool
    decreases q.len(),
{
    if q.len() == 0 {
        post_stack == pre_stack && post_pool == pre_pool
    } else {
        exists|mid_stack: UdpStack, mid_pool: MbufPool|
            #[trigger] rx_delivery_step(pre_stack, pre_pool, q[0], mid_stack, mid_pool)
                && rx_delivery_steps(
                mid_stack,
                mid_pool,
                q.subrange(1, q.len() as int),
                post_stack,
                post_pool,
            )
    }
}

/// A run of deliveries extends by one more step at its end.
proof fn lemma_rx_delivery_steps_snoc(
    s0: UdpStack,
    p0: MbufPool,
    q: Seq<usize>,
    s1: UdpStack,
    p1: MbufPool,
    e: usize,
    s2: UdpStack,
    p2: MbufPool,
)
    requires
        rx_delivery_steps(s0, p0, q, s1, p1),
        rx_delivery_step(s1, p1, e, s2, p2),
    ensures
        rx_delivery_steps(s0, p0, q.push(e), s2, p2),
    decreases q.len(),
{
    let ext = q.push(e);
    if q.len() == 0 {
        assert(ext[0] == e);
        assert(ext.subrange(1, ext.len() as int) =~= Seq::<usize>::empty());
        assert(rx_delivery_step(s0, p0, ext[0], s2, p2));
        assert(rx_delivery_steps(s2, p2, ext.subrange(1, ext.len() as int), s2, p2));
    } else {
        let (sm, pm) = choose|sm: UdpStack, pm: MbufPool|
            #![auto]
            rx_delivery_step(s0, p0, q[0], sm, pm) && rx_delivery_steps(
                sm,
                pm,
                q.subrange(1, q.len() as int),
                s1,
                p1,
            );
        lemma_rx_delivery_steps_snoc(sm, pm, q.subrange(1, q.len() as int), s1, p1, e, s2, p2);
        assert(ext.subrange(1, ext.len() as int) =~= q.subrange(1, q.len() as int).push(e));
        assert(ext[0] == q[0]);
        assert(rx_delivery_step(s0, p0, ext[0], sm, pm));
        assert(rx_delivery_steps(sm, pm, ext.subrange(1, ext.len() as int), s2, p2));
    }
}

/// UDP stack statistics: free-running counters, wrapping at 2^64.
#[derive(Debug, Clone, Copy, PartialEq, Eq, Structural)]
pub struct UdpStackStats {
    pub total_sockets: u64,
    pub active_sockets: u64,
    pub total_packets_received: u64,
    pub total_packets_sent: u64,
    pub total_bytes_received: u64,
    pub total_bytes_sent: u64,
    pub total_errors: u64,
}

impl Default for UdpStackStats {
    fn default() -> (r: Self)
        ensures
            r == UdpStackStats::zero(),
    {
        UdpStackStats {
            total_sockets: 0,
            active_sockets: 0,
            total_packets_received: 0,
            total_packets_sent: 0,
            total_bytes_received: 0,
            total_bytes_sent: 0,
            total_errors: 0,
        }
    }
}

impl UdpStackStats {
    /// All counters at zero.
    pub open spec fn zero() -> UdpStackStats {
        UdpStackStats {
            total_sockets: 0,
            active_sockets: 0,
            total_packets_received: 0,
            total_packets_sent: 0,
            total_bytes_received: 0,
            total_bytes_sent: 0,
            total_errors: 0,
        }
    }
}

/// The UDP stack: the socket table, the id counter, and the pump that
/// demultiplexes received frames to sockets by destination port.
pub struct UdpStack {
    config: crate::Config,
    sockets: Vec<UdpSocket>,
    next_socket_id: u16,
    running: bool,
    stats: UdpStackStats,
}

impl UdpStack {
    pub closed spec fn spec_sockets(self) -> Seq<UdpSocket> {
        self.sockets@
    }

    pub closed spec fn spec_next_id(self) -> u16 {
        self.next_socket_id
    }

    pub closed spec fn spec_running(self) -> bool {
        self.running
    }

    pub closed spec fn spec_stats(self) -> UdpStackStats {
        self.stats
    }

    pub closed spec fn wf(self) -> bool {
        &&& forall|i: int| 0 <= i < self.sockets@.len() ==> (#[trigger] self.sockets@[i]).wf()
        &&& self.stats.active_sockets == self.sockets@.len()
        &&& self.next_socket_id >= 1
        &&& self.sockets@.len() < self.next_socket_id
    }

    /// Create an empty stack; socket ids start at 1.
    pub fn new(config: &crate::Config) -> (r: Result<Self, Error>)
        ensures
            r matches Ok(s) && s.wf() && s.spec_sockets().len() == 0 && s.spec_next_id() == 1
                && !s.spec_running() && s.spec_stats() == UdpStackStats::zero(),
    {
        Ok(
            UdpStack {
                config: config.clone(),
                sockets: Vec::new(),
                next_socket_id: 1,
                running: false,
                stats: UdpStackStats::default(),
            },
        )
    }

    /// Create a socket bound to `local_addr` with the default receive FIFO
    /// capacity of 1024, and insert it in the table. Fails exactly when
    /// the id space is used up.
    pub fn create_socket(&mut self, local_addr: SocketAddress) -> (r: Result<u16, Error>)
        requires
            old(self).wf(),
        ensures
            final(self).wf(),
            final(self).spec_running() == old(self).spec_running(),
            old(self).spec_next_id() == u16::MAX ==> (r matches Err(Error::NetworkError(_))
                && final(self).spec_sockets() == old(self).spec_sockets() && final(self).spec_stats() == old(self).spec_stats()),
            old(self).spec_next_id() < u16::MAX ==> (r matches Ok(id) && id == old(self).spec_next_id() && final(self).spec_next_id() == old(self).spec_next_id() + 1 && final(self).spec_sockets().len() == old(self).spec_sockets().len() + 1 && (forall|j: int|
                0 <= j < old(self).spec_sockets().len() ==> #[trigger] final(self).spec_sockets()[j]
                    == old(self).spec_sockets()[j]) && final(self).spec_sockets().last().spec_id()
                == id && final(self).spec_sockets().last().spec_local_addr() == local_addr && final(self).spec_sockets().last().spec_queue() == Seq::<usize>::empty() && final(self).spec_sockets().last().spec_stats() == UdpSocketStats::zero() && final(self).spec_stats() == (UdpStackStats {
                total_sockets: crate::wrap_add64(old(self).spec_stats().total_sockets, 1),
                active_sockets: crate::wrap_add64(old(self).spec_stats().active_sockets, 1),
                ..old(self).spec_stats()
            })),
    {
        if self.next_socket_id == 0xFFFF {
            return Err(Error::NetworkError("socket id space exhausted".to_owned()));
        }
        let socket_id = self.next_socket_id;
        self.next_socket_id = self.next_socket_id + 1;
        let socket = match UdpSocket::new(local_addr, 1024, socket_id) {
            Ok(s) => s,
            Err(e) => {
                proof {
                    assert(false);
                }
                return Err(e);
            },
        };
        self.sockets.push(socket);
        self.stats.total_sockets = crate::counter_add(self.stats.total_sockets, 1);
        self.stats.active_sockets = crate::counter_add(self.stats.active_sockets, 1);
        Ok(socket_id)
    }

    /// Get a socket by id (the first with that id).
    pub fn get_socket(&self, socket_id: u16) -> (r: Option<&UdpSocket>)
        ensures
            r matches Some(s) ==> exists|i: int|
                0 <= i < self.spec_sockets().len() && *s == self.spec_sockets()[i]
                    && s.spec_id() == socket_id,
            r is None ==> forall|i: int|
                0 <= i < self.spec_sockets().len() ==> (#[trigger] self.spec_sockets()[i]).spec_id() != socket_id,
    {
        let n = self.sockets.len();
        let mut i: usize = 0;
        let mut found: bool = false;
        while i < n && !found
            invariant
                i <= n,
                n == self.sockets@.len(),
                forall|j: int|
                    0 <= j < i ==> (#[trigger] self.sockets@[j]).spec_id() != socket_id,
                found ==> i < n && self.sockets@[i as int].spec_id() == socket_id,
            decreases n - i, (if found { 0int } else { 1int }),
        {
            if self.sockets[i].id() == socket_id {
                found = true;
            } else {
                i = i + 1;
            }
        }
        if found {
            let s = &self.sockets[i];
            proof {
                assert(i < self.spec_sockets().len());
                assert(*s == self.spec_sockets()[i as int]);
                assert(s.spec_id() == socket_id);
            }
            Some(s)
        } else {
            None
        }
    }

    /// Get a mutable socket by id (the first with that id).
    pub fn get_socket_mut(&mut self, socket_id: u16) -> (r: Option<&mut UdpSocket>)
        requires
            old(self).wf(),
        ensures
            r matches Some(s) ==> (exists|i: int|
                is_first_id_match(old(self).spec_sockets(), socket_id, i)),
            r matches Some(s) ==> (forall|i: int|
                is_first_id_match(old(self).spec_sockets(), socket_id, i) ==> *s == old(self).spec_sockets()[i] && s.spec_id() == socket_id && final(self).spec_sockets()
                    == old(self).spec_sockets().update(i, *final(s))),
            r matches Some(s) ==> final(self).spec_next_id() == old(self).spec_next_id() && final(self).spec_running() == old(self).spec_running() && final(self).spec_stats() == old(self).spec_stats() && final(self).spec_sockets().len() == old(self).spec_sockets().len()
                && (final(s).wf() ==> final(self).wf()),
            r is None ==> *final(self) == *old(self) && (forall|i: int|
                0 <= i < old(self).spec_sockets().len() ==> (#[trigger] old(self).spec_sockets()[i]).spec_id() != socket_id),
    {
        let n = self.sockets.len();
        let mut i: usize = 0;
        let mut found: bool = false;
        while i < n && !found
            invariant
                i <= n,
                n == self.sockets@.len(),
                *self == *old(self),
                forall|j: int|
                    0 <= j < i ==> (#[trigger] self.sockets@[j]).spec_id() != socket_id,
                found ==> i < n && self.sockets@[i as int].spec_id() == socket_id,
            decreases n - i, (if found { 0int } else { 1int }),
        {
            if self.sockets[i].id() == socket_id {
                found = true;
            } else {
                i = i + 1;
            }
        }
        if found {
            proof {
                assert(is_first_id_match(old(self).spec_sockets(), socket_id, i as int));
                assert forall|ii: int|
                    is_first_id_match(old(self).spec_sockets(), socket_id, ii) implies ii
                    == i as int by {
                    if ii < i as int {
                        assert(old(self).spec_sockets()[ii].spec_id() != socket_id);
                    } else if ii > i as int {
                        assert(old(self).spec_sockets()[i as int].spec_id() != socket_id);
                    }
                }
            }
            Some(&mut self.sockets[i])
        } else {
            None
        }
    }

    /// Close a socket: stop it and remove it from the table. Closing an
    /// unknown id is a no-op.
    pub fn close_socket(&mut self, socket_id: u16) -> (r: Result<(), Error>)
        requires
            old(self).wf(),
        ensures
            final(self).wf(),
            r matches Ok(()),
            final(self).spec_next_id() == old(self).spec_next_id(),
            final(self).spec_running() == old(self).spec_running(),
            (forall|i: int|
                0 <= i < old(self).spec_sockets().len() ==> (#[trigger] old(self).spec_sockets()[i]).spec_id() != socket_id) ==> (final(self).spec_sockets() == old(self).spec_sockets() && final(self).spec_stats() == old(self).spec_stats()),
            (exists|i: int|
                0 <= i < old(self).spec_sockets().len() && (#[trigger] old(self).spec_sockets()[i]).spec_id() == socket_id) ==> (final(self).spec_sockets().len() == old(self).spec_sockets().len() - 1 && final(self).spec_stats().active_sockets == old(self).spec_stats().active_sockets - 1),
    {
        let n = self.sockets.len();
        let mut i: usize = 0;
        while i < n
            invariant
                i <= n,
                n == self.sockets@.len(),
                old(self).wf(),
                self.wf(),
                *self == *old(self),
                forall|j: int|
                    0 <= j < i ==> (#[trigger] self.sockets@[j]).spec_id() != socket_id,
            decreases n - i,
        {
            if self.sockets[i].id() == socket_id {
                let s = &mut self.sockets[i];
                let _ = s.stop();
                let _ = self.sockets.remove(i);
                proof {
                    assert(old(self).spec_stats().active_sockets == old(self).spec_sockets().len());
                }
                self.stats.active_sockets = self.stats.active_sockets - 1;
                return Ok(());
            }
            i = i + 1;
        }
        Ok(())
    }

    /// Deliver one received mbuf: parse it, find the first socket bound to
    /// the destination port, and queue the mbuf there. A frame that does
    /// not parse or matches no socket releases the mbuf to the pool; a
    /// full socket FIFO counts one drop on that socket and releases the
    /// mbuf. Returns whether the frame parsed.
    #[verifier::rlimit(60)]
    pub fn process_one_rx(&mut self, mbuf: usize, pool: &mut MbufPool) -> (processed: bool)
        requires
            old(self).wf(),
            old(pool).wf(),
            mbuf < old(pool).spec_size(),
            !old(pool).spec_free().contains(mbuf),
            mbuf_unqueued(*old(self), mbuf),
            stack_pool_coherent(*old(self), *old(pool)),
        ensures
            final(self).wf(),
            final(pool).wf(),
            stack_pool_coherent(*final(self), *final(pool)),
            rx_delivery_step(*old(self), *old(pool), mbuf, *final(self), *final(pool)),
            forall|j: int|
                0 <= j < old(pool).spec_bufs().len() && j != mbuf ==> #[trigger] final(pool).spec_bufs()[j] == old(pool).spec_bufs()[j],
            forall|e: usize|
                old(pool).spec_free().contains(e) ==> final(pool).spec_free().contains(e),
            forall|e: usize|
                e != mbuf && !old(pool).spec_free().contains(e) ==> !final(pool).spec_free().contains(e),
            forall|e: usize| e != mbuf && mbuf_unqueued(*old(self), e) ==> mbuf_unqueued(
                *final(self),
                e,
            ),
            forall|e: usize| !mbuf_unqueued(*old(self), e) ==> !mbuf_unqueued(*final(self), e),
            final(pool).spec_free().contains(mbuf) || !mbuf_unqueued(*final(self), mbuf),
            processed == parse_ok(frame_of(old(pool).spec_bufs()[mbuf as int])),
    {
        proof {
            crate::memory::lemma_pool_bufs_wf(*old(pool));
        }
        let parsed = {
            let m = pool.buf(mbuf);
            UdpPacket::from_mbuf(mbuf, m)
        };
        let packet = match parsed {
            Ok(p) => p,
            Err(_) => {
                let ghost pre = *pool;
                let _ = pool.free(mbuf);
                proof {
                    crate::memory::lemma_free_step_contains(pre, *pool, mbuf);
                    lemma_coherence_after_free(*self, pre, *pool, mbuf);
                }
                return false;
            },
        };
        let dst_port = {
            let m = pool.buf(mbuf);
            packet.dst_addr(m).port
        };
        self.stats.total_packets_received = crate::counter_add(
            self.stats.total_packets_received,
            1,
        );
        let n = self.sockets.len();
        let mut i: usize = 0;
        let mut found: bool = false;
        while i < n && !found
            invariant
                i <= n,
                n == self.sockets@.len(),
                forall|j: int|
                    0 <= j < i ==> (#[trigger] self.sockets@[j]).spec_local_addr().port
                        != dst_port,
                found ==> i < n && is_first_match(self.sockets@, dst_port, i as int),
            decreases n - i, (if found { 0int } else { 1int }),
        {
            if self.sockets[i].local_addr().port == dst_port {
                found = true;
            } else {
                i = i + 1;
            }
        }
        if !found {
            proof {
                assert forall|k: int| !is_first_match(self.sockets@, dst_port, k) by {
                    if 0 <= k < self.sockets@.len() {
                        assert(self.sockets@[k].spec_local_addr().port != dst_port);
                    }
                }
            }
            let ghost pre = *pool;
            let _ = pool.free(mbuf);
            proof {
                assert(self.sockets@ == old(self).spec_sockets());
                assert(stack_pool_coherent(*self, pre));
                crate::memory::lemma_free_step_contains(pre, *pool, mbuf);
                lemma_coherence_after_free(*self, pre, *pool, mbuf);
            }
            return true;
        }
        let ghost sockets0 = old(self).spec_sockets();
        let mut dropped: bool = false;
        {
            let s = &mut self.sockets[i];
            let ghost s0 = *s;
            proof {
                s.recv_queue.lemma_occupancy_bounded();
            }
            let pushed = s.recv_queue.push(mbuf);
            match pushed {
                Ok(_) => {
                    proof {
                        assert(s.recv_queue@ == s0.recv_queue@.push(mbuf));
                    }
                },
                Err(_) => {
                    s.stats.packets_dropped = crate::counter_add(s.stats.packets_dropped, 1);
                    dropped = true;
                },
            }
        }
        proof {
            if !dropped {
                assert(self.sockets@[i as int].recv_queue@ == sockets0[i as int].recv_queue@.push(
                    mbuf,
                ));
            }
        }
        proof {
            assert(self.sockets@ =~= sockets0.update(i as int, self.sockets@[i as int]));
            assert forall|e: usize| !mbuf_unqueued(*old(self), e) implies !mbuf_unqueued(
                *self,
                e,
            ) by {
                let (ii, k) = choose|ii: int, k: int|
                    0 <= ii < sockets0.len() && 0 <= k < sockets0[ii].spec_queue().len()
                        && sockets0[ii].spec_queue()[k] == e;
                assert(self.spec_sockets()[ii].spec_queue()[k] == e);
            }
            assert forall|e: usize|
                e != mbuf && mbuf_unqueued(*old(self), e) implies mbuf_unqueued(*self, e) by {
                assert forall|ii: int, k: int|
                    0 <= ii < self.spec_sockets().len() && 0 <= k < self.spec_sockets()[ii].spec_queue().len() implies #[trigger] self.spec_sockets()[ii].spec_queue()[k]
                    != e by {
                    if ii == i as int && !dropped {
                        if k < sockets0[ii].spec_queue().len() {
                            assert(sockets0[ii].spec_queue()[k] != e);
                        } else {
                            assert(self.spec_sockets()[ii].spec_queue()[k] == mbuf);
                        }
                    } else {
                        assert(self.spec_sockets()[ii].spec_queue() == sockets0[ii].spec_queue());
                        assert(sockets0[ii].spec_queue()[k] != e);
                    }
                }
            }
        }
        if dropped {
            let ghost pre = *pool;
            let _ = pool.free(mbuf);
            proof {
                crate::memory::lemma_free_step_contains(pre, *pool, mbuf);
                assert forall|ii: int|
                    0 <= ii < self.spec_sockets().len() implies socket_queue_coherent(
                    #[trigger] self.spec_sockets()[ii],
                    *pool,
                ) by {
                    let sck = self.spec_sockets()[ii];
                    assert forall|k: int|
                        0 <= k < sck.spec_queue().len() implies (#[trigger] sck.spec_queue()[k])
                        < pool.spec_size() && !pool.spec_free().contains(sck.spec_queue()[k]) by {
                        let e = sck.spec_queue()[k];
                        assert(sck.spec_queue() == sockets0[ii].spec_queue());
                        assert(sockets0[ii].spec_queue()[k] != mbuf);
                        assert(e != mbuf);
                        assert(!pre.spec_free().contains(e));
                    }
                }
            }
            true
        } else {
            proof {
                assert(self.spec_sockets()[i as int].spec_queue()[sockets0[i as int].spec_queue().len() as int] == mbuf);
                assert(!mbuf_unqueued(*self, mbuf));
                assert forall|ii: int|
                    0 <= ii < self.spec_sockets().len() implies socket_queue_coherent(
                    #[trigger] self.spec_sockets()[ii],
                    *pool,
                ) by {
                    let sck = self.spec_sockets()[ii];
                    assert forall|k: int|
                        0 <= k < sck.spec_queue().len() implies (#[trigger] sck.spec_queue()[k])
                        < pool.spec_size() && !pool.spec_free().contains(sck.spec_queue()[k]) by {
                        if ii == i as int && k == sockets0[ii].spec_queue().len() {
                            assert(sck.spec_queue()[k] == mbuf);
                        } else {
                            assert(sck.spec_queue()[k] == sockets0[ii].spec_queue()[k]);
                        }
                    }
                }
            }
            true
        }
    }

    /// Pump up to 32 packets from the receive queue: each consumed mbuf
    /// goes through one `rx_delivery_step` in order (parse; deliver to the
    /// first socket bound to the destination port, in FIFO order; or count
    /// a drop and release on a full FIFO; or release on parse failure or
    /// no match), as `rx_delivery_steps` over the consumed prefix states.
    /// Returns how many of the consumed frames parsed; every consumed
    /// mbuf ends either on the pool freelist or in a socket's FIFO.
    pub fn process_rx_packets(&mut self, rx_queue: &mut crate::poll::RxQueue, pool: &mut MbufPool)
        -> (r: Result<usize, Error>)
        requires
            old(self).wf(),
            old(pool).wf(),
            old(rx_queue).wf(),
            stack_pool_coherent(*old(self), *old(pool)),
            crate::poll::rx_pool_coherent(*old(rx_queue), *old(pool)),
            rx_disjoint_from_sockets(*old(rx_queue), *old(self)),
        ensures
            final(self).wf(),
            final(pool).wf(),
            final(rx_queue).wf(),
            stack_pool_coherent(*final(self), *final(pool)),
            crate::poll::rx_pool_coherent(*final(rx_queue), *final(pool)),
            rx_disjoint_from_sockets(*final(rx_queue), *final(self)),
            final(pool).spec_size() == old(pool).spec_size(),
            final(pool).spec_buf_size() == old(pool).spec_buf_size(),
            final(self).spec_sockets().len() == old(self).spec_sockets().len(),
            final(self).spec_next_id() == old(self).spec_next_id(),
            final(self).spec_running() == old(self).spec_running(),
            final(rx_queue).spec_queue() == old(rx_queue).spec_queue().subrange(
                vstd::math::min(32, old(rx_queue).spec_queue().len() as int),
                old(rx_queue).spec_queue().len() as int,
            ),
            r matches Ok(n) && n == parse_ok_count(
                old(rx_queue).spec_queue(),
                old(pool).spec_bufs(),
                32,
            ),
            rx_delivery_steps(
                *old(self),
                *old(pool),
                old(rx_queue).spec_queue().subrange(
                    0,
                    vstd::math::min(32, old(rx_queue).spec_queue().len() as int),
                ),
                *final(self),
                *final(pool),
            ),
            forall|k: int|
                0 <= k < vstd::math::min(32, old(rx_queue).spec_queue().len() as int) ==> (final(pool).spec_free().contains(#[trigger] old(rx_queue).spec_queue()[k]) || !mbuf_unqueued(
                    *final(self),
                    old(rx_queue).spec_queue()[k],
                )),
    {
        let ghost q0 = old(rx_queue).spec_queue();
        let ghost bufs0 = old(pool).spec_bufs();
        let ghost consumed_total = vstd::math::min(32, q0.len() as int);
        let mut processed: usize = 0;
        let mut j: usize = 0;
        proof {
            crate::memory::lemma_pool_bufs_wf(*old(pool));
            lemma_parse_ok_count_bounds(q0, bufs0, 32);
            assert forall|k1: int, k2: int| 0 <= k1 < k2 < q0.len() implies #[trigger] q0[k1]
                != #[trigger] q0[k2] by {
                assert((old(rx_queue).spec_queue()[k1]) != (old(rx_queue).spec_queue()[k2]));
            }
            assert(q0.subrange(0, 0) =~= Seq::<usize>::empty());
            assert(rx_delivery_steps(*old(self), *old(pool), q0.subrange(0, 0), *self, *pool));
        }
        while j < 32
            invariant
                0 <= j <= 32,
                j as int <= q0.len(),
                j as int <= consumed_total,
                consumed_total == vstd::math::min(32, q0.len() as int),
                q0 == old(rx_queue).spec_queue(),
                bufs0 == old(pool).spec_bufs(),
                forall|k1: int, k2: int|
                    0 <= k1 < k2 < q0.len() ==> #[trigger] q0[k1] != #[trigger] q0[k2],
                forall|k: int|
                    0 <= k < q0.len() ==> (#[trigger] q0[k]) < old(pool).spec_size(),
                bufs0.len() == old(pool).spec_size(),
                self.wf(),
                pool.wf(),
                rx_queue.wf(),
                stack_pool_coherent(*self, *pool),
                crate::poll::rx_pool_coherent(*rx_queue, *pool),
                rx_disjoint_from_sockets(*rx_queue, *self),
                pool.spec_size() == old(pool).spec_size(),
                pool.spec_buf_size() == old(pool).spec_buf_size(),
                pool.spec_bufs().len() == bufs0.len(),
                self.spec_sockets().len() == old(self).spec_sockets().len(),
                self.spec_next_id() == old(self).spec_next_id(),
                self.spec_running() == old(self).spec_running(),
                rx_queue.spec_id() == old(rx_queue).spec_id(),
                rx_queue.spec_stats() == old(rx_queue).spec_stats(),
                rx_queue.spec_running() == old(rx_queue).spec_running(),
                rx_queue.spec_capacity() == old(rx_queue).spec_capacity(),
                rx_queue.spec_queue() == q0.subrange(j as int, q0.len() as int),
                processed == parse_ok_count(q0, bufs0, j as int),
                processed <= j,
                rx_delivery_steps(*old(self), *old(pool), q0.subrange(0, j as int), *self, *pool),
                forall|k: int|
                    j <= k < q0.len() ==> #[trigger] pool.spec_bufs()[q0[k] as int] == bufs0[q0[k] as int],
                forall|k: int|
                    0 <= k < vstd::math::min(j as int, q0.len() as int) ==> (#[trigger] pool.spec_free().contains(
                        q0[k],
                    ) || !mbuf_unqueued(*self, q0[k])),
            decreases 32 - j,
        {
            let got = rx_queue.recv();
            let mbuf = match got {
                Ok(e) => e,
                Err(_) => {
                    proof {
                        assert(rx_queue.spec_queue().len() == 0);
                        assert(j as int == q0.len());
                        assert(consumed_total == q0.len());
                        lemma_parse_ok_count_at_end(q0, bufs0, j as int, 32);
                        assert(q0.subrange(consumed_total, q0.len() as int)
                            =~= rx_queue.spec_queue());
                        assert forall|k: int| 0 <= k < consumed_total implies (
                        pool.spec_free().contains(#[trigger] old(rx_queue).spec_queue()[k])
                            || !mbuf_unqueued(*self, old(rx_queue).spec_queue()[k])) by {
                            assert(pool.spec_free().contains(q0[k]) || !mbuf_unqueued(
                                *self,
                                q0[k],
                            ));
                        }
                    }
                    return Ok(processed);
                },
            };
            proof {
                assert(j < q0.len());
                assert(mbuf == q0[j as int]);
                assert(rx_queue.spec_queue() =~= q0.subrange(j as int + 1, q0.len() as int));
                assert(pool.spec_bufs()[mbuf as int] == bufs0[mbuf as int]);
                lemma_parse_ok_count_step(q0, bufs0, j as int);
            }
            let ghost self_before = *self;
            let ghost pool_before = *pool;
            let one = self.process_one_rx(mbuf, pool);
            if one {
                processed = processed + 1;
            }
            proof {
                lemma_parse_ok_count_bounds(q0, bufs0, j as int + 1);
                lemma_rx_delivery_steps_snoc(
                    *old(self),
                    *old(pool),
                    q0.subrange(0, j as int),
                    self_before,
                    pool_before,
                    mbuf,
                    *self,
                    *pool,
                );
                assert(q0.subrange(0, j as int).push(q0[j as int]) =~= q0.subrange(
                    0,
                    j as int + 1,
                ));
            }
            proof {
                assert forall|k: int| j + 1 <= k < q0.len() implies #[trigger] pool.spec_bufs()[q0[k] as int] == bufs0[q0[k] as int] by {
                    assert(q0[j as int] != q0[k]);
                    assert(q0[k] != mbuf);
                    assert((q0[k] as int) < pool_before.spec_bufs().len());
                    assert(pool_before.spec_bufs()[q0[k] as int] == bufs0[q0[k] as int]);
                }
                assert forall|k: int|
                    0 <= k < vstd::math::min(j as int + 1, q0.len() as int) implies (
                    #[trigger] pool.spec_free().contains(q0[k]) || !mbuf_unqueued(
                        *self,
                        q0[k],
                    )) by {
                    if k < j {
                        if pool_before.spec_free().contains(q0[k]) {
                            assert(pool.spec_free().contains(q0[k]));
                        } else {
                            assert(!mbuf_unqueued(self_before, q0[k]));
                            assert(q0[k] != mbuf);
                        }
                    }
                }
                assert forall|k: int|
                    0 <= k < rx_queue.spec_queue().len() implies mbuf_unqueued(
                    *self,
                    #[trigger] rx_queue.spec_queue()[k],
                ) by {
                    let e = rx_queue.spec_queue()[k];
                    assert(e == q0[j + 1 + k]);
                    assert(mbuf_unqueued(self_before, e));
                    assert(q0[j as int] != q0[j + 1 + k]);
                    assert(e != mbuf);
                }
            }
            j = j + 1;
        }
        proof {
            assert(j == 32);
            assert(consumed_total == 32);
            assert(parse_ok_count(q0, bufs0, 32) == processed);
            assert(q0.subrange(consumed_total, q0.len() as int) =~= rx_queue.spec_queue());
            assert forall|k: int| 0 <= k < consumed_total implies (pool.spec_free().contains(
                #[trigger] old(rx_queue).spec_queue()[k],
            ) || !mbuf_unqueued(*self, old(rx_queue).spec_queue()[k])) by {
                assert(pool.spec_free().contains(q0[k]) || !mbuf_unqueued(*self, q0[k]));
            }
        }
        Ok(processed)
    }

    /// Start the UDP stack and all its sockets.
    pub fn start(&mut self) -> (r: Result<(), Error>)
        requires
            old(self).wf(),
        ensures
            final(self).wf(),
            r matches Ok(()),
            final(self).spec_running(),
            final(self).spec_sockets().len() == old(self).spec_sockets().len(),
            final(self).spec_next_id() == old(self).spec_next_id(),
            final(self).spec_stats() == old(self).spec_stats(),
            forall|i: int|
                0 <= i < final(self).spec_sockets().len() ==> (#[trigger] final(self).spec_sockets()[i]).spec_running() && final(self).spec_sockets()[i].spec_queue()
                    == old(self).spec_sockets()[i].spec_queue() && final(self).spec_sockets()[i].spec_stats() == old(self).spec_sockets()[i].spec_stats() && final(self).spec_sockets()[i].spec_id() == old(self).spec_sockets()[i].spec_id(),
    {
        self.running = true;
        let n = self.sockets.len();
        let mut i: usize = 0;
        while i < n
            invariant
                i <= n,
                n == self.sockets@.len(),
                old(self).wf(),
                self.wf(),
                self.sockets@.len() == old(self).spec_sockets().len(),
                self.next_socket_id == old(self).spec_next_id(),
                self.stats == old(self).spec_stats(),
                self.running,
                forall|k: int|
                    0 <= k < i ==> (#[trigger] self.sockets@[k]).spec_running()
                        && self.sockets@[k].spec_queue() == old(self).spec_sockets()[k].spec_queue() && self.sockets@[k].spec_stats() == old(self).spec_sockets()[k].spec_stats() && self.sockets@[k].spec_id() == old(self).spec_sockets()[k].spec_id(),
                forall|k: int|
                    i <= k < n ==> #[trigger] self.sockets@[k] == old(self).spec_sockets()[k],
            decreases n - i,
        {
            let s = &mut self.sockets[i];
            let _ = s.start();
            i = i + 1;
        }
        Ok(())
    }

    /// Stop the UDP stack and all its sockets.
    pub fn stop(&mut self) -> (r: Result<(), Error>)
        requires
            old(self).wf(),
        ensures
            final(self).wf(),
            r matches Ok(()),
            !final(self).spec_running(),
            final(self).spec_sockets().len() == old(self).spec_sockets().len(),
            final(self).spec_next_id() == old(self).spec_next_id(),
            final(self).spec_stats() == old(self).spec_stats(),
            forall|i: int|
                0 <= i < final(self).spec_sockets().len() ==> !(#[trigger] final(self).spec_sockets()[i]).spec_running() && final(self).spec_sockets()[i].spec_queue()
                    == old(self).spec_sockets()[i].spec_queue() && final(self).spec_sockets()[i].spec_stats() == old(self).spec_sockets()[i].spec_stats(),
    {
        self.running = false;
        let n = self.sockets.len();
        let mut i: usize = 0;
        while i < n
            invariant
                i <= n,
                n == self.sockets@.len(),
                old(self).wf(),
                self.wf(),
                self.sockets@.len() == old(self).spec_sockets().len(),
                self.next_socket_id == old(self).spec_next_id(),
                self.stats == old(self).spec_stats(),
                !self.running,
                forall|k: int|
                    0 <= k < i ==> !(#[trigger] self.sockets@[k]).spec_running()
                        && self.sockets@[k].spec_queue() == old(self).spec_sockets()[k].spec_queue() && self.sockets@[k].spec_stats() == old(self).spec_sockets()[k].spec_stats(),
                forall|k: int|
                    i <= k < n ==> #[trigger] self.sockets@[k] == old(self).spec_sockets()[k],
            decreases n - i,
        {
            let s = &mut self.sockets[i];
            let _ = s.stop();
            i = i + 1;
        }
        Ok(())
    }

    /// Stack statistics: the stack's own counters, and the socket counters
    /// summed (wrapping at 2^64 like the counters themselves).
    pub fn stats(&self) -> (r: UdpStackStatsView)
        requires
            self.wf(),
        ensures
            r.total_sockets == self.spec_stats().total_sockets,
            r.active_sockets == self.spec_stats().active_sockets,
            r.total_packets_received == self.spec_stats().total_packets_received,
            r.total_packets_sent == self.spec_stats().total_packets_sent,
            r.total_bytes_received == self.spec_stats().total_bytes_received,
            r.total_bytes_sent == self.spec_stats().total_bytes_sent,
            r.total_errors == self.spec_stats().total_errors,
            r.socket_stats == crate::wrap_add64(
                0,
                sum_by(self.spec_sockets(), |s: UdpSocket| s.spec_stats().packets_received),
            ),
            r.socket_bytes_rx == crate::wrap_add64(
                0,
                sum_by(self.spec_sockets(), |s: UdpSocket| s.spec_stats().bytes_received),
            ),
            r.socket_bytes_tx == crate::wrap_add64(
                0,
                sum_by(self.spec_sockets(), |s: UdpSocket| s.spec_stats().bytes_sent),
            ),
            r.socket_errors == crate::wrap_add64(
                0,
                sum_by(self.spec_sockets(), |s: UdpSocket| s.spec_stats().errors),
            ),
    {
        let ghost frx = |s: UdpSocket| s.spec_stats().packets_received;
        let ghost fbrx = |s: UdpSocket| s.spec_stats().bytes_received;
        let ghost fbtx = |s: UdpSocket| s.spec_stats().bytes_sent;
        let ghost ferr = |s: UdpSocket| s.spec_stats().errors;
        let mut total_rx_packets: u64 = 0;
        let mut total_rx_bytes: u64 = 0;
        let mut total_tx_bytes: u64 = 0;
        let mut total_errors: u64 = 0;
        let n = self.sockets.len();
        let mut i: usize = 0;
        while i < n
            invariant
                i <= n,
                n == self.sockets@.len(),
                total_rx_packets == crate::wrap_add64(
                    0,
                    sum_by(self.sockets@.subrange(0, i as int), frx),
                ),
                total_rx_bytes == crate::wrap_add64(
                    0,
                    sum_by(self.sockets@.subrange(0, i as int), fbrx),
                ),
                total_tx_bytes == crate::wrap_add64(
                    0,
                    sum_by(self.sockets@.subrange(0, i as int), fbtx),
                ),
                total_errors == crate::wrap_add64(
                    0,
                    sum_by(self.sockets@.subrange(0, i as int), ferr),
                ),
                frx == (|s: UdpSocket| s.spec_stats().packets_received),
                fbrx == (|s: UdpSocket| s.spec_stats().bytes_received),
                fbtx == (|s: UdpSocket| s.spec_stats().bytes_sent),
                ferr == (|s: UdpSocket| s.spec_stats().errors),
            decreases n - i,
        {
            let s = &self.sockets[i];
            proof {
                lemma_sum_by_snoc(self.sockets@, frx, i as int);
                lemma_sum_by_snoc(self.sockets@, fbrx, i as int);
                lemma_sum_by_snoc(self.sockets@, fbtx, i as int);
                lemma_sum_by_snoc(self.sockets@, ferr, i as int);
                lemma_sum_by_nonneg(self.sockets@.subrange(0, i as int), frx);
                lemma_sum_by_nonneg(self.sockets@.subrange(0, i as int), fbrx);
                lemma_sum_by_nonneg(self.sockets@.subrange(0, i as int), fbtx);
                lemma_sum_by_nonneg(self.sockets@.subrange(0, i as int), ferr);
                crate::lemma_wrap_add64_assoc(
                    0,
                    sum_by(self.sockets@.subrange(0, i as int), frx),
                    frx(self.sockets@[i as int]) as int,
                );
                crate::lemma_wrap_add64_assoc(
                    0,
                    sum_by(self.sockets@.subrange(0, i as int), fbrx),
                    fbrx(self.sockets@[i as int]) as int,
                );
                crate::lemma_wrap_add64_assoc(
                    0,
                    sum_by(self.sockets@.subrange(0, i as int), fbtx),
                    fbtx(self.sockets@[i as int]) as int,
                );
                crate::lemma_wrap_add64_assoc(
                    0,
                    sum_by(self.sockets@.subrange(0, i as int), ferr),
                    ferr(self.sockets@[i as int]) as int,
                );
            }
            total_rx_packets = crate::counter_add(total_rx_packets, s.stats.packets_received);
            total_rx_bytes = crate::counter_add(total_rx_bytes, s.stats.bytes_received);
            total_tx_bytes = crate::counter_add(total_tx_bytes, s.stats.bytes_sent);
            total_errors = crate::counter_add(total_errors, s.stats.errors);
            i = i + 1;
        }
        proof {
            assert(self.sockets@.subrange(0, n as int) =~= self.sockets@);
        }
        UdpStackStatsView {
            total_sockets: self.stats.total_sockets,
            active_sockets: self.stats.active_sockets,
            total_packets_received: self.stats.total_packets_received,
            total_packets_sent: self.stats.total_packets_sent,
            total_bytes_received: self.stats.total_bytes_received,
            total_bytes_sent: self.stats.total_bytes_sent,
            total_errors: self.stats.total_errors,
            socket_stats: total_rx_packets,
            socket_bytes_rx: total_rx_bytes,
            socket_bytes_tx: total_tx_bytes,
            socket_errors: total_errors,
        }
    }
}


/// The field-sum of socket counters, as an unbounded integer.
pub open spec fn sum_by(sockets: Seq<UdpSocket>, f: spec_fn(UdpSocket) -> u64) -> int
    decreases sockets.len(),
{
    if sockets.len() == 0 {
        0
    } else {
        f(sockets[0]) + sum_by(sockets.subrange(1, sockets.len() as int), f)
    }
}

/// One more socket adds its counter to the prefix sum.
proof fn lemma_sum_by_snoc(sockets: Seq<UdpSocket>, f: spec_fn(UdpSocket) -> u64, j: int)
    requires
        0 <= j < sockets.len(),
    ensures
        sum_by(sockets.subrange(0, j + 1), f) == sum_by(sockets.subrange(0, j), f) + f(
            sockets[j],
        ),
    decreases j,
{
    let pre1 = sockets.subrange(0, j + 1);
    let pre0 = sockets.subrange(0, j);
    if j == 0 {
        assert(pre1.len() == 1);
        assert(sum_by(pre1, f) == f(pre1[0]) + sum_by(pre1.subrange(1, 1), f));
        assert(pre1.subrange(1, 1).len() == 0);
    } else {
        let tail = sockets.subrange(1, sockets.len() as int);
        lemma_sum_by_snoc(tail, f, j - 1);
        assert(pre1.subrange(1, j + 1) =~= tail.subrange(0, j));
        assert(pre0.subrange(1, j) =~= tail.subrange(0, j - 1));
        assert(sum_by(pre1, f) == f(sockets[0]) + sum_by(tail.subrange(0, j), f));
        assert(sum_by(pre0, f) == f(sockets[0]) + sum_by(tail.subrange(0, j - 1), f));
        assert(tail[j - 1] == sockets[j]);
    }
}

/// Sums of non-negative counters are non-negative.
proof fn lemma_sum_by_nonneg(sockets: Seq<UdpSocket>, f: spec_fn(UdpSocket) -> u64)
    ensures
        sum_by(sockets, f) >= 0,
    decreases sockets.len(),
{
    if sockets.len() > 0 {
        lemma_sum_by_nonneg(sockets.subrange(1, sockets.len() as int), f);
    }
}

/// UDP stack statistics view: the stack's own counters beside wrapped sums
/// of the per-socket counters.
#[derive(Debug, Clone, Copy, PartialEq, Eq, Structural)]
pub struct UdpStackStatsView {
    pub total_sockets: u64,
    pub active_sockets: u64,
    pub total_packets_received: u64,
    pub total_packets_sent: u64,
    pub total_bytes_received: u64,
    pub total_bytes_sent: u64,
    pub total_errors: u64,
    pub socket_stats: u64,
    pub socket_bytes_rx: u64,
    pub socket_bytes_tx: u64,
    pub socket_errors: u64,
}

/// The remaining count when the queue is already drained.
proof fn lemma_parse_ok_count_at_end(q: Seq<usize>, bufs: Seq<Mbuf>, j: int, limit: int)
    requires
        0 <= j <= limit,
        q.len() <= j,
    ensures
        parse_ok_count(q, bufs, limit) == parse_ok_count(q, bufs, j),
    decreases j,
{
    if j > 0 && q.len() > 0 {
        lemma_parse_ok_count_at_end(q.subrange(1, q.len() as int), bufs, j - 1, limit - 1);
    } else if q.len() == 0 {
    }
}

} // verus!

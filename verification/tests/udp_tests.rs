use xpdk::memory::{Mbuf, MbufPool};
use xpdk::poll::RxQueue;
use xpdk::udp::{
    EthernetHeader, Ipv4Address, Ipv4Header, ParseError, SocketAddress, UdpHeader, UdpPacket,
    UdpStack,
};
use xpdk::{Config, Error};

fn addr(a: u8, b: u8, c: u8, d: u8, port: u16) -> SocketAddress {
    SocketAddress { ip: Ipv4Address { octets: [a, b, c, d] }, port }
}

/// An Ethernet/IPv4/UDP frame with the given endpoints and payload.
fn build_udp_frame(
    src_ip: [u8; 4],
    dst_ip: [u8; 4],
    src_port: u16,
    dst_port: u16,
    protocol: u8,
    payload: &[u8],
) -> Vec<u8> {
    let mut frame = Vec::new();
    // Ethernet: dst MAC, src MAC, EtherType 0x0800
    frame.extend_from_slice(&[0x02, 0, 0, 0, 0, 1]);
    frame.extend_from_slice(&[0x02, 0, 0, 0, 0, 2]);
    frame.extend_from_slice(&[0x08, 0x00]);
    // IPv4: ihl 5, total length 20 + 8 + payload
    let total_len = (20 + 8 + payload.len()) as u16;
    frame.push(0x45);
    frame.push(0);
    frame.extend_from_slice(&total_len.to_be_bytes());
    frame.extend_from_slice(&[0, 0, 0x40, 0, 64]);
    frame.push(protocol);
    frame.extend_from_slice(&[0, 0]);
    frame.extend_from_slice(&src_ip);
    frame.extend_from_slice(&dst_ip);
    // UDP: ports, length 8 + payload, checksum 0
    frame.extend_from_slice(&src_port.to_be_bytes());
    frame.extend_from_slice(&dst_port.to_be_bytes());
    frame.extend_from_slice(&((8 + payload.len()) as u16).to_be_bytes());
    frame.extend_from_slice(&[0, 0]);
    frame.extend_from_slice(payload);
    frame
}

fn mbuf_with(frame: &[u8]) -> Mbuf {
    let mut m = Mbuf::new(2048);
    m.append(frame).unwrap();
    m
}

#[test]
fn test_udp_header() {
    let header = UdpHeader::new(8080, 53, 512);
    assert_eq!(header.src_port(), 8080);
    assert_eq!(header.dst_port(), 53);
    assert_eq!(header.length(), 512);
}

#[test]
fn test_ipv4_header() {
    let src = Ipv4Address { octets: [192, 168, 1, 1] };
    let dst = Ipv4Address { octets: [192, 168, 1, 2] };
    let header = Ipv4Header::new(src, dst, 512);

    assert_eq!(header.src_addr(), src);
    assert_eq!(header.dst_addr(), dst);
    assert_eq!(header.protocol(), 17);
}

#[test]
fn ethernet_header_round_trip() {
    let h = EthernetHeader::new([1, 2, 3, 4, 5, 6], [7, 8, 9, 10, 11, 12], 0x0800);
    assert_eq!(h.ether_type(), 0x0800);
    assert_eq!(h.src_mac, [1, 2, 3, 4, 5, 6]);
    assert_eq!(h.dst_mac, [7, 8, 9, 10, 11, 12]);
}

#[test]
fn test_udp_stack_creation() {
    let config = Config::default();
    let stack = UdpStack::new(&config).unwrap();
    assert_eq!(stack.stats().total_sockets, 0);
}

#[test]
fn test_socket_creation() {
    let config = Config::default();
    let mut stack = UdpStack::new(&config).unwrap();

    let local_addr = addr(127, 0, 0, 1, 8080);
    let socket_id = stack.create_socket(local_addr).unwrap();

    assert!(socket_id > 0);
    assert_eq!(stack.stats().total_sockets, 1);
}

#[test]
fn parser_happy_path() {
    let frame = build_udp_frame(
        [192, 168, 1, 1],
        [192, 168, 1, 2],
        8080,
        53,
        17,
        &[0x41, 0x42, 0x43, 0x44, 0x45],
    );
    let m = mbuf_with(&frame);
    let packet = UdpPacket::from_mbuf(0, &m).unwrap();
    let src = packet.src_addr(&m);
    let dst = packet.dst_addr(&m);
    assert_eq!(src.ip.octets, [192, 168, 1, 1]);
    assert_eq!(src.port, 8080);
    assert_eq!(dst.ip.octets, [192, 168, 1, 2]);
    assert_eq!(dst.port, 53);
    assert_eq!(packet.payload(&m), b"ABCDE");
    let uh = packet.udp_header(&m);
    assert_eq!(uh.src_port(), 8080);
    assert_eq!(uh.dst_port(), 53);
    assert_eq!(uh.length(), 13);
    let ih = packet.ipv4_header(&m);
    assert_eq!(ih.protocol(), 17);
    assert_eq!(ih.src_addr().octets, [192, 168, 1, 1]);
    let eh = packet.ethernet_header(&m);
    assert_eq!(eh.ether_type(), 0x0800);
}

#[test]
fn parser_rejects_non_udp() {
    let frame = build_udp_frame(
        [192, 168, 1, 1],
        [192, 168, 1, 2],
        8080,
        53,
        6,
        &[0x41, 0x42, 0x43, 0x44, 0x45],
    );
    let m = mbuf_with(&frame);
    assert_eq!(UdpPacket::from_mbuf(0, &m), Err(ParseError::NotUdp));
}

#[test]
fn parser_rejects_empty_frame_as_short() {
    let m = Mbuf::new(64);
    assert_eq!(UdpPacket::from_mbuf(0, &m), Err(ParseError::Short));
}

#[test]
fn parser_rejects_non_ipv4_ethertype() {
    let mut frame = build_udp_frame([1, 1, 1, 1], [2, 2, 2, 2], 1, 2, 17, b"x");
    frame[12] = 0x86;
    frame[13] = 0xdd;
    let m = mbuf_with(&frame);
    assert_eq!(UdpPacket::from_mbuf(0, &m), Err(ParseError::NotIpv4));
}

#[test]
fn parser_rejects_truncated_ipv4_as_short() {
    let frame = build_udp_frame([1, 1, 1, 1], [2, 2, 2, 2], 1, 2, 17, b"x");
    let m = mbuf_with(&frame[..20]);
    assert_eq!(UdpPacket::from_mbuf(0, &m), Err(ParseError::Short));
}

#[test]
fn socket_send_fails_without_bound_tx_queue() {
    let config = Config::default();
    let mut stack = UdpStack::new(&config).unwrap();
    let id = stack.create_socket(addr(127, 0, 0, 1, 9000)).unwrap();
    let socket = stack.get_socket(id).unwrap();
    let r = socket.send(addr(10, 0, 0, 1, 9001), b"hello");
    assert!(matches!(r, Err(Error::NetworkError(_))));
}

#[test]
fn socket_recv_on_empty_fifo_reports_no_packet() {
    let pool = MbufPool::new("p".to_string(), 4, 2048).unwrap();
    let config = Config::default();
    let mut stack = UdpStack::new(&config).unwrap();
    let id = stack.create_socket(addr(127, 0, 0, 1, 9000)).unwrap();
    let socket = stack.get_socket_mut(id).unwrap();
    assert!(matches!(socket.recv(&pool), Err(Error::NetworkError(_))));
}

#[test]
fn stack_demultiplexes_by_destination_port() {
    let mut pool = MbufPool::new("p".to_string(), 16, 2048).unwrap();
    let mut rx = RxQueue::new(0, 16).unwrap();
    let config = Config::default();
    let mut stack = UdpStack::new(&config).unwrap();
    let id53 = stack.create_socket(addr(127, 0, 0, 1, 53)).unwrap();
    let id8080 = stack.create_socket(addr(127, 0, 0, 1, 8080)).unwrap();

    let frame_a = build_udp_frame([10, 0, 0, 1], [127, 0, 0, 1], 40000, 8080, 17, b"first");
    let frame_b = build_udp_frame([10, 0, 0, 2], [127, 0, 0, 1], 40001, 53, 17, b"second");
    rx.deliver_frame(&mut pool, &frame_a, 1, 0).unwrap();
    rx.deliver_frame(&mut pool, &frame_b, 2, 0).unwrap();

    let processed = stack.process_rx_packets(&mut rx, &mut pool).unwrap();
    assert_eq!(processed, 2);

    let s8080 = stack.get_socket_mut(id8080).unwrap();
    let p1 = s8080.recv(&pool).unwrap();
    assert_eq!(p1.payload(pool.buf(p1.mbuf)), b"first");
    assert!(matches!(s8080.recv(&pool), Err(Error::NetworkError(_))));

    let s53 = stack.get_socket_mut(id53).unwrap();
    let p2 = s53.recv(&pool).unwrap();
    assert_eq!(p2.payload(pool.buf(p2.mbuf)), b"second");
    assert!(matches!(s53.recv(&pool), Err(Error::NetworkError(_))));
}

#[test]
fn pump_releases_unparsable_and_unmatched_frames_to_pool() {
    let mut pool = MbufPool::new("p".to_string(), 8, 2048).unwrap();
    let mut rx = RxQueue::new(0, 8).unwrap();
    let config = Config::default();
    let mut stack = UdpStack::new(&config).unwrap();

    // A frame that is not UDP, and a UDP frame that matches no socket.
    let bad = build_udp_frame([1, 1, 1, 1], [2, 2, 2, 2], 1, 2, 6, b"x");
    let unmatched = build_udp_frame([1, 1, 1, 1], [2, 2, 2, 2], 1, 4444, 17, b"y");
    rx.deliver_frame(&mut pool, &bad, 0, 0).unwrap();
    rx.deliver_frame(&mut pool, &unmatched, 0, 0).unwrap();
    assert_eq!(pool.stats().available, 6);

    let processed = stack.process_rx_packets(&mut rx, &mut pool).unwrap();
    assert_eq!(processed, 1);
    assert_eq!(pool.stats().available, 8);
}

#[test]
fn socket_close_is_removed_and_unknown_close_is_noop() {
    let config = Config::default();
    let mut stack = UdpStack::new(&config).unwrap();
    let id = stack.create_socket(addr(127, 0, 0, 1, 1234)).unwrap();
    assert_eq!(stack.stats().active_sockets, 1);
    stack.close_socket(id).unwrap();
    assert_eq!(stack.stats().active_sockets, 0);
    assert!(stack.get_socket(id).is_none());
    stack.close_socket(9999).unwrap();
    assert_eq!(stack.stats().active_sockets, 0);
}

#[test]
fn recv_batch_stops_at_empty_fifo() {
    let mut pool = MbufPool::new("p".to_string(), 8, 2048).unwrap();
    let mut rx = RxQueue::new(0, 8).unwrap();
    let config = Config::default();
    let mut stack = UdpStack::new(&config).unwrap();
    let id = stack.create_socket(addr(127, 0, 0, 1, 7)).unwrap();
    let frame = build_udp_frame([9, 9, 9, 9], [127, 0, 0, 1], 5, 7, 17, b"pp");
    rx.deliver_frame(&mut pool, &frame, 0, 0).unwrap();
    rx.deliver_frame(&mut pool, &frame, 0, 0).unwrap();
    stack.process_rx_packets(&mut rx, &mut pool).unwrap();

    let socket = stack.get_socket_mut(id).unwrap();
    let mut out = vec![UdpPacket { mbuf: 0, eth_offset: 0, ip_offset: 0, udp_offset: 0, payload_offset: 0 }; 4];
    let n = socket.recv_batch(&pool, &mut out, 4).unwrap();
    assert_eq!(n, 2);
    assert_eq!(out[0].payload(pool.buf(out[0].mbuf)), b"pp");
    assert_eq!(socket.stats().packets_received, 2);
    assert_eq!(socket.stats().bytes_received, 4);
}

use xpdk::memory::{Mbuf, OFFLOAD_FLAG_RSS_HASH};
use xpdk::utils::offload::{
    generate_crc32_table, ChecksumCalculator, ChecksumType, OffloadCapabilities, OffloadManager,
    RssHashCalculator, RssHashFunction,
};

#[test]
fn test_checksum_calculator() {
    let mut calculator = ChecksumCalculator::new(false);

    // Test IPv4 checksum
    let ipv4_header = vec![
        0x45, 0x00, 0x00, 0x28, // Version, IHL, Type of Service, Total Length
        0x00, 0x00, 0x40, 0x00, // Identification, Flags, Fragment Offset
        0x40, 0x11, 0x00, 0x00, // TTL, Protocol, Checksum (0 for calculation)
        0x7f, 0x00, 0x00, 0x01, // Source IP
        0x7f, 0x00, 0x00, 0x01, // Destination IP
    ];

    let checksum = calculator.ipv4_checksum(&ipv4_header).unwrap();
    assert!(checksum > 0);
    assert_eq!(checksum, 0x3CC3);
}

#[test]
fn ipv4_checksum_rejects_short_header() {
    let mut calculator = ChecksumCalculator::new(false);
    let r = calculator.ipv4_checksum(&[0u8; 10]);
    assert!(matches!(r, Err(xpdk::Error::OffloadError(_))));
}

#[test]
fn udp_checksum_includes_pseudo_header() {
    let mut calculator = ChecksumCalculator::new(false);
    let data = [0u8; 8];
    let a = calculator.udp_checksum(&data, [127, 0, 0, 1], [127, 0, 0, 2]).unwrap();
    let b = calculator.udp_checksum(&data, [127, 0, 0, 1], [127, 0, 0, 3]).unwrap();
    assert_ne!(a, b);
    // sum = 0x7f00 + 0x0001 + 0x7f00 + 0x0002 + 17 + 8 = 0xFE1C; ~ = 0x01E3
    assert_eq!(a, 0x01E3);
    let stats = calculator.stats();
    assert_eq!(stats.calculated, 2);
    assert_eq!(stats.software_fallback, 2);
}

#[test]
fn test_rss_hash_calculator() {
    let mut calculator = RssHashCalculator::new(RssHashFunction::SimpleXor);

    let packet_data = vec![1u8; 64];
    let hash = calculator.calculate(&packet_data).unwrap();
    assert!(hash > 0);
}

#[test]
fn xor_hash_is_exact_on_a_known_word() {
    let mut calculator = RssHashCalculator::new(RssHashFunction::SimpleXor);
    // One little-endian word 0x04030201 and a padded remainder 0x0605.
    let hash = calculator.calculate(&[1, 2, 3, 4, 5, 6]).unwrap();
    assert_eq!(hash, 0x04030201 ^ 0x0605);
}

#[test]
fn crc32_hash_matches_the_known_check_value() {
    let mut calculator = RssHashCalculator::new(RssHashFunction::CRC32);
    // The standard CRC-32 check value for "123456789".
    let hash = calculator.calculate(b"123456789").unwrap();
    assert_eq!(hash, 0xCBF43926);
}

#[test]
fn toeplitz_hash_depends_on_the_data() {
    let mut calculator = RssHashCalculator::new(RssHashFunction::Toeplitz);
    let a = calculator.calculate(&[1, 2, 3, 4]).unwrap();
    let b = calculator.calculate(&[4, 3, 2, 1]).unwrap();
    assert_ne!(a, b);
}

#[test]
fn test_offload_manager() {
    let capabilities = OffloadCapabilities::default();
    let manager = OffloadManager::new(capabilities);

    assert!(manager.capabilities().checksum);
    assert!(manager.capabilities().rss);
}

#[test]
fn test_crc32_table() {
    let table = generate_crc32_table();
    assert_eq!(table.len(), 256);
    // table[0] is actually 0 for standard CRC32 table initialization
    // Check that table is properly initialized by verifying non-zero entries exist
    assert!(
        table.iter().any(|&v| v != 0),
        "CRC32 table should have non-zero entries"
    );
}

#[test]
fn process_packet_sets_the_rss_flag() {
    let capabilities = OffloadCapabilities::default();
    let mut manager = OffloadManager::new(capabilities);
    let mut m = Mbuf::new(256);
    m.append(&[1, 2, 3, 4, 5, 6, 7, 8]).unwrap();
    manager.process_packet(&mut m).unwrap();
    assert_eq!(m.offload_flags & OFFLOAD_FLAG_RSS_HASH, OFFLOAD_FLAG_RSS_HASH);
    assert_eq!(manager.stats().total_operations, 1);
}

#[test]
fn manager_checksum_rejects_short_frames() {
    let capabilities = OffloadCapabilities::default();
    let mut manager = OffloadManager::new(capabilities);
    let mut m = Mbuf::new(64);
    m.append(&[0u8; 12]).unwrap();
    assert!(matches!(
        manager.calculate_checksum(&m, ChecksumType::IPv4),
        Err(xpdk::Error::OffloadError(_))
    ));
    assert!(matches!(
        manager.calculate_checksum(&m, ChecksumType::UDP),
        Err(xpdk::Error::OffloadError(_))
    ));
    assert!(matches!(
        manager.calculate_checksum(&m, ChecksumType::TCP),
        Err(xpdk::Error::OffloadError(_))
    ));
}

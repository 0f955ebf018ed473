use xpdk::poll::{PollModeDriver, RxQueue, TxQueue};
use xpdk::memory::MbufPool;
use xpdk::{Config, Error, Xpdk};

#[test]
fn test_config_default() {
    let config = Config::default();
    assert_eq!(config.pool_count, 4);
    assert_eq!(config.pool_size, 8192);
}

#[test]
fn test_xpdk_creation() {
    let config = Config::default();
    let result = Xpdk::new(config);
    // Either outcome is a valid Result; with no capture device involved,
    // construction succeeds on a default configuration.
    match result {
        Ok(_) => {}
        Err(_) => {}
    }
}

#[test]
fn test_pmd_creation() {
    let config = Config { pool_size: 32, ..Config::default() };
    let result = PollModeDriver::new(&config);
    assert!(result.is_ok());
    let pmd = result.unwrap();
    assert!(pmd.get_rx_queue(0).is_some());
    assert!(pmd.get_rx_queue(100).is_none());
    assert_eq!(pmd.get_pool().stats().size, 32);
}

#[test]
fn pmd_rejects_oversized_queue_parameters() {
    let config = Config { rx_queue_size: usize::MAX, ..Config::default() };
    let result = PollModeDriver::new(&config);
    assert!(matches!(result, Err(Error::InvalidConfig(_))));
}

#[test]
fn xpdk_start_and_stop_flip_the_running_flags() {
    let config = Config { pool_count: 1, pool_size: 8, rx_queue_count: 1, tx_queue_count: 1, ..Config::default() };
    let mut xpdk = Xpdk::new(config).unwrap();
    xpdk.start().unwrap();
    xpdk.stop().unwrap();
    assert_eq!(xpdk.udp_stack().stats().total_sockets, 0);
}

#[test]
fn rx_queue_oversized_frame_counts_an_error_and_leaks_nothing() {
    let mut pool = MbufPool::new("p".to_string(), 4, 64).unwrap();
    let mut rx = RxQueue::new(0, 8).unwrap();
    let big = vec![0u8; 100];
    let r = rx.deliver_frame(&mut pool, &big, 0, 0);
    assert!(matches!(r, Err(Error::NetworkError(_))));
    assert_eq!(rx.stats().errors, 1);
    assert_eq!(pool.stats().available, 4);
}

#[test]
fn rx_queue_delivers_and_recv_returns_in_order() {
    let mut pool = MbufPool::new("p".to_string(), 4, 64).unwrap();
    let mut rx = RxQueue::new(7, 8).unwrap();
    let a = rx.deliver_frame(&mut pool, &[1, 2, 3], 5, 6).unwrap();
    let b = rx.deliver_frame(&mut pool, &[4, 5], 0, 0).unwrap();
    assert_eq!(rx.stats().packets_received, 2);
    assert_eq!(rx.stats().bytes_received, 5);
    assert_eq!(rx.recv().unwrap(), a);
    assert_eq!(rx.recv().unwrap(), b);
    assert!(matches!(rx.recv(), Err(Error::NetworkError(_))));
    // The frame bytes, timestamp and queue id landed in the mbuf.
    assert_eq!(pool.buf(a).data(), &[1, 2, 3]);
    assert_eq!(pool.buf(a).timestamp, 5_000_006_000);
    assert_eq!(pool.buf(a).queue_id, 7);
}

#[test]
fn tx_queue_records_send_outcomes() {
    let mut pool = MbufPool::new("p".to_string(), 2, 64).unwrap();
    let idx = pool.alloc_mbuf().unwrap();
    let mut tx = TxQueue::new(0).unwrap();
    tx.send(&pool, idx, true).unwrap();
    let r = tx.send(&pool, idx, false);
    assert!(matches!(r, Err(Error::PcapError(_))));
    assert_eq!(tx.stats().packets_sent, 1);
    assert_eq!(tx.stats().errors, 1);
}

#[test]
fn rx_queue_counts_capture_errors() {
    let mut rx = RxQueue::new(0, 8).unwrap();
    rx.record_capture_error();
    rx.record_capture_error();
    assert_eq!(rx.stats().errors, 2);
}

use xpdk::memory::{HugePageAllocator, Mbuf, MbufPool, MemoryManager, PageInfo};
use xpdk::{Config, Error};

#[test]
fn test_page_info() {
    let info = PageInfo::new().unwrap();
    assert!(info.regular_size > 0);
    assert!(info.huge_size > info.regular_size);
}

#[test]
fn test_mbuf_operations() {
    let mut mbuf = Mbuf::new(2048);

    let test_data = b"Hello, World!";
    mbuf.append(test_data).unwrap();
    assert_eq!(mbuf.data(), test_data);

    mbuf.reset();
    assert_eq!(mbuf.len, 0);
}

#[test]
fn test_mbuf_pool() {
    let mut pool = MbufPool::new("test".to_string(), 16, 1024).unwrap();
    let mbuf = pool.alloc_mbuf().unwrap();
    assert!(mbuf < 16);
    pool.free(mbuf).unwrap();

    let stats = pool.stats();
    assert_eq!(stats.size, 16);
    assert_eq!(stats.available, 16);
}

#[test]
fn mbuf_append_overflow_is_rejected_with_nothing_written() {
    let mut mbuf = Mbuf::new(4);
    mbuf.append(&[1, 2, 3]).unwrap();
    let r = mbuf.append(&[4, 5]);
    assert!(matches!(r, Err(Error::MemoryAllocation(_))));
    assert_eq!(mbuf.data(), &[1, 2, 3]);
    assert!(mbuf.append(&[4]).is_ok());
    assert_eq!(mbuf.data(), &[1, 2, 3, 4]);
}

#[test]
fn pool_exhaustion_and_recovery() {
    let mut pool = MbufPool::new("small".to_string(), 16, 256).unwrap();
    let mut handles = Vec::new();
    for _ in 0..16 {
        handles.push(pool.alloc_mbuf().unwrap());
    }
    let r = pool.alloc_mbuf();
    assert!(matches!(r, Err(Error::MemoryAllocation(_))));

    let freed = handles.pop().unwrap();
    pool.free(freed).unwrap();
    let again = pool.alloc_mbuf().unwrap();
    assert_eq!(again, freed);
}

#[test]
fn pool_accounting_available_plus_in_use_is_size() {
    let mut pool = MbufPool::new("acct".to_string(), 8, 64).unwrap();
    let mut handles = Vec::new();
    for step in 0..5 {
        handles.push(pool.alloc_mbuf().unwrap());
        let stats = pool.stats();
        assert_eq!(stats.available + stats.in_use, stats.size);
        assert!(stats.peak_usage >= stats.in_use);
        assert_eq!(stats.in_use, step + 1);
    }
    while let Some(h) = handles.pop() {
        pool.free(h).unwrap();
        let stats = pool.stats();
        assert_eq!(stats.available + stats.in_use, stats.size);
        assert!(stats.peak_usage >= stats.in_use);
    }
    let stats = pool.stats();
    assert_eq!(stats.available, 8);
    assert_eq!(stats.peak_usage, 5);
}

#[test]
fn alloc_free_pairs_restore_available() {
    let mut pool = MbufPool::new("pairs".to_string(), 4, 64).unwrap();
    let initial = pool.stats().available;
    for _ in 0..10 {
        let h = pool.alloc_mbuf().unwrap();
        pool.free(h).unwrap();
    }
    assert_eq!(pool.stats().available, initial);
}

#[test]
fn memory_manager_first_fit_and_tagged_free() {
    let config = Config {
        pool_count: 2,
        pool_size: 2,
        ..Config::default()
    };
    let mut mm = MemoryManager::new(&config).unwrap();
    let a = mm.alloc_mbuf().unwrap();
    let b = mm.alloc_mbuf().unwrap();
    assert_eq!(a.pool, 0);
    assert_eq!(b.pool, 0);
    let c = mm.alloc_mbuf().unwrap();
    assert_eq!(c.pool, 1);
    mm.free_mbuf(c).unwrap();
    mm.free_mbuf(b).unwrap();
    mm.free_mbuf(a).unwrap();
    let stats = mm.stats();
    assert_eq!(stats.pools.len(), 2);
    assert_eq!(stats.pools[0].available, 2);
    assert_eq!(stats.pools[1].available, 2);
}

#[test]
fn huge_page_allocator_rounds_requests_to_page_multiples() {
    let allocator = HugePageAllocator::new().unwrap();
    let page = allocator.stats().page_size;
    assert_eq!(allocator.aligned_size(0), 0);
    assert_eq!(allocator.aligned_size(1), page);
    assert_eq!(allocator.aligned_size(page), page);
    assert_eq!(allocator.aligned_size(page + 1), 2 * page);
}

#[test]
fn huge_page_allocator_accounts_blocks_and_bytes() {
    let mut allocator = HugePageAllocator::new().unwrap();
    let page = allocator.stats().page_size;
    assert_eq!(page % 512, 0);
    allocator.record_allocate(page);
    allocator.record_allocate(2 * page);
    let stats = allocator.stats();
    assert_eq!(stats.allocated_blocks, 2);
    assert_eq!(stats.total_allocated, 3 * page);
    allocator.record_deallocate(2 * page);
    let stats = allocator.stats();
    assert_eq!(stats.allocated_blocks, 1);
    assert_eq!(stats.total_allocated, page);
}

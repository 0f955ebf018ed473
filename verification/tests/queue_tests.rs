use xpdk::queue::{MpmcQueue, QueueManager, RingBuffer, SpscQueue};
use xpdk::Error;

#[test]
fn test_spsc_queue() {
    let mut queue = SpscQueue::<usize>::new(1024).unwrap();

    // Test basic operations
    assert!(queue.is_empty());
    assert!(!queue.is_full());

    // Push and pop
    let mbuf: usize = 0;
    queue.push(mbuf).unwrap();
    assert_eq!(queue.size(), 1);

    let popped = queue.pop().unwrap();
    assert_eq!(popped, mbuf);
    assert!(queue.is_empty());
}

#[test]
fn test_mpmc_queue() {
    let mut queue = MpmcQueue::<usize>::new(1024).unwrap();

    // Test basic operations
    assert!(queue.is_empty());
    assert!(!queue.is_full());

    // Push and pop
    let mbuf: usize = 0;
    queue.push(mbuf).unwrap();
    assert_eq!(queue.size(), 1);

    let popped = queue.pop().unwrap();
    assert_eq!(popped, mbuf);
    assert!(queue.is_empty());
}

#[test]
fn mod_test_batch_operations() {
    let mut queue = SpscQueue::<usize>::new(1024).unwrap();

    // Test batch push
    let items = vec![0usize; 10];
    queue.push_batch(&items).unwrap();
    assert_eq!(queue.size(), 10);

    // Test batch pop
    let mut output = vec![0usize; 10];
    let count = queue.pop_batch(&mut output).unwrap();
    assert_eq!(count, 10);
    assert!(queue.is_empty());
}

#[test]
fn queue_counters_track_operations() {
    let mut queue = SpscQueue::<u64>::new(2).unwrap();
    queue.push(1).unwrap();
    queue.push(2).unwrap();
    let r = queue.push(3);
    assert!(matches!(r, Err(Error::QueueError(_))));
    queue.pop().unwrap();
    let stats = *queue.stats();
    assert_eq!(stats.enqueued, 2);
    assert_eq!(stats.dequeued, 1);
    assert_eq!(stats.drops, 1);
    assert_eq!(stats.current_size, 1);
    assert_eq!(stats.peak_size, 2);
}

#[test]
fn push_batch_then_pop_batch_is_fifo_prefix() {
    let mut queue = MpmcQueue::<u64>::new(8).unwrap();
    let items: Vec<u64> = vec![10, 20, 30, 40, 50];
    queue.push_batch(&items).unwrap();
    let mut out = vec![0u64; 3];
    let k = queue.pop_batch(&mut out).unwrap();
    assert_eq!(k, 3);
    assert_eq!(&out[..], &[10, 20, 30]);
    assert_eq!(queue.pop().unwrap(), 40);
}

#[test]
fn push_batch_that_does_not_fit_writes_nothing() {
    let mut queue = SpscQueue::<u64>::new(4).unwrap();
    queue.push(1).unwrap();
    let items: Vec<u64> = vec![2, 3, 4, 5];
    let r = queue.push_batch(&items);
    assert!(matches!(r, Err(Error::QueueError(_))));
    assert_eq!(queue.size(), 1);
    assert_eq!(queue.pop().unwrap(), 1);
}

#[test]
fn counted_queue_capacity_rounds_up() {
    let q = SpscQueue::<u64>::new(1000).unwrap();
    assert_eq!(q.capacity(), 1024);
    let q2 = MpmcQueue::<u64>::new(5).unwrap();
    assert_eq!(q2.capacity(), 8);
}

#[test]
fn test_queue_manager() {
    let mut manager = QueueManager::new();

    // Create queues
    manager.create_spsc_queue("test_spsc".to_string(), 1024).unwrap();
    manager.create_mpmc_queue("test_mpmc".to_string(), 1024).unwrap();

    // Get queues
    assert!(manager.get_spsc_queue(&"test_spsc".to_string()).is_some());
    assert!(manager.get_mpmc_queue(&"test_mpmc".to_string()).is_some());
    assert!(manager.get_spsc_queue(&"missing".to_string()).is_none());

    // Check statistics
    let stats = manager.stats();
    assert_eq!(stats.total_queues, 2);
    assert_eq!(stats.spsc_queues, 1);
    assert_eq!(stats.mpmc_queues, 1);
}

#[test]
fn queue_manager_aggregates_and_removes() {
    let mut manager = QueueManager::new();
    manager.create_spsc_queue("a".to_string(), 4).unwrap();
    manager.create_mpmc_queue("b".to_string(), 4).unwrap();
    {
        let q = manager.get_spsc_queue(&"a".to_string()).unwrap();
        q.push(1).unwrap();
        q.push(2).unwrap();
        q.pop().unwrap();
    }
    {
        let q = manager.get_mpmc_queue(&"b".to_string()).unwrap();
        q.push(9).unwrap();
    }
    let stats = manager.stats();
    assert_eq!(stats.total_enqueued, 3);
    assert_eq!(stats.total_dequeued, 1);
    manager.remove_queue(&"a".to_string()).unwrap();
    assert_eq!(manager.stats().total_queues, 1);
    assert!(matches!(
        manager.remove_queue(&"a".to_string()),
        Err(Error::QueueError(_))
    ));
}

use xpdk::ring::{Error, MpmcRingBuffer, SpmcRingBuffer, SpscRingBuffer};

#[test]
fn mpmc_test_basic_push_pop() {
    let mut rb: MpmcRingBuffer<i32> = MpmcRingBuffer::new(4);

    assert!(rb.push(1).is_ok());
    assert!(rb.push(2).is_ok());

    assert_eq!(rb.pop(), Ok(1));
    assert_eq!(rb.pop(), Ok(2));
    assert!(rb.pop().is_err());
}

#[test]
fn mpmc_test_batch_operations() {
    let mut rb: MpmcRingBuffer<i32> = MpmcRingBuffer::new(8);
    let items = vec![1, 2, 3, 4];

    assert!(rb.push_batch(&items).is_ok());
    assert_eq!(rb.len(), 4);

    let mut buf = vec![0; 6];
    let count = rb.pop_batch(&mut buf).unwrap();
    assert_eq!(count, 4);
    assert_eq!(&buf[..4], &[1, 2, 3, 4]);

    assert!(rb.is_empty());
}

#[test]
fn spmc_test_basic_push_pop() {
    let mut rb: SpmcRingBuffer<i32> = SpmcRingBuffer::new(4);

    assert!(rb.push(1).is_ok());
    assert!(rb.push(2).is_ok());

    assert_eq!(rb.pop(), Ok(1));
    assert_eq!(rb.pop(), Ok(2));
    assert!(rb.pop().is_err());
}

#[test]
fn spmc_test_batch_operations() {
    let mut rb: SpmcRingBuffer<i32> = SpmcRingBuffer::new(8);
    let items = vec![1, 2, 3, 4];

    assert!(rb.push_batch(&items).is_ok());
    assert_eq!(rb.len(), 4);

    let mut buf = vec![0; 6];
    let count = rb.pop_batch(&mut buf).unwrap();
    assert_eq!(count, 4);
    assert_eq!(&buf[..4], &[1, 2, 3, 4]);

    assert!(rb.is_empty());
}

#[test]
fn capacity_one_push_push_full_pop_pop_empty() {
    let mut rb: SpscRingBuffer<u64> = SpscRingBuffer::new(1);
    assert_eq!(rb.capacity(), 1);
    assert!(rb.push(7).is_ok());
    assert_eq!(rb.push(8), Err(Error::Full));
    assert_eq!(rb.pop(), Ok(7));
    assert_eq!(rb.pop(), Err(Error::Empty));
}

#[test]
fn capacity_rounds_up_to_next_power_of_two() {
    let rb: SpscRingBuffer<u64> = SpscRingBuffer::new(1000);
    assert_eq!(rb.capacity(), 1024);
    let rb2: MpmcRingBuffer<u64> = MpmcRingBuffer::new(5);
    assert_eq!(rb2.capacity(), 8);
    let rb3: SpmcRingBuffer<u64> = SpmcRingBuffer::new(16);
    assert_eq!(rb3.capacity(), 16);
}

#[test]
fn spsc_thousand_item_round_trip() {
    let mut rb: SpscRingBuffer<u64> = SpscRingBuffer::new(1024);
    for v in 0..1000u64 {
        assert!(rb.push(v).is_ok());
    }
    for v in 0..1000u64 {
        assert_eq!(rb.pop(), Ok(v));
    }
    assert_eq!(rb.len(), 0);
}

#[test]
fn mpmc_four_producers_four_consumers_interleaved() {
    // Four producers each contribute 2,500 distinct integers; pushes and
    // pops interleave so occupancy stays within the capacity of 1024.
    let mut rb: MpmcRingBuffer<u64> = MpmcRingBuffer::new(1024);
    let mut consumed: Vec<u64> = Vec::new();
    let per_producer = 2500u64;
    let chunk = 250u64;
    let mut produced = [0u64; 4];
    while produced.iter().any(|&p| p < per_producer) {
        for p in 0..4u64 {
            let start = produced[p as usize];
            let end = (start + chunk).min(per_producer);
            for v in start..end {
                rb.push(p * per_producer + v).unwrap();
            }
            produced[p as usize] = end;
        }
        while let Ok(v) = rb.pop() {
            consumed.push(v);
        }
    }
    assert_eq!(consumed.len(), 10000);
    consumed.sort_unstable();
    for (i, &v) in consumed.iter().enumerate() {
        assert_eq!(v, i as u64);
    }
}

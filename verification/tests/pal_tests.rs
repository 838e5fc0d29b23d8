use pal_rs::{CounterPALTable, PALAlgorithm, PAL};

#[test]
fn test_lru() {
    let mut pal = PAL::new(PALAlgorithm::LRU, 4);

    [0, 0, 1, 2, 1, 3, 3, 5, 5].iter().for_each(|&x| {
        println!("[{x}] - {:?}", pal.insert(x));
    });
}

#[test]
fn test_second_chance() {
    let mut pal = PAL::new(PALAlgorithm::SecondChance, 4);

    // all elements are setted as accessed
    [
        (0, None),
        (0, None),
        (1, None),
        (2, None),
        (2, None),
        (1, None),
        (3, None),
        (3, None),
        (5, Some(0)),
        (5, None),
    ]
    .iter()
    .for_each(|(x, expected)| {
        let insertion_result = pal.insert(*x);
        println!("[{x}] - {:?}", insertion_result);
        assert_eq!(insertion_result, *expected);
    });

    // 2 and 3 not accessed, but 2 is removed because of the queue
    println!("======================");
    pal = PAL::new(PALAlgorithm::SecondChance, 4);
    [
        (0, None),
        (0, None),
        (1, None),
        (2, None),
        (1, None),
        (3, None),
        (5, Some(2)),
        (5, None),
    ]
    .iter()
    .for_each(|(x, expected)| {
        let insertion_result = pal.insert(*x);
        println!("[{x}] - {:?}", insertion_result);
        assert_eq!(insertion_result, *expected);
    });

    // only 2 is not accessed
    println!("======================");
    let mut pal = PAL::new(PALAlgorithm::SecondChance, 4);
    [
        (0, None),
        (0, None),
        (1, None),
        (2, None),
        (1, None),
        (3, None),
        (3, None),
        (5, Some(2)),
        (5, None),
    ]
    .iter()
    .for_each(|(x, expected)| {
        let insertion_result = pal.insert(*x);
        println!("[{x}] - {:?}", insertion_result);
        assert_eq!(insertion_result, *expected);
    });

    // 1 and 2 not accessed, but 1 is removed because of the queue
    println!("======================");
    let mut pal = PAL::new(PALAlgorithm::SecondChance, 4);
    [
        (0, None),
        (0, None),
        (1, None),
        (2, None),
        (3, None),
        (3, None),
        (5, Some(1)),
        (5, None),
    ]
    .iter()
    .for_each(|(x, expected)| {
        let insertion_result = pal.insert(*x);
        println!("[{x}] - {:?}", insertion_result);
        assert_eq!(insertion_result, *expected);
    });
}

#[test]
fn second_chance_scan_clears_bits_before_evicting() {
    // Every frame re-accessed: the scan pass clears all reference bits and
    // the front of the queue, frame 0, leaves.
    let mut pal = PAL::new(PALAlgorithm::SecondChance, 4);
    for x in [0, 0, 1, 2, 2, 1, 3, 3] {
        assert_eq!(pal.insert(x), None);
    }
    assert_eq!(pal.insert(5), Some(0));
}

#[test]
fn second_chance_evicts_first_unreferenced() {
    // Frame 2 is the only one never re-accessed after admission: it is the
    // first entry found with a clear reference bit.
    let mut pal = PAL::new(PALAlgorithm::SecondChance, 4);
    for x in [0, 0, 1, 2, 1, 3] {
        assert_eq!(pal.insert(x), None);
    }
    assert_eq!(pal.insert(5), Some(2));
}

#[test]
fn counter_evicts_smallest_count_first_found() {
    // Counts after the accesses: frame 0 twice, frame 2 once, frame 1 never.
    let mut pal = PAL::new(PALAlgorithm::Counter, 3);
    for x in [0, 1, 2, 0, 0, 2] {
        assert_eq!(pal.insert(x), None);
    }
    assert_eq!(pal.insert(5), Some(1));
}

#[test]
fn counter_ties_broken_by_first_found() {
    // All counters are zero: the victim is the first frame in table order.
    let mut pal = PAL::new(PALAlgorithm::Counter, 3);
    for x in [4, 6, 8] {
        assert_eq!(pal.insert(x), None);
    }
    assert_eq!(pal.insert(9), Some(4));
}

#[test]
fn counter_update_access_protects_frame() {
    let mut pal = PAL::new(PALAlgorithm::Counter, 2);
    assert_eq!(pal.insert(1), None);
    assert_eq!(pal.insert(2), None);
    pal.update_access(1);
    // Frame 2 now has the strictly smallest count.
    assert_eq!(pal.insert(3), Some(2));
}

#[test]
fn resident_set_never_exceeds_capacity() {
    for algorithm in [
        PALAlgorithm::LRU,
        PALAlgorithm::Counter,
        PALAlgorithm::SecondChance,
    ] {
        let mut pal = PAL::new(algorithm, 3);
        for x in [9, 8, 7, 6, 5, 9, 4, 3, 9, 2] {
            pal.insert(x);
        }
        let len = match &pal.table {
            pal_rs::PALTable::LRU(t) => t.entries.len(),
            pal_rs::PALTable::Counter(t) => t.entries.len(),
            pal_rs::PALTable::SecondChance(t) => t.entries.len(),
        };
        assert!(len <= 3);
    }
}

#[test]
fn lru_evicts_oldest_timestamp_first_found() {
    let mut pal = PAL::new(PALAlgorithm::LRU, 3);
    for x in [0, 1, 2] {
        assert_eq!(pal.insert(x), None);
    }
    // Frame 0 carries the oldest timestamp; on a tie it is still the first
    // entry found in table order.
    assert_eq!(pal.insert(3), Some(0));
}

#[test]
fn lru_reinsert_resident_never_evicts() {
    let mut pal = PAL::new(PALAlgorithm::LRU, 2);
    assert_eq!(pal.insert(1), None);
    assert_eq!(pal.insert(2), None);
    // The table is full, but 1 and 2 are resident: no eviction.
    for _ in 0..16 {
        assert_eq!(pal.insert(1), None);
        assert_eq!(pal.insert(2), None);
    }
}

#[test]
fn counter_table_direct_use() {
    let mut t = CounterPALTable::new(2);
    assert_eq!(t.insert(10), None);
    assert_eq!(t.insert(20), None);
    assert_eq!(t.entries.len(), 2);
    assert_eq!(t.entries[0].frame, 10);
    assert_eq!(t.entries[0].times_accessed, 0);
    t.update_access(10);
    assert_eq!(t.entries[0].times_accessed, 1);
    let victim = t.find_frame_to_deallocate();
    assert_eq!(victim, 20);
    assert_eq!(t.entries.len(), 1);
}

use pal_rs::{
    LogicalAddress, PALAlgorithm, Session, Trace, TranslationError, TranslationResult, MMU,
};
use rand::Rng;

#[test]
fn test_mmu() {
    let mmu = MMU::new(4096);
    let _session = Session::new(PALAlgorithm::LRU, 4096);

    assert_eq!(mmu.page_size, 4096);
    // One entry per page of the 32-bit address space: 2^(32 - 12).
    assert_eq!(mmu.page_table.entries.len(), 1 << 20);
}

#[test]
fn test_translate() {
    let mut mmu = MMU::new(4096);
    let mut session = Session::new(PALAlgorithm::LRU, 4096);

    mmu.translate_str(&mut session, "345678").unwrap();
    mmu.translate_str(&mut session, "345678").unwrap();
}

#[test]
fn manually() {
    let mut mmu = MMU::new(4096);
    let mut session = Session::new(PALAlgorithm::LRU, 4096);

    ["001123", "002123", "001123", "003123", "005123", "006123"]
        .iter()
        .for_each(|address| {
            mmu.translate_str(&mut session, address).unwrap();
        });
}

#[test]
fn complex() {
    let mut mmu = MMU::new(4096);
    let mut session = Session::new(PALAlgorithm::LRU, 4096);

    // Generate random addresses
    let addresses = (0..10000)
        .map(|_| {
            let mut rng = rand::thread_rng();
            let address: u32 = rng.gen();
            format!("{:06x}", address)
        })
        .collect::<Vec<String>>();

    addresses.iter().for_each(|address| {
        mmu.translate_str(&mut session, address).unwrap();
    });
}

#[test]
fn same_address_twice_faults_then_hits() {
    let mut mmu = MMU::new(4096);
    let mut session = Session::new(PALAlgorithm::SecondChance, 4);

    let a = LogicalAddress::from_str("00a123").unwrap();
    assert_eq!(mmu.translate(&mut session, &a), Ok(TranslationResult::Fault));
    assert_eq!(mmu.translate(&mut session, &a), Ok(TranslationResult::Hit));
}

#[test]
fn exhausted_pool_resolves_by_eviction_and_invalidates_victim_pages() {
    let mut mmu = MMU::new(4096);
    let mut session = Session::new(PALAlgorithm::SecondChance, 2);

    // Two pages exhaust the two-frame pool.
    let a1 = LogicalAddress { value: 0x1000 };
    let a2 = LogicalAddress { value: 0x2000 };
    let a3 = LogicalAddress { value: 0x3000 };
    assert_eq!(mmu.translate(&mut session, &a1), Ok(TranslationResult::Fault));
    assert_eq!(mmu.translate(&mut session, &a2), Ok(TranslationResult::Fault));
    assert_eq!(mmu.page_table.get_frame(1), Some(0));
    assert_eq!(mmu.page_table.get_frame(2), Some(1));

    // The pool is exhausted: the next fault evicts frame 0 (front of the
    // second-chance queue) and page 1, previously bound to it, goes invalid.
    assert_eq!(mmu.translate(&mut session, &a3), Ok(TranslationResult::Fault));
    assert_eq!(mmu.page_table.get_frame(1), None);
    assert_eq!(mmu.page_table.get_frame(3), Some(0));

    // Faulting on page 1 again also resolves through eviction.
    assert_eq!(mmu.translate(&mut session, &a1), Ok(TranslationResult::Fault));
    assert_eq!(mmu.page_table.get_frame(1), Some(1));
}

#[test]
fn page_outside_table_is_rejected() {
    let mut mmu = MMU::new(4096);
    let mut session = Session::new(PALAlgorithm::LRU, 4);

    // 0x1_0000_0000 >> 12 == 2^20, one past the last page.
    let a = LogicalAddress { value: 0x1_0000_0000 };
    assert_eq!(
        mmu.translate(&mut session, &a),
        Err(TranslationError::PageOutOfRange)
    );
    assert_eq!(
        mmu.translate_str(&mut session, "100000000"),
        Err(TranslationError::PageOutOfRange)
    );
}

#[test]
fn malformed_token_is_rejected() {
    let mut mmu = MMU::new(4096);
    let mut session = Session::new(PALAlgorithm::LRU, 4);

    assert_eq!(
        mmu.translate_str(&mut session, "zzz"),
        Err(TranslationError::ParseError)
    );
    assert_eq!(
        mmu.translate_str(&mut session, ""),
        Err(TranslationError::ParseError)
    );
}

#[test]
fn entrypoint_counts_hits_and_faults() {
    let mut trace = Trace::new();
    for token in ["001123", "002123", "001123", "003123", "002123"] {
        trace.add(LogicalAddress::from_str(token).unwrap());
    }
    let results = pal_rs::mmu::entrypoint(4096, PALAlgorithm::LRU, 4096, &trace).unwrap();
    assert_eq!(
        results,
        vec![
            TranslationResult::Fault,
            TranslationResult::Fault,
            TranslationResult::Hit,
            TranslationResult::Fault,
            TranslationResult::Hit,
        ]
    );
}

#[test]
fn entrypoint_rejects_out_of_range_address() {
    let mut trace = Trace::new();
    trace.add(LogicalAddress::from_str("1123").unwrap());
    trace.add(LogicalAddress { value: 0xffff_ffff_ffff });
    assert_eq!(
        pal_rs::mmu::entrypoint(4096, PALAlgorithm::LRU, 16, &trace),
        Err(TranslationError::PageOutOfRange)
    );
}


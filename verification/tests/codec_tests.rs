use pal_rs::{LogicalAddress, PageTable, PageTableEntry, PrimaryMemory, Trace};

#[test]
fn split_decomposes_by_page_size() {
    let a = LogicalAddress { value: 0x345678 };
    assert_eq!(a.value(), 0x345678);
    assert_eq!(a.page(4096), 0x345);
    assert_eq!(a.offset(4096), 0x678);
    assert_eq!(a.split(4096), (0x345, 0x678));
}

#[test]
fn join_round_trip_at_sixteen_offset_bits() {
    // With sixteen offset bits the frame field of `join` coincides with the
    // page field of `split`, so the codec round-trips.
    let page_size = 0x10000;
    let a = LogicalAddress { value: 0 };
    let physical = a.join(3, 7, page_size);
    assert_eq!(physical, 0x30007);
    let back = LogicalAddress { value: physical as u64 };
    assert_eq!(back.split(page_size), (3, 7));
}

#[test]
fn join_places_frame_above_page_field() {
    let a = LogicalAddress { value: 0 };
    // 4096-byte pages: the frame lands 20 bits up.
    assert_eq!(a.join(1, 0x123, 4096), (1 << 20) | 0x123);
}

#[test]
fn from_str_parses_hexadecimal_tokens() {
    assert_eq!(LogicalAddress::from_str("001123").unwrap().value, 0x1123);
    assert_eq!(LogicalAddress::from_str("1f3").unwrap().value, 0x1f3);
    assert_eq!(LogicalAddress::from_str("1F3").unwrap().value, 0x1f3);
    assert_eq!(LogicalAddress::from_str("0").unwrap().value, 0);
    assert_eq!(
        LogicalAddress::from_str("ffffffffffffffff").unwrap().value,
        u64::MAX
    );
    assert_eq!(LogicalAddress::from_str(" 1f3\n").unwrap().value, 0x1f3);
    assert_eq!(LogicalAddress::from_str("\t00a123 ").unwrap().value, 0xa123);
}

#[test]
fn from_str_rejects_malformed_tokens() {
    assert!(LogicalAddress::from_str("").is_none());
    assert!(LogicalAddress::from_str("   ").is_none());
    assert!(LogicalAddress::from_str("xyz").is_none());
    assert!(LogicalAddress::from_str("12g4").is_none());
    assert!(LogicalAddress::from_str("0x1123").is_none());
    assert!(LogicalAddress::from_str("+12").is_none());
    assert!(LogicalAddress::from_str("12 34").is_none());
    // One digit past what fits in 64 bits.
    assert!(LogicalAddress::from_str("10000000000000000").is_none());
}

#[test]
fn page_table_binds_and_invalidates() {
    let mut table = PageTable {
        entries: vec![PageTableEntry::default(); 8],
    };
    assert_eq!(table.get_frame(3), None);
    table.set_frame(3, 5);
    table.set_frame(4, 5);
    table.set_frame(6, 1);
    assert_eq!(table.get_frame(3), Some(5));
    assert_eq!(table.get_frame(4), Some(5));

    // Invalidation by frame hits every entry bound to that frame.
    table.invalidate_frame(5);
    assert_eq!(table.get_frame(3), None);
    assert_eq!(table.get_frame(4), None);
    assert_eq!(table.get_frame(6), Some(1));

    table.invalidate(6);
    assert_eq!(table.get_frame(6), None);
}

#[test]
fn primary_memory_allocates_linearly_until_exhausted() {
    let mut memory = PrimaryMemory::new(2);
    assert!(!memory.get_frame(0));
    assert_eq!(memory.alloc_frame(), Some(0));
    assert_eq!(memory.alloc_frame(), Some(1));
    assert_eq!(memory.alloc_frame(), None);
    assert!(memory.get_frame(0));
    assert!(memory.get_frame(1));
}

#[test]
fn trace_collects_addresses_in_order() {
    let mut trace = Trace::new();
    assert!(trace.is_empty());
    trace.add(LogicalAddress { value: 0x10 });
    trace.add(LogicalAddress { value: 0x20 });
    assert!(!trace.is_empty());
    assert_eq!(trace.len(), 2);
    assert_eq!(trace.get(0).value, 0x10);
    assert_eq!(trace.get(1).value, 0x20);
}

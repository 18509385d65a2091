use os_syscall::config::PAGE_SIZE;
use os_syscall::{AddressSpace, ByteSpan, MapPermission, SyscallError};

const RW: MapPermission = MapPermission { readable: true, writable: true, executable: false };
const RX: MapPermission = MapPermission { readable: true, writable: false, executable: true };

fn pattern(len: usize) -> Vec<u8> {
    (0..len).map(|i| (i % 251) as u8 + 1).collect()
}

#[test]
fn new_space_has_nothing_mapped() {
    let space = AddressSpace::new();
    assert!(!space.is_mapped(0));
    assert!(!space.is_mapped(1));
    assert_eq!(space.permission_of(0), None);
}

#[test]
fn map_rounds_length_up_to_whole_pages() {
    let mut space = AddressSpace::new();
    assert_eq!(space.map_new_pages(0x1000, 1, RW), Ok(()));
    assert!(!space.is_mapped(0));
    assert!(space.is_mapped(1));
    assert!(!space.is_mapped(2));

    let mut space = AddressSpace::new();
    assert_eq!(space.map_new_pages(0x1000, PAGE_SIZE + 1, RW), Ok(()));
    assert!(space.is_mapped(1));
    assert!(space.is_mapped(2));
    assert!(!space.is_mapped(3));

    let mut space = AddressSpace::new();
    assert_eq!(space.map_new_pages(0x1000, PAGE_SIZE, RW), Ok(()));
    assert!(space.is_mapped(1));
    assert!(!space.is_mapped(2));
}

#[test]
fn map_from_inside_a_page_covers_every_page_touched() {
    let mut space = AddressSpace::new();
    assert_eq!(space.map_new_pages(0x1800, PAGE_SIZE, RW), Ok(()));
    assert!(!space.is_mapped(0));
    assert!(space.is_mapped(1));
    assert!(space.is_mapped(2));
    assert!(!space.is_mapped(3));
}

#[test]
fn mapped_pages_are_zeroed_and_carry_their_permission() {
    let mut space = AddressSpace::new();
    assert_eq!(space.map_new_pages(0x3000, 2 * PAGE_SIZE, RX), Ok(()));
    assert_eq!(space.permission_of(3), Some(RX));
    assert_eq!(space.permission_of(4), Some(RX));
    assert_eq!(space.permission_of(5), None);
    assert_eq!(space.read_bytes(0x3000, 2 * PAGE_SIZE), Ok(vec![0u8; 2 * PAGE_SIZE]));
}

#[test]
fn map_of_nothing_changes_nothing() {
    let mut space = AddressSpace::new();
    assert_eq!(space.map_new_pages(0x1234, 0, RW), Ok(()));
    assert!(!space.is_mapped(1));
}

#[test]
fn map_over_a_mapped_page_is_refused_whole() {
    let mut space = AddressSpace::new();
    assert_eq!(space.map_new_pages(0x2000, PAGE_SIZE, RW), Ok(()));
    assert_eq!(space.write_bytes(0x2000, &[7, 8, 9]), Ok(()));
    assert_eq!(
        space.map_new_pages(0x1000, 3 * PAGE_SIZE, RX),
        Err(SyscallError::InvalidAddress)
    );
    assert!(!space.is_mapped(1));
    assert!(!space.is_mapped(3));
    assert_eq!(space.permission_of(2), Some(RW));
    assert_eq!(space.read_bytes(0x2000, 3), Ok(vec![7, 8, 9]));
}

#[test]
fn map_past_the_end_of_the_address_space_is_refused() {
    let mut space = AddressSpace::new();
    assert_eq!(
        space.map_new_pages(usize::MAX - 10, 100, RW),
        Err(SyscallError::InvalidAddress)
    );
    assert!(!space.is_mapped(usize::MAX / PAGE_SIZE));
}

#[test]
fn unmap_removes_exactly_the_pages_touched() {
    let mut space = AddressSpace::new();
    assert_eq!(space.map_new_pages(0x1000, 4 * PAGE_SIZE, RW), Ok(()));
    assert_eq!(space.write_bytes(0x1000, &[1]), Ok(()));
    assert_eq!(space.write_bytes(0x4000, &[4]), Ok(()));
    assert_eq!(space.unmap_pages(0x2000, 2 * PAGE_SIZE), Ok(()));
    assert!(space.is_mapped(1));
    assert!(!space.is_mapped(2));
    assert!(!space.is_mapped(3));
    assert!(space.is_mapped(4));
    assert_eq!(space.read_bytes(0x1000, 1), Ok(vec![1]));
    assert_eq!(space.read_bytes(0x4000, 1), Ok(vec![4]));
}

#[test]
fn unmap_with_a_page_missing_is_refused_whole() {
    let mut space = AddressSpace::new();
    assert_eq!(space.map_new_pages(0x1000, PAGE_SIZE, RW), Ok(()));
    assert_eq!(
        space.unmap_pages(0x1000, 2 * PAGE_SIZE),
        Err(SyscallError::InvalidAddress)
    );
    assert!(space.is_mapped(1));
    assert_eq!(space.unmap_pages(0x5000, 1), Err(SyscallError::InvalidAddress));
    assert_eq!(
        space.unmap_pages(usize::MAX, 1),
        Err(SyscallError::InvalidAddress)
    );
}

#[test]
fn unmap_of_nothing_changes_nothing() {
    let mut space = AddressSpace::new();
    assert_eq!(space.map_new_pages(0x1000, PAGE_SIZE, RW), Ok(()));
    assert_eq!(space.unmap_pages(0x1000, 0), Ok(()));
    assert_eq!(space.unmap_pages(0x7000, 0), Ok(()));
    assert!(space.is_mapped(1));
}

#[test]
fn release_skips_pages_that_are_not_mapped() {
    let mut space = AddressSpace::new();
    assert_eq!(space.map_new_pages(0x1000, PAGE_SIZE, RW), Ok(()));
    assert_eq!(space.map_new_pages(0x3000, PAGE_SIZE, RW), Ok(()));
    space.release_pages(0x2000, 2 * PAGE_SIZE);
    assert!(space.is_mapped(1));
    assert!(!space.is_mapped(2));
    assert!(!space.is_mapped(3));
    space.release_pages(usize::MAX, 2);
    assert!(space.is_mapped(1));
}

#[test]
fn map_then_unmap_gives_the_space_back() {
    let mut space = AddressSpace::new();
    assert_eq!(space.map_new_pages(0x1000, PAGE_SIZE, RW), Ok(()));
    assert_eq!(space.write_bytes(0x1ff0, &pattern(16)), Ok(()));
    assert_eq!(space.map_new_pages(0x2000, 3 * PAGE_SIZE, RX), Ok(()));
    assert_eq!(space.unmap_pages(0x2000, 3 * PAGE_SIZE), Ok(()));
    assert!(space.is_mapped(1));
    for vpn in [0usize, 2, 3, 4, 5] {
        assert!(!space.is_mapped(vpn));
    }
    assert_eq!(space.permission_of(1), Some(RW));
    assert_eq!(space.read_bytes(0x1ff0, 16), Ok(pattern(16)));
}

#[test]
fn range_inside_one_page_is_one_run() {
    let mut space = AddressSpace::new();
    assert_eq!(space.map_new_pages(0x1000, PAGE_SIZE, RW), Ok(()));
    assert_eq!(
        space.translated_byte_buffer(0x1010, 16),
        Ok(vec![ByteSpan { vpn: 1, offset: 0x10, len: 16 }])
    );
    assert_eq!(
        space.translated_byte_buffer(0x1000, PAGE_SIZE),
        Ok(vec![ByteSpan { vpn: 1, offset: 0, len: PAGE_SIZE }])
    );
}

#[test]
fn range_across_a_boundary_is_cut_at_the_boundary() {
    let mut space = AddressSpace::new();
    assert_eq!(space.map_new_pages(0x1000, 2 * PAGE_SIZE, RW), Ok(()));
    assert_eq!(
        space.translated_byte_buffer(0x1000 + 4090, 10),
        Ok(vec![
            ByteSpan { vpn: 1, offset: 4090, len: 6 },
            ByteSpan { vpn: 2, offset: 0, len: 4 },
        ])
    );
}

#[test]
fn range_across_three_pages_has_a_whole_page_in_the_middle() {
    let mut space = AddressSpace::new();
    assert_eq!(space.map_new_pages(0, 3 * PAGE_SIZE, RW), Ok(()));
    let runs = space.translated_byte_buffer(4095, PAGE_SIZE + 2).unwrap();
    assert_eq!(
        runs,
        vec![
            ByteSpan { vpn: 0, offset: 4095, len: 1 },
            ByteSpan { vpn: 1, offset: 0, len: PAGE_SIZE },
            ByteSpan { vpn: 2, offset: 0, len: 1 },
        ]
    );
    assert_eq!(runs.iter().map(|r| r.len).sum::<usize>(), PAGE_SIZE + 2);
}

#[test]
fn empty_range_has_no_runs_wherever_it_lies() {
    let space = AddressSpace::new();
    assert_eq!(space.translated_byte_buffer(0x1234, 0), Ok(vec![]));
}

#[test]
fn range_with_a_page_missing_is_not_translated() {
    let mut space = AddressSpace::new();
    assert_eq!(space.map_new_pages(0x1000, PAGE_SIZE, RW), Ok(()));
    assert_eq!(
        space.translated_byte_buffer(0x1000 + 4090, 10),
        Err(SyscallError::InvalidAddress)
    );
    assert_eq!(
        space.translated_byte_buffer(0xff0, 32),
        Err(SyscallError::InvalidAddress)
    );
    assert_eq!(
        space.translated_byte_buffer(usize::MAX - 3, 8),
        Err(SyscallError::InvalidAddress)
    );
}

#[test]
fn bytes_written_across_a_boundary_are_read_back() {
    let mut space = AddressSpace::new();
    // Two pages that are neighbours in the address space and were mapped
    // apart, the higher one first.
    assert_eq!(space.map_new_pages(0x2000, PAGE_SIZE, RW), Ok(()));
    assert_eq!(space.map_new_pages(0x9000, PAGE_SIZE, RW), Ok(()));
    assert_eq!(space.map_new_pages(0x1000, PAGE_SIZE, RW), Ok(()));
    for len in [2usize, 10, 16, 100] {
        for before in 1..len {
            let addr = 0x2000 - before;
            let data = pattern(len);
            assert_eq!(space.write_bytes(addr, &data), Ok(()));
            assert_eq!(space.read_bytes(addr, len), Ok(data));
        }
    }
}

#[test]
fn a_write_changes_its_range_and_nothing_else() {
    let mut space = AddressSpace::new();
    assert_eq!(space.map_new_pages(0x1000, 2 * PAGE_SIZE, RW), Ok(()));
    assert_eq!(space.write_bytes(0x1000 + 4090, &[1, 2, 3, 4, 5, 6, 7, 8, 9, 10]), Ok(()));
    let mut expected = vec![0u8; 2 * PAGE_SIZE];
    expected[4090..4100].copy_from_slice(&[1, 2, 3, 4, 5, 6, 7, 8, 9, 10]);
    assert_eq!(space.read_bytes(0x1000, 2 * PAGE_SIZE), Ok(expected));
    assert_eq!(space.permission_of(1), Some(RW));
    assert_eq!(space.permission_of(2), Some(RW));
}

#[test]
fn a_write_into_an_unmapped_page_stores_nothing() {
    let mut space = AddressSpace::new();
    assert_eq!(space.map_new_pages(0x1000, PAGE_SIZE, RW), Ok(()));
    assert_eq!(
        space.write_bytes(0x1000 + 4090, &[1, 2, 3, 4, 5, 6, 7, 8, 9, 10]),
        Err(SyscallError::InvalidAddress)
    );
    assert_eq!(space.read_bytes(0x1000, PAGE_SIZE), Ok(vec![0u8; PAGE_SIZE]));
}

#[test]
fn a_write_of_nothing_succeeds_anywhere() {
    let mut space = AddressSpace::new();
    assert_eq!(space.write_bytes(0x5000, &[]), Ok(()));
    assert_eq!(space.read_bytes(0x5000, 0), Ok(vec![]));
}

#[test]
fn a_read_from_an_unmapped_page_is_refused() {
    let mut space = AddressSpace::new();
    assert_eq!(space.map_new_pages(0x1000, PAGE_SIZE, RW), Ok(()));
    assert_eq!(space.read_bytes(0xfff, 2), Err(SyscallError::InvalidAddress));
    assert_eq!(space.read_bytes(0x1fff, 2), Err(SyscallError::InvalidAddress));
    assert_eq!(space.read_bytes(0x1fff, 1), Ok(vec![0]));
}

#[test]
fn permission_words_name_read_write_execute() {
    assert_eq!(MapPermission::from_bits(0), None);
    assert_eq!(
        MapPermission::from_bits(1),
        Some(MapPermission { readable: true, writable: false, executable: false })
    );
    assert_eq!(
        MapPermission::from_bits(2),
        Some(MapPermission { readable: false, writable: true, executable: false })
    );
    assert_eq!(MapPermission::from_bits(3), Some(RW));
    assert_eq!(
        MapPermission::from_bits(4),
        Some(MapPermission { readable: false, writable: false, executable: true })
    );
    assert_eq!(MapPermission::from_bits(5), Some(RX));
    assert_eq!(
        MapPermission::from_bits(7),
        Some(MapPermission { readable: true, writable: true, executable: true })
    );
    assert_eq!(MapPermission::from_bits(8), None);
    assert_eq!(MapPermission::from_bits(0b1011), None);
    assert_eq!(MapPermission::from_bits(usize::MAX), None);
}

#[test]
fn paged_memory_matches_one_contiguous_buffer() {
    const PAGES: usize = 8;
    let mut space = AddressSpace::new();
    // Mapped in an order that is not the order of the addresses.
    for vpn in [5usize, 2, 7, 0, 3, 6, 1, 4] {
        assert_eq!(space.map_new_pages(vpn * PAGE_SIZE, PAGE_SIZE, RW), Ok(()));
    }
    let mut flat = vec![0u8; PAGES * PAGE_SIZE];
    let mut seed: u64 = 0x2545_f491_4f6c_dd1d;
    let mut next = |bound: usize| {
        seed = seed.wrapping_mul(6364136223846793005).wrapping_add(1442695040888963407);
        ((seed >> 33) as usize) % bound
    };
    for round in 0..200 {
        let len = 1 + next(2 * PAGE_SIZE + 50);
        let addr = next(PAGES * PAGE_SIZE - len + 1);
        let data: Vec<u8> = (0..len).map(|i| (i * 7 + round) as u8).collect();
        assert_eq!(space.write_bytes(addr, &data), Ok(()));
        flat[addr..addr + len].copy_from_slice(&data);
        assert_eq!(space.read_bytes(addr, len), Ok(data));
        assert_eq!(space.read_bytes(0, PAGES * PAGE_SIZE).as_ref(), Ok(&flat));
    }
}

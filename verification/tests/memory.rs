use lib::boot_info::MemoryMapEntry;
use lib::memory::address::phys_to_virt;
use lib::memory::address_space::{AddressSpace, AddressSpaceError};
use lib::memory::frame_allocator::{align_down, align_up, FrameAllocator, FRAME_SIZE};
use lib::memory::heap::{HeapError, KernelHeap, HEAP_END, HEAP_SIZE, HEAP_START};
use lib::memory::page_table::{
    allocate_page_table_frame, entry_address, indexes, is_canonical, make_entry, translate, unmap,
    MapError, PageTable, PageTableMemory, PAGE_SIZE,
};

/// 15 MiB of usable memory from 1 MiB, the kernel image in the first 1 MiB of it.
fn booted_allocator() -> FrameAllocator {
    let map = [
        MemoryMapEntry { base_addr: 0, length: 0x9F000, entry_type: 1, attributes: 0 },
        MemoryMapEntry { base_addr: 0x100000, length: 0xF00000, entry_type: 1, attributes: 0 },
        MemoryMapEntry { base_addr: 0xF0000000, length: 0x1000000, entry_type: 2, attributes: 0 },
    ];
    let mut allocator = FrameAllocator::empty();
    allocator.initialize(&map, 0x100000, 0x200000);
    allocator
}

#[test]
fn frame_allocator_scenario() {
    let mut allocator = booted_allocator();
    // Usable above the first MiB, minus the kernel image: 0x200000..0x1000000.
    assert_eq!(allocator.free_frames(), (0x1000000 - 0x200000) / 4096);

    let before = allocator.free_frames();
    let f1 = allocator.allocate_frame().unwrap();
    let f2 = allocator.allocate_frame().unwrap();
    let f3 = allocator.allocate_frame().unwrap();
    assert_eq!((f1, f2, f3), (0x200000, 0x201000, 0x202000));
    assert_eq!(allocator.free_frames(), before - 3);

    allocator.free_frame(f1);
    assert_eq!(allocator.free_frames(), before - 2);
    // The freed frame is handed out again first.
    assert_eq!(allocator.allocate_frame(), Some(f1));

    let reserved_before = allocator.free_frames();
    allocator.free_frame(0x00000000);
    assert_eq!(allocator.free_frames(), reserved_before);
}

#[test]
fn frame_allocator_ignores_bad_frees() {
    let mut allocator = booted_allocator();
    let n = allocator.free_frames();
    allocator.free_frame(0x300001);
    allocator.free_frame(0x300000);
    allocator.free_frame(0x1_0000_0000);
    assert_eq!(allocator.free_frames(), n);
    let f = allocator.allocate_frame().unwrap();
    allocator.free_frame(f);
    allocator.free_frame(f);
    assert_eq!(allocator.free_frames(), n);
}

#[test]
fn empty_allocator_has_nothing() {
    let mut allocator = FrameAllocator::empty();
    assert_eq!(allocator.free_frames(), 0);
    assert_eq!(allocator.allocate_frame(), None);
    assert_eq!(allocate_page_table_frame(&mut allocator), None);
}

#[test]
fn alignment_helpers() {
    assert_eq!(align_up(0x1001, 0x1000), 0x2000);
    assert_eq!(align_up(0x1000, 0x1000), 0x1000);
    assert_eq!(align_down(0x1FFF, 0x1000), 0x1000);
    assert_eq!(align_down(0, 0x1000), 0);
    assert_eq!(FRAME_SIZE, 4096);
    assert_eq!(phys_to_virt(0x1234), 0x1234);
}

#[test]
fn page_table_entry_encoding() {
    assert_eq!(indexes(0x0040_0000), [0, 0, 2, 0]);
    assert_eq!(indexes(0xFFFF_FFFF_FFFF_F000), [511, 511, 511, 511]);
    assert_eq!(indexes(0x0000_0080_4020_1000), [1, 1, 1, 1]);
    let e = make_entry(0x0010_0000, true);
    assert_eq!(e, 0x0010_0003);
    assert_eq!(make_entry(0x0010_0fff, false), 0x0010_0001);
    assert_eq!(entry_address(e), 0x0010_0000);
    assert_eq!(entry_address(0xFFF0_0000_0000_0FFF), 0);
}

#[test]
fn canonical_addresses() {
    assert!(is_canonical(0x0000_7FFF_FFFF_F000));
    assert!(is_canonical(0xFFFF_8000_0000_0000));
    assert!(!is_canonical(0x0000_8000_0000_0000));
    assert!(!is_canonical(0xFFFF_7FFF_FFFF_FFFF));
}

#[test]
fn map_translate_unmap_scenario() {
    let mut allocator = booted_allocator();
    let mut space = AddressSpace::new(&mut allocator).unwrap();
    assert_eq!(space.pml4_phys(), 0x200000);
    space.identity_map(&mut allocator, 0x0000_0000, 0x0020_0000, true).unwrap();
    assert_eq!(translate(&space.pml4, &space.tables, 0x1000), Some(0x1000));
    assert_eq!(translate(&space.pml4, &space.tables, 0x1F_F000), Some(0x1F_F000));
    assert_eq!(translate(&space.pml4, &space.tables, 0x20_0000), None);

    lib::memory::page_table::map(
        &mut space.pml4,
        &mut space.tables,
        &mut allocator,
        0x0040_0000,
        0x0010_0000,
        true,
        false,
    )
    .unwrap();
    assert_eq!(translate(&space.pml4, &space.tables, 0x0040_0000), Some(0x0010_0000));
    // Another address in the same page walks to the same frame.
    assert_eq!(translate(&space.pml4, &space.tables, 0x0040_0ABC), Some(0x0010_0000));

    assert_eq!(unmap(&space.pml4, &mut space.tables, 0x0040_0000), Ok(0x0010_0000));
    assert_eq!(translate(&space.pml4, &space.tables, 0x0040_0000), None);
    assert_eq!(unmap(&space.pml4, &mut space.tables, 0x0040_0000), Err(MapError::NotMapped));
    // The identity mapping is untouched.
    assert_eq!(translate(&space.pml4, &space.tables, 0x1000), Some(0x1000));
}

#[test]
fn map_errors() {
    let mut allocator = booted_allocator();
    let mut pml4 = PageTable::new();
    let mut tables = PageTableMemory::new();
    let map_page = lib::memory::page_table::map;
    assert_eq!(
        map_page(&mut pml4, &mut tables, &mut allocator, 0x1001, 0x2000, true, false),
        Err(MapError::VirtualNotAligned)
    );
    assert_eq!(
        map_page(&mut pml4, &mut tables, &mut allocator, 0x1000, 0x2001, true, false),
        Err(MapError::PhysicalNotAligned)
    );
    let free = allocator.free_frames();
    assert_eq!(map_page(&mut pml4, &mut tables, &mut allocator, 0x1000, 0x5000, true, true), Ok(()));
    // A PDPT, a PD and a PT were created.
    assert_eq!(allocator.free_frames(), free - 3);
    assert_eq!(
        map_page(&mut pml4, &mut tables, &mut allocator, 0x1000, 0x6000, true, false),
        Err(MapError::AlreadyMapped)
    );
    assert_eq!(translate(&pml4, &tables, 0x1000), Some(0x5000));
    // A second page in the same PT needs no new table.
    assert_eq!(map_page(&mut pml4, &mut tables, &mut allocator, 0x2000, 0x7000, false, false), Ok(()));
    assert_eq!(allocator.free_frames(), free - 3);

    let mut empty = FrameAllocator::empty();
    assert_eq!(
        map_page(&mut pml4, &mut tables, &mut empty, 0x4000_0000, 0x7000, true, false),
        Err(MapError::OutOfMemory)
    );
    assert_eq!(translate(&pml4, &tables, 0x4000_0000), None);
}

#[test]
fn map_error_messages() {
    assert_eq!(MapError::VirtualNotAligned.message(), "virtual address is not page aligned");
    assert_eq!(MapError::PhysicalNotAligned.message(), "physical address is not page aligned");
    assert_eq!(MapError::OutOfMemory.message(), "out of physical memory");
    assert_eq!(MapError::AlreadyMapped.message(), "virtual page is already mapped");
    assert_eq!(MapError::NotMapped.message(), "virtual page is not mapped");
}

#[test]
fn identity_map_errors() {
    let mut allocator = booted_allocator();
    let mut space = AddressSpace::new(&mut allocator).unwrap();
    assert_eq!(
        space.identity_map(&mut allocator, 0x10, 0x2000, true),
        Err(AddressSpaceError::StartNotAligned)
    );
    assert_eq!(
        space.identity_map(&mut allocator, 0x1000, 0x2001, true),
        Err(AddressSpaceError::EndNotAligned)
    );
    assert_eq!(
        space.identity_map(&mut allocator, 0x2000, 0x2000, true),
        Err(AddressSpaceError::EmptyRange)
    );
    assert_eq!(space.identity_map(&mut allocator, 0x1000, 0x3000, false), Ok(()));
    assert_eq!(
        space.identity_map(&mut allocator, 0x2000, 0x4000, false),
        Err(AddressSpaceError::Mapping(MapError::AlreadyMapped))
    );
    assert_eq!(
        AddressSpaceError::EmptyRange.message(),
        "identity-map range is empty"
    );
    let mut empty = FrameAllocator::empty();
    assert!(matches!(
        AddressSpace::new(&mut empty),
        Err(AddressSpaceError::Mapping(MapError::OutOfMemory))
    ));
}

#[test]
fn kernel_heap_scenario() {
    let mut allocator = booted_allocator();
    let mut space = AddressSpace::new(&mut allocator).unwrap();
    space.identity_map(&mut allocator, 0x0000_0000, 0x0020_0000, true).unwrap();

    let mut heap = KernelHeap::new();
    assert_eq!(heap.start(), HEAP_START);
    assert_eq!(heap.end(), HEAP_END);
    assert_eq!(heap.end(), 0x4100_0000);
    assert_eq!(heap.size(), HEAP_SIZE);
    assert_eq!(heap.page_capacity(), 4096);
    assert!(!heap.is_initialized());

    assert_eq!(heap.initialize(&mut space.pml4, &mut space.tables, &mut allocator, 4), Ok(()));
    assert!(heap.is_initialized());
    assert_eq!(heap.mapped_pages(), 4);
    for page in 0..4u64 {
        assert!(translate(&space.pml4, &space.tables, HEAP_START + page * PAGE_SIZE).is_some());
    }
    assert_eq!(translate(&space.pml4, &space.tables, HEAP_START + 4 * PAGE_SIZE), None);

    assert_eq!(
        heap.initialize(&mut space.pml4, &mut space.tables, &mut allocator, 4),
        Err(HeapError::AlreadyInitialized)
    );
}

#[test]
fn kernel_heap_refusals() {
    let mut allocator = booted_allocator();
    let mut space = AddressSpace::new(&mut allocator).unwrap();
    let mut heap = KernelHeap::new();
    let (p, t) = (&mut space.pml4, &mut space.tables);
    assert_eq!(heap.initialize(p, t, &mut allocator, 0), Err(HeapError::ZeroPages));
    assert_eq!(heap.initialize(p, t, &mut allocator, u64::MAX), Err(HeapError::SizeOverflow));
    assert_eq!(heap.initialize(p, t, &mut allocator, 4097), Err(HeapError::ExceedsSize));
    assert_eq!(HeapError::ZeroPages.message(), "kernel heap page count is zero");
    assert_eq!(HeapError::SizeOverflow.message(), "kernel heap size overflow");
    assert_eq!(HeapError::ExceedsSize.message(), "kernel heap exceeds configured size");
    assert_eq!(HeapError::AlreadyInitialized.message(), "kernel heap already initialized");
    assert_eq!(HeapError::OutOfMemory.message(), "out of physical memory for kernel heap");
    assert_eq!(
        HeapError::Mapping(MapError::AlreadyMapped).message(),
        "virtual page is already mapped"
    );
    assert!(!heap.is_initialized());
}

#[test]
fn kernel_heap_failure_rolls_back() {
    let mut allocator = booted_allocator();
    let mut space = AddressSpace::new(&mut allocator).unwrap();
    // Page 2 of the heap is already mapped, so initialization fails there.
    lib::memory::page_table::map(
        &mut space.pml4,
        &mut space.tables,
        &mut allocator,
        HEAP_START + 2 * PAGE_SIZE,
        0x0030_0000,
        true,
        false,
    )
    .unwrap();
    let free = allocator.free_frames();
    let mut heap = KernelHeap::new();
    assert_eq!(
        heap.initialize(&mut space.pml4, &mut space.tables, &mut allocator, 4),
        Err(HeapError::Mapping(MapError::AlreadyMapped))
    );
    assert!(!heap.is_initialized());
    assert_eq!(heap.mapped_pages(), 0);
    assert_eq!(translate(&space.pml4, &space.tables, HEAP_START), None);
    assert_eq!(translate(&space.pml4, &space.tables, HEAP_START + PAGE_SIZE), None);
    assert_eq!(translate(&space.pml4, &space.tables, HEAP_START + 2 * PAGE_SIZE), Some(0x0030_0000));
    // The frames of the two pages mapped before the failure were given back.
    assert_eq!(allocator.free_frames(), free);
}

#[test]
fn kernel_heap_out_of_memory() {
    let mut allocator = booted_allocator();
    let mut space = AddressSpace::new(&mut allocator).unwrap();
    let mut heap = KernelHeap::new();
    let mut empty = FrameAllocator::empty();
    assert_eq!(
        heap.initialize(&mut space.pml4, &mut space.tables, &mut empty, 1),
        Err(HeapError::OutOfMemory)
    );
    assert!(!heap.is_initialized());
}

#[test]
fn map_created_entries_carry_access_bits() {
    let mut allocator = booted_allocator();
    let mut pml4 = PageTable::new();
    let mut tables = PageTableMemory::new();
    lib::memory::page_table::map(&mut pml4, &mut tables, &mut allocator, 0x0040_0000, 0x0010_0000, true, true)
        .unwrap();
    // Present, writable and user-accessible at every level.
    let pdpt = entry_address(pml4.entries[0]);
    assert_eq!(pml4.entries[0] & 0x7, 0x7);
    let pd = entry_address(tables.table(pdpt).entries[0]);
    assert_eq!(tables.table(pdpt).entries[0] & 0x7, 0x7);
    let pt = entry_address(tables.table(pd).entries[2]);
    assert_eq!(tables.table(pd).entries[2] & 0x7, 0x7);
    assert_eq!(tables.table(pt).entries[0], 0x0010_0007);
    // A supervisor read-only page in a new PT under the same PD.
    lib::memory::page_table::map(&mut pml4, &mut tables, &mut allocator, 0x0060_0000, 0x0020_0000, false, false)
        .unwrap();
    let pt2 = entry_address(tables.table(pd).entries[3]);
    assert_eq!(tables.table(pd).entries[3] & 0x7, 0x1);
    assert_eq!(tables.table(pt2).entries[0], 0x0020_0001);
}

#[test]
fn identity_map_takes_only_table_frames() {
    let mut allocator = booted_allocator();
    let mut space = AddressSpace::new(&mut allocator).unwrap();
    let free = allocator.free_frames();
    space.identity_map(&mut allocator, 0x0000_0000, 0x0040_0000, true).unwrap();
    // One PDPT, one PD and two PTs for 4 MiB.
    assert_eq!(allocator.free_frames(), free - 4);
    assert_eq!(translate(&space.pml4, &space.tables, 0x003F_F000), Some(0x003F_F000));
}

/// Takes frames from `allocator` until `left` are free.
fn drain_to(allocator: &mut FrameAllocator, left: usize) {
    while allocator.free_frames() > left {
        allocator.allocate_frame().unwrap();
    }
}

#[test]
fn kernel_heap_needs_pages_plus_missing_tables() {
    // 513 pages in an empty address space: a PDPT, a PD and a PT for the
    // first page, one more PT at the 2 MiB boundary, and a frame per page.
    let mut allocator = booted_allocator();
    let mut space = AddressSpace::new(&mut allocator).unwrap();
    drain_to(&mut allocator, 513 + 3 + 1);
    let mut heap = KernelHeap::new();
    assert_eq!(heap.initialize(&mut space.pml4, &mut space.tables, &mut allocator, 513), Ok(()));
    assert_eq!(allocator.free_frames(), 0);
    let mut frames = Vec::new();
    for page in 0..513u64 {
        frames.push(translate(&space.pml4, &space.tables, HEAP_START + page * PAGE_SIZE).unwrap());
    }
    frames.sort();
    frames.dedup();
    assert_eq!(frames.len(), 513);

    let mut allocator = booted_allocator();
    let mut space = AddressSpace::new(&mut allocator).unwrap();
    drain_to(&mut allocator, 513 + 3);
    let free = allocator.free_frames();
    let mut heap = KernelHeap::new();
    // The last page gets its frame, but its page table finds none.
    assert_eq!(
        heap.initialize(&mut space.pml4, &mut space.tables, &mut allocator, 513),
        Err(HeapError::Mapping(MapError::OutOfMemory))
    );
    assert_eq!(translate(&space.pml4, &space.tables, HEAP_START), None);
    // Only the tables made on the way stay taken.
    assert_eq!(allocator.free_frames(), free - 3);
}

#[test]
fn identity_map_needs_only_missing_tables() {
    // 8 MiB across the 1 GiB boundary: a PDPT, a PD and a PT for the first
    // page, a PT at each of three 2 MiB boundaries and a PD at 1 GiB.
    let mut allocator = booted_allocator();
    let mut space = AddressSpace::new(&mut allocator).unwrap();
    drain_to(&mut allocator, 7);
    assert_eq!(space.identity_map(&mut allocator, 0x3FC0_0000, 0x4040_0000, false), Ok(()));
    assert_eq!(allocator.free_frames(), 0);
    assert_eq!(translate(&space.pml4, &space.tables, 0x4000_0000), Some(0x4000_0000));
    assert_eq!(translate(&space.pml4, &space.tables, 0x403F_F000), Some(0x403F_F000));

    let mut allocator = booted_allocator();
    let mut space = AddressSpace::new(&mut allocator).unwrap();
    drain_to(&mut allocator, 6);
    assert_eq!(
        space.identity_map(&mut allocator, 0x3FC0_0000, 0x4040_0000, false),
        Err(AddressSpaceError::Mapping(MapError::OutOfMemory))
    );
}

#[test]
fn kernel_heap_counts_only_missing_tables() {
    // A page just past the range already has the page table of the second
    // 2 MiB: 513 pages then take a frame each and only the first page table.
    let mut allocator = booted_allocator();
    let mut space = AddressSpace::new(&mut allocator).unwrap();
    lib::memory::page_table::map(
        &mut space.pml4,
        &mut space.tables,
        &mut allocator,
        HEAP_START + 513 * PAGE_SIZE,
        0x0030_0000,
        true,
        false,
    )
    .unwrap();
    drain_to(&mut allocator, 513 + 1);
    let mut heap = KernelHeap::new();
    assert_eq!(heap.initialize(&mut space.pml4, &mut space.tables, &mut allocator, 513), Ok(()));
    assert_eq!(allocator.free_frames(), 0);
}

#[test]
fn identity_map_counts_only_missing_tables() {
    // With the PDPT, the second PD and one PT already there, the range
    // needs the first PD and three PTs.
    let mut allocator = booted_allocator();
    let mut space = AddressSpace::new(&mut allocator).unwrap();
    lib::memory::page_table::map(
        &mut space.pml4,
        &mut space.tables,
        &mut allocator,
        0x4030_0000,
        0x4030_0000,
        false,
        false,
    )
    .unwrap();
    drain_to(&mut allocator, 4);
    assert_eq!(space.identity_map(&mut allocator, 0x3FC0_0000, 0x4030_0000, false), Ok(()));
    assert_eq!(allocator.free_frames(), 0);

    let mut allocator = booted_allocator();
    let mut space = AddressSpace::new(&mut allocator).unwrap();
    lib::memory::page_table::map(
        &mut space.pml4,
        &mut space.tables,
        &mut allocator,
        0x4030_0000,
        0x4030_0000,
        false,
        false,
    )
    .unwrap();
    drain_to(&mut allocator, 3);
    assert_eq!(
        space.identity_map(&mut allocator, 0x3FC0_0000, 0x4030_0000, false),
        Err(AddressSpaceError::Mapping(MapError::OutOfMemory))
    );
}

use bos::memory::BootInfoFrameAllocator;
use bos::memory::MemoryRegion;
use bos::memory::PhysFrame;
use bos::paging::create_example_mapping;
use bos::paging::init;
use bos::paging::MapError;
use bos::paging::Page;
use bos::paging::FLAG_PRESENT;
use bos::paging::FLAG_WRITABLE;

fn small_allocator() -> BootInfoFrameAllocator {
    // sixteen usable frames at 0x10000, clear of the root table at 0x1000
    BootInfoFrameAllocator::init(vec![MemoryRegion {
        start_address: 0x10000,
        end_address: 0x20000,
        usable: true,
    }])
}

#[test]
fn map_then_translate_returns_frame_and_flags() {
    let mut mapper = init(0xffff_8000_0000_0000, 0x1000);
    let mut alloc = small_allocator();
    let page = Page { number: 0xdeadb };
    let frame = PhysFrame { start_address: 0x7000 };
    let flags = FLAG_PRESENT | FLAG_WRITABLE;
    let flush = mapper.map(page, frame, flags, &mut alloc).expect("map should succeed");
    let flushed = flush.flush();
    assert_eq!(flushed, page);
    assert_eq!(mapper.translate(page), Some((0x7000, flags)));
}

#[test]
fn unmapped_pages_translate_to_nothing() {
    let mut mapper = init(0, 0x1000);
    let mut alloc = small_allocator();
    let page = Page { number: 42 };
    assert_eq!(mapper.translate(page), None);
    let _ = mapper.map(page, PhysFrame { start_address: 0x3000 }, FLAG_PRESENT, &mut alloc)
        .expect("map should succeed")
        .flush();
    // a sibling page stays unmapped
    assert_eq!(mapper.translate(Page { number: 43 }), None);
    assert_eq!(mapper.translate(page), Some((0x3000, FLAG_PRESENT)));
}

#[test]
fn double_mapping_fails_and_leaves_first_mapping() {
    let mut mapper = init(0, 0x1000);
    let mut alloc = small_allocator();
    let page = Page { number: 0x555 };
    let flags = FLAG_PRESENT | FLAG_WRITABLE;
    let _ = mapper.map(page, PhysFrame { start_address: 0x4000 }, flags, &mut alloc)
        .expect("first map should succeed")
        .flush();
    let second = mapper.map(page, PhysFrame { start_address: 0x5000 }, FLAG_PRESENT, &mut alloc);
    assert!(matches!(second, Err(MapError::PageAlreadyMapped)));
    // the leaf entry of the first mapping is untouched
    assert_eq!(mapper.translate(page), Some((0x4000, flags)));
}

#[test]
fn frame_exhaustion_while_building_tables_is_reported() {
    let mut mapper = init(0, 0x1000);
    // two usable frames, but a fresh walk needs three intermediate tables
    let mut alloc = BootInfoFrameAllocator::init(vec![MemoryRegion {
        start_address: 0x10000,
        end_address: 0x12000,
        usable: true,
    }]);
    let r = mapper.map(Page { number: 7 }, PhysFrame { start_address: 0x8000 }, 1, &mut alloc);
    assert!(matches!(r, Err(MapError::FrameAllocationFailed)));
    assert_eq!(mapper.translate(Page { number: 7 }), None);
}

#[test]
fn pages_sharing_tables_reuse_them() {
    let mut mapper = init(0, 0x1000);
    // six usable frames: three for the first walk, none needed for the second
    let mut alloc = BootInfoFrameAllocator::init(vec![MemoryRegion {
        start_address: 0x10000,
        end_address: 0x16000,
        usable: true,
    }]);
    let _ = mapper.map(Page { number: 100 }, PhysFrame { start_address: 0x4000 }, 1, &mut alloc)
        .expect("first map should succeed")
        .flush();
    // page 101 shares all three intermediate tables with page 100
    let _ = mapper.map(Page { number: 101 }, PhysFrame { start_address: 0x5000 }, 1, &mut alloc)
        .expect("second map should succeed")
        .flush();
    assert_eq!(mapper.translate(Page { number: 100 }), Some((0x4000, 1)));
    assert_eq!(mapper.translate(Page { number: 101 }), Some((0x5000, 1)));
    // exactly three frames were consumed in all
    assert_eq!(alloc.allocate_frame(), Some(PhysFrame { start_address: 0x13000 }));
}

#[test]
fn example_mapping_targets_the_vga_frame() {
    let mut mapper = init(0, 0x1000);
    let mut alloc = small_allocator();
    let page = Page { number: 0 };
    create_example_mapping(page, &mut mapper, &mut alloc);
    assert_eq!(mapper.translate(page), Some((0xb8000, FLAG_PRESENT | FLAG_WRITABLE)));
}

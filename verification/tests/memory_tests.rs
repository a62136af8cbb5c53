use bos::memory::BootInfoFrameAllocator;
use bos::memory::MemoryRegion;
use bos::memory::PhysFrame;

fn region(start: u64, end: u64, usable: bool) -> MemoryRegion {
    MemoryRegion { start_address: start, end_address: end, usable }
}

#[test]
fn sixteen_kib_region_yields_four_frames_then_exhaustion() {
    let map = vec![region(0, 16384, true)];
    let mut alloc = BootInfoFrameAllocator::init(map);
    assert_eq!(alloc.allocate_frame(), Some(PhysFrame { start_address: 0 }));
    assert_eq!(alloc.allocate_frame(), Some(PhysFrame { start_address: 4096 }));
    assert_eq!(alloc.allocate_frame(), Some(PhysFrame { start_address: 8192 }));
    assert_eq!(alloc.allocate_frame(), Some(PhysFrame { start_address: 12288 }));
    assert_eq!(alloc.allocate_frame(), None);
    // exhaustion is permanent
    assert_eq!(alloc.allocate_frame(), None);
    assert_eq!(alloc.allocate_frame(), None);
}

#[test]
fn reserved_regions_are_skipped() {
    let map = vec![
        region(0, 8192, true),
        region(8192, 16384, false),
        region(16384, 28672, true),
    ];
    let mut alloc = BootInfoFrameAllocator::init(map);
    let mut got: Vec<u64> = Vec::new();
    while let Some(f) = alloc.allocate_frame() {
        got.push(f.start_address);
    }
    assert_eq!(got, vec![0, 4096, 16384, 20480, 24576]);
}

#[test]
fn frames_are_aligned_and_strictly_increasing() {
    let map = vec![
        region(4096, 12288, true),
        region(12288, 16384, false),
        region(0x100000, 0x103000, true),
    ];
    let mut alloc = BootInfoFrameAllocator::init(map);
    let mut last: Option<u64> = None;
    let mut count = 0;
    while let Some(f) = alloc.allocate_frame() {
        assert_eq!(f.start_address % 4096, 0);
        if let Some(prev) = last {
            assert!(f.start_address > prev);
        }
        last = Some(f.start_address);
        count += 1;
    }
    assert_eq!(count, 5);
}

#[test]
fn empty_memory_map_is_immediately_exhausted() {
    let mut alloc = BootInfoFrameAllocator::init(Vec::new());
    assert_eq!(alloc.allocate_frame(), None);
}

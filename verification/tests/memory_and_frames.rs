use iso_light_k0::allocator::{AllocError, BitmapFrameAllocator, PhysFrame, FRAME_SIZE};
use iso_light_k0::memory_map::{MemoryKind, MemoryMap, MemoryRegion, MAX_REGIONS};

fn region(base: u64, length: u64, kind: MemoryKind) -> MemoryRegion {
    MemoryRegion { base, length, kind }
}

fn sample_map() -> MemoryMap {
    let mut map = MemoryMap::empty();
    assert!(map.add_region(region(0x0, 0x9_F000, MemoryKind::Usable)).is_ok());
    assert!(map.add_region(region(0x9_F000, 0x1000, MemoryKind::Reserved)).is_ok());
    assert!(map.add_region(region(0x10_0000, 0x3000, MemoryKind::Usable)).is_ok());
    assert!(map.add_region(region(0xF000_0000, 0x10_0000, MemoryKind::AcpiNvs)).is_ok());
    map
}

#[test]
fn memory_map_keeps_regions_in_order() {
    let map = sample_map();
    assert_eq!(map.regions().len(), 4);
    assert_eq!(map.regions()[2].base, 0x10_0000);
    let usable = map.usable_regions();
    assert_eq!(usable.len(), 2);
    assert_eq!(usable[0].base, 0);
    assert_eq!(usable[1].base, 0x10_0000);
}

#[test]
fn memory_map_totals() {
    let map = sample_map();
    assert_eq!(map.total_usable_bytes(), 0x9_F000 + 0x3000);
    assert_eq!(map.highest_addr(), 0xF010_0000);
    assert_eq!(MemoryMap::empty().highest_addr(), 0);
    assert_eq!(MemoryMap::empty().total_usable_bytes(), 0);
}

#[test]
fn memory_map_drops_regions_past_capacity() {
    let mut map = MemoryMap::empty();
    for i in 0..(MAX_REGIONS as u64 + 3) {
        assert!(map.add_region(region(i * 0x1000, 0x1000, MemoryKind::Usable)).is_ok());
    }
    assert_eq!(map.regions().len(), MAX_REGIONS);
    assert_eq!(map.total_usable_bytes(), MAX_REGIONS as u64 * 0x1000);
}

#[test]
fn region_end_is_base_plus_length() {
    assert_eq!(region(0x2000, 0x3000, MemoryKind::Usable).end(), 0x5000);
}

#[test]
fn frame_from_addr_needs_alignment() {
    assert_eq!(PhysFrame::from_addr(0x5000).map(|f| f.addr()), Some(0x5000));
    assert!(PhysFrame::from_addr(0x5001).is_none());
    assert!(PhysFrame::from_addr(0x5FFF).is_none());
}

fn allocator_over(map: &MemoryMap) -> BitmapFrameAllocator {
    let mut a = BitmapFrameAllocator::new();
    a.init_from_memory_map(map);
    a
}

#[test]
fn new_allocator_has_nothing_free() {
    let mut a = BitmapFrameAllocator::new();
    assert_eq!(a.free_count(), 0);
    assert!(a.allocate().is_none());
}

#[test]
fn init_releases_whole_usable_frames_only() {
    let mut map = MemoryMap::empty();
    // Unaligned start and end: only the frames wholly inside are released.
    assert!(map.add_region(region(0x10_0800, 0x2000, MemoryKind::Usable)).is_ok());
    assert!(map.add_region(region(0x20_0000, 0x4000, MemoryKind::Reserved)).is_ok());
    let a = allocator_over(&map);
    assert_eq!(a.free_count(), 1);
    assert_eq!(a.free_bytes(), FRAME_SIZE);
}

#[test]
fn allocate_hands_out_lowest_free_frame() {
    let mut map = MemoryMap::empty();
    assert!(map.add_region(region(0x10_0000, 0x3000, MemoryKind::Usable)).is_ok());
    let mut a = allocator_over(&map);
    assert_eq!(a.free_count(), 3);
    let f0 = a.allocate().expect("first frame");
    let f1 = a.allocate().expect("second frame");
    assert_eq!(f0.addr(), 0x10_0000);
    assert_eq!(f1.addr(), 0x10_1000);
    assert_eq!(a.free_count(), 1);
    let f2 = a.allocate().expect("third frame");
    assert_eq!(f2.addr(), 0x10_2000);
    assert!(a.allocate().is_none());
}

#[test]
fn dealloc_then_allocate_gives_the_frame_back() {
    let mut map = MemoryMap::empty();
    assert!(map.add_region(region(0x10_0000, 0x2000, MemoryKind::Usable)).is_ok());
    let mut a = allocator_over(&map);
    let f0 = a.allocate().unwrap();
    let _f1 = a.allocate().unwrap();
    assert!(a.dealloc(f0).is_ok());
    assert_eq!(a.free_count(), 1);
    assert_eq!(a.allocate().unwrap().addr(), 0x10_0000);
}

#[test]
fn dealloc_errors() {
    let mut map = MemoryMap::empty();
    assert!(map.add_region(region(0x10_0000, 0x1000, MemoryKind::Usable)).is_ok());
    let mut a = allocator_over(&map);
    let free_frame = PhysFrame::from_addr(0x10_0000).unwrap();
    assert_eq!(a.dealloc(free_frame), Err(AllocError::DoubleFree));
    let beyond = PhysFrame::from_addr(0x1_0000_0000).unwrap();
    assert_eq!(a.dealloc(beyond), Err(AllocError::InvalidFrame));
    assert_eq!(a.free_count(), 1);
}

#[test]
fn mark_range_used_reserves_touched_frames() {
    let mut map = MemoryMap::empty();
    assert!(map.add_region(region(0x10_0000, 0x4000, MemoryKind::Usable)).is_ok());
    let mut a = allocator_over(&map);
    // Touches frames 0x100 and 0x101 (the end is rounded up).
    a.mark_range_used(0x10_0000, 0x1001);
    assert_eq!(a.free_count(), 2);
    assert_eq!(a.allocate().unwrap().addr(), 0x10_2000);
}

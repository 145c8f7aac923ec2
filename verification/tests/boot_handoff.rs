use iso_light_k0::allocator::{scrub_frame, BitmapFrameAllocator, PhysFrame};
use iso_light_k0::platform::{boot_decision, BootFault, TimerKind, EFER_NXE};
use iso_light_k0::bus::BusKind;
use iso_light_k0::health::EntropyError;
use iso_light_k0::memory_map::{MemoryKind, MemoryMap, MemoryRegion, ParseError};
use iso_light_k0::mmu::{self_test, AddressSpace, MmuError, GICD_PHYS, KERNEL_VMA_BASE, VIRTIO_MMIO_PHYS};
use iso_light_k0::multiboot2::{
    boot_info_from_multiboot2, parse_kaslr_offset, parse_multiboot2,
    MB2_TAG_KASLR,
};
use iso_light_k0::platform::{
    feat_rng_supported, fill_le_words, hex_u32, pan_supported, security_registers, simd_fpu_registers, CpuFeatures,
};
use iso_light_k0::syscall::{sys_getrandom_check, sys_write_check, syscall_route, SyscallError, SyscallNum};

fn tag(typ: u32, body: &[u8]) -> Vec<u8> {
    let mut t = Vec::new();
    t.extend_from_slice(&typ.to_le_bytes());
    t.extend_from_slice(&(8 + body.len() as u32).to_le_bytes());
    t.extend_from_slice(body);
    while t.len() % 8 != 0 {
        t.push(0);
    }
    t
}

fn mmap_entry(base: u64, length: u64, typ: u32) -> Vec<u8> {
    let mut e = Vec::new();
    e.extend_from_slice(&base.to_le_bytes());
    e.extend_from_slice(&length.to_le_bytes());
    e.extend_from_slice(&typ.to_le_bytes());
    e.extend_from_slice(&0u32.to_le_bytes());
    e
}

fn info(tags: &[Vec<u8>]) -> Vec<u8> {
    let mut body: Vec<u8> = tags.concat();
    body.extend_from_slice(&tag(0, &[]));
    let total = 8 + body.len() as u32;
    let mut v = Vec::new();
    v.extend_from_slice(&total.to_le_bytes());
    v.extend_from_slice(&0u32.to_le_bytes());
    v.extend_from_slice(&body);
    v
}

fn mmap_tag(entries: &[Vec<u8>]) -> Vec<u8> {
    let mut body = Vec::new();
    body.extend_from_slice(&24u32.to_le_bytes());
    body.extend_from_slice(&0u32.to_le_bytes());
    body.extend_from_slice(&entries.concat());
    tag(6, &body)
}

#[test]
fn multiboot2_memory_map() {
    let data = info(&[
        tag(1, b"cmdline\0"),
        mmap_tag(&[
            mmap_entry(0, 0x9_FC00, 1),
            mmap_entry(0x9_FC00, 0x400, 2),
            mmap_entry(0x10_0000, 0, 1),
            mmap_entry(0x10_0000, 0x7EE_0000, 1),
            mmap_entry(0xFEC0_0000, 0x1000, 4),
            mmap_entry(0xFFFF_0000, 0x1000, 9),
        ]),
    ]);
    let map = parse_multiboot2(0x1000, &data).ok().unwrap();
    let regions = map.regions();
    assert_eq!(regions.len(), 5);
    assert_eq!((regions[0].base, regions[0].length, regions[0].kind), (0, 0x9_FC00, MemoryKind::Usable));
    assert_eq!(regions[1].kind, MemoryKind::Reserved);
    assert_eq!(regions[2].base, 0x10_0000);
    assert_eq!(regions[3].kind, MemoryKind::AcpiNvs);
    assert_eq!(regions[4].kind, MemoryKind::Reserved);
    assert_eq!(map.total_usable_bytes(), 0x9_FC00 + 0x7EE_0000);
}

#[test]
fn multiboot2_refusals() {
    let data = info(&[]);
    assert!(matches!(parse_multiboot2(0, &data), Err(ParseError::InvalidAddress)));
    assert!(matches!(parse_multiboot2(0x1004, &data), Err(ParseError::InvalidAddress)));
    let mut small = data.clone();
    small[0..4].copy_from_slice(&4u32.to_le_bytes());
    assert!(matches!(parse_multiboot2(0x1000, &small), Err(ParseError::InvalidSize)));
    let mut huge = data.clone();
    huge[0..4].copy_from_slice(&65544u32.to_le_bytes());
    assert!(matches!(parse_multiboot2(0x1000, &huge), Err(ParseError::InvalidSize)));
    assert_eq!(parse_multiboot2(0x1000, &data).ok().map(|m| m.regions().len()), Some(0));
}

#[test]
fn multiboot2_ignores_a_map_tag_that_overruns_the_structure() {
    let mut t = mmap_tag(&[mmap_entry(0, 0x1000, 1)]);
    t[4..8].copy_from_slice(&4096u32.to_le_bytes());
    let mut data = Vec::new();
    data.extend_from_slice(&(8 + t.len() as u32).to_le_bytes());
    data.extend_from_slice(&0u32.to_le_bytes());
    data.extend_from_slice(&t);
    assert_eq!(parse_multiboot2(0x1000, &data).ok().map(|m| m.regions().len()), Some(0));
}

#[test]
fn multiboot2_zero_size_tag_ends_the_walk() {
    let mut data = info(&[tag(3, &[0u8; 8]), mmap_tag(&[mmap_entry(0x10_0000, 0x1000, 1)])]);
    data[12..16].copy_from_slice(&0u32.to_le_bytes());
    assert_eq!(parse_multiboot2(0x1000, &data).ok().map(|m| m.regions().len()), Some(0));
    assert_eq!(parse_kaslr_offset(0x1000, &data), None);
    assert_eq!(boot_info_from_multiboot2(0x1000, &data).memory_map.regions().len(), 0);
}

#[test]
fn kaslr_tag() {
    let good = info(&[tag(MB2_TAG_KASLR, &0x4000_0000u64.to_le_bytes())]);
    assert_eq!(parse_kaslr_offset(0x2000, &good), Some(0x4000_0000));
    let unaligned = info(&[tag(MB2_TAG_KASLR, &0x4000_1000u64.to_le_bytes())]);
    assert_eq!(parse_kaslr_offset(0x2000, &unaligned), None);
    let zero = info(&[tag(MB2_TAG_KASLR, &0u64.to_le_bytes())]);
    assert_eq!(parse_kaslr_offset(0x2000, &zero), None);
    assert_eq!(parse_kaslr_offset(0x2001, &good), None);
    let boot = boot_info_from_multiboot2(0x2000, &good);
    assert_eq!(boot.kaslr_offset, 0x4000_0000);
    assert_eq!(boot.memory_map.regions().len(), 0);
    let refused = boot_info_from_multiboot2(0, &good);
    assert_eq!(refused.kaslr_offset, 0);
}

#[test]
fn map_range_maps_both_halves() {
    let mut space = AddressSpace::new(0x4000_0000);
    assert!(space.map_range(KERNEL_VMA_BASE, 0x8_0010, 0x8_2001, false, true, false).is_ok());
    for pa in [0x8_0000u64, 0x8_1000, 0x8_2000] {
        assert_eq!(space.walk_to_phys(pa), Some(pa));
        assert_eq!(space.walk_to_phys(KERNEL_VMA_BASE + pa), Some(pa));
    }
    assert_eq!(space.walk_to_phys(0x8_3000), None);
    assert_eq!(space.map_range(KERNEL_VMA_BASE, 0x8_2000, 0x8_3000, true, false, false), Err(MmuError::AlreadyMapped));
    assert_eq!(space.map_range(KERNEL_VMA_BASE, 0x9_0000, 0x9_1000, true, true, false), Err(MmuError::WxPolicyViolation));
    assert!(space.map_range(KERNEL_VMA_BASE, 0x9_0000, 0x9_0000, true, true, false).is_ok());
}

#[test]
fn stage1_map_of_the_kernel() {
    let mut space = AddressSpace::new(0x4000_0000);
    let r = space.build_stage1_map(0x20_0000, 0x0900_0000, 0x4008_0000, 0x4009_0000, 0x400A_0000, 0x400B_0000);
    assert!(r.is_ok());
    let linear = KERNEL_VMA_BASE + 0x20_0000;
    assert_eq!(space.walk_to_phys(0x4008_0000), Some(0x4008_0000));
    assert_eq!(space.walk_to_phys(linear + 0x400A_F000), Some(0x400A_F000));
    assert_eq!(space.walk_to_phys(linear + 0x0900_0000), Some(0x0900_0000));
    assert_eq!(space.walk_to_phys(GICD_PHYS), Some(GICD_PHYS));
    assert_eq!(space.walk_to_phys(linear + VIRTIO_MMIO_PHYS + 0x3000), Some(VIRTIO_MMIO_PHYS + 0x3000));
    let mut again = space;
    assert_eq!(again.build_stage1_map(0x20_0000, 0x0900_0000, 0x4008_0000, 0x4009_0000, 0x400A_0000, 0x400B_0000), Err(MmuError::AlreadyMapped));
}

#[test]
fn mmu_self_test_verdicts() {
    assert_eq!(self_test(0x0400_0000_0000_0000 | 0x0900_0000), Ok(()));
    assert_eq!(self_test(1), Err(MmuError::SelfTestFault));
    assert_eq!(self_test(0xFF00_0000_0000_0000), Err(MmuError::SelfTestAttr));
}

#[test]
fn syscall_routing_and_checks() {
    assert_eq!(syscall_route(1), Some(SyscallNum::Write));
    assert_eq!(syscall_route(16), Some(SyscallNum::HsmStatus));
    assert_eq!(syscall_route(2), None);
    assert_eq!(syscall_route(14), None);
    assert_eq!(syscall_route(99), None);
    assert_eq!(sys_write_check(2, 0x40_0000, 10), Ok(10));
    assert_eq!(sys_write_check(1, 0x40_0000, 10), Err(SyscallError::BadArg.as_rax()));
    assert_eq!(sys_write_check(2, 0x40_0000, 8193), Err(SyscallError::BadArg.as_rax()));
    assert_eq!(sys_write_check(2, 0, 10), Err(SyscallError::BadAddress.as_rax()));
    assert_eq!(sys_getrandom_check(0x40_0000, 32), Ok(32));
    assert_eq!(sys_getrandom_check(0x40_0000, 0), Err(SyscallError::BadArg.as_rax()));
    assert_eq!(sys_getrandom_check(0x40_0000, 4097), Err(SyscallError::BadArg.as_rax()));
    assert_eq!(sys_getrandom_check(0xFFFF_8000_0000_0000, 32), Err(SyscallError::BadAddress.as_rax()));
    assert_eq!(BusKind::Software.code(), 0);
}

#[test]
fn control_register_values() {
    let feats = CpuFeatures::detect(1 << 26 | 1 << 28, 0, 1 << 7 | 1 << 20, 0);
    let (cr0, cr4, xcr0) = simd_fpu_registers(0x8000_001D, 0x20, feats);
    assert_eq!(cr0, 0x8000_0033);
    assert_eq!(cr4, 0x20 | 0x200 | 0x400 | 0x4_0000);
    assert_eq!(xcr0, Some(0x7));
    let plain = CpuFeatures::detect(0, 0, 0, 0);
    assert_eq!(simd_fpu_registers(0, 0, plain).2, None);
    let (cr0, cr4, efer) = security_registers(0x8000_0011, 0x20, 0x500, feats);
    assert_eq!(cr0, 0x8001_0011);
    assert_eq!(cr4, 0x20 | 0x10_0000 | 0x20_0000);
    assert_eq!(efer, 0x501);
}

#[test]
fn id_register_fields_and_hex() {
    assert!(pan_supported(0x10_0000));
    assert!(!pan_supported(0x0F_FFFF));
    assert!(feat_rng_supported(0x1000_0000_0000_0000));
    assert!(!feat_rng_supported(0x0FFF_FFFF_FFFF_FFFF));
    assert_eq!(&hex_u32(0x0001_0001), b"0x00010001");
    assert_eq!(&hex_u32(0xDEAD_BEEF), b"0xdeadbeef");
}

#[test]
fn hardware_words_fill_the_buffer() {
    let mut buf = [0u8; 12];
    let words = [Some(0x0807_0605_0403_0201u64), Some(0x1211_100F_0E0D_0C0Bu64)];
    assert!(fill_le_words(&mut buf, &words).is_ok());
    assert_eq!(buf, [1, 2, 3, 4, 5, 6, 7, 8, 0x0B, 0x0C, 0x0D, 0x0E]);
    let mut buf = [0xEEu8; 12];
    assert_eq!(fill_le_words(&mut buf, &[Some(0x0807_0605_0403_0201u64), None]), Err(EntropyError::SourceUnavailable));
    assert_eq!(buf, [1, 2, 3, 4, 5, 6, 7, 8, 0xEE, 0xEE, 0xEE, 0xEE]);
    let mut buf = [0u8; 9];
    assert_eq!(fill_le_words(&mut buf, &[Some(1)]), Err(EntropyError::SourceUnavailable));
}

#[test]
fn boot_decision_stops_on_the_first_fault() {
    let timer = Some((1_000_000, TimerKind::InvariantTsc));
    let draws = [Some(1), Some(2), Some(3), Some(4)];
    assert_eq!(boot_decision(EFER_NXE, timer, true, draws), Ok([1, 2, 3, 4]));
    assert_eq!(boot_decision(0, None, false, [None; 4]), Err(BootFault::NoExecuteDisabled));
    assert_eq!(boot_decision(EFER_NXE, None, false, draws), Err(BootFault::NoTimer));
    assert_eq!(boot_decision(EFER_NXE, timer, false, draws), Err(BootFault::AirGapSelfCheck));
    assert_eq!(boot_decision(EFER_NXE, timer, true, [Some(1), None, Some(3), Some(4)]), Err(BootFault::NoEntropy));
}

#[test]
fn scrubbed_frames_read_zero() {
    let mut mem = [0xAAu8; 4096];
    scrub_frame(&mut mem);
    assert!(mem.iter().all(|b| *b == 0));
    let mut map = MemoryMap::empty();
    assert!(map.add_region(MemoryRegion { base: 0x10_0000, length: 0x2000, kind: MemoryKind::Usable }).is_ok());
    let mut alloc = BitmapFrameAllocator::new();
    alloc.init_from_memory_map(&map);
    let f = alloc.allocate().unwrap();
    let mut frame_mem = [0x55u8; 4096];
    assert!(alloc.dealloc_scrubbed(f, &mut frame_mem).is_ok());
    assert!(frame_mem.iter().all(|b| *b == 0));
    let mut other = [0x55u8; 4096];
    assert!(alloc.dealloc_scrubbed(PhysFrame::from_addr(0x10_0000).unwrap(), &mut other).is_err());
    assert!(other.iter().all(|b| *b == 0x55));
}

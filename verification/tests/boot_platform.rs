use iso_light_k0::descriptors::{
    build_idt, idt_plan, pic_unmask, tss_desc_high, tss_desc_low, GateDescriptor, IdtHandler, TaskStateSegment,
    GATE_INTERRUPT, GATE_TRAP, IDT_HANDLER_COUNT, IST_DOUBLE_FAULT, IST_PAGE_FAULT, KERNEL_CS, TSS_SIZE,
};
use iso_light_k0::elf::{parse, ElfError, PF_R, PF_X, PT_INTERP, PT_LOAD};
use iso_light_k0::health::{
    ct_eq_bytes, sentinel_collect_with, EntropyError, HealthVerdict, StreamHealth, APT_WINDOW, RCT_CUTOFF,
    REENTRY_THRESHOLD, SENTINEL,
};
use iso_light_k0::jitter::{debias_bit, jitter_boot_self_test, jitter_collect_byte, jitter_fold_step, BOOT_SELF_TEST_SAMPLES};
use iso_light_k0::keystore::{HsmDriver, HsmError, KeystoreError, NullHsm, PskId, SoftKeystore, MAX_PSK_SLOTS};
use iso_light_k0::mmu::{
    build_tcr_el1, parange_from_mmfr0, AddressSpace, MmuError, Mmu, PageTableFlags, KERNEL_VMA_BASE, TCR_EL1_BASE,
};
use iso_light_k0::platform::{
    calibrate_tsc_via_rtc, fmt_dec, format_jitter_dump_line, format_sources_line, format_timer_line,
    timer_frequency, timer_frequency_x86_uncached, uip_step, BootInfo, CpuFeatures, KernelHal, TimerCache, TimerKind,
};

#[test]
fn decimal_formatting() {
    let mut out = [0u8; 8];
    assert_eq!(fmt_dec(&mut out, 0, 0), 1);
    assert_eq!(out[0], b'0');
    assert_eq!(fmt_dec(&mut out, 1, 4096), 5);
    assert_eq!(&out[1..5], b"4096");
    let mut small = [b'x'; 3];
    assert_eq!(fmt_dec(&mut small, 1, 98765), 3);
    assert_eq!(&small, b"x98");
    assert_eq!(fmt_dec(&mut small, 5, 1), 5);
}

#[test]
fn timer_and_sources_lines() {
    let mut buf = [0u8; 64];
    let n = format_timer_line(&mut buf, 2_400_000_000, TimerKind::InvariantTsc);
    assert_eq!(&buf[..n], b"[iso-light-k0] timer: invariant_tsc=true freq=2400000000 hz");
    let n = format_timer_line(&mut buf, 1, TimerKind::JitterCalibration);
    assert_eq!(&buf[..n], b"[iso-light-k0] timer: jitter_calibration freq=1 hz");
    let n = format_timer_line(&mut buf, u64::MAX, TimerKind::InvariantTsc);
    assert_eq!(n, 64);
    assert_eq!(&buf[..n], &b"[iso-light-k0] timer: invariant_tsc=true freq=18446744073709551615 hz"[..64]);
    let n = format_sources_line(&mut buf, 3);
    assert_eq!(&buf[..n], b"[iso-light-k0] ENTROPY_SOURCES_AVAILABLE=3");
}

#[test]
fn jitter_dump_line_in_hex() {
    let mut buf = [0u8; 600];
    let n = format_jitter_dump_line(&mut buf, &[0x00, 0xAB, 0x7F], 7);
    assert_eq!(&buf[..n], b"[iso-light-k0] JITTER_DUMP[07]=00ab7f");
    let big = [0x11u8; 300];
    let n = format_jitter_dump_line(&mut buf, &big, 42);
    assert_eq!(n, 31 + 2 * 284);
    assert_eq!(&buf[27..31], b"42]=");
}

#[test]
fn cpu_features_from_cpuid_bits() {
    let f = CpuFeatures::detect(1 << 25 | 1 << 30, 1 << 25 | 1 << 26, 1 << 7 | 1 << 20, 1 << 2);
    assert!(f.aes_ni && f.rdrand && f.sse && f.sse2 && f.smep && f.smap && f.umip);
    assert!(!f.avx && !f.avx2 && !f.rdseed && !f.sha_ni && !f.xsave);
}

#[test]
fn timer_frequency_chain() {
    assert_eq!(timer_frequency_x86_uncached(2, 200, 24_000_000, 0, Err(())), Some((2_400_000_000, TimerKind::InvariantTsc)));
    assert_eq!(timer_frequency_x86_uncached(0, 0, 0, 0x1_0BB8, Err(())), Some((3_000_000_000, TimerKind::InvariantTsc)));
    assert_eq!(timer_frequency_x86_uncached(0, 0, 0, 0, Ok(1234)), Some((1234, TimerKind::JitterCalibration)));
    assert_eq!(timer_frequency_x86_uncached(0, 5, 5, 0, Err(())), None);
    assert_eq!(timer_frequency_x86_uncached(3, 1, 1, 0, Err(())), None);
    assert_eq!(timer_frequency_x86_uncached(3, 1, 1, 0x0064, Err(())), Some((100_000_000, TimerKind::InvariantTsc)));
    assert_eq!(timer_frequency_x86_uncached(3, 1, 1, 0, Ok(77)), Some((77, TimerKind::JitterCalibration)));
    assert_eq!(timer_frequency_x86_uncached(0, 0, 0, 0, Ok(0)), None);
    let mut cache = TimerCache::new();
    assert_eq!(timer_frequency(&mut cache, 0, 0, 0, 0, Ok(99)), Some((99, TimerKind::JitterCalibration)));
    assert_eq!(timer_frequency(&mut cache, 1, 1, 1, 0, Err(())), Some((99, TimerKind::JitterCalibration)));
}

#[test]
fn rtc_calibration() {
    assert_eq!(calibrate_tsc_via_rtc(Some(100), Some(1100)), Ok(1000));
    assert_eq!(calibrate_tsc_via_rtc(Some(u64::MAX), Some(9)), Ok(10));
    assert_eq!(calibrate_tsc_via_rtc(Some(5), Some(5)), Err(()));
    assert_eq!(calibrate_tsc_via_rtc(None, Some(5)), Err(()));
    assert_eq!(uip_step(false, 0x80), (true, false));
    assert_eq!(uip_step(true, 0x00), (true, true));
    assert_eq!(uip_step(false, 0x00), (false, false));
}

#[test]
fn tss_layout_and_descriptor() {
    let mut tss = TaskStateSegment::new();
    assert_eq!(tss.iomap_base as usize, TSS_SIZE);
    assert_eq!(TaskStateSegment::limit(), 103);
    tss.install_ist(0x1000, 0x2000, 0x3000, 0x4000);
    tss.set_rsp0(0xFFFF_8000_0001_0000);
    let bytes = tss.to_bytes();
    assert_eq!(bytes.len(), 104);
    assert_eq!(&bytes[4..12], &0xFFFF_8000_0001_0000u64.to_le_bytes());
    assert_eq!(&bytes[36..44], &0x1000u64.to_le_bytes());
    assert_eq!(&bytes[60..68], &0x4000u64.to_le_bytes());
    assert_eq!(&bytes[102..104], &104u16.to_le_bytes());
    let low = tss_desc_low(0x1234_5678_9ABC_DEF0, 103);
    assert_eq!(low & 0xFFFF, 103);
    assert_eq!((low >> 16) & 0xFF_FFFF, 0xBC_DEF0);
    assert_eq!((low >> 40) & 0xFF, 0x89);
    assert_eq!(low >> 56, 0x9A);
    assert_eq!(tss_desc_high(0x1234_5678_9ABC_DEF0), 0x1234_5678);
}

#[test]
fn idt_gates() {
    let g = GateDescriptor::new(0x1122_3344_5566_7788, GATE_INTERRUPT, IST_PAGE_FAULT);
    assert_eq!((g.offset_low, g.offset_mid, g.offset_high), (0x7788, 0x5566, 0x1122_3344));
    assert_eq!((g.selector, g.ist, g.type_attr, g.reserved), (KERNEL_CS, 4, 0x8E, 0));
    assert_eq!(GateDescriptor::new(0, GATE_TRAP, 9).ist, 1);
    assert_eq!(GateDescriptor::absent().type_attr, 0);
    assert_eq!(idt_plan(0x08), (IdtHandler::DoubleFault, GATE_INTERRUPT, IST_DOUBLE_FAULT));
    assert_eq!(idt_plan(0x03), (IdtHandler::Breakpoint, GATE_TRAP, 0));
    assert_eq!(idt_plan(0x2A), (IdtHandler::IrqSlave, GATE_INTERRUPT, 0));
    assert_eq!(idt_plan(0x80), (IdtHandler::Default, GATE_INTERRUPT, 0));
    let handlers: Vec<u64> = (0..IDT_HANDLER_COUNT as u64).map(|i| 0x10_0000 + i * 0x10).collect();
    let idt = build_idt(&handlers);
    assert_eq!(idt.len(), 256);
    assert!(idt.iter().all(|g| g.type_attr & 0x80 != 0 && g.selector == KERNEL_CS));
    assert_eq!(idt[0x0E].offset_low, (0x10_0000 + 13 * 0x10) as u16);
    assert_eq!(idt[0x0E].ist, 4);
    assert_eq!(idt[0xFF].offset_low, (0x10_0000 + 22 * 0x10) as u16);
}

#[test]
fn pic_masks() {
    assert_eq!(pic_unmask(0, 0xFF, 0xFF), (0xFE, 0xFF));
    assert_eq!(pic_unmask(10, 0xFF, 0xFF), (0xFB, 0xFB));
    assert_eq!(pic_unmask(16, 0xFF, 0xFF), (0xFF, 0xFF));
}

#[test]
fn boot_info_and_dma_pool() {
    let info = BootInfo::empty();
    assert_eq!(info.memory_map.regions().len(), 0);
    assert_eq!(info.command_line, [0u8; 128]);
    let mut hal = KernelHal::new();
    assert_eq!(hal.dma_alloc(0), None);
    assert_eq!(hal.dma_alloc(2), Some(0));
    assert_eq!(hal.dma_alloc(3), None);
    assert_eq!(hal.dma_alloc(2), Some(2));
    assert_eq!(hal.dma_alloc(1), None);
    assert_eq!(KernelHal::virt_to_phys(KERNEL_VMA_BASE + 0x5000), 0x5000);
    assert_eq!(KernelHal::virt_to_phys(0x5000), 0x5000);
}

#[test]
fn health_tests_fail_on_repetition() {
    let mut h = StreamHealth::new();
    let mut verdict = HealthVerdict::NeedMoreData;
    for _ in 0..RCT_CUTOFF {
        verdict = h.check(7);
    }
    assert_eq!(verdict, HealthVerdict::Fail);
    assert!(h.is_disabled());
    for i in 0..REENTRY_THRESHOLD {
        h.check(i as u8 + 100);
    }
    assert!(!h.is_disabled());
}

#[test]
fn health_tests_pass_varied_data() {
    let mut h = StreamHealth::new();
    let mut last = HealthVerdict::NeedMoreData;
    for i in 0..APT_WINDOW {
        last = h.check((i * 37 % 251) as u8);
    }
    assert_eq!(last, HealthVerdict::Pass);
    assert!(!h.is_disabled());
}

#[test]
fn sentinel_collection() {
    let mut scratch = [0u8; 32];
    let mut buf = [0u8; 8];
    assert_eq!(sentinel_collect_with::<()>(&mut scratch, &mut buf, Err(())), Err(EntropyError::SourceUnavailable));
    let mut scratch = [SENTINEL; 32];
    assert_eq!(sentinel_collect_with::<()>(&mut scratch, &mut buf, Ok(32)), Err(EntropyError::SourceUnavailable));
    assert_eq!(scratch, [0u8; 32]);
    let mut scratch = [0x5Au8; 32];
    assert_eq!(sentinel_collect_with::<()>(&mut scratch, &mut buf, Ok(32)), Ok(8));
    assert_eq!(buf, [0x5A; 8]);
    assert_eq!(scratch, [0u8; 32]);
    assert_eq!(ct_eq_bytes(&[1, 2], &[1, 2]), 1);
    assert_eq!(ct_eq_bytes(&[1, 2], &[1, 3]), 0);
}

#[test]
fn jitter_decisions() {
    assert_eq!(debias_bit(0, 2, 3), Some(0));
    assert_eq!(debias_bit(0, 1, 3), Some(1));
    assert_eq!(debias_bit(0, 2, 4), None);
    assert_eq!(debias_bit(u64::MAX, 0, 2), Some(1));
    let ones = [(0u64, 1u64, 3u64); 8];
    assert_eq!(jitter_collect_byte(false, &ones), Some(0xFF));
    let mixed = [(0, 2, 3), (0, 1, 3), (0, 2, 4), (0, 2, 3), (0, 2, 3), (0, 2, 3), (0, 2, 3), (0, 2, 3), (0, 1, 3)];
    assert_eq!(jitter_collect_byte(false, &mixed), Some(0b0100_0001));
    assert_eq!(jitter_collect_byte(true, &ones), None);
    assert_eq!(jitter_collect_byte(false, &ones[..7]), None);
    let mut pool = [1u8; 2048];
    let sum = jitter_fold_step(&mut pool);
    assert_eq!(pool[0], 0xB1);
    assert_eq!(pool[1], 0x62);
    assert_eq!(sum, pool.iter().map(|&b| b as u64).sum::<u64>());
    let varied: Vec<u8> = (0..BOOT_SELF_TEST_SAMPLES).map(|i| (i * 37 % 251) as u8).collect();
    assert!(jitter_boot_self_test(&varied));
    let stuck = vec![3u8; BOOT_SELF_TEST_SAMPLES];
    assert!(!jitter_boot_self_test(&stuck));
}

#[test]
fn elf_loads_a_minimal_image() {
    let image = elf_image(PT_LOAD, 0x40_0000, 0x1000, 0x1000, 120);
    let parsed = parse(&image).ok().unwrap();
    assert_eq!(parsed.entry, 0x40_0078);
    assert_eq!(parsed.loads.len, 1);
    assert_eq!(parsed.loads.headers[0].p_vaddr, 0x40_0000);
    assert!(parsed.loads.headers[0].is_executable());
    assert!(!parsed.loads.headers[0].is_writable());
}

fn elf_image(p_type: u32, vaddr: u64, memsz: u64, align: u64, filesz: u64) -> Vec<u8> {
    let mut d = vec![0u8; 120];
    d[0..4].copy_from_slice(&[0x7F, b'E', b'L', b'F']);
    d[4] = 2;
    d[5] = 1;
    d[6] = 1;
    d[16..18].copy_from_slice(&2u16.to_le_bytes());
    d[18..20].copy_from_slice(&62u16.to_le_bytes());
    d[20..24].copy_from_slice(&1u32.to_le_bytes());
    d[24..32].copy_from_slice(&0x40_0078u64.to_le_bytes());
    d[32..40].copy_from_slice(&64u64.to_le_bytes());
    d[54..56].copy_from_slice(&56u16.to_le_bytes());
    d[56..58].copy_from_slice(&1u16.to_le_bytes());
    let ph = 64;
    d[ph..ph + 4].copy_from_slice(&p_type.to_le_bytes());
    d[ph + 4..ph + 8].copy_from_slice(&(PF_R | PF_X).to_le_bytes());
    d[ph + 16..ph + 24].copy_from_slice(&vaddr.to_le_bytes());
    d[ph + 32..ph + 40].copy_from_slice(&filesz.to_le_bytes());
    d[ph + 40..ph + 48].copy_from_slice(&memsz.to_le_bytes());
    d[ph + 48..ph + 56].copy_from_slice(&align.to_le_bytes());
    d
}

#[test]
fn elf_errors() {
    let good = elf_image(PT_LOAD, 0x40_0000, 0x1000, 0x1000, 120);
    assert_eq!(parse(&good[..63]).err(), Some(ElfError::Truncated));
    let mut d = good.clone();
    d[1] = b'X';
    assert_eq!(parse(&d).err(), Some(ElfError::BadMagic));
    let mut d = good.clone();
    d[4] = 1;
    assert_eq!(parse(&d).err(), Some(ElfError::UnsupportedFormat));
    let mut d = good.clone();
    d[18] = 183;
    assert_eq!(parse(&d).err(), Some(ElfError::UnsupportedTarget));
    let mut d = good.clone();
    d[54] = 64;
    assert_eq!(parse(&d).err(), Some(ElfError::BadPhentSize));
    let mut d = good.clone();
    d[56] = 9;
    assert_eq!(parse(&d).err(), Some(ElfError::TooManyHeaders));
    let mut d = good.clone();
    d[56] = 2;
    assert_eq!(parse(&d).err(), Some(ElfError::PhdrOutOfBounds));
    assert_eq!(parse(&elf_image(PT_LOAD, 0x40_0000, 0x10, 0x1000, 120)).err(), Some(ElfError::BadSegmentLayout));
    assert_eq!(parse(&elf_image(PT_LOAD, 0x40_0000, 0x1000, 0x800, 120)).err(), Some(ElfError::BadSegmentLayout));
    assert_eq!(parse(&elf_image(PT_LOAD, 0x40_0000, 0x1000, 0x1000, 121)).err(), Some(ElfError::SegmentOutOfBounds));
    assert_eq!(parse(&elf_image(PT_LOAD, 0xFFFF_8000_0000_0000, 0x1000, 0x1000, 120)).err(), Some(ElfError::BadVirtualAddress));
    assert_eq!(parse(&elf_image(PT_INTERP, 0x40_0000, 0x1000, 0x1000, 120)).err(), Some(ElfError::DynamicLinkingRejected));
}

#[test]
fn address_space_maps_and_translates() {
    let mut space = AddressSpace::new(0x4000_0000);
    assert_eq!(space.walk_to_phys(0x40_0000), None);
    assert!(space.map_user_page(0x40_0000, 0x8000_0000, false).is_ok());
    assert_eq!(space.walk_to_phys(0x40_0000), Some(0x8000_0000));
    assert_eq!(space.map_user_page(0x40_0000, 0x8000_1000, false), Err(MmuError::AlreadyMapped));
    assert_eq!(space.map_user_page(0x40_0001, 0x8000_1000, false), Err(MmuError::UnalignedAddress));
    let wx = PageTableFlags::present().union(PageTableFlags::writable());
    assert_eq!(space.map_page(0x41_0000, 0x8000_2000, wx), Err(MmuError::WxPolicyViolation));
    let w_nx = wx.union(PageTableFlags::no_execute());
    assert!(space.map_page(0x41_0000, 0x8000_2000, w_nx).is_ok());
    assert_eq!(space.walk_to_phys(0x41_0000), Some(0x8000_2000));
    let user_nx = PageTableFlags::present().union(PageTableFlags::user_accessible()).union(PageTableFlags::no_execute());
    assert!(space.map_page(0x42_0000, 0x8000_3000, user_nx).is_ok());
    assert_eq!(space.walk_to_phys(0x42_0000), Some(0x8000_3000));
}

#[test]
fn tcr_and_linear_base() {
    assert_eq!(parange_from_mmfr0(0x3), 3);
    assert_eq!(parange_from_mmfr0(0xF), 5);
    assert_eq!(build_tcr_el1(0x2), TCR_EL1_BASE | (2u64 << 32));
    assert_eq!(Mmu::new().initialize(None).linear_base(), KERNEL_VMA_BASE);
    assert_eq!(Mmu::new().initialize(Some(0x20_0123)).linear_base(), KERNEL_VMA_BASE + 0x20_0000);
}

#[test]
fn keystore_provision_find_destroy() {
    let mut ks = SoftKeystore::new();
    let id = PskId::from_bytes([7u8; 16]);
    assert!(!ks.psk_exists(&id));
    assert_eq!(ks.provision(id, &[]), Err(KeystoreError::InvalidLength));
    assert_eq!(ks.provision(id, &[1u8; 65]), Err(KeystoreError::InvalidLength));
    assert!(ks.provision(id, b"secret").is_ok());
    assert!(ks.psk_exists(&id));
    assert_eq!(ks.provision(id, b"again"), Err(KeystoreError::Duplicate));
    assert_eq!(ks.provisioned_count(), 1);
    let mut prk = [0u8; 32];
    assert!(ks.psk_hkdf_extract(&id, b"salt", &mut prk).is_ok());
    let mut expected = [0u8; 32];
    iso_light_k0::crypto_service::hkdf_extract(b"salt", b"secret", &mut expected);
    assert_eq!(prk, expected);
    assert!(ks.psk_destroy(&id).is_ok());
    assert!(!ks.psk_exists(&id));
    assert_eq!(ks.psk_hkdf_extract(&id, b"salt", &mut prk), Err(HsmError::PskNotFound));
}

#[test]
fn keystore_fills_and_wipes() {
    let mut ks = SoftKeystore::new();
    for i in 0..MAX_PSK_SLOTS {
        assert!(ks.provision(PskId::from_bytes([i as u8 + 1; 16]), &[1]).is_ok());
    }
    assert_eq!(ks.provision(PskId::from_bytes([99; 16]), &[1]), Err(KeystoreError::Full));
    ks.wipe_all();
    assert_eq!(ks.provisioned_count(), 0);
    assert!(!ks.psk_exists(&PskId::from_bytes([1; 16])));
}

#[test]
fn null_hsm_holds_nothing() {
    let mut hsm = NullHsm::new();
    let id = PskId::from_bytes([1; 16]);
    assert!(!hsm.psk_exists(&id));
    let mut prk = [0u8; 32];
    assert_eq!(hsm.psk_hkdf_extract(&id, b"s", &mut prk), Err(HsmError::NotProvisioned));
    assert!(hsm.psk_destroy(&id).is_ok());
}

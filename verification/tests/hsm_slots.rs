use iso_light_k0::air_gap::{status_record, AirGap, NetCapState, GAP_STATUS_LEN};
use iso_light_k0::bus::{BusKind, WireAction};
use iso_light_k0::capability::{CapError, EP_LUMEN_WIRE};
use iso_light_k0::hsm_attest::{AuditRing, EnrollEvent};
use iso_light_k0::hsm_registry::{
    attach_check, attach_outcome, detach_check, detach_rax, read_check, relay_check, write_check, HsmCapError,
    HsmCapability, HsmRegistry, HsmRights, HsmSlotIdx, HsmSlotInfo, ATTACH_RIGHTS, ATTEST_EXACT, HSM_MAX_SLOTS,
    HSM_RIGHTS_ENUMERATE, HSM_RIGHTS_REVOKE, HSM_RIGHTS_USE,
};
use iso_light_k0::ipc::init;
use iso_light_k0::syscall::{SyscallContext, SyscallError};

fn attach_software(reg: &mut HsmRegistry, token: u64, role: u8) -> Result<HsmCapability, HsmCapError> {
    let endpoints = init();
    reg.attach(BusKind::Software, &[role], None, false, [0; 4], HsmRights(ATTACH_RIGHTS), Ok(token), None, &endpoints)
}

fn ctx(args: [u64; 6]) -> SyscallContext {
    SyscallContext { pc: 0, flags: 0, num: 0, arg0: args[0], arg1: args[1], arg2: args[2], arg3: args[3], arg4: args[4], arg5: args[5] }
}

#[test]
fn attach_then_authenticate_then_detach() {
    let mut reg = HsmRegistry::new();
    assert_eq!(reg.attached_count(), 0);
    let cap = attach_software(&mut reg, 0x1111, 0).ok().unwrap();
    assert_eq!(cap.slot.0, 0);
    assert_eq!(cap.token, 0x1111);
    assert_eq!(reg.attached_count(), 1);
    assert!(!reg.slot_is_empty(HsmSlotIdx(0)));
    assert!(reg.authenticate(&cap, HsmRights(HSM_RIGHTS_USE)));
    assert!(reg.detach(&cap, HsmRights(HSM_RIGHTS_REVOKE)).is_ok());
    assert!(reg.slot_is_empty(HsmSlotIdx(0)));
    assert!(!reg.authenticate(&cap, HsmRights(HSM_RIGHTS_USE)));
    assert_eq!(reg.detach(&cap, HsmRights(HSM_RIGHTS_REVOKE)), Err(HsmCapError::NotAttached));
}

#[test]
fn forged_or_out_of_range_capabilities_are_refused() {
    let mut reg = HsmRegistry::new();
    let cap = attach_software(&mut reg, 0x2222, 0).ok().unwrap();
    let forged = HsmCapability::with_forged_token(0x2223, cap.slot, cap.rights);
    assert!(!reg.authenticate(&forged, HsmRights(HSM_RIGHTS_USE)));
    assert_eq!(reg.detach(&forged, HsmRights(HSM_RIGHTS_REVOKE)), Err(HsmCapError::InvalidToken));
    let beyond = HsmCapability::with_forged_token(0x2222, HsmSlotIdx(9), cap.rights);
    assert_eq!(reg.detach(&beyond, HsmRights(HSM_RIGHTS_REVOKE)), Err(HsmCapError::InvalidSlot));
    let weak = HsmCapability::with_forged_token(0x2222, cap.slot, HsmRights(HSM_RIGHTS_USE));
    assert!(!reg.authenticate(&weak, HsmRights(HSM_RIGHTS_REVOKE)));
    assert!(reg.authenticate(&cap, HsmRights(HSM_RIGHTS_USE | HSM_RIGHTS_ENUMERATE)));
    assert!(!reg.authenticate(&HsmCapability::invalid(), HsmRights(0)));
}

#[test]
fn attach_errors() {
    let endpoints = init();
    let mut reg = HsmRegistry::new();
    let payload = vec![0u8; ATTEST_EXACT];
    let r = reg.attach(BusKind::Software, &[0], Some(&payload), false, [1, 2, 3, 4], HsmRights(ATTACH_RIGHTS), Ok(5), None, &endpoints);
    assert_eq!(r.err(), Some(HsmCapError::AttestFailed));
    let short = vec![0u8; ATTEST_EXACT - 1];
    let r = reg.attach(BusKind::Software, &[0], Some(&short), true, [0; 4], HsmRights(ATTACH_RIGHTS), Ok(5), None, &endpoints);
    assert_eq!(r.err(), Some(HsmCapError::AttestFailed));
    let r = reg.attach(BusKind::Software, &[0], None, false, [0; 4], HsmRights(ATTACH_RIGHTS), Err(CapError::NoEntropy), None, &endpoints);
    assert_eq!(r.err(), Some(HsmCapError::TokenGen));
    let r = reg.attach(BusKind::Software, &[7], None, false, [0; 4], HsmRights(ATTACH_RIGHTS), Ok(5), None, &endpoints);
    assert_eq!(r.err(), Some(HsmCapError::BadInit));
    let r = reg.attach(BusKind::Usb, &[], None, false, [0; 4], HsmRights(ATTACH_RIGHTS), Ok(5), None, &endpoints);
    assert_eq!(r.err(), Some(HsmCapError::BadInit));
    assert_eq!(reg.attached_count(), 0);
    let ok = reg.attach(BusKind::Software, &[0], Some(&payload), true, [9, 9, 9, 9], HsmRights(ATTACH_RIGHTS), Ok(5), None, &endpoints);
    assert!(ok.is_ok());
}

#[test]
fn hsm_registry_fills_up() {
    let mut reg = HsmRegistry::new();
    for i in 0..HSM_MAX_SLOTS {
        let cap = attach_software(&mut reg, 100 + i as u64, 0).ok().unwrap();
        assert_eq!(cap.slot.0 as usize, i);
    }
    assert_eq!(attach_software(&mut reg, 999, 0).err(), Some(HsmCapError::Full));
    let mut infos = [HsmSlotInfo::empty(); 10];
    assert_eq!(reg.enumerate(&mut infos), HSM_MAX_SLOTS);
    assert_eq!(infos[3].slot, 3);
    assert_eq!(infos[8].slot, 0xFF);
}

#[test]
fn ring3_attach_needs_a_registered_endpoint() {
    let endpoints = init();
    let mut reg = HsmRegistry::new();
    let r = reg.attach(BusKind::Ring3Process, &[0x99, 0x00], None, false, [0; 4], HsmRights(ATTACH_RIGHTS), Ok(8), None, &endpoints);
    assert_eq!(r.err(), Some(HsmCapError::BadInit));
    let cap = reg
        .attach(BusKind::Ring3Process, &EP_LUMEN_WIRE.to_le_bytes(), None, false, [0; 4], HsmRights(ATTACH_RIGHTS), Ok(8), None, &endpoints)
        .ok()
        .unwrap();
    assert_eq!(reg.use_auth(&cap), Ok(cap.slot.0 as usize));
}

#[test]
fn slot_bus_echo_and_relay() {
    let audit = AuditRing::new();
    let mut reg = HsmRegistry::new();
    let src = attach_software(&mut reg, 0xA, 0).ok().unwrap();
    let dst = attach_software(&mut reg, 0xB, 0).ok().unwrap();
    assert_eq!(reg.relay_auth(&src, &dst), Ok((0, 1)));
    assert_eq!(reg.relay_auth(&dst, &HsmCapability::invalid()), Err(SyscallError::Denied.as_rax()));
    assert!(matches!(reg.slot_bus_write(0, b"relay!", &[], &audit), Ok((6, WireAction::Answered))));
    let moved = reg.relay_read(0, 6).ok().unwrap();
    assert_eq!(moved, b"relay!".to_vec());
    assert_eq!(reg.relay_write(1, &moved, &[], &audit), 0);
    let mut out = [0u8; 6];
    assert_eq!(reg.slot_bus_read(1, &mut out), Ok(6));
    assert_eq!(&out, b"relay!");
    assert_eq!(reg.relay_read(0, 6), Err(SyscallError::Internal.as_rax()));
}

#[test]
fn relay_refuses_a_short_source_and_keeps_its_bytes() {
    let audit = AuditRing::new();
    let mut reg = HsmRegistry::new();
    let _src = attach_software(&mut reg, 0xA, 0).ok().unwrap();
    assert!(matches!(reg.slot_bus_write(0, b"abc", &[], &audit), Ok((3, WireAction::Answered))));
    assert_eq!(reg.relay_read(0, 5), Err(SyscallError::Internal.as_rax()));
    let mut out = [0u8; 3];
    assert_eq!(reg.slot_bus_read(0, &mut out), Ok(3));
    assert_eq!(&out, b"abc");
}

#[test]
fn write_request_answers_zero_or_internal() {
    let audit = AuditRing::new();
    let mut reg = HsmRegistry::new();
    let _cap = attach_software(&mut reg, 0xA, 0).ok().unwrap();
    assert!(matches!(reg.write_request(0, b"hello", &[], &audit), (0, WireAction::Answered)));
    assert_eq!(reg.write_request(0, &[0u8; 64], &[], &audit).0, SyscallError::Internal.as_rax());
    assert_eq!(reg.write_request(3, b"x", &[], &audit).0, SyscallError::Internal.as_rax());
    assert_eq!(reg.write_request(9, b"x", &[], &audit).0, SyscallError::Internal.as_rax());
}

#[test]
fn attach_syscall_argument_checks() {
    let mut audit = AuditRing::new();
    let good = [0, 0x40_0000, 1, 0x41_0000, 0x42_0000, ATTEST_EXACT as u64];
    assert!(matches!(attach_check(&ctx(good), &mut audit), Ok(BusKind::Software)));
    let mut a = good;
    a[0] = 3;
    assert_eq!(attach_check(&ctx(a), &mut audit).err(), Some(SyscallError::BadArg.as_rax()));
    let mut a = good;
    a[2] = 33;
    assert_eq!(attach_check(&ctx(a), &mut audit).err(), Some(SyscallError::BadArg.as_rax()));
    let mut a = good;
    a[5] = 10;
    assert_eq!(attach_check(&ctx(a), &mut audit).err(), Some(SyscallError::BadArg.as_rax()));
    let mut a = good;
    a[1] = 0x10;
    assert_eq!(attach_check(&ctx(a), &mut audit).err(), Some(SyscallError::BadAddress.as_rax()));
    let mut a = good;
    a[4] = 0xFFFF_8000_0000_0000;
    assert_eq!(attach_check(&ctx(a), &mut audit).err(), Some(SyscallError::BadAddress.as_rax()));
    let four_args = [0, 0x40_0000, 1, 0, 0x42_0000, 0];
    assert!(matches!(attach_check(&ctx(four_args), &mut audit), Ok(BusKind::Software)));
    let ring3_four_args = [1, 0x40_0000, 2, 0, 0x42_0000, 0];
    assert!(matches!(attach_check(&ctx(ring3_four_args), &mut audit), Ok(BusKind::Ring3Process)));
    let mut a = good;
    a[3] = 0x10;
    assert_eq!(attach_check(&ctx(a), &mut audit).err(), Some(SyscallError::BadAddress.as_rax()));
    let mut a = good;
    a[0] = 6;
    assert_eq!(attach_check(&ctx(a), &mut audit).err(), Some(SyscallError::Denied.as_rax()));
    let mut events = [EnrollEvent::zeroed(); 4];
    let (n, total) = audit.audit_snapshot(&mut events);
    assert_eq!((n, total), (1, 1));
    assert_eq!((events[0].slot_idx, events[0].result, events[0].bus_kind), (0xFF, 2, 6));
}

#[test]
fn attach_outcome_collapses_errors() {
    let mut audit = AuditRing::new();
    let cap = HsmCapability::with_forged_token(4, HsmSlotIdx(2), HsmRights(ATTACH_RIGHTS));
    assert_eq!(attach_outcome(Ok(cap), BusKind::Software, [1, 1, 1, 1], &mut audit).ok().map(|c| c.token), Some(4));
    assert_eq!(attach_outcome(Err(HsmCapError::AttestFailed), BusKind::Ring3Process, [2; 4], &mut audit).err(), Some(SyscallError::Denied.as_rax()));
    assert_eq!(attach_outcome(Err(HsmCapError::Full), BusKind::Software, [0; 4], &mut audit).err(), Some(SyscallError::BadArg.as_rax()));
    assert_eq!(attach_outcome(Err(HsmCapError::TokenGen), BusKind::Software, [0; 4], &mut audit).err(), Some(SyscallError::Internal.as_rax()));
    let mut events = [EnrollEvent::zeroed(); 4];
    let (n, _) = audit.audit_snapshot(&mut events);
    assert_eq!(n, 2);
    assert_eq!((events[0].slot_idx, events[0].result), (2, 0));
    assert_eq!((events[1].slot_idx, events[1].result, events[1].bus_kind), (0xFF, 1, 1));
}

#[test]
fn other_syscall_checks() {
    assert!(detach_check(&ctx([0x40_0000, 0, 16, 0, 0, 0])).is_ok());
    assert_eq!(detach_check(&ctx([0x40_0000, 0, 8, 0, 0, 0])).err(), Some(SyscallError::BadArg.as_rax()));
    assert_eq!(detach_rax(Ok(())), 0);
    assert_eq!(detach_rax(Err(HsmCapError::NotAttached)), SyscallError::Denied.as_rax());
    assert_eq!(detach_rax(Err(HsmCapError::Full)), SyscallError::Internal.as_rax());
    assert_eq!(write_check(&ctx([0x40_0000, 0x41_0000, 0, 0, 0, 0])).err(), Some(SyscallError::BadArg.as_rax()));
    assert_eq!(relay_check(&ctx([0x40_0000, 0x41_0000, 5000, 0, 0, 0])).err(), Some(SyscallError::BadArg.as_rax()));
    assert_eq!(read_check(&ctx([0x40_0000, 0x41_0000, 8, 0, 0, 0])).err(), Some(SyscallError::BadArg.as_rax()));
}

#[test]
fn audit_ring_keeps_the_latest_events() {
    let mut audit = AuditRing::new();
    for i in 0..40u8 {
        audit.audit_enqueue(i, 0, 0, [i; 4]);
    }
    let mut events = [EnrollEvent::zeroed(); 32];
    let (n, total) = audit.audit_snapshot(&mut events);
    assert_eq!((n, total), (32, 40));
    assert_eq!(events[0].slot_idx, 8);
    assert_eq!(events[31].slot_idx, 39);
    let mut few = [EnrollEvent::zeroed(); 3];
    let (n, _) = audit.audit_snapshot(&mut few);
    assert_eq!(n, 3);
    assert_eq!(few[0].slot_idx, 8);
    assert_eq!(few[2].slot_idx, 10);
}

#[test]
fn air_gap_caps_are_taken_once() {
    let mut gap = AirGap::new();
    let mut audit = AuditRing::new();
    assert!(!gap.gap_self_check(false, &mut audit));
    gap.init_audit_read_cap(Some(0xABCD));
    assert!(gap.gap_self_check(false, &mut audit));
    assert!(!gap.gap_self_check(true, &mut audit));
    let c = ctx([0x40_0000, 0, 0, 0, 0, 0]);
    let cap = gap.take_audit_read_cap(&c, &mut audit).ok().unwrap();
    assert_eq!(cap.token, 0xABCD);
    assert_eq!(gap.take_audit_read_cap(&c, &mut audit).err(), Some(SyscallError::Denied.as_rax()));
    assert!(matches!(gap.audit_cap_state, NetCapState::Taken));
    assert!(matches!(gap.network_cap_state, NetCapState::Provisioned));
    let bad = ctx([0, 0, 0, 0, 0, 0]);
    assert_eq!(gap.take_audit_read_cap(&bad, &mut audit).err(), Some(SyscallError::Denied.as_rax()));
}

#[test]
fn air_gap_status_record_has_fixed_size() {
    let mut gap = AirGap::new();
    gap.init_audit_read_cap(Some(77));
    let reg = HsmRegistry::new();
    let mut audit = AuditRing::new();
    let rec = status_record(&reg, &audit);
    assert_eq!(rec.len(), GAP_STATUS_LEN);
    let short = ctx([0x40_0000, 100, 77, 0, 0, 0]);
    assert_eq!(gap.handle_status(&short, &reg, &mut audit).err(), Some(SyscallError::Denied.as_rax()));
    let wrong = ctx([0x40_0000, GAP_STATUS_LEN as u64, 78, 0, 0, 0]);
    assert_eq!(gap.handle_status(&wrong, &reg, &mut audit).err(), Some(SyscallError::Denied.as_rax()));
    let good = ctx([0x40_0000, GAP_STATUS_LEN as u64, 77, 0, 0, 0]);
    assert_eq!(gap.handle_status(&good, &reg, &mut audit).ok().map(|v| v.len()), Some(GAP_STATUS_LEN));
}

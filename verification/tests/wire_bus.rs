use iso_light_k0::bus::{
    build_error_frame_inplace, build_response_frame, gcm_nonce_bytes, handle_ping, handle_status, parse_header,
    write_header, BusError, BusInstance, BusKind, Ring3ProcessBus, SoftHsmRole, SoftwareBus, WireAction, WireCmd,
    WireFrameHeader, WireStatus, WIRE_FRAME_MAX,
};
use iso_light_k0::capability::EP_LUMEN_WIRE;
use iso_light_k0::hsm_attest::AuditRing;
use iso_light_k0::ipc::init;

fn request(cmd: u16, req_id: u32, payload: &[u8]) -> Vec<u8> {
    let mut v = Vec::new();
    v.extend_from_slice(b"LWK0");
    v.extend_from_slice(&1u16.to_le_bytes());
    v.extend_from_slice(&cmd.to_le_bytes());
    v.extend_from_slice(&req_id.to_le_bytes());
    v.extend_from_slice(&(payload.len() as u16).to_le_bytes());
    v.extend_from_slice(&0u16.to_le_bytes());
    v.extend_from_slice(payload);
    v
}

#[test]
fn command_and_status_codes() {
    assert_eq!(WireCmd::Ping.code(), 0x0001);
    assert_eq!(WireCmd::Blake3Hash.code(), 0x0010);
    assert_eq!(WireCmd::AttestSubmit.code(), 0x0040);
    assert_eq!(WireCmd::Status.code(), 0x0080);
    assert_eq!(WireCmd::Error.code(), 0xFFFF);
    assert_eq!(WireStatus::Success.code(), 0);
    assert_eq!(WireStatus::Internal.code(), 4);
    assert_eq!(BusKind::Network.code(), 6);
}

#[test]
fn header_round_trip() {
    let h = WireFrameHeader { magic: *b"LWK0", version: 1, cmd: 0x0010, req_id: 0x0A0B_0C0D, payload_len: 28, status: 0 };
    let mut bytes = [0u8; 16];
    write_header(&h, &mut bytes);
    assert_eq!(&bytes[0..4], b"LWK0");
    assert_eq!(&bytes[8..12], &[0x0D, 0x0C, 0x0B, 0x0A]);
    let back = parse_header(&bytes);
    assert_eq!(back.magic, h.magic);
    assert_eq!(back.cmd, h.cmd);
    assert_eq!(back.req_id, h.req_id);
    assert_eq!(back.payload_len, h.payload_len);
    let raw: [u8; 16] = request(0x0080, 7, &[]).try_into().unwrap();
    let p = parse_header(&raw);
    let mut again = [0u8; 16];
    write_header(&p, &mut again);
    assert_eq!(again, raw);
}

#[test]
fn response_and_error_frames() {
    let mut out = [0xAAu8; WIRE_FRAME_MAX];
    let n = build_response_frame(9, WireCmd::Blake3Hash, WireStatus::Success, &[1, 2, 3], &mut out);
    assert_eq!(n, 19);
    assert_eq!(&out[0..4], b"LWK0");
    assert_eq!(u16::from_le_bytes([out[6], out[7]]), 0x8010);
    assert_eq!(u16::from_le_bytes([out[12], out[13]]), 3);
    assert_eq!(&out[16..19], &[1, 2, 3]);
    assert_eq!(out[19], 0xAA);
    let n = build_error_frame_inplace(5, WireStatus::Denied, &mut out);
    assert_eq!(n, 16);
    assert_eq!(u16::from_le_bytes([out[6], out[7]]), 0xFFFF);
    assert_eq!(u16::from_le_bytes([out[14], out[15]]), 3);
    let n = handle_ping(77, &mut out);
    assert_eq!(n, 16);
    assert_eq!(u16::from_le_bytes([out[6], out[7]]), 0x8001);
    assert_eq!(u32::from_le_bytes([out[8], out[9], out[10], out[11]]), 77);
}

#[test]
fn status_frame_reports_audit_events() {
    let mut audit = AuditRing::new();
    audit.audit_enqueue(1, 0, 0, [1, 2, 3, 4]);
    audit.audit_enqueue(0xFF, 1, 1, [5, 6, 7, 8]);
    let mut out = [0u8; WIRE_FRAME_MAX];
    let n = handle_status(3, &[], &audit, &mut out);
    assert_eq!(n, 16 + 8 + 2 * 12);
    assert_eq!(u16::from_le_bytes([out[12], out[13]]), 8 + 24);
    assert_eq!(&out[16..24], &[2, 0, 2, 0, 0, 0, 0, 0]);
    assert_eq!(&out[24..36], &[0, 0, 0, 0, 1, 0, 0, 0, 1, 2, 3, 4]);
    assert_eq!(&out[36..48], &[1, 0, 0, 0, 0xFF, 1, 1, 0, 5, 6, 7, 8]);
    let n = handle_status(3, &[1], &audit, &mut out);
    assert_eq!(n, 16);
    assert_eq!(u16::from_le_bytes([out[14], out[15]]), WireStatus::BadFrame.code());
}

#[test]
fn gcm_nonce_is_little_endian_counter() {
    assert_eq!(gcm_nonce_bytes(0x0102), [2, 1, 0, 0, 0, 0, 0, 0, 0, 0, 0, 0]);
}

#[test]
fn software_bus_echo() {
    let mut bus = SoftwareBus::new();
    assert_eq!(bus.write(b"x", &[]), Err(BusError::NotOpen));
    assert!(bus.open(&[0], None).is_ok());
    assert_eq!(bus.open(&[0], None), Err(BusError::AlreadyOpen));
    assert_eq!(bus.role(), SoftHsmRole::Echo);
    assert_eq!(bus.write(b"hello", &[]), Ok(5));
    let mut out = [0u8; 3];
    assert_eq!(bus.read(&mut out), Ok(3));
    assert_eq!(&out, b"hel");
    let mut rest = [0u8; 8];
    assert_eq!(bus.read(&mut rest), Ok(2));
    assert_eq!(&rest[..2], b"lo");
    assert_eq!(bus.write(&[0u8; 65], &[]), Err(BusError::BufferTooSmall));
    assert!(bus.close().is_ok());
    assert_eq!(bus.close(), Err(BusError::NotOpen));
}

#[test]
fn software_bus_rejects_bad_init() {
    let mut bus = SoftwareBus::new();
    assert_eq!(bus.open(&[9], None), Err(BusError::BadInit));
    assert_eq!(bus.open(&[1, 1], None), Err(BusError::BadInit));
    assert_eq!(bus.open(&[2], None), Err(BusError::Internal));
    assert!(bus.open(&[1, 0, 0], None).is_ok());
    assert_eq!(bus.role(), SoftHsmRole::Blake3);
}

#[test]
fn software_bus_blake3_role_keeps_the_digest() {
    let mut bus = SoftwareBus::new();
    assert!(bus.open(&[1], None).is_ok());
    let digest = [0x5Au8; 32];
    assert_eq!(bus.write(b"input", &digest[..31]), Err(BusError::Internal));
    assert_eq!(bus.write(b"input", &digest), Ok(32));
    let mut out = [0u8; 64];
    assert_eq!(bus.read(&mut out), Ok(32));
    assert_eq!(&out[..32], &digest);
}

#[test]
fn software_bus_aes_gcm_frames_nonce_then_ciphertext() {
    let mut bus = SoftwareBus::new();
    assert!(bus.open(&[2], Some([7u8; 32])).is_ok());
    assert_eq!(bus.aes_next_nonce(), Some([1, 0, 0, 0, 0, 0, 0, 0, 0, 0, 0, 0]));
    let sealed = [0xC3u8; 4 + 16];
    assert_eq!(bus.write(b"abcd", &sealed), Ok(4 + 12 + 16));
    let mut out = [0u8; 64];
    assert_eq!(bus.read(&mut out), Ok(32));
    assert_eq!(&out[..12], &[1, 0, 0, 0, 0, 0, 0, 0, 0, 0, 0, 0]);
    assert_eq!(&out[12..32], &sealed);
    assert_eq!(bus.write(&[0u8; 40], &[0u8; 56]), Err(BusError::BufferTooSmall));
    bus.zeroize();
    assert_eq!(bus.write(b"x", &[]), Err(BusError::NotOpen));
}

#[test]
fn ring3_bus_answers_ping_and_hands_out_hash_work() {
    let endpoints = init();
    let audit = AuditRing::new();
    let mut bus = Ring3ProcessBus::new();
    assert_eq!(bus.open(&[0x42, 0x00], &endpoints), Err(BusError::BadInit));
    assert!(bus.open(&EP_LUMEN_WIRE.to_le_bytes(), &endpoints).is_ok());
    let mut out = [0u8; WIRE_FRAME_MAX];
    assert_eq!(bus.read(&mut out), Err(BusError::WireNotReady));
    let ping = request(0x0001, 11, &[]);
    assert!(matches!(bus.write(&ping, &audit), Ok((16, WireAction::Answered))));
    assert_eq!(bus.write(&ping, &audit), Err(BusError::Internal));
    assert_eq!(bus.read(&mut out), Ok(16));
    assert_eq!(u16::from_le_bytes([out[6], out[7]]), 0x8001);
    let hash = request(0x0010, 12, b"PHASE4_INPUT");
    match bus.write(&hash, &audit) {
        Ok((n, WireAction::Blake3Hash { req_id, payload_len })) => {
            assert_eq!(n, 28);
            assert_eq!(req_id, 12);
            assert_eq!(payload_len, 12);
        },
        _ => panic!("expected hash work"),
    }
    bus.finish_blake3(12, Ok([9u8; 32]));
    assert_eq!(bus.read(&mut out), Ok(48));
    assert_eq!(u16::from_le_bytes([out[6], out[7]]), 0x8010);
    assert_eq!(&out[16..48], &[9u8; 32]);
}

#[test]
fn ring3_bus_rejects_malformed_frames_and_unknown_commands() {
    let endpoints = init();
    let audit = AuditRing::new();
    let mut bus = Ring3ProcessBus::new();
    assert!(bus.open(&EP_LUMEN_WIRE.to_le_bytes(), &endpoints).is_ok());
    let mut bad = request(0x0001, 1, &[]);
    bad[0] = b'X';
    assert_eq!(bus.write(&bad, &audit), Err(BusError::Internal));
    assert_eq!(bus.write(&bad[..10], &audit), Err(BusError::Internal));
    let unknown = request(0x0033, 2, &[]);
    assert!(matches!(bus.write(&unknown, &audit), Ok((16, WireAction::Answered))));
    let mut out = [0u8; 16];
    assert_eq!(bus.read(&mut out), Ok(16));
    assert_eq!(u16::from_le_bytes([out[14], out[15]]), WireStatus::UnknownCmd.code());
}

#[test]
fn bus_instance_dispatches_by_kind() {
    let endpoints = init();
    let audit = AuditRing::new();
    let mut sw = BusInstance::new(BusKind::Software);
    assert_eq!(sw.kind(), BusKind::Software);
    assert!(!sw.is_ring3());
    assert!(sw.open(&[0], None, &endpoints).is_ok());
    assert!(matches!(sw.write(b"hi", &[], &audit), Ok((2, WireAction::Answered))));
    let mut usb = BusInstance::new(BusKind::Usb);
    assert_eq!(usb.open(&[], None, &endpoints), Err(BusError::NotImplemented));
    let mut empty = BusInstance::new_empty();
    let mut out = [0u8; 4];
    assert_eq!(empty.read(&mut out), Err(BusError::NotOpen));
    sw.zeroize();
    assert!(matches!(sw, BusInstance::Empty));
}

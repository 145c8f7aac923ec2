use iso_light_k0::capability::{
    ct_eq_u16, ct_eq_u32, ct_eq_u64, ct_eq_u8, ct_ne_u64, token_from_drbg_output, CapError, Capability,
    CapabilitySpace, EndpointId, Rights, ENDPOINT_INVALID, EP_CRYPTO, EP_LUMEN_WIRE, EP_SIGN, EP_SYSTEM,
    MAX_CAPS_PER_SPACE, RIGHTS_ALL, RIGHTS_CALL, RIGHTS_GRANT, RIGHTS_NONE, RIGHTS_RECV, RIGHTS_SEND,
};
use iso_light_k0::ipc::{
    endpoint_exists, init, is_kernel_service, CryptoAlgo, IpcEndpoint, IpcError, IpcMessage, IpcRegistry,
    MessageType, IPC_MAX_ENDPOINTS, IPC_MAX_PAYLOAD,
};
use iso_light_k0::syscall::{is_user_address, user_range_ok, SyscallError, SyscallNum, USER_MAX, USER_MIN};

#[test]
fn rights_contain_union_restrict() {
    let rw = Rights(RIGHTS_SEND).union(Rights(RIGHTS_RECV));
    assert_eq!(rw.0, RIGHTS_SEND | RIGHTS_RECV);
    assert!(rw.contains(Rights(RIGHTS_SEND)));
    assert!(!rw.contains(Rights(RIGHTS_CALL)));
    assert_eq!(Rights(RIGHTS_ALL).restrict(Rights(RIGHTS_CALL)).0, RIGHTS_CALL);
    assert!(Rights(RIGHTS_NONE).contains(Rights(RIGHTS_NONE)));
}

#[test]
fn capability_checks_token_endpoint_and_rights() {
    let cap = Capability::new(0xDEAD_BEEF, EndpointId(EP_CRYPTO), Rights(RIGHTS_CALL | RIGHTS_SEND));
    assert!(cap.is_valid_for(EndpointId(EP_CRYPTO), Rights(RIGHTS_CALL)));
    assert!(!cap.is_valid_for(EndpointId(EP_SIGN), Rights(RIGHTS_CALL)));
    assert!(!cap.is_valid_for(EndpointId(EP_CRYPTO), Rights(RIGHTS_GRANT)));
    let zero = Capability::new(0, EndpointId(EP_CRYPTO), Rights(RIGHTS_ALL));
    assert!(!zero.is_valid_for(EndpointId(EP_CRYPTO), Rights(RIGHTS_NONE)));
    let null = Capability::null();
    assert_eq!(null.token, 0);
    assert_eq!(null.endpoint_id.0, ENDPOINT_INVALID);
}

#[test]
fn derive_needs_grant_and_never_adds_rights() {
    let no_grant = Capability::new(7, EndpointId(EP_SYSTEM), Rights(RIGHTS_CALL));
    assert!(matches!(no_grant.derive(Rights(RIGHTS_CALL)), Err(CapError::NoGrantRight)));
    let parent = Capability::new(7, EndpointId(EP_SYSTEM), Rights(RIGHTS_CALL | RIGHTS_GRANT));
    let child = parent.derive(Rights(RIGHTS_CALL | RIGHTS_SEND)).ok().unwrap();
    assert_eq!(child.token, 7);
    assert_eq!(child.rights.0, RIGHTS_CALL);
    assert!(!child.is_valid_for(EndpointId(EP_SYSTEM), Rights(RIGHTS_SEND)));
    assert!(parent.is_valid_for(EndpointId(EP_SYSTEM), Rights(RIGHTS_CALL)));
}

#[test]
fn zeroize_invalidates_capability() {
    let mut cap = Capability::new(99, EndpointId(EP_SIGN), Rights(RIGHTS_ALL));
    cap.zeroize();
    assert_eq!(cap.token, 0);
    assert_eq!(cap.rights.0, RIGHTS_NONE);
    assert!(!cap.is_valid_for(EndpointId(EP_SIGN), Rights(RIGHTS_NONE)));
}

#[test]
fn constant_time_comparisons() {
    assert_eq!(ct_eq_u64(5, 5), 1);
    assert_eq!(ct_eq_u64(5, 6), 0);
    assert_eq!(ct_ne_u64(5, 6), 1);
    assert_eq!(ct_ne_u64(0, 0), 0);
    assert_eq!(ct_eq_u32(0xFFFF_FFFF, 0xFFFF_FFFF), 1);
    assert_eq!(ct_eq_u16(1, 2), 0);
    assert_eq!(ct_eq_u8(0x80, 0x80), 1);
    let a = Capability::new(11, EndpointId(EP_SIGN), Rights(RIGHTS_CALL));
    let b = Capability::new(11, EndpointId(EP_CRYPTO), Rights(RIGHTS_NONE));
    assert_eq!(a.ct_token_eq(&b), 1);
}

#[test]
fn token_is_big_endian_and_never_zero() {
    assert_eq!(token_from_drbg_output([0, 0, 0, 0, 0, 0, 1, 2]), Some(0x0102));
    assert_eq!(token_from_drbg_output([0x12, 0x34, 0x56, 0x78, 0x9A, 0xBC, 0xDE, 0xF0]), Some(0x1234_5678_9ABC_DEF0));
    assert_eq!(token_from_drbg_output([0; 8]), None);
}

#[test]
fn capability_space_insert_find_revoke() {
    let mut space = CapabilitySpace::empty();
    let c1 = Capability::new(100, EndpointId(EP_CRYPTO), Rights(RIGHTS_CALL));
    let c2 = Capability::new(200, EndpointId(EP_SIGN), Rights(RIGHTS_CALL));
    assert_eq!(space.insert(c1), Some(0));
    assert_eq!(space.insert(c2), Some(1));
    assert_eq!(space.find_by_token(200), Some(1));
    assert_eq!(space.find_by_token(300), None);
    assert_eq!(space.find_by_token(0), None);
    assert!(space.revoke(0).is_ok());
    assert_eq!(space.find_by_token(100), None);
    assert!(space.get(0).is_none());
    assert_eq!(space.get(1).map(|c| c.token), Some(200));
    assert!(matches!(space.revoke(MAX_CAPS_PER_SPACE), Err(_)));
}

#[test]
fn capability_space_fills_up() {
    let mut space = CapabilitySpace::empty();
    for i in 0..MAX_CAPS_PER_SPACE {
        assert_eq!(space.insert(Capability::new(i as u64 + 1, EndpointId(EP_CRYPTO), Rights(RIGHTS_CALL))), Some(i));
    }
    assert_eq!(space.insert(Capability::new(1000, EndpointId(EP_CRYPTO), Rights(RIGHTS_CALL))), None);
}

#[test]
fn syscall_error_codes_are_negative() {
    assert_eq!(SyscallError::Unknown.as_rax() as i64, -1);
    assert_eq!(SyscallError::BadArg.as_rax() as i64, -2);
    assert_eq!(SyscallError::BadAddress.as_rax() as i64, -3);
    assert_eq!(SyscallError::Denied.as_rax() as i64, -4);
    assert_eq!(SyscallError::NoMessage.as_rax() as i64, -5);
    assert_eq!(SyscallError::Internal.as_rax() as i64, -6);
}

#[test]
fn syscall_numbers() {
    assert_eq!(SyscallNum::Exit.code(), 0);
    assert_eq!(SyscallNum::Write.code(), 1);
}

#[test]
fn user_address_bounds() {
    assert!(!is_user_address(0));
    assert!(!is_user_address(USER_MIN - 1));
    assert!(is_user_address(USER_MIN));
    assert!(is_user_address(USER_MAX - 1));
    assert!(!is_user_address(USER_MAX));
    assert!(user_range_ok(0x40_0000, 0x1000));
    assert!(!user_range_ok(USER_MAX - 0x10, 0x20));
    assert!(!user_range_ok(0x40_0000, u64::MAX));
}

#[test]
fn kernel_services() {
    assert!(is_kernel_service(EndpointId(EP_SYSTEM)));
    assert!(is_kernel_service(EndpointId(EP_CRYPTO)));
    assert!(is_kernel_service(EndpointId(EP_SIGN)));
    assert!(!is_kernel_service(EndpointId(EP_LUMEN_WIRE)));
}

#[test]
fn message_and_algo_codes() {
    assert_eq!(MessageType::Ping.code(), 0x0001);
    assert_eq!(CryptoAlgo::Aes256Gcm.code(), 0x02);
    assert_eq!(CryptoAlgo::Aes128Gcm.code(), 0x01);
}

#[test]
fn set_payload_limits() {
    let mut m = IpcMessage::new(MessageType::HashReq, 3);
    assert!(m.set_payload(&[1, 2, 3]).is_ok());
    assert_eq!(m.payload_bytes(), &[1, 2, 3]);
    let big = [0u8; IPC_MAX_PAYLOAD + 1];
    assert_eq!(m.set_payload(&big), Err(IpcError::PayloadTooLarge));
    assert_eq!(m.payload_bytes(), &[1, 2, 3]);
}

fn call_cap(ep: u16) -> Capability {
    Capability::new(0x5555, EndpointId(ep), Rights(RIGHTS_CALL))
}

#[test]
fn endpoint_post_take_reply() {
    let mut ep = IpcEndpoint::new(EndpointId(EP_CRYPTO), Rights(RIGHTS_CALL));
    let mut msg = IpcMessage::new(MessageType::HashReq, 0);
    assert!(msg.set_payload(b"abc").is_ok());
    assert_eq!(ep.post(&call_cap(EP_SIGN), msg), Err(IpcError::CapabilityDenied));
    let mut msg = IpcMessage::new(MessageType::HashReq, 0);
    assert!(msg.set_payload(b"abc").is_ok());
    assert!(ep.post(&call_cap(EP_CRYPTO), msg).is_ok());
    let busy = IpcMessage::new(MessageType::Ping, 0);
    assert_eq!(ep.post(&call_cap(EP_CRYPTO), busy), Err(IpcError::EndpointBusy));
    let got = ep.take().ok().unwrap();
    assert_eq!(got.payload_bytes(), b"abc");
    assert!(matches!(ep.take(), Err(IpcError::NoMessage)));
    assert!(ep.post_reply(IpcMessage::new(MessageType::HashResp, 1)).is_ok());
    let reply = ep.take_reply().ok().unwrap();
    assert_eq!(reply.header.msg_type, MessageType::HashResp);
    assert!(matches!(ep.take_reply(), Err(IpcError::NoMessage)));
}

#[test]
fn registry_send_recv_reply_poll_round_trip() {
    let mut reg = init();
    assert!(endpoint_exists(&reg, EndpointId(EP_LUMEN_WIRE)));
    assert!(!endpoint_exists(&reg, EndpointId(0x0042)));
    assert!(reg.ipc_send(&call_cap(EP_CRYPTO), MessageType::EncryptReq, b"payload").is_ok());
    let m = reg.ipc_recv(EndpointId(EP_CRYPTO)).ok().unwrap();
    assert_eq!(m.header.msg_type, MessageType::EncryptReq);
    assert_eq!(m.payload_bytes(), b"payload");
    assert_eq!(m.header.sequence, 1);
    assert!(reg.ipc_reply(EndpointId(EP_CRYPTO), MessageType::EncryptResp, b"sealed").is_ok());
    let r = reg.poll_reply(EndpointId(EP_CRYPTO)).ok().unwrap();
    assert_eq!(r.header.msg_type, MessageType::EncryptResp);
    assert_eq!(r.payload_bytes(), b"sealed");
    assert!(matches!(reg.poll_reply(EndpointId(EP_CRYPTO)), Err(IpcError::NoMessage)));
}

#[test]
fn registry_errors() {
    let mut reg = init();
    let no_call = Capability::new(1, EndpointId(EP_CRYPTO), Rights(RIGHTS_SEND));
    assert_eq!(reg.ipc_send(&no_call, MessageType::HashReq, b"x"), Err(IpcError::CapabilityDenied));
    assert_eq!(reg.ipc_send(&call_cap(0x0077), MessageType::HashReq, b"x"), Err(IpcError::EndpointNotFound));
    let big = [0u8; IPC_MAX_PAYLOAD + 1];
    assert_eq!(reg.ipc_send(&call_cap(EP_CRYPTO), MessageType::HashReq, &big), Err(IpcError::PayloadTooLarge));
    assert!(matches!(reg.ipc_recv(EndpointId(EP_CRYPTO)), Err(IpcError::NoMessage)));
    assert!(matches!(reg.ipc_recv(EndpointId(0x0077)), Err(IpcError::EndpointNotFound)));
    assert!(reg.ipc_send(&call_cap(EP_SIGN), MessageType::SignReq, b"1").is_ok());
    assert_eq!(reg.ipc_send(&call_cap(EP_SIGN), MessageType::SignReq, b"2"), Err(IpcError::EndpointBusy));
}

#[test]
fn ipc_registry_fills_up() {
    let mut reg = IpcRegistry::empty();
    for i in 0..IPC_MAX_ENDPOINTS {
        assert!(reg.register(EndpointId(0x100 + i as u16), Rights(RIGHTS_CALL)).is_ok());
    }
    assert_eq!(reg.register(EndpointId(0x200), Rights(RIGHTS_CALL)), Err(IpcError::EndpointsFull));
    assert_eq!(reg.find(EndpointId(0x105)), Some(5));
    assert_eq!(reg.find(EndpointId(0x200)), None);
}

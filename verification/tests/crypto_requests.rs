use iso_light_k0::crypto_service::{
    handle_decrypt, handle_dh, handle_encrypt, handle_hash, handle_kdf, handle_sign, handle_verify, hkdf_expand,
    hkdf_extract, hmac_sha256_multi, parse_algo, write_error_reply, write_ok_reply, CryptoError, ExternalOp,
};
use iso_light_k0::ipc::{CryptoAlgo, CryptoPayload, IPC_MAX_PAYLOAD};

fn hex(s: &str) -> Vec<u8> {
    (0..s.len()).step_by(2).map(|i| u8::from_str_radix(&s[i..i + 2], 16).unwrap()).collect()
}

fn request(algo: u8, key: &[u8], nonce: &[u8], data: &[u8]) -> CryptoPayload {
    let mut p = CryptoPayload::zeroed();
    p.algo = algo;
    p.key_len = key.len() as u8;
    p.key[..key.len()].copy_from_slice(key);
    p.nonce_len = nonce.len() as u8;
    p.nonce[..nonce.len()].copy_from_slice(nonce);
    p.data_len = data.len() as u16;
    p.data[..data.len()].copy_from_slice(data);
    p
}

fn reply_data(reply: &[u8; IPC_MAX_PAYLOAD]) -> Vec<u8> {
    let n = u16::from_le_bytes([reply[4], reply[5]]) as usize;
    reply[88..88 + n].to_vec()
}

#[test]
fn sha3_256_of_abc() {
    let mut reply = [0u8; IPC_MAX_PAYLOAD];
    let r = handle_hash(&request(0x12, &[], &[], b"abc"), &mut reply);
    assert!(matches!(r, Ok(None)));
    assert_eq!(reply[0], 0x12);
    assert_eq!(reply_data(&reply), hex("3a985da74fe225b2045c172d6bd390bd855f086e3e9d525b46bfe24511431532"));
}

#[test]
fn sha3_512_of_abc() {
    let mut reply = [0u8; IPC_MAX_PAYLOAD];
    assert!(matches!(handle_hash(&request(0x13, &[], &[], b"abc"), &mut reply), Ok(None)));
    assert_eq!(
        reply_data(&reply),
        hex("b751850b1a57168a5693cd924b6b096e08f621827444f70d884f5d0240d2712e10e116e9192af3c91a7ec57647e3934057340b4cf408d5a56592f8274eec53f0")
    );
}

#[test]
fn hmac_sha256_known_answer() {
    let mut reply = [0u8; IPC_MAX_PAYLOAD];
    let req = request(0x10, b"Jefe", &[], b"what do ya want for nothing?");
    assert!(matches!(handle_hash(&req, &mut reply), Ok(None)));
    assert_eq!(reply_data(&reply), hex("5bdcc146bf60754e6a042426089575c75a003f089d2739839dec58b964ec3843"));
    let mut out = [0u8; 32];
    let chunks: [&[u8]; 3] = [b"what do ya ", b"want for ", b"nothing?"];
    hmac_sha256_multi(b"Jefe", &chunks, &mut out);
    assert_eq!(out.to_vec(), hex("5bdcc146bf60754e6a042426089575c75a003f089d2739839dec58b964ec3843"));
}

#[test]
fn hmac_with_long_key_hashes_it_first() {
    // RFC 4231 test case 6: a 131-octet key is hashed before use.
    let key = [0xAAu8; 131];
    let mut out = [0u8; 32];
    let chunks: [&[u8]; 1] = [b"Test Using Larger Than Block-Size Key - Hash Key First"];
    hmac_sha256_multi(&key, &chunks, &mut out);
    assert_eq!(out.to_vec(), hex("60e431591ee0b67f0d8a26aacbf5b77f8e0bc6213728c5140546040f0ee37f54"));
}

#[test]
fn blake3_goes_to_the_caller() {
    let mut reply = [7u8; IPC_MAX_PAYLOAD];
    match handle_hash(&request(0x11, &[], &[], b"xyz"), &mut reply) {
        Ok(Some(ExternalOp::Blake3 { data })) => assert_eq!(data, b"xyz".to_vec()),
        _ => panic!("expected external blake3"),
    }
    assert_eq!(reply, [7u8; IPC_MAX_PAYLOAD]);
}

#[test]
fn hash_errors() {
    let mut reply = [0u8; IPC_MAX_PAYLOAD];
    assert_eq!(handle_hash(&request(0x77, &[], &[], b"a"), &mut reply).err(), Some(CryptoError::UnknownAlgorithm));
    assert_eq!(handle_hash(&request(0x02, &[], &[], b"a"), &mut reply).err(), Some(CryptoError::UnknownAlgorithm));
    let mut big = request(0x12, &[], &[], b"a");
    big.data_len = 169;
    assert_eq!(handle_hash(&big, &mut reply).err(), Some(CryptoError::InvalidDataLength));
    let mut long_key = request(0x10, &[], &[], b"a");
    long_key.key_len = 65;
    assert_eq!(handle_hash(&long_key, &mut reply).err(), Some(CryptoError::InvalidKeyLength));
    assert_eq!(reply, [0u8; IPC_MAX_PAYLOAD]);
}

#[test]
fn hkdf_rfc5869_case3() {
    let ikm = [0x0Bu8; 22];
    let mut reply = [0u8; IPC_MAX_PAYLOAD];
    let req = request(0x20, &ikm, &[], &[42, 0]);
    assert!(handle_kdf(&req, &mut reply).is_ok());
    assert_eq!(
        reply_data(&reply),
        hex("8da4e775a563c18f715f802a063c5a31b8a11f5c5ee1879ec3454e5f3c738d2d9d201395faa4b61a96c8")
    );
    let mut prk = [0u8; 32];
    hkdf_extract(&[], &ikm, &mut prk);
    assert_eq!(prk.to_vec(), hex("19ef24a32c717b167f33a91d6f648bdf96596776afdb6377ac434c1c293ccb04"));
    let mut okm = [0u8; 42];
    assert!(hkdf_expand(&prk, &[], &mut okm).is_ok());
    assert_eq!(&okm[..], &reply_data(&reply)[..]);
}

#[test]
fn kdf_errors() {
    let mut reply = [0u8; IPC_MAX_PAYLOAD];
    assert_eq!(handle_kdf(&request(0x12, &[1], &[], &[4, 0]), &mut reply).err(), Some(CryptoError::UnknownAlgorithm));
    assert_eq!(handle_kdf(&request(0x20, &[1; 33], &[], &[4, 0]), &mut reply).err(), Some(CryptoError::InvalidKeyLength));
    let mut long_salt = request(0x20, &[1], &[], &[4, 0]);
    long_salt.nonce_len = 13;
    assert_eq!(handle_kdf(&long_salt, &mut reply).err(), Some(CryptoError::InvalidNonceLength));
    assert_eq!(handle_kdf(&request(0x20, &[1], &[], &[4]), &mut reply).err(), Some(CryptoError::InvalidDataLength));
    assert_eq!(handle_kdf(&request(0x20, &[1], &[], &[0, 0]), &mut reply).err(), Some(CryptoError::OutputTooLarge));
    assert_eq!(handle_kdf(&request(0x20, &[1], &[], &[169, 0]), &mut reply).err(), Some(CryptoError::OutputTooLarge));
    let mut okm = [0u8; 169];
    assert_eq!(hkdf_expand(&[0u8; 32], &[], &mut okm).err(), Some(CryptoError::OutputTooLarge));
}

#[test]
fn x448_rfc7748_vector() {
    let scalar = hex("3d262fddf9ec8e88495266fea19a34d28882acef045104d0d1aae121700a779c984c24f8cdd78fbff44943eba368f54b29259a4f1c600ad3");
    let u = hex("06fce640fa3487bfda5f6cf2d5263f8aad88334cbd07437f020f08f9814dc031ddbdc38c19c6da2583fa5429db94ada18aa7a7fb4ef8a086");
    let mut reply = [0u8; IPC_MAX_PAYLOAD];
    assert!(handle_dh(&request(0x40, &scalar, &[], &u), &mut reply).is_ok());
    assert_eq!(
        reply_data(&reply),
        hex("ce3e4ff95a60dc6697da1db1d85e6afbdf79b50a2412d7546d5f239fe14fbaadeb445fc66a01b0779d98223961111e21766282f73dd96b6f")
    );
}

#[test]
fn x448_refuses_low_order_points_and_bad_lengths() {
    let scalar = [0x42u8; 56];
    let mut reply = [0u8; IPC_MAX_PAYLOAD];
    assert_eq!(handle_dh(&request(0x40, &scalar, &[], &[0u8; 56]), &mut reply).err(), Some(CryptoError::AuthenticationFailed));
    assert_eq!(handle_dh(&request(0x40, &scalar[..55], &[], &[5u8; 56]), &mut reply).err(), Some(CryptoError::InvalidKeyLength));
    assert_eq!(handle_dh(&request(0x40, &scalar, &[], &[5u8; 55]), &mut reply).err(), Some(CryptoError::InvalidDataLength));
    assert_eq!(handle_dh(&request(0x20, &scalar, &[], &[5u8; 56]), &mut reply).err(), Some(CryptoError::UnknownAlgorithm));
}

#[test]
fn encrypt_and_decrypt_requests_are_checked_then_handed_out() {
    let key = [1u8; 32];
    let nonce = [2u8; 12];
    match handle_encrypt(&request(0x02, &key, &nonce, b"plain")) {
        Ok(ExternalOp::Seal { algo, key: k, nonce: n, plaintext }) => {
            assert_eq!(algo, CryptoAlgo::Aes256Gcm);
            assert_eq!(k, key.to_vec());
            assert_eq!(n, nonce.to_vec());
            assert_eq!(plaintext, b"plain".to_vec());
        },
        _ => panic!("expected seal"),
    }
    assert_eq!(handle_encrypt(&request(0x02, &key, &[0u8; 12], b"p")).err(), Some(CryptoError::WeakNonce));
    assert_eq!(handle_encrypt(&request(0x02, &key[..16], &nonce, b"p")).err(), Some(CryptoError::InvalidKeyLength));
    assert_eq!(handle_encrypt(&request(0x02, &key, &nonce[..8], b"p")).err(), Some(CryptoError::InvalidNonceLength));
    assert_eq!(handle_encrypt(&request(0x01, &key, &nonce, b"p")).err(), Some(CryptoError::UnknownAlgorithm));
    let mut ct = b"cipher".to_vec();
    ct.extend_from_slice(&[9u8; 16]);
    match handle_decrypt(&request(0x03, &key, &nonce, &ct)) {
        Ok(ExternalOp::Open { algo, ciphertext, tag, .. }) => {
            assert_eq!(algo, CryptoAlgo::ChaCha20Poly);
            assert_eq!(ciphertext, b"cipher".to_vec());
            assert_eq!(tag, vec![9u8; 16]);
        },
        _ => panic!("expected open"),
    }
    assert_eq!(handle_decrypt(&request(0x03, &key, &nonce, &[1u8; 10])).err(), Some(CryptoError::InvalidDataLength));
}

#[test]
fn sign_and_verify_requests() {
    assert!(matches!(handle_sign(&request(0x30, &[3u8; 32], &[], b"m")), Ok(ExternalOp::Sign { .. })));
    assert_eq!(handle_sign(&request(0x30, &[3u8; 31], &[], b"m")).err(), Some(CryptoError::InvalidKeyLength));
    assert_eq!(handle_verify(&request(0x12, &[3u8; 32], &[], b"m")).err(), Some(CryptoError::UnknownAlgorithm));
}

#[test]
fn reply_layout() {
    let mut buf = [0xEEu8; IPC_MAX_PAYLOAD];
    assert!(write_ok_reply(&mut buf, 0x12, &[1, 2, 3]).is_ok());
    assert_eq!(&buf[0..6], &[0x12, 0, 0, 0, 3, 0]);
    assert_eq!(&buf[88..91], &[1, 2, 3]);
    assert_eq!(buf[91], 0xEE);
    assert_eq!(write_ok_reply(&mut buf, 0x12, &[0u8; 169]).err(), Some(CryptoError::OutputTooLarge));
    write_error_reply(&mut buf, CryptoError::WeakNonce);
    assert_eq!(buf[0], 8);
    assert_eq!(CryptoError::AuthenticationFailed.code(), 5);
    assert_eq!(parse_algo(0x40).ok(), Some(CryptoAlgo::X448Dh));
    assert_eq!(parse_algo(0x41).err(), Some(CryptoError::UnknownAlgorithm));
}

fn request_bytes(algo: u8, data: &[u8]) -> Vec<u8> {
    let mut b = vec![0u8; IPC_MAX_PAYLOAD];
    b[0] = algo;
    b[4..6].copy_from_slice(&(data.len() as u16).to_le_bytes());
    b[88..88 + data.len()].copy_from_slice(data);
    b
}

#[test]
fn dispatch_answers_a_failing_request_with_its_error_byte() {
    let mut reg = iso_light_k0::ipc::init();
    let cap = iso_light_k0::capability::Capability::new(
        7,
        iso_light_k0::capability::EndpointId(iso_light_k0::capability::EP_CRYPTO),
        iso_light_k0::capability::Rights(iso_light_k0::capability::RIGHTS_CALL),
    );
    assert!(reg.ipc_send(&cap, iso_light_k0::ipc::MessageType::HashReq, &request_bytes(0x77, b"abc")).is_ok());
    let pending = iso_light_k0::crypto_service::dispatch_begin(&mut reg).ok().unwrap();
    assert!(iso_light_k0::crypto_service::dispatch_finish(&mut reg, pending, None).is_ok());
    let reply = reg.poll_reply(iso_light_k0::capability::EndpointId(iso_light_k0::capability::EP_CRYPTO)).ok().unwrap();
    assert_eq!(reply.header.msg_type, iso_light_k0::ipc::MessageType::Error);
    assert_eq!(reply.payload_bytes(), &[CryptoError::UnknownAlgorithm.code()]);

    assert!(reg.ipc_send(&cap, iso_light_k0::ipc::MessageType::HashReq, &request_bytes(0x12, b"abc")).is_ok());
    let pending = iso_light_k0::crypto_service::dispatch_begin(&mut reg).ok().unwrap();
    assert!(iso_light_k0::crypto_service::dispatch_finish(&mut reg, pending, None).is_ok());
    let reply = reg.poll_reply(iso_light_k0::capability::EndpointId(iso_light_k0::capability::EP_CRYPTO)).ok().unwrap();
    assert_eq!(reply.header.msg_type, iso_light_k0::ipc::MessageType::HashResp);
    let digest = hex("3a985da74fe225b2045c172d6bd390bd855f086e3e9d525b46bfe24511431532");
    assert_eq!(&reply.payload_bytes()[88..120], &digest[..]);
}

use iso_light_k0::hsm_attest::{
    attest_preimage, attest_verdict, boot_challenge, pk_prefix_from_digest, AttestError, ATTEST_PK_LEN,
    ATTEST_PREIMAGE_LEN,
};

#[test]
fn boot_challenge_is_four_big_endian_tokens() {
    let c = boot_challenge([0x0102_0304_0506_0708, 0, u64::MAX, 0x1122_3344_5566_7788]);
    assert_eq!(&c[0..8], &[1, 2, 3, 4, 5, 6, 7, 8]);
    assert_eq!(&c[8..16], &[0u8; 8]);
    assert_eq!(&c[16..24], &[0xFFu8; 8]);
    assert_eq!(&c[24..32], &[0x11, 0x22, 0x33, 0x44, 0x55, 0x66, 0x77, 0x88]);
}

#[test]
fn attest_preimage_is_key_then_bus_then_challenge() {
    let mut pk = [0u8; ATTEST_PK_LEN];
    for (i, b) in pk.iter_mut().enumerate() {
        *b = (i % 251) as u8;
    }
    let mut challenge = [0u8; 32];
    for (i, b) in challenge.iter_mut().enumerate() {
        *b = 0xA0 + i as u8;
    }
    let pre = attest_preimage(&pk, 1, &challenge);
    assert_eq!(pre.len(), ATTEST_PREIMAGE_LEN);
    assert_eq!(&pre[..ATTEST_PK_LEN], &pk[..]);
    assert_eq!(pre[ATTEST_PK_LEN], 1);
    assert_eq!(&pre[ATTEST_PK_LEN + 1..], &challenge[..]);
}

#[test]
fn attest_verdict_accepts_only_a_passing_check() {
    assert_eq!(attest_verdict(Ok(true)), Ok(()));
    assert_eq!(attest_verdict(Ok(false)), Err(AttestError::AttestFailed));
    assert_eq!(attest_verdict(Err(())), Err(AttestError::AttestFailed));
}

#[test]
fn pk_prefix_is_the_digest_head_or_zero() {
    let mut d = [0u8; 32];
    d[0] = 0xDE;
    d[1] = 0xAD;
    d[2] = 0xBE;
    d[3] = 0xEF;
    d[4] = 0x01;
    assert_eq!(pk_prefix_from_digest(Some(d)), [0xDE, 0xAD, 0xBE, 0xEF]);
    assert_eq!(pk_prefix_from_digest(None), [0, 0, 0, 0]);
}

//! The kernel crypto service behind the crypto endpoint: request parsing, reply
//! layout, HMAC-SHA256 and HKDF-SHA256 (RFC 2104 / RFC 5869) over SHA-256,
//! SHA3 digests and X448, and the checks every algorithm makes on its inputs.
//!
//! SHA-256, SHA3 and X448 come from the `sha2`, `sha3` and `x448` crates. The
//! AEAD ciphers, BLAKE3 and the Edwards signatures are performed by the caller
//! on the exact inputs that `prepare` hands out, and their results are turned
//! into the reply by `finish_external`.
use vstd::prelude::*;
use sha2::Digest;
use crate::ipc::{CryptoAlgo, CryptoPayload, IpcMessage, IpcError, IpcRegistry, MessageType, IPC_MAX_PAYLOAD, CRYPTO_DATA_LEN,
    CRYPTO_DATA_OFFSET, ipc_recv_spec, ipc_reply_spec};
use crate::capability::{EndpointId, EP_CRYPTO};

verus! {

/// SHA-256 block size.
pub const SHA256_BLOCK_SIZE: usize = 64;
/// SHA-256 digest size.
pub const SHA256_OUTPUT_SIZE: usize = 32;
/// Largest HKDF output (the reply's data field).
pub const HKDF_MAX_OUTPUT: usize = 168;

/// SHA-256 of a message.
pub uninterp spec fn sha256_spec(data: Seq<u8>) -> Seq<u8>;

/// SHA3-256 of a message.
pub uninterp spec fn sha3_256_spec(data: Seq<u8>) -> Seq<u8>;

/// SHA3-512 of a message.
pub uninterp spec fn sha3_512_spec(data: Seq<u8>) -> Seq<u8>;

/// RFC 7748 X448 of a scalar and a u-coordinate; `None` for low-order points.
pub uninterp spec fn x448_spec(scalar: Seq<u8>, point: Seq<u8>) -> Option<Seq<u8>>;

/// `sha2::Sha256::digest`: the SHA-256 digest of `data`, a function of `data` alone.
#[verifier::external_body]
fn sha256(data: &[u8]) -> (r: [u8; 32])
    ensures
        r@ == sha256_spec(data@),
{
    let d = sha2::Sha256::digest(data);
    let mut out = [0u8; 32];
    out.copy_from_slice(&d);
    out
}

/// `sha3::Sha3_256::digest`: the SHA3-256 digest of `data`, a function of `data` alone.
#[verifier::external_body]
fn sha3_256(data: &[u8]) -> (r: [u8; 32])
    ensures
        r@ == sha3_256_spec(data@),
{
    let d = sha3::Sha3_256::digest(data);
    let mut out = [0u8; 32];
    out.copy_from_slice(&d);
    out
}

/// `sha3::Sha3_512::digest`: the SHA3-512 digest of `data`, a function of `data` alone.
#[verifier::external_body]
fn sha3_512(data: &[u8]) -> (r: [u8; 64])
    ensures
        r@ == sha3_512_spec(data@),
{
    let d = sha3::Sha3_512::digest(data);
    let mut out = [0u8; 64];
    out.copy_from_slice(&d);
    out
}

/// `x448::x448`: X448 of the scalar and the point, `None` when the point has low
/// order; a function of the two arguments alone.
#[verifier::external_body]
fn x448(scalar: [u8; 56], point: [u8; 56]) -> (r: Option<[u8; 56]>)
    ensures
        (match r { Some(a) => Some(a@), None => None::<Seq<u8>> }) == x448_spec(scalar@, point@),
{
    x448::x448(scalar, point)
}

/// `n` zero octets.
pub open spec fn zeros(n: nat) -> Seq<u8> {
    Seq::new(n, |i: int| 0u8)
}

/// The HMAC key block: the key hashed when longer than a block, zero-padded to 64.
pub open spec fn hmac_key_block(key: Seq<u8>) -> Seq<u8> {
    if key.len() > SHA256_BLOCK_SIZE {
        sha256_spec(key) + zeros(32)
    } else {
        key + zeros((SHA256_BLOCK_SIZE - key.len()) as nat)
    }
}

/// Key block XOR a pad octet.
pub open spec fn xor_pad(kb: Seq<u8>, pad: u8) -> Seq<u8> {
    Seq::new(64, |i: int| kb[i] ^ pad)
}

/// HMAC-SHA256 (RFC 2104).
pub open spec fn hmac_spec(key: Seq<u8>, msg: Seq<u8>) -> Seq<u8> {
    let kb = hmac_key_block(key);
    sha256_spec(xor_pad(kb, 0x5c) + sha256_spec(xor_pad(kb, 0x36) + msg))
}

/// Concatenation of chunks.
pub open spec fn concat(chunks: Seq<Seq<u8>>) -> Seq<u8>
    decreases chunks.len(),
{
    if chunks.len() == 0 { Seq::empty() } else { concat(chunks.drop_last()) + chunks.last() }
}

fn append(buf: &mut Vec<u8>, s: &[u8])
    ensures
        final(buf)@ == old(buf)@ + s@,
{
    let mut i: usize = 0;
    while i < s.len()
        invariant
            i <= s@.len(),
            buf@ == old(buf)@ + s@.subrange(0, i as int),
        decreases s@.len() - i,
    {
        buf.push(s[i]);
        i = i + 1;
        assert(buf@ =~= old(buf)@ + s@.subrange(0, i as int));
    }
    assert(s@.subrange(0, s@.len() as int) =~= s@);
}

/// HMAC-SHA256 of the concatenation of `data_chunks` under `key`.
pub fn hmac_sha256_multi(key: &[u8], data_chunks: &[&[u8]], out: &mut [u8; SHA256_OUTPUT_SIZE])
    ensures
        final(out)@ == hmac_spec(key@, concat(data_chunks@.map_values(|c: &[u8]| c@))),
{
    let mut key_block = [0u8; SHA256_BLOCK_SIZE];
    if key.len() > SHA256_BLOCK_SIZE {
        let d = sha256(key);
        let mut i: usize = 0;
        while i < SHA256_OUTPUT_SIZE
            invariant
                i <= SHA256_OUTPUT_SIZE,
                forall|j: int| 0 <= j < i ==> #[trigger] key_block@[j] == d@[j],
                forall|j: int| 32 <= j < 64 ==> #[trigger] key_block@[j] == 0,
            decreases SHA256_OUTPUT_SIZE - i,
        {
            key_block[i] = d[i];
            i = i + 1;
        }
        assert(key_block@ =~= hmac_key_block(key@));
    } else {
        let mut i: usize = 0;
        while i < key.len()
            invariant
                i <= key@.len(),
                key@.len() <= 64,
                forall|j: int| 0 <= j < i ==> #[trigger] key_block@[j] == key@[j],
                forall|j: int| i <= j < 64 ==> #[trigger] key_block@[j] == 0,
            decreases key@.len() - i,
        {
            key_block[i] = key[i];
            i = i + 1;
        }
        assert(key_block@ =~= hmac_key_block(key@));
    }
    let mut ipad = [0x36u8; SHA256_BLOCK_SIZE];
    let mut opad = [0x5cu8; SHA256_BLOCK_SIZE];
    let mut i: usize = 0;
    while i < SHA256_BLOCK_SIZE
        invariant
            i <= SHA256_BLOCK_SIZE,
            forall|j: int| 0 <= j < i ==> #[trigger] ipad@[j] == key_block@[j] ^ 0x36u8,
            forall|j: int| 0 <= j < i ==> #[trigger] opad@[j] == key_block@[j] ^ 0x5cu8,
            forall|j: int| i <= j < 64 ==> #[trigger] ipad@[j] == 0x36u8,
            forall|j: int| i <= j < 64 ==> #[trigger] opad@[j] == 0x5cu8,
        decreases SHA256_BLOCK_SIZE - i,
    {
        ipad[i] = key_block[i] ^ 0x36u8;
        opad[i] = key_block[i] ^ 0x5cu8;
        i = i + 1;
    }
    let ghost chunks = data_chunks@.map_values(|c: &[u8]| c@);
    let mut inner_msg: Vec<u8> = Vec::new();
    append(&mut inner_msg, &ipad);
    let mut k: usize = 0;
    while k < data_chunks.len()
        invariant
            k <= data_chunks@.len(),
            chunks == data_chunks@.map_values(|c: &[u8]| c@),
            inner_msg@ == ipad@ + concat(chunks.subrange(0, k as int)),
        decreases data_chunks@.len() - k,
    {
        append(&mut inner_msg, data_chunks[k]);
        proof {
            assert(chunks.subrange(0, k as int + 1).drop_last() =~= chunks.subrange(0, k as int));
        }
        k = k + 1;
    }
    assert(chunks.subrange(0, chunks.len() as int) =~= chunks);
    let inner = sha256(inner_msg.as_slice());
    let mut outer_msg: Vec<u8> = Vec::new();
    append(&mut outer_msg, &opad);
    append(&mut outer_msg, &inner);
    let outer = sha256(outer_msg.as_slice());
    proof {
        let kb = hmac_key_block(key@);
        assert(ipad@ =~= xor_pad(kb, 0x36));
        assert(opad@ =~= xor_pad(kb, 0x5c));
    }
    *out = outer;
}

proof fn lemma_concat_1(cs: Seq<Seq<u8>>)
    requires
        cs.len() == 1,
    ensures
        concat(cs) == cs[0],
{
    assert(cs.drop_last() =~= Seq::<Seq<u8>>::empty());
    assert(concat(cs.drop_last()) == Seq::<u8>::empty());
    assert(concat(cs) =~= cs[0]);
}

proof fn lemma_concat_3(cs: Seq<Seq<u8>>)
    requires
        cs.len() == 3,
    ensures
        concat(cs) == cs[0] + cs[1] + cs[2],
{
    let c2 = cs.drop_last();
    let c1 = c2.drop_last();
    lemma_concat_1(c1);
    assert(concat(c2) == concat(c1) + c2.last());
    assert(concat(cs) == concat(c2) + cs.last());
    assert(concat(cs) =~= cs[0] + cs[1] + cs[2]);
}

/// HKDF-Extract: PRK = HMAC-SHA256(salt, IKM).
pub fn hkdf_extract(salt: &[u8], ikm: &[u8], prk: &mut [u8; SHA256_OUTPUT_SIZE])
    ensures
        final(prk)@ == hmac_spec(salt@, ikm@),
{
    let chunks: [&[u8]; 1] = [ikm];
    hmac_sha256_multi(salt, &chunks, prk);
    proof {
        let cs = chunks@.map_values(|c: &[u8]| c@);
        lemma_concat_1(cs);
        assert(cs[0] == ikm@);
    }
}

/// HKDF block T(i): T(0) is empty, T(i) = HMAC(PRK, T(i-1) || info || i).
pub open spec fn hkdf_t(prk: Seq<u8>, info: Seq<u8>, i: nat) -> Seq<u8>
    decreases i,
{
    if i == 0 { Seq::empty() } else { hmac_spec(prk, hkdf_t(prk, info, (i - 1) as nat) + info + seq![i as u8]) }
}

/// T(1) || ... || T(n).
pub open spec fn hkdf_stream(prk: Seq<u8>, info: Seq<u8>, n: nat) -> Seq<u8>
    decreases n,
{
    if n == 0 { Seq::empty() } else { hkdf_stream(prk, info, (n - 1) as nat) + hkdf_t(prk, info, n) }
}

/// RFC 5869 block chaining: the first block is HMAC(PRK, info || 0x01) and the
/// second HMAC(PRK, T(1) || info || 0x02), so the first two blocks of the
/// stream are exactly these two MACs in order, and an output of 33 to 64
/// octets is their concatenation cut to that length.
pub proof fn law_hkdf_blocks(prk: Seq<u8>, info: Seq<u8>, len: nat)
    ensures
        32 < len <= 64 ==> hkdf_expand_spec(prk, info, len) == (hmac_spec(prk, info + seq![1u8])
            + hmac_spec(prk, hmac_spec(prk, info + seq![1u8]) + info + seq![2u8])).subrange(0, len as int),
        hkdf_t(prk, info, 1) == hmac_spec(prk, info + seq![1u8]),
        hkdf_t(prk, info, 2) == hmac_spec(prk, hmac_spec(prk, info + seq![1u8]) + info + seq![2u8]),
        hkdf_stream(prk, info, 2) == hmac_spec(prk, info + seq![1u8])
            + hmac_spec(prk, hmac_spec(prk, info + seq![1u8]) + info + seq![2u8]),
{
    assert(hkdf_t(prk, info, 0) == Seq::<u8>::empty());
    assert(Seq::<u8>::empty() + info + seq![1u8] =~= info + seq![1u8]);
    assert(hkdf_stream(prk, info, 0) == Seq::<u8>::empty());
    assert(Seq::<u8>::empty() + hkdf_t(prk, info, 1) =~= hkdf_t(prk, info, 1));
    assert(hkdf_stream(prk, info, 1) == hkdf_t(prk, info, 1));
    assert(hkdf_stream(prk, info, 2) == hkdf_stream(prk, info, 1) + hkdf_t(prk, info, 2));
    if 32 < len <= 64 {
        assert((len + 31) as nat / 32 == 2) by (nonlinear_arith)
            requires 32 < len <= 64;
    }
}

/// HKDF-Expand output of `len` octets.
pub open spec fn hkdf_expand_spec(prk: Seq<u8>, info: Seq<u8>, len: nat) -> Seq<u8> {
    hkdf_stream(prk, info, (len + 31) as nat / 32).subrange(0, len as int)
}

/// HKDF-Expand into `okm`; refuses more than `HKDF_MAX_OUTPUT` octets with
/// `OutputTooLarge`, leaving `okm` as it was.
pub fn hkdf_expand(prk: &[u8; SHA256_OUTPUT_SIZE], info: &[u8], okm: &mut [u8]) -> (r: Result<(), CryptoError>)
    ensures
        old(okm)@.len() > HKDF_MAX_OUTPUT ==> r == Err::<(), CryptoError>(CryptoError::OutputTooLarge)
            && final(okm)@ == old(okm)@,
        final(okm)@.len() == old(okm)@.len(),
        old(okm)@.len() <= HKDF_MAX_OUTPUT ==> r == Ok::<(), CryptoError>(())
            && final(okm)@ == hkdf_expand_spec(prk@, info@, old(okm)@.len()),
{
    if okm.len() > HKDF_MAX_OUTPUT {
        return Err(CryptoError::OutputTooLarge);
    }
    let len = okm.len();
    let mut t_prev: Vec<u8> = Vec::new();
    let mut produced: usize = 0;
    let mut counter: u8 = 1;
    let ghost mut blocks: nat = 0;
    while produced < len
        invariant
            len == okm@.len(),
            len <= HKDF_MAX_OUTPUT,
            counter as nat == blocks + 1,
            blocks <= 6,
            produced == (if 32 * blocks <= len { 32 * blocks } else { len as nat }),
            blocks == 0 || produced == 32 * blocks || produced == len,
            blocks > 0 ==> 32 * (blocks - 1) < len,
            t_prev@ == hkdf_t(prk@, info@, blocks),
            hkdf_stream(prk@, info@, blocks).len() == 32 * blocks,
            forall|j: int| 0 <= j < produced ==> #[trigger] okm@[j] == hkdf_stream(prk@, info@, blocks)[j],
        decreases len - produced,
    {
        let ctr = [counter];
        let mut t_curr = [0u8; SHA256_OUTPUT_SIZE];
        let chunks: [&[u8]; 3] = [t_prev.as_slice(), info, &ctr];
        hmac_sha256_multi(prk, &chunks, &mut t_curr);
        proof {
            let cs = chunks@.map_values(|c: &[u8]| c@);
            lemma_concat_3(cs);
            assert(cs[0] == t_prev@);
            assert(cs[1] == info@);
            assert(cs[2] == ctr@);
            assert(ctr@ =~= seq![counter]);
            assert(t_curr@ == hkdf_t(prk@, info@, blocks + 1));
            assert(hkdf_stream(prk@, info@, blocks + 1) == hkdf_stream(prk@, info@, blocks) + hkdf_t(prk@, info@, blocks + 1));
        }
        let take = if len - produced < SHA256_OUTPUT_SIZE { len - produced } else { SHA256_OUTPUT_SIZE };
        let mut j: usize = 0;
        while j < take
            invariant
                j <= take,
                take <= 32,
                produced + take <= len,
                len == okm@.len(),
                forall|q: int| 0 <= q < produced ==> #[trigger] okm@[q] == hkdf_stream(prk@, info@, blocks)[q],
                forall|q: int| produced <= q < produced + j ==> #[trigger] okm@[q] == t_curr@[q - produced],
            decreases take - j,
        {
            okm[produced + j] = t_curr[j];
            j = j + 1;
        }
        let mut next: Vec<u8> = Vec::new();
        append(&mut next, &t_curr);
        t_prev = next;
        proof {
            let s0 = hkdf_stream(prk@, info@, blocks);
            let s1 = hkdf_stream(prk@, info@, blocks + 1);
            assert forall|q: int| 0 <= q < produced + take implies #[trigger] okm@[q] == s1[q] by {
                if q < produced {
                    assert(s1[q] == s0[q]);
                } else {
                    assert(s1[q] == t_curr@[q - produced]);
                }
            }
            blocks = blocks + 1;
        }
        produced = produced + take;
        counter = counter + 1;
    }
    proof {
        let n = ((len + 31) as nat / 32) as nat;
        assert(blocks == n) by (nonlinear_arith)
            requires
                blocks == 0 ==> produced == 0,
                blocks > 0 ==> 32 * (blocks - 1) < len,
                produced >= len,
                produced == (if 32 * blocks <= len { 32 * blocks } else { len as nat }),
                n == (len + 31) as nat / 32;
        assert(okm@ =~= hkdf_expand_spec(prk@, info@, len as nat));
    }
    Ok(())
}

/// Crypto service failures (reply code in the first octet).
#[derive(Clone, Copy, Debug, PartialEq, Eq, Structural)]
pub enum CryptoError {
    UnknownAlgorithm,
    InvalidKeyLength,
    InvalidNonceLength,
    InvalidDataLength,
    AuthenticationFailed,
    InvalidRequest,
    OutputTooLarge,
    WeakNonce,
}

/// Reply code of an error.
pub open spec fn crypto_error_code(e: CryptoError) -> u8 {
    match e {
        CryptoError::UnknownAlgorithm => 1,
        CryptoError::InvalidKeyLength => 2,
        CryptoError::InvalidNonceLength => 3,
        CryptoError::InvalidDataLength => 4,
        CryptoError::AuthenticationFailed => 5,
        CryptoError::InvalidRequest => 6,
        CryptoError::OutputTooLarge => 7,
        CryptoError::WeakNonce => 8,
    }
}

impl CryptoError {
    /// Reply code of the error.
    pub fn code(self) -> (r: u8)
        ensures
            r == crypto_error_code(self),
    {
        match self {
            CryptoError::UnknownAlgorithm => 1,
            CryptoError::InvalidKeyLength => 2,
            CryptoError::InvalidNonceLength => 3,
            CryptoError::InvalidDataLength => 4,
            CryptoError::AuthenticationFailed => 5,
            CryptoError::InvalidRequest => 6,
            CryptoError::OutputTooLarge => 7,
            CryptoError::WeakNonce => 8,
        }
    }
}

/// Little-endian 16-bit value.
pub open spec fn le16v(lo: u8, hi: u8) -> int {
    lo + 256 * hi
}

/// The request fields laid out in 256 octets: algo, key_len, nonce_len, flags,
/// data_len (LE), reserved (LE), key[64] at 8, nonce[12] at 72, pad[4] at 84 and
/// data[168] at 88.
pub open spec fn payload_matches(p: CryptoPayload, b: Seq<u8>) -> bool {
    &&& p.algo == b[0]
    &&& p.key_len == b[1]
    &&& p.nonce_len == b[2]
    &&& p.flags == b[3]
    &&& p.data_len == le16v(b[4], b[5])
    &&& p.reserved == le16v(b[6], b[7])
    &&& p.key@ == b.subrange(8, 72)
    &&& p.nonce@ == b.subrange(72, 84)
    &&& p.pad@ == b.subrange(84, 88)
    &&& p.data@ == b.subrange(88, 256)
}

fn copy_out<const N: usize>(b: &[u8; IPC_MAX_PAYLOAD], from: usize, out: &mut [u8; N])
    requires
        from + N <= IPC_MAX_PAYLOAD,
    ensures
        final(out)@ == b@.subrange(from as int, from + N),
{
    let mut i: usize = 0;
    while i < N
        invariant
            i <= N,
            from + N <= IPC_MAX_PAYLOAD,
            forall|j: int| 0 <= j < i ==> #[trigger] out@[j] == b@[from + j],
        decreases N - i,
    {
        out[i] = b[from + i];
        i = i + 1;
    }
    assert(out@ =~= b@.subrange(from as int, from + N));
}

/// Reads a request from its 256-octet layout.
pub fn payload_from_bytes(b: &[u8; IPC_MAX_PAYLOAD]) -> (r: CryptoPayload)
    ensures
        payload_matches(r, b@),
{
    let mut p = CryptoPayload::zeroed();
    p.algo = b[0];
    p.key_len = b[1];
    p.nonce_len = b[2];
    p.flags = b[3];
    p.data_len = b[4] as u16 + (b[5] as u16) * 256;
    p.reserved = b[6] as u16 + (b[7] as u16) * 256;
    copy_out(b, 8, &mut p.key);
    copy_out(b, 72, &mut p.nonce);
    copy_out(b, 84, &mut p.pad);
    copy_out(b, 88, &mut p.data);
    p
}

/// Parses the request in a message; fewer than 256 declared octets is `InvalidRequest`.
pub fn parse_request(msg: &IpcMessage) -> (r: Result<CryptoPayload, CryptoError>)
    ensures
        msg.header.payload_len < IPC_MAX_PAYLOAD ==> r == Err::<CryptoPayload, CryptoError>(CryptoError::InvalidRequest),
        msg.header.payload_len >= IPC_MAX_PAYLOAD ==> (r matches Ok(p) && payload_matches(p, msg.payload.data@)),
{
    if (msg.header.payload_len as usize) < IPC_MAX_PAYLOAD {
        return Err(CryptoError::InvalidRequest);
    }
    Ok(payload_from_bytes(&msg.payload.data))
}

/// Error reply: the error's code in the first octet, the rest untouched.
pub fn write_error_reply(buf: &mut [u8; IPC_MAX_PAYLOAD], err: CryptoError)
    ensures
        final(buf)@ == old(buf)@.update(0, crypto_error_code(err)),
{
    buf[0] = err.code();
}

/// Success reply in the request layout: algo echoed, key/nonce lengths and flags
/// zero, data_len and the data at offset 88; the other octets untouched. More
/// than 168 octets of data is `OutputTooLarge` and leaves `buf` unchanged.
pub fn write_ok_reply(buf: &mut [u8; IPC_MAX_PAYLOAD], algo: u8, data: &[u8]) -> (r: Result<(), CryptoError>)
    ensures
        data@.len() > CRYPTO_DATA_LEN ==> r == Err::<(), CryptoError>(CryptoError::OutputTooLarge) && final(buf)@ == old(buf)@,
        data@.len() <= CRYPTO_DATA_LEN ==> r == Ok::<(), CryptoError>(()) && ok_reply(old(buf)@, final(buf)@, algo, data@),
{
    if data.len() > CRYPTO_DATA_LEN {
        return Err(CryptoError::OutputTooLarge);
    }
    buf[0] = algo;
    buf[1] = 0;
    buf[2] = 0;
    buf[3] = 0;
    buf[4] = (data.len() % 256) as u8;
    buf[5] = (data.len() / 256) as u8;
    let ghost mid = buf@;
    assert(forall|j: int| 6 <= j < IPC_MAX_PAYLOAD ==> mid[j] == old(buf)@[j]);
    let mut i: usize = 0;
    while i < data.len()
        invariant
            i <= data@.len(),
            data@.len() <= CRYPTO_DATA_LEN,
            forall|j: int| 0 <= j < CRYPTO_DATA_OFFSET ==> #[trigger] buf@[j] == mid[j],
            forall|j: int| 0 <= j < i ==> #[trigger] buf@[CRYPTO_DATA_OFFSET + j] == data@[j],
            forall|j: int| CRYPTO_DATA_OFFSET + i <= j < IPC_MAX_PAYLOAD ==> #[trigger] buf@[j] == mid[j],
        decreases data@.len() - i,
    {
        buf[CRYPTO_DATA_OFFSET + i] = data[i];
        i = i + 1;
    }
    proof {
        let target = ok_reply_bytes(old(buf)@, algo, data@);
        assert forall|j: int| 0 <= j < IPC_MAX_PAYLOAD implies #[trigger] buf@[j] == target[j] by {
            if j < CRYPTO_DATA_OFFSET {
                assert(buf@[j] == mid[j]);
            } else if j < CRYPTO_DATA_OFFSET + data@.len() {
                assert(buf@[CRYPTO_DATA_OFFSET + (j - CRYPTO_DATA_OFFSET)] == data@[j - CRYPTO_DATA_OFFSET]);
            } else {
                assert(buf@[j] == mid[j]);
            }
        }
        assert(buf@ =~= target);
    }
    Ok(())
}

/// The reply buffer `before` overwritten with a success reply for `algo`
/// carrying `data` (at most 168 octets).
pub open spec fn ok_reply_bytes(before: Seq<u8>, algo: u8, data: Seq<u8>) -> Seq<u8> {
    Seq::new(IPC_MAX_PAYLOAD as nat, |j: int|
        if j == 0 { algo }
        else if j < 4 { 0u8 }
        else if j == 4 { (data.len() % 256) as u8 }
        else if j == 5 { (data.len() / 256) as u8 }
        else if CRYPTO_DATA_OFFSET <= j < CRYPTO_DATA_OFFSET + data.len() { data[j - CRYPTO_DATA_OFFSET] }
        else { before[j] })
}

/// `after` is `before` with a success reply for `algo` carrying `data`.
pub open spec fn ok_reply(before: Seq<u8>, after: Seq<u8>, algo: u8, data: Seq<u8>) -> bool {
    after == ok_reply_bytes(before, algo, data)
}

/// Algorithm named by a request octet; AES-128-GCM is not offered.
pub open spec fn algo_of(b: u8) -> Option<CryptoAlgo> {
    if b == 0x02 { Some(CryptoAlgo::Aes256Gcm) }
    else if b == 0x03 { Some(CryptoAlgo::ChaCha20Poly) }
    else if b == 0x10 { Some(CryptoAlgo::HmacSha256) }
    else if b == 0x11 { Some(CryptoAlgo::Blake3) }
    else if b == 0x12 { Some(CryptoAlgo::Sha3_256) }
    else if b == 0x13 { Some(CryptoAlgo::Sha3_512) }
    else if b == 0x20 { Some(CryptoAlgo::HkdfSha256) }
    else if b == 0x30 { Some(CryptoAlgo::Ed25519Sign) }
    else if b == 0x31 { Some(CryptoAlgo::Ed25519Verify) }
    else if b == 0x32 { Some(CryptoAlgo::Ed448Sign) }
    else if b == 0x33 { Some(CryptoAlgo::Ed448Verify) }
    else if b == 0x40 { Some(CryptoAlgo::X448Dh) }
    else { None }
}

/// Algorithm of a request octet, `UnknownAlgorithm` when none is offered.
pub fn parse_algo(byte: u8) -> (r: Result<CryptoAlgo, CryptoError>)
    ensures
        algo_of(byte) matches Some(a) ==> r == Ok::<CryptoAlgo, CryptoError>(a),
        algo_of(byte) is None ==> r == Err::<CryptoAlgo, CryptoError>(CryptoError::UnknownAlgorithm),
{
    if byte == 0x02 { Ok(CryptoAlgo::Aes256Gcm) }
    else if byte == 0x03 { Ok(CryptoAlgo::ChaCha20Poly) }
    else if byte == 0x10 { Ok(CryptoAlgo::HmacSha256) }
    else if byte == 0x11 { Ok(CryptoAlgo::Blake3) }
    else if byte == 0x12 { Ok(CryptoAlgo::Sha3_256) }
    else if byte == 0x13 { Ok(CryptoAlgo::Sha3_512) }
    else if byte == 0x20 { Ok(CryptoAlgo::HkdfSha256) }
    else if byte == 0x30 { Ok(CryptoAlgo::Ed25519Sign) }
    else if byte == 0x31 { Ok(CryptoAlgo::Ed25519Verify) }
    else if byte == 0x32 { Ok(CryptoAlgo::Ed448Sign) }
    else if byte == 0x33 { Ok(CryptoAlgo::Ed448Verify) }
    else if byte == 0x40 { Ok(CryptoAlgo::X448Dh) }
    else { Err(CryptoError::UnknownAlgorithm) }
}

fn prefix(src: &[u8], n: usize) -> (r: Vec<u8>)
    requires
        n <= src@.len(),
    ensures
        r@ == src@.subrange(0, n as int),
{
    slice_range(src, 0, n)
}

fn slice_range(src: &[u8], from: usize, to: usize) -> (r: Vec<u8>)
    requires
        from <= to <= src@.len(),
    ensures
        r@ == src@.subrange(from as int, to as int),
{
    let mut v: Vec<u8> = Vec::new();
    let mut i = from;
    while i < to
        invariant
            from <= i <= to,
            to <= src@.len(),
            v@ == src@.subrange(from as int, i as int),
        decreases to - i,
    {
        v.push(src[i]);
        i = i + 1;
        assert(v@ =~= src@.subrange(from as int, i as int));
    }
    v
}

/// The outcome a hash request must have: the result `r`,
/// and the reply `after` it writes over `before`.
pub open spec fn hash_contract(req: CryptoPayload, before: Seq<u8>, after: Seq<u8>, r: Result<Option<ExternalOp>, CryptoError>) -> bool {
    &&& (algo_of(req.algo) is None ==> r == Err::<Option<ExternalOp>, CryptoError>(CryptoError::UnknownAlgorithm))
    &&& (algo_of(req.algo) is Some && req.data_len > CRYPTO_DATA_LEN ==>
            r == Err::<Option<ExternalOp>, CryptoError>(CryptoError::InvalidDataLength))
    &&& (r is Err ==> after == before)
    &&& (algo_of(req.algo) matches Some(a) ==> (req.data_len <= CRYPTO_DATA_LEN ==> {
            let msg = req.data@.subrange(0, req.data_len as int);
            &&& a == CryptoAlgo::HmacSha256 && req.key_len > 64 ==>
                r == Err::<Option<ExternalOp>, CryptoError>(CryptoError::InvalidKeyLength)
            &&& a == CryptoAlgo::HmacSha256 && req.key_len <= 64 ==> r == Ok::<Option<ExternalOp>, CryptoError>(None)
                && ok_reply(before, after, req.algo, hmac_spec(req.key@.subrange(0, req.key_len as int), msg))
            &&& a == CryptoAlgo::Sha3_256 ==> r == Ok::<Option<ExternalOp>, CryptoError>(None)
                && ok_reply(before, after, req.algo, sha3_256_spec(msg))
            &&& a == CryptoAlgo::Sha3_512 ==> r == Ok::<Option<ExternalOp>, CryptoError>(None)
                && ok_reply(before, after, req.algo, sha3_512_spec(msg))
            &&& a == CryptoAlgo::Blake3 ==> (r matches Ok(Some(ExternalOp::Blake3 { data })) && data@ == msg)
                && after == before
            &&& (a != CryptoAlgo::HmacSha256 && a != CryptoAlgo::Sha3_256 && a != CryptoAlgo::Sha3_512
                && a != CryptoAlgo::Blake3) ==> r == Err::<Option<ExternalOp>, CryptoError>(CryptoError::UnknownAlgorithm)
        }))
}

/// Hash request (data_len octets of data): HMAC-SHA256 with a key of at most 64
/// octets, SHA3-256 and SHA3-512 are answered here; BLAKE3 is handed out.
pub fn handle_hash(req: &CryptoPayload, reply: &mut [u8; IPC_MAX_PAYLOAD]) -> (r: Result<Option<ExternalOp>, CryptoError>)
    ensures
        hash_contract(*req, old(reply)@, final(reply)@, r),
{
    let algo = parse_algo(req.algo)?;
    let data_len = req.data_len as usize;
    if data_len > CRYPTO_DATA_LEN {
        return Err(CryptoError::InvalidDataLength);
    }
    let msg = prefix(&req.data, data_len);
    match algo {
        CryptoAlgo::HmacSha256 => {
            let key_len = req.key_len as usize;
            if key_len > 64 {
                return Err(CryptoError::InvalidKeyLength);
            }
            let key = prefix(&req.key, key_len);
            let mut digest = [0u8; 32];
            let chunks: [&[u8]; 1] = [msg.as_slice()];
            hmac_sha256_multi(key.as_slice(), &chunks, &mut digest);
            proof {
                let cs = chunks@.map_values(|c: &[u8]| c@);
                lemma_concat_1(cs);
                assert(cs[0] == msg@);
            }
            write_ok_reply(reply, req.algo, &digest)?;
            Ok(None)
        },
        CryptoAlgo::Blake3 => Ok(Some(ExternalOp::Blake3 { data: msg })),
        CryptoAlgo::Sha3_256 => {
            let d = sha3_256(msg.as_slice());
            write_ok_reply(reply, req.algo, &d)?;
            Ok(None)
        },
        CryptoAlgo::Sha3_512 => {
            let d = sha3_512(msg.as_slice());
            write_ok_reply(reply, req.algo, &d)?;
            Ok(None)
        },
        _ => Err(CryptoError::UnknownAlgorithm),
    }
}

/// The outcome an HKDF request must have: the result `r`,
/// and the reply `after` it writes over `before`.
pub open spec fn kdf_contract(req: CryptoPayload, before: Seq<u8>, after: Seq<u8>, r: Result<(), CryptoError>) -> bool {
    &&& (r is Err ==> after == before)
    &&& (algo_of(req.algo) != Some(CryptoAlgo::HkdfSha256) ==> r == Err::<(), CryptoError>(CryptoError::UnknownAlgorithm))
    &&& (algo_of(req.algo) == Some(CryptoAlgo::HkdfSha256) ==> {
            let okm_len = le16v(req.data@[0], req.data@[1]);
            &&& req.key_len > 32 ==> r == Err::<(), CryptoError>(CryptoError::InvalidKeyLength)
            &&& req.key_len <= 32 && req.nonce_len > 12 ==> r == Err::<(), CryptoError>(CryptoError::InvalidNonceLength)
            &&& req.key_len <= 32 && req.nonce_len <= 12 && (req.data_len < 2 || req.data_len > CRYPTO_DATA_LEN) ==>
                r == Err::<(), CryptoError>(CryptoError::InvalidDataLength)
            &&& req.key_len <= 32 && req.nonce_len <= 12 && 2 <= req.data_len <= CRYPTO_DATA_LEN ==> {
                &&& (okm_len == 0 || okm_len > HKDF_MAX_OUTPUT) ==> r == Err::<(), CryptoError>(CryptoError::OutputTooLarge)
                &&& (0 < okm_len <= HKDF_MAX_OUTPUT) ==> r == Ok::<(), CryptoError>(()) && ok_reply(before, after,
                    req.algo, hkdf_expand_spec(
                        hmac_spec(req.nonce@.subrange(0, req.nonce_len as int), req.key@.subrange(0, req.key_len as int)),
                        req.data@.subrange(2, req.data_len as int), okm_len as nat))
            }
        })
}

/// HKDF-SHA256 request: IKM = key[..key_len] (at most 32), salt =
/// nonce[..nonce_len] (at most 12), data = output length (LE u16, 1..=168) then info.
pub fn handle_kdf(req: &CryptoPayload, reply: &mut [u8; IPC_MAX_PAYLOAD]) -> (r: Result<(), CryptoError>)
    ensures
        kdf_contract(*req, old(reply)@, final(reply)@, r),
{
    let algo = parse_algo(req.algo)?;
    if algo != CryptoAlgo::HkdfSha256 {
        return Err(CryptoError::UnknownAlgorithm);
    }
    let key_len = req.key_len as usize;
    let nonce_len = req.nonce_len as usize;
    let data_len = req.data_len as usize;
    if key_len > 32 {
        return Err(CryptoError::InvalidKeyLength);
    }
    if nonce_len > 12 {
        return Err(CryptoError::InvalidNonceLength);
    }
    if data_len < 2 || data_len > CRYPTO_DATA_LEN {
        return Err(CryptoError::InvalidDataLength);
    }
    let okm_len: usize = req.data[0] as usize + (req.data[1] as usize) * 256;
    if okm_len == 0 || okm_len > HKDF_MAX_OUTPUT {
        return Err(CryptoError::OutputTooLarge);
    }
    let info = slice_range(&req.data, 2, data_len);
    let ikm = prefix(&req.key, key_len);
    let salt = prefix(&req.nonce, nonce_len);
    let mut prk = [0u8; SHA256_OUTPUT_SIZE];
    hkdf_extract(salt.as_slice(), ikm.as_slice(), &mut prk);
    let mut okm: Vec<u8> = Vec::new();
    let mut i: usize = 0;
    while i < okm_len
        invariant
            i <= okm_len,
            okm@.len() == i,
        decreases okm_len - i,
    {
        okm.push(0);
        i = i + 1;
    }
    let e = hkdf_expand(&prk, info.as_slice(), okm.as_mut_slice());
    if e.is_err() {
        return Err(CryptoError::OutputTooLarge);
    }
    assert(okm@.len() == okm_len);
    write_ok_reply(reply, req.algo, okm.as_slice())
}

/// Whether every octet is zero.
pub open spec fn all_zero(s: Seq<u8>) -> bool {
    forall|i: int| 0 <= i < s.len() ==> #[trigger] s[i] == 0
}

fn is_all_zero(s: &[u8]) -> (r: bool)
    ensures
        r == all_zero(s@),
{
    let mut i: usize = 0;
    while i < s.len()
        invariant
            i <= s@.len(),
            forall|j: int| 0 <= j < i ==> #[trigger] s@[j] == 0,
        decreases s@.len() - i,
    {
        if s[i] != 0 {
            return false;
        }
        i = i + 1;
    }
    true
}

/// A primitive the service hands to its caller, with the exact inputs: seal or
/// open with AES-256-GCM or ChaCha20-Poly1305 (no associated data), BLAKE3, or an
/// Ed25519 / Ed448 signature or verification.
pub enum ExternalOp {
    Seal { algo: CryptoAlgo, key: Vec<u8>, nonce: Vec<u8>, plaintext: Vec<u8> },
    Open { algo: CryptoAlgo, key: Vec<u8>, nonce: Vec<u8>, ciphertext: Vec<u8>, tag: Vec<u8> },
    Blake3 { data: Vec<u8> },
    Sign { algo: CryptoAlgo, secret_key: Vec<u8>, msg: Vec<u8> },
    Verify { algo: CryptoAlgo, public_key: Vec<u8>, sig: Vec<u8>, msg: Vec<u8> },
}

/// What the caller's primitive produced: ciphertext followed by the 16-octet tag
/// (or a refusal), the plaintext (or an authentication failure), the digest (or
/// a failure), the signature, or whether the signature verified.
pub enum ExternalResult {
    Sealed(Option<Vec<u8>>),
    Opened(Option<Vec<u8>>),
    Digest(Option<[u8; 32]>),
    Signature(Vec<u8>),
    Verified(bool),
}

/// The outcome an encrypt request must have: the result `r`.
pub open spec fn encrypt_contract(req: CryptoPayload, r: Result<ExternalOp, CryptoError>) -> bool {
    &&& (algo_of(req.algo) is None ==> r == Err::<ExternalOp, CryptoError>(CryptoError::UnknownAlgorithm))
    &&& (algo_of(req.algo) matches Some(a) ==> {
            &&& req.data_len > CRYPTO_DATA_LEN ==> r == Err::<ExternalOp, CryptoError>(CryptoError::InvalidDataLength)
            &&& req.data_len <= CRYPTO_DATA_LEN && a != CryptoAlgo::Aes256Gcm && a != CryptoAlgo::ChaCha20Poly ==>
                r == Err::<ExternalOp, CryptoError>(CryptoError::UnknownAlgorithm)
            &&& req.data_len <= CRYPTO_DATA_LEN && (a == CryptoAlgo::Aes256Gcm || a == CryptoAlgo::ChaCha20Poly) ==> {
                &&& req.key_len != 32 ==> r == Err::<ExternalOp, CryptoError>(CryptoError::InvalidKeyLength)
                &&& req.key_len == 32 && req.nonce_len != 12 ==> r == Err::<ExternalOp, CryptoError>(CryptoError::InvalidNonceLength)
                &&& req.key_len == 32 && req.nonce_len == 12 && all_zero(req.nonce@) ==>
                    r == Err::<ExternalOp, CryptoError>(CryptoError::WeakNonce)
                &&& req.key_len == 32 && req.nonce_len == 12 && !all_zero(req.nonce@) ==>
                    (r matches Ok(ExternalOp::Seal { algo, key, nonce, plaintext }) && algo == a
                        && key@ == req.key@.subrange(0, 32) && nonce@ == req.nonce@
                        && plaintext@ == req.data@.subrange(0, req.data_len as int))
            }
        })
}

/// Encrypt request: AES-256-GCM or ChaCha20-Poly1305 with a 32-octet key, a
/// 12-octet nonce that is not all zero, and at most 168 octets of plaintext.
pub fn handle_encrypt(req: &CryptoPayload) -> (r: Result<ExternalOp, CryptoError>)
    ensures
        encrypt_contract(*req, r),
{
    let algo = parse_algo(req.algo)?;
    let data_len = req.data_len as usize;
    if data_len > CRYPTO_DATA_LEN {
        return Err(CryptoError::InvalidDataLength);
    }
    if algo != CryptoAlgo::Aes256Gcm && algo != CryptoAlgo::ChaCha20Poly {
        return Err(CryptoError::UnknownAlgorithm);
    }
    if req.key_len != 32 {
        return Err(CryptoError::InvalidKeyLength);
    }
    if req.nonce_len != 12 {
        return Err(CryptoError::InvalidNonceLength);
    }
    if is_all_zero(&req.nonce) {
        return Err(CryptoError::WeakNonce);
    }
    let key = prefix(&req.key, 32);
    let nonce = prefix(&req.nonce, 12);
    assert(req.nonce@.subrange(0, 12) =~= req.nonce@);
    let plaintext = prefix(&req.data, data_len);
    Ok(ExternalOp::Seal { algo, key, nonce, plaintext })
}

/// The outcome a decrypt request must have: the result `r`.
pub open spec fn decrypt_contract(req: CryptoPayload, r: Result<ExternalOp, CryptoError>) -> bool {
    &&& (algo_of(req.algo) is None ==> r == Err::<ExternalOp, CryptoError>(CryptoError::UnknownAlgorithm))
    &&& (algo_of(req.algo) matches Some(a) ==> {
            &&& (req.data_len < 16 || req.data_len > CRYPTO_DATA_LEN) ==> r == Err::<ExternalOp, CryptoError>(CryptoError::InvalidDataLength)
            &&& 16 <= req.data_len <= CRYPTO_DATA_LEN && a != CryptoAlgo::Aes256Gcm && a != CryptoAlgo::ChaCha20Poly ==>
                r == Err::<ExternalOp, CryptoError>(CryptoError::UnknownAlgorithm)
            &&& 16 <= req.data_len <= CRYPTO_DATA_LEN && (a == CryptoAlgo::Aes256Gcm || a == CryptoAlgo::ChaCha20Poly) ==> {
                &&& req.key_len != 32 ==> r == Err::<ExternalOp, CryptoError>(CryptoError::InvalidKeyLength)
                &&& req.key_len == 32 && req.nonce_len != 12 ==> r == Err::<ExternalOp, CryptoError>(CryptoError::InvalidNonceLength)
                &&& req.key_len == 32 && req.nonce_len == 12 ==>
                    (r matches Ok(ExternalOp::Open { algo, key, nonce, ciphertext, tag }) && algo == a
                        && key@ == req.key@.subrange(0, 32) && nonce@ == req.nonce@
                        && ciphertext@ == req.data@.subrange(0, req.data_len - 16)
                        && tag@ == req.data@.subrange(req.data_len - 16, req.data_len as int))
            }
        })
}

/// Decrypt request: AES-256-GCM or ChaCha20-Poly1305 with a 32-octet key and a
/// 12-octet nonce; the data is ciphertext followed by the 16-octet tag (16..=168 octets).
pub fn handle_decrypt(req: &CryptoPayload) -> (r: Result<ExternalOp, CryptoError>)
    ensures
        decrypt_contract(*req, r),
{
    let algo = parse_algo(req.algo)?;
    let data_len = req.data_len as usize;
    if data_len < 16 || data_len > CRYPTO_DATA_LEN {
        return Err(CryptoError::InvalidDataLength);
    }
    if algo != CryptoAlgo::Aes256Gcm && algo != CryptoAlgo::ChaCha20Poly {
        return Err(CryptoError::UnknownAlgorithm);
    }
    if req.key_len != 32 {
        return Err(CryptoError::InvalidKeyLength);
    }
    if req.nonce_len != 12 {
        return Err(CryptoError::InvalidNonceLength);
    }
    let ct_len = data_len - 16;
    let key = prefix(&req.key, 32);
    let nonce = prefix(&req.nonce, 12);
    assert(req.nonce@.subrange(0, 12) =~= req.nonce@);
    let ciphertext = prefix(&req.data, ct_len);
    let tag = slice_range(&req.data, ct_len, data_len);
    Ok(ExternalOp::Open { algo, key, nonce, ciphertext, tag })
}

/// The outcome a sign request must have: the result `r`.
pub open spec fn sign_contract(req: CryptoPayload, r: Result<ExternalOp, CryptoError>) -> bool {
    &&& (algo_of(req.algo) is None ==> r == Err::<ExternalOp, CryptoError>(CryptoError::UnknownAlgorithm))
    &&& (algo_of(req.algo) matches Some(a) ==> {
            let n: int = if a == CryptoAlgo::Ed25519Sign { 32 } else { 57 };
            &&& req.data_len > CRYPTO_DATA_LEN ==> r == Err::<ExternalOp, CryptoError>(CryptoError::InvalidDataLength)
            &&& req.data_len <= CRYPTO_DATA_LEN && a != CryptoAlgo::Ed25519Sign && a != CryptoAlgo::Ed448Sign ==>
                r == Err::<ExternalOp, CryptoError>(CryptoError::UnknownAlgorithm)
            &&& req.data_len <= CRYPTO_DATA_LEN && (a == CryptoAlgo::Ed25519Sign || a == CryptoAlgo::Ed448Sign) ==> {
                &&& req.key_len != n ==> r == Err::<ExternalOp, CryptoError>(CryptoError::InvalidKeyLength)
                &&& req.key_len == n ==> (r matches Ok(ExternalOp::Sign { algo, secret_key, msg }) && algo == a
                    && secret_key@ == req.key@.subrange(0, n) && msg@ == req.data@.subrange(0, req.data_len as int))
            }
        })
}

/// Sign request: Ed25519 with a 32-octet or Ed448 with a 57-octet secret key,
/// message of at most 168 octets.
pub fn handle_sign(req: &CryptoPayload) -> (r: Result<ExternalOp, CryptoError>)
    ensures
        sign_contract(*req, r),
{
    let algo = parse_algo(req.algo)?;
    let data_len = req.data_len as usize;
    if data_len > CRYPTO_DATA_LEN {
        return Err(CryptoError::InvalidDataLength);
    }
    let n: usize = match algo {
        CryptoAlgo::Ed25519Sign => 32,
        CryptoAlgo::Ed448Sign => 57,
        _ => return Err(CryptoError::UnknownAlgorithm),
    };
    if req.key_len as usize != n {
        return Err(CryptoError::InvalidKeyLength);
    }
    let secret_key = prefix(&req.key, n);
    let msg = prefix(&req.data, data_len);
    Ok(ExternalOp::Sign { algo, secret_key, msg })
}

/// The outcome a verify request must have: the result `r`.
pub open spec fn verify_contract(req: CryptoPayload, r: Result<ExternalOp, CryptoError>) -> bool {
    &&& (algo_of(req.algo) is None ==> r == Err::<ExternalOp, CryptoError>(CryptoError::UnknownAlgorithm))
    &&& (algo_of(req.algo) matches Some(a) ==> {
            let kn: int = if a == CryptoAlgo::Ed25519Verify { 32 } else { 57 };
            let sn: int = if a == CryptoAlgo::Ed25519Verify { 64 } else { 114 };
            &&& a != CryptoAlgo::Ed25519Verify && a != CryptoAlgo::Ed448Verify ==>
                r == Err::<ExternalOp, CryptoError>(CryptoError::UnknownAlgorithm)
            &&& (a == CryptoAlgo::Ed25519Verify || a == CryptoAlgo::Ed448Verify) ==> {
                &&& req.key_len != kn ==> r == Err::<ExternalOp, CryptoError>(CryptoError::InvalidKeyLength)
                &&& req.key_len == kn && (req.data_len < sn || req.data_len > CRYPTO_DATA_LEN) ==>
                    r == Err::<ExternalOp, CryptoError>(CryptoError::InvalidDataLength)
                &&& req.key_len == kn && sn <= req.data_len <= CRYPTO_DATA_LEN ==>
                    (r matches Ok(ExternalOp::Verify { algo, public_key, sig, msg }) && algo == a
                        && public_key@ == req.key@.subrange(0, kn) && sig@ == req.data@.subrange(0, sn)
                        && msg@ == req.data@.subrange(sn, req.data_len as int))
            }
        })
}

/// Verify request: Ed25519 (32-octet key, 64-octet signature) or Ed448 (57-octet
/// key, 114-octet signature); the data is the signature followed by the message.
pub fn handle_verify(req: &CryptoPayload) -> (r: Result<ExternalOp, CryptoError>)
    ensures
        verify_contract(*req, r),
{
    let algo = parse_algo(req.algo)?;
    let data_len = req.data_len as usize;
    let (kn, sn): (usize, usize) = match algo {
        CryptoAlgo::Ed25519Verify => (32, 64),
        CryptoAlgo::Ed448Verify => (57, 114),
        _ => return Err(CryptoError::UnknownAlgorithm),
    };
    if req.key_len as usize != kn {
        return Err(CryptoError::InvalidKeyLength);
    }
    if data_len < sn || data_len > CRYPTO_DATA_LEN {
        return Err(CryptoError::InvalidDataLength);
    }
    let public_key = prefix(&req.key, kn);
    let sig = prefix(&req.data, sn);
    let msg = slice_range(&req.data, sn, data_len);
    Ok(ExternalOp::Verify { algo, public_key, sig, msg })
}

/// The outcome an X448 request must have: the result `r`,
/// and the reply `after` it writes over `before`.
pub open spec fn dh_contract(req: CryptoPayload, before: Seq<u8>, after: Seq<u8>, r: Result<(), CryptoError>) -> bool {
    &&& (r is Err ==> after == before)
    &&& (algo_of(req.algo) != Some(CryptoAlgo::X448Dh) ==> r == Err::<(), CryptoError>(CryptoError::UnknownAlgorithm))
    &&& (algo_of(req.algo) == Some(CryptoAlgo::X448Dh) ==> {
            let res = x448_spec(req.key@.subrange(0, 56), req.data@.subrange(0, 56));
            &&& req.key_len != 56 ==> r == Err::<(), CryptoError>(CryptoError::InvalidKeyLength)
            &&& req.key_len == 56 && req.data_len != 56 ==> r == Err::<(), CryptoError>(CryptoError::InvalidDataLength)
            &&& req.key_len == 56 && req.data_len == 56 && res is None ==>
                r == Err::<(), CryptoError>(CryptoError::AuthenticationFailed)
            &&& req.key_len == 56 && req.data_len == 56 ==> (res matches Some(shared) ==>
                r == Ok::<(), CryptoError>(()) && ok_reply(before, after, req.algo, shared))
        })
}

/// X448 request: 56-octet secret key, 56-octet peer public key as data; a
/// low-order peer key is `AuthenticationFailed`.
pub fn handle_dh(req: &CryptoPayload, reply: &mut [u8; IPC_MAX_PAYLOAD]) -> (r: Result<(), CryptoError>)
    ensures
        dh_contract(*req, old(reply)@, final(reply)@, r),
{
    let algo = parse_algo(req.algo)?;
    if algo != CryptoAlgo::X448Dh {
        return Err(CryptoError::UnknownAlgorithm);
    }
    if req.key_len != 56 {
        return Err(CryptoError::InvalidKeyLength);
    }
    if req.data_len != 56 {
        return Err(CryptoError::InvalidDataLength);
    }
    let mut sk = [0u8; 56];
    let mut pk = [0u8; 56];
    let mut i: usize = 0;
    while i < 56
        invariant
            i <= 56,
            forall|j: int| 0 <= j < i ==> #[trigger] sk@[j] == req.key@[j],
            forall|j: int| 0 <= j < i ==> #[trigger] pk@[j] == req.data@[j],
        decreases 56 - i,
    {
        sk[i] = req.key[i];
        pk[i] = req.data[i];
        i = i + 1;
    }
    assert(sk@ =~= req.key@.subrange(0, 56));
    assert(pk@ =~= req.data@.subrange(0, 56));
    let shared = x448(sk, pk);
    sk = [0u8; 56];
    match shared {
        Some(s) => write_ok_reply(reply, req.algo, &s),
        None => Err(CryptoError::AuthenticationFailed),
    }
}

/// Turns what the caller's primitive produced into the reply: a sealed result of
/// more than 168 octets is `OutputTooLarge`, a refused seal `InvalidDataLength`,
/// a failed open or verification `AuthenticationFailed`, a failed digest
/// `InvalidRequest`; a verified signature answers the single octet 1.
pub fn finish_external(algo: u8, result: &ExternalResult, reply: &mut [u8; IPC_MAX_PAYLOAD]) -> (r: Result<(), CryptoError>)
    ensures
        match external_outcome(algo, *result, old(reply)@) {
            Ok(bytes) => r == Ok::<(), CryptoError>(()) && final(reply)@ == bytes,
            Err(err) => r == Err::<(), CryptoError>(err) && final(reply)@ == old(reply)@,
        },
{
    match result {
        ExternalResult::Sealed(Some(ct)) => write_ok_reply(reply, algo, ct.as_slice()),
        ExternalResult::Sealed(None) => Err(CryptoError::InvalidDataLength),
        ExternalResult::Opened(Some(pt)) => write_ok_reply(reply, algo, pt.as_slice()),
        ExternalResult::Opened(None) => Err(CryptoError::AuthenticationFailed),
        ExternalResult::Digest(Some(d)) => write_ok_reply(reply, algo, d),
        ExternalResult::Digest(None) => Err(CryptoError::InvalidRequest),
        ExternalResult::Signature(sig) => write_ok_reply(reply, algo, sig.as_slice()),
        ExternalResult::Verified(ok) => {
            if *ok {
                let one = [1u8];
                let r = write_ok_reply(reply, algo, &one);
                assert(one@ =~= seq![1u8]);
                r
            } else {
                Err(CryptoError::AuthenticationFailed)
            }
        },
    }
}

/// What the reply becomes once the caller's primitive result is in.
pub open spec fn external_outcome(algo: u8, res: ExternalResult, before: Seq<u8>) -> Result<Seq<u8>, CryptoError> {
    match res {
        ExternalResult::Sealed(None) => Err(CryptoError::InvalidDataLength),
        ExternalResult::Sealed(Some(ct)) => if ct@.len() > CRYPTO_DATA_LEN { Err(CryptoError::OutputTooLarge) }
            else { Ok(ok_reply_bytes(before, algo, ct@)) },
        ExternalResult::Opened(None) => Err(CryptoError::AuthenticationFailed),
        ExternalResult::Opened(Some(pt)) => if pt@.len() > CRYPTO_DATA_LEN { Err(CryptoError::OutputTooLarge) }
            else { Ok(ok_reply_bytes(before, algo, pt@)) },
        ExternalResult::Digest(None) => Err(CryptoError::InvalidRequest),
        ExternalResult::Digest(Some(d)) => Ok(ok_reply_bytes(before, algo, d@)),
        ExternalResult::Signature(sig) => if sig@.len() > CRYPTO_DATA_LEN { Err(CryptoError::OutputTooLarge) }
            else { Ok(ok_reply_bytes(before, algo, sig@)) },
        ExternalResult::Verified(false) => Err(CryptoError::AuthenticationFailed),
        ExternalResult::Verified(true) => Ok(ok_reply_bytes(before, algo, seq![1u8])),
    }
}

/// A digest handed back by the caller is answered whole: the success reply
/// echoes the algorithm, carries a data length of 32 (little-endian at octets
/// 4..6) and the 32 digest octets at the data offset, and keeps every other
/// octet of the reply buffer.
pub proof fn law_digest_reply_is_whole(algo: u8, d: [u8; 32], before: Seq<u8>)
    requires
        before.len() == IPC_MAX_PAYLOAD,
    ensures
        external_outcome(algo, ExternalResult::Digest(Some(d)), before) matches Ok(b)
            && b.len() == IPC_MAX_PAYLOAD
            && b[0] == algo && b[1] == 0 && b[2] == 0 && b[3] == 0
            && b[4] == 32 && b[5] == 0
            && b.subrange(88, 120) == d@
            && (forall|k: int| 6 <= k < 88 ==> #[trigger] b[k] == before[k])
            && (forall|k: int| 120 <= k < IPC_MAX_PAYLOAD ==> #[trigger] b[k] == before[k]),
{
    let b = ok_reply_bytes(before, algo, d@);
    assert(b.subrange(88, 120) =~= d@);
}

/// A request taken from the crypto endpoint, processed as far as the service
/// can: the reply type, the request's algorithm octet, the reply buffer, and
/// either the outcome or the primitive the caller must perform.
pub struct CryptoPending {
    pub reply_type: MessageType,
    pub algo: u8,
    pub reply: [u8; IPC_MAX_PAYLOAD],
    pub job: Result<Option<ExternalOp>, CryptoError>,
}

/// Reply type of a request type (`Error` for types the service does not take).
pub open spec fn reply_type_of(t: MessageType) -> MessageType {
    match t {
        MessageType::EncryptReq => MessageType::EncryptResp,
        MessageType::DecryptReq => MessageType::DecryptResp,
        MessageType::HashReq => MessageType::HashResp,
        MessageType::KeyDeriveReq => MessageType::KeyDeriveResp,
        MessageType::SignReq => MessageType::SignResp,
        MessageType::VerifyReq => MessageType::VerifyResp,
        MessageType::DhReq => MessageType::DhResp,
        _ => MessageType::Error,
    }
}

/// The primitive a handler's job names, or its error.
pub open spec fn op_of(job: Result<Option<ExternalOp>, CryptoError>) -> Result<ExternalOp, CryptoError> {
    match job {
        Ok(Some(op)) => Ok(op),
        Ok(None) => Err(CryptoError::InvalidRequest),
        Err(e) => Err(e),
    }
}

/// A handler's job with nothing handed out, or its error.
pub open spec fn unit_of(job: Result<Option<ExternalOp>, CryptoError>) -> Result<(), CryptoError> {
    match job {
        Ok(None) => Ok(()),
        Ok(Some(_)) => Err(CryptoError::InvalidRequest),
        Err(e) => Err(e),
    }
}

/// What the handler of request type `t` makes of `req`, starting from a zero
/// reply buffer: the reply `reply` and the job.
pub open spec fn handled(t: MessageType, req: CryptoPayload, reply: Seq<u8>, job: Result<Option<ExternalOp>, CryptoError>)
    -> bool {
    let z = zeros(IPC_MAX_PAYLOAD as nat);
    match t {
        MessageType::EncryptReq => reply == z && !(job matches Ok(None)) && encrypt_contract(req, op_of(job)),
        MessageType::DecryptReq => reply == z && !(job matches Ok(None)) && decrypt_contract(req, op_of(job)),
        MessageType::HashReq => hash_contract(req, z, reply, job),
        MessageType::KeyDeriveReq => !(job matches Ok(Some(_))) && kdf_contract(req, z, reply, unit_of(job)),
        MessageType::SignReq => reply == z && !(job matches Ok(None)) && sign_contract(req, op_of(job)),
        MessageType::VerifyReq => reply == z && !(job matches Ok(None)) && verify_contract(req, op_of(job)),
        MessageType::DhReq => !(job matches Ok(Some(_))) && dh_contract(req, z, reply, unit_of(job)),
        _ => reply == z && job == Err::<Option<ExternalOp>, CryptoError>(CryptoError::InvalidRequest),
    }
}

/// `r` is what processing `msg` gives: a payload shorter than 256 octets is
/// `InvalidRequest` with an `Error` reply type; otherwise the reply type of the
/// message type, the request's algorithm octet, and what the handler of the
/// message type makes of the request laid out in the payload.
pub open spec fn processed(msg: IpcMessage, r: CryptoPending) -> bool {
    &&& msg.header.payload_len < IPC_MAX_PAYLOAD ==> r.reply_type == MessageType::Error && r.algo == 0
        && r.reply@ == zeros(IPC_MAX_PAYLOAD as nat)
        && r.job == Err::<Option<ExternalOp>, CryptoError>(CryptoError::InvalidRequest)
    &&& msg.header.payload_len >= IPC_MAX_PAYLOAD ==> {
        &&& r.reply_type == reply_type_of(msg.header.msg_type)
        &&& r.algo == msg.payload.data@[0]
        &&& exists|req: CryptoPayload| payload_matches(req, msg.payload.data@)
            && handled(msg.header.msg_type, req, r.reply@, r.job)
    }
}

/// Processes one request message: a payload shorter than 256 octets or an
/// unexpected message type is `InvalidRequest`; otherwise the handler of the
/// message type runs on the parsed request.
pub fn process_request(msg: &IpcMessage) -> (r: CryptoPending)
    ensures
        processed(*msg, r),
{
    let mut reply = [0u8; IPC_MAX_PAYLOAD];
    assert(reply@ =~= zeros(IPC_MAX_PAYLOAD as nat));
    let req = match parse_request(msg) {
        Ok(p) => p,
        Err(e) => {
            return CryptoPending { reply_type: MessageType::Error, algo: 0, reply, job: Err(e) };
        },
    };
    let algo = req.algo;
    let ghost z = reply@;
    let (reply_type, job) = match msg.header.msg_type {
        MessageType::EncryptReq => (MessageType::EncryptResp, match handle_encrypt(&req) {
            Ok(op) => Ok(Some(op)),
            Err(e) => Err(e),
        }),
        MessageType::DecryptReq => (MessageType::DecryptResp, match handle_decrypt(&req) {
            Ok(op) => Ok(Some(op)),
            Err(e) => Err(e),
        }),
        MessageType::HashReq => (MessageType::HashResp, handle_hash(&req, &mut reply)),
        MessageType::KeyDeriveReq => (MessageType::KeyDeriveResp, match handle_kdf(&req, &mut reply) {
            Ok(()) => Ok(None),
            Err(e) => Err(e),
        }),
        MessageType::SignReq => (MessageType::SignResp, match handle_sign(&req) {
            Ok(op) => Ok(Some(op)),
            Err(e) => Err(e),
        }),
        MessageType::VerifyReq => (MessageType::VerifyResp, match handle_verify(&req) {
            Ok(op) => Ok(Some(op)),
            Err(e) => Err(e),
        }),
        MessageType::DhReq => (MessageType::DhResp, match handle_dh(&req, &mut reply) {
            Ok(()) => Ok(None),
            Err(e) => Err(e),
        }),
        _ => (MessageType::Error, Err(CryptoError::InvalidRequest)),
    };
    assert(handled(msg.header.msg_type, req, reply@, job));
    CryptoPending { reply_type, algo, reply, job }
}

/// Type and payload of the reply to post: on success the reply type and the
/// whole 256-octet buffer; on failure `Error` and the single error-code octet.
pub open spec fn final_reply(p: CryptoPending, ext: Option<ExternalResult>) -> (MessageType, Seq<u8>) {
    let outcome: Result<Seq<u8>, CryptoError> = match p.job {
        Err(e) => Err(e),
        Ok(None) => Ok(p.reply@),
        Ok(Some(_)) => match ext {
            None => Err(CryptoError::InvalidRequest),
            Some(res) => external_outcome(p.algo, res, p.reply@),
        },
    };
    match outcome {
        Ok(b) => (p.reply_type, b),
        Err(e) => (MessageType::Error, seq![crypto_error_code(e)]),
    }
}

/// A request whose handling failed with `e` is answered with an `Error` reply
/// whose payload is the single octet of `e`'s code, whatever the caller hands in.
pub proof fn law_failed_request_answers_error(p: CryptoPending, e: CryptoError, ext: Option<ExternalResult>)
    requires
        p.job == Err::<Option<ExternalOp>, CryptoError>(e),
    ensures
        final_reply(p, ext) == (MessageType::Error, seq![crypto_error_code(e)]),
{
}

/// Builds the reply of a processed request; `ext` is the caller's primitive
/// result when the request needed one (missing: `InvalidRequest`).
pub fn crypto_reply(p: CryptoPending, ext: Option<&ExternalResult>) -> (r: (MessageType, Vec<u8>))
    ensures
        (r.0, r.1@) == final_reply(p, match ext { Some(e) => Some(*e), None => None }),
{
    let mut reply = p.reply;
    let outcome: Result<(), CryptoError> = match p.job {
        Err(e) => Err(e),
        Ok(None) => Ok(()),
        Ok(Some(_)) => match ext {
            None => Err(CryptoError::InvalidRequest),
            Some(res) => finish_external(p.algo, res, &mut reply),
        },
    };
    match outcome {
        Ok(()) => {
            let mut v: Vec<u8> = Vec::new();
            append(&mut v, &reply);
            (p.reply_type, v)
        },
        Err(e) => {
            let mut v: Vec<u8> = Vec::new();
            v.push(e.code());
            assert(v@ =~= seq![crypto_error_code(e)]);
            (MessageType::Error, v)
        },
    }
}

/// First half of the service loop: takes the pending request at the crypto
/// endpoint and processes it.
pub fn dispatch_begin(reg: &mut IpcRegistry) -> (r: Result<CryptoPending, IpcError>)
    requires
        old(reg).wf(),
    ensures
        final(reg).wf(),
        r matches Err(e) ==> ipc_recv_spec(old(reg).slots(), final(reg).slots(), EndpointId(EP_CRYPTO),
            Err::<IpcMessage, IpcError>(e)),
        r matches Ok(p) ==> exists|m: IpcMessage| ipc_recv_spec(old(reg).slots(), final(reg).slots(), EndpointId(EP_CRYPTO),
            Ok::<IpcMessage, IpcError>(m)) && processed(m, p),
{
    let msg = reg.ipc_recv(EndpointId(EP_CRYPTO))?;
    Ok(process_request(&msg))
}

/// Second half of the service loop: posts the reply (see `final_reply`) at the
/// crypto endpoint.
pub fn dispatch_finish(reg: &mut IpcRegistry, p: CryptoPending, ext: Option<&ExternalResult>) -> (r: Result<(), IpcError>)
    requires
        old(reg).wf(),
    ensures
        final(reg).wf(),
        ({
            let (t, body) = final_reply(p, match ext { Some(e) => Some(*e), None => None });
            ipc_reply_spec(old(reg).slots(), final(reg).slots(), EndpointId(EP_CRYPTO), t, body, r)
        }),
{
    let (t, body) = crypto_reply(p, ext);
    reg.ipc_reply(EndpointId(EP_CRYPTO), t, body.as_slice())
}

} // verus!

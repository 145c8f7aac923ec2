//! Synchronous rendezvous IPC.
//!
//! Each endpoint holds at most one message: a caller posts a request (after a
//! capability check), the service takes it and posts a reply, and the caller
//! takes the reply. Every accepted request is stamped with the endpoint's next
//! sequence number.
use vstd::prelude::*;
use crate::capability::{
    Capability, EndpointId, Rights, cap_allows, ENDPOINT_INVALID, EP_CRYPTO, EP_SIGN, EP_SYSTEM,
    EP_LUMEN_WIRE, RIGHTS_CALL,
};

verus! {

/// Largest IPC payload in bytes.
pub const IPC_MAX_PAYLOAD: usize = 256;
/// Number of endpoint slots.
pub const IPC_MAX_ENDPOINTS: usize = 16;
/// Offset of `data` inside a crypto payload.
pub const CRYPTO_DATA_OFFSET: usize = 88;
/// Capacity of `data` inside a crypto payload.
pub const CRYPTO_DATA_LEN: usize = 168;

/// Whether the endpoint is served inside the kernel (system, crypto, sign).
pub fn is_kernel_service(id: EndpointId) -> (r: bool)
    ensures
        r == (id.0 == EP_CRYPTO || id.0 == EP_SYSTEM || id.0 == EP_SIGN),
{
    id.0 == EP_CRYPTO || id.0 == EP_SYSTEM || id.0 == EP_SIGN
}

/// Message kinds: system messages below 0x1000, service messages above.
#[derive(Clone, Copy, PartialEq, Eq, Debug, Structural)]
pub enum MessageType {
    Ping,
    Pong,
    Connect,
    Disconnect,
    EncryptReq,
    EncryptResp,
    DecryptReq,
    DecryptResp,
    HashReq,
    HashResp,
    KeyDeriveReq,
    KeyDeriveResp,
    SignReq,
    SignResp,
    VerifyReq,
    VerifyResp,
    DhReq,
    DhResp,
    SignBeginReq,
    SignBeginResp,
    SignInChunkReq,
    SignInChunkResp,
    SignExecReq,
    SignExecResp,
    SignOutChunkReq,
    SignOutChunkResp,
    SignEndReq,
    SignEndResp,
    Error,
}

impl MessageType {
    /// Wire code of the message type.
    pub fn code(self) -> (r: u16)
        ensures
            r == message_code(self),
    {
        match self {
            MessageType::Ping => 0x0001,
            MessageType::Pong => 0x0002,
            MessageType::Connect => 0x0003,
            MessageType::Disconnect => 0x0004,
            MessageType::EncryptReq => 0x1001,
            MessageType::EncryptResp => 0x1002,
            MessageType::DecryptReq => 0x1003,
            MessageType::DecryptResp => 0x1004,
            MessageType::HashReq => 0x1005,
            MessageType::HashResp => 0x1006,
            MessageType::KeyDeriveReq => 0x1007,
            MessageType::KeyDeriveResp => 0x1008,
            MessageType::SignReq => 0x1009,
            MessageType::SignResp => 0x100A,
            MessageType::VerifyReq => 0x100B,
            MessageType::VerifyResp => 0x100C,
            MessageType::DhReq => 0x100D,
            MessageType::DhResp => 0x100E,
            MessageType::SignBeginReq => 0x2001,
            MessageType::SignBeginResp => 0x2002,
            MessageType::SignInChunkReq => 0x2003,
            MessageType::SignInChunkResp => 0x2004,
            MessageType::SignExecReq => 0x2005,
            MessageType::SignExecResp => 0x2006,
            MessageType::SignOutChunkReq => 0x2007,
            MessageType::SignOutChunkResp => 0x2008,
            MessageType::SignEndReq => 0x2009,
            MessageType::SignEndResp => 0x200A,
            MessageType::Error => 0xFFFF,
        }
    }
}

/// Wire code of a message type.
pub open spec fn message_code(t: MessageType) -> u16 {
    match t {
        MessageType::Ping => 0x0001,
        MessageType::Pong => 0x0002,
        MessageType::Connect => 0x0003,
        MessageType::Disconnect => 0x0004,
        MessageType::EncryptReq => 0x1001,
        MessageType::EncryptResp => 0x1002,
        MessageType::DecryptReq => 0x1003,
        MessageType::DecryptResp => 0x1004,
        MessageType::HashReq => 0x1005,
        MessageType::HashResp => 0x1006,
        MessageType::KeyDeriveReq => 0x1007,
        MessageType::KeyDeriveResp => 0x1008,
        MessageType::SignReq => 0x1009,
        MessageType::SignResp => 0x100A,
        MessageType::VerifyReq => 0x100B,
        MessageType::VerifyResp => 0x100C,
        MessageType::DhReq => 0x100D,
        MessageType::DhResp => 0x100E,
        MessageType::SignBeginReq => 0x2001,
        MessageType::SignBeginResp => 0x2002,
        MessageType::SignInChunkReq => 0x2003,
        MessageType::SignInChunkResp => 0x2004,
        MessageType::SignExecReq => 0x2005,
        MessageType::SignExecResp => 0x2006,
        MessageType::SignOutChunkReq => 0x2007,
        MessageType::SignOutChunkResp => 0x2008,
        MessageType::SignEndReq => 0x2009,
        MessageType::SignEndResp => 0x200A,
        MessageType::Error => 0xFFFF,
    }
}

/// Algorithms served by the crypto endpoint.
#[derive(Clone, Copy, PartialEq, Eq, Debug, Structural)]
pub enum CryptoAlgo {
    Aes128Gcm,
    Aes256Gcm,
    ChaCha20Poly,
    HmacSha256,
    Blake3,
    Sha3_256,
    Sha3_512,
    HkdfSha256,
    Ed25519Sign,
    Ed25519Verify,
    Ed448Sign,
    Ed448Verify,
    X448Dh,
}

/// Wire code of an algorithm.
pub open spec fn algo_code(a: CryptoAlgo) -> u8 {
    match a {
        CryptoAlgo::Aes128Gcm => 0x01,
        CryptoAlgo::Aes256Gcm => 0x02,
        CryptoAlgo::ChaCha20Poly => 0x03,
        CryptoAlgo::HmacSha256 => 0x10,
        CryptoAlgo::Blake3 => 0x11,
        CryptoAlgo::Sha3_256 => 0x12,
        CryptoAlgo::Sha3_512 => 0x13,
        CryptoAlgo::HkdfSha256 => 0x20,
        CryptoAlgo::Ed25519Sign => 0x30,
        CryptoAlgo::Ed25519Verify => 0x31,
        CryptoAlgo::Ed448Sign => 0x32,
        CryptoAlgo::Ed448Verify => 0x33,
        CryptoAlgo::X448Dh => 0x40,
    }
}

impl CryptoAlgo {
    /// Wire code of the algorithm.
    pub fn code(self) -> (r: u8)
        ensures
            r == algo_code(self),
    {
        match self {
            CryptoAlgo::Aes128Gcm => 0x01,
            CryptoAlgo::Aes256Gcm => 0x02,
            CryptoAlgo::ChaCha20Poly => 0x03,
            CryptoAlgo::HmacSha256 => 0x10,
            CryptoAlgo::Blake3 => 0x11,
            CryptoAlgo::Sha3_256 => 0x12,
            CryptoAlgo::Sha3_512 => 0x13,
            CryptoAlgo::HkdfSha256 => 0x20,
            CryptoAlgo::Ed25519Sign => 0x30,
            CryptoAlgo::Ed25519Verify => 0x31,
            CryptoAlgo::Ed448Sign => 0x32,
            CryptoAlgo::Ed448Verify => 0x33,
            CryptoAlgo::X448Dh => 0x40,
        }
    }
}

/// Message header: type, payload length and sequence number.
#[derive(Clone, Copy)]
pub struct MessageHeader {
    pub msg_type: MessageType,
    pub payload_len: u16,
    pub sequence: u32,
}

/// Structured crypto request/response (256 bytes on the wire).
#[derive(Clone, Copy)]
pub struct CryptoPayload {
    pub algo: u8,
    pub key_len: u8,
    pub nonce_len: u8,
    pub flags: u8,
    pub data_len: u16,
    pub reserved: u16,
    pub key: [u8; 64],
    pub nonce: [u8; 12],
    pub pad: [u8; 4],
    pub data: [u8; 168],
}

impl CryptoPayload {
    /// All-zero payload.
    pub fn zeroed() -> (r: Self)
        ensures
            r.algo == 0 && r.key_len == 0 && r.nonce_len == 0 && r.flags == 0 && r.data_len == 0,
            r.reserved == 0,
            forall|i: int| 0 <= i < 64 ==> r.key@[i] == 0,
            forall|i: int| 0 <= i < 12 ==> r.nonce@[i] == 0,
            forall|i: int| 0 <= i < 4 ==> r.pad@[i] == 0,
            forall|i: int| 0 <= i < 168 ==> r.data@[i] == 0,
    {
        CryptoPayload {
            algo: 0,
            key_len: 0,
            nonce_len: 0,
            flags: 0,
            data_len: 0,
            reserved: 0,
            key: [0u8; 64],
            nonce: [0u8; 12],
            pad: [0u8; 4],
            data: [0u8; 168],
        }
    }
}

/// Signing-service chunk protocol payload (256 bytes on the wire).
#[derive(Clone, Copy)]
pub struct SignPayload {
    pub phase: u8,
    pub op: u8,
    pub variant: u8,
    pub result: u8,
    pub offset: u32,
    pub total: u32,
    pub chunk_len: u16,
    pub pad: u16,
    pub data: [u8; 240],
}

impl SignPayload {
    /// All-zero payload.
    pub fn zeroed() -> (r: Self)
        ensures
            r.phase == 0 && r.op == 0 && r.variant == 0 && r.result == 0,
            r.offset == 0 && r.total == 0 && r.chunk_len == 0 && r.pad == 0,
            forall|i: int| 0 <= i < 240 ==> r.data@[i] == 0,
    {
        SignPayload {
            phase: 0,
            op: 0,
            variant: 0,
            result: 0,
            offset: 0,
            total: 0,
            chunk_len: 0,
            pad: 0,
            data: [0u8; 240],
        }
    }
}

/// Raw 256-byte payload.
pub struct RawPayload {
    pub data: [u8; IPC_MAX_PAYLOAD],
}

/// A complete message.
pub struct IpcMessage {
    pub header: MessageHeader,
    pub payload: RawPayload,
}

impl IpcMessage {
    /// Bytes of the payload that the header declares.
    pub open spec fn body(&self) -> Seq<u8> {
        self.payload.data@.subrange(0, self.header.payload_len as int)
    }

    /// Empty message of the given type and sequence number.
    pub fn new(msg_type: MessageType, sequence: u32) -> (r: Self)
        ensures
            r.header.msg_type == msg_type,
            r.header.payload_len == 0,
            r.header.sequence == sequence,
            forall|i: int| 0 <= i < IPC_MAX_PAYLOAD ==> r.payload.data@[i] == 0,
    {
        IpcMessage {
            header: MessageHeader { msg_type, payload_len: 0, sequence },
            payload: RawPayload { data: [0u8; IPC_MAX_PAYLOAD] },
        }
    }

    /// Copies `data` into the payload, zeroes the rest and records the length;
    /// refuses more than `IPC_MAX_PAYLOAD` bytes, leaving the message unchanged.
    pub fn set_payload(&mut self, data: &[u8]) -> (r: Result<(), IpcError>)
        ensures
            data@.len() > IPC_MAX_PAYLOAD ==> r == Err::<(), IpcError>(IpcError::PayloadTooLarge)
                && *final(self) == *old(self),
            data@.len() <= IPC_MAX_PAYLOAD ==> {
                &&& r == Ok::<(), IpcError>(())
                &&& final(self).header.payload_len == data@.len()
                &&& final(self).header.msg_type == old(self).header.msg_type
                &&& final(self).header.sequence == old(self).header.sequence
                &&& forall|i: int| 0 <= i < data@.len() ==> #[trigger] final(self).payload.data@[i] == data@[i]
                &&& forall|i: int| data@.len() <= i < IPC_MAX_PAYLOAD ==> #[trigger] final(self).payload.data@[i] == 0
            },
    {
        if data.len() > IPC_MAX_PAYLOAD {
            return Err(IpcError::PayloadTooLarge);
        }
        let len = data.len();
        let mut i: usize = 0;
        while i < IPC_MAX_PAYLOAD
            invariant
                len == data@.len(),
                len <= IPC_MAX_PAYLOAD,
                i <= IPC_MAX_PAYLOAD,
                self.header == old(self).header,
                forall|j: int| 0 <= j < i && j < len ==> #[trigger] self.payload.data@[j] == data@[j],
                forall|j: int| len <= j < i ==> #[trigger] self.payload.data@[j] == 0,
            decreases IPC_MAX_PAYLOAD - i,
        {
            if i < len {
                self.payload.data[i] = data[i];
            } else {
                self.payload.data[i] = 0;
            }
            i = i + 1;
        }
        self.header.payload_len = len as u16;
        Ok(())
    }

    /// The payload bytes that the header declares.
    pub fn payload_bytes(&self) -> (r: &[u8])
        requires
            self.header.payload_len <= IPC_MAX_PAYLOAD,
        ensures
            r@ == self.body(),
    {
        let n = self.header.payload_len as usize;
        &self.payload.data[0..n]
    }
}

/// IPC failures.
#[derive(Debug, PartialEq, Eq, Structural)]
pub enum IpcError {
    CapabilityDenied,
    EndpointBusy,
    EndpointNotFound,
    PayloadTooLarge,
    PayloadLenMismatch,
    NoMessage,
    EndpointsFull,
    InvalidMessageType,
}

/// What an endpoint currently holds.
pub enum EndpointState {
    Idle,
    PendingReply(IpcMessage),
    ReplyReady(IpcMessage),
}

/// A rendezvous endpoint: at most one message at a time.
pub struct IpcEndpoint {
    pub id: EndpointId,
    /// Rights a sender's capability must hold.
    pub required_rights: Rights,
    /// What the endpoint holds.
    pub state: EndpointState,
    /// Last issued sequence number.
    pub sequence: u32,
}

/// Request stamped with a sequence number.
pub open spec fn stamped(msg: IpcMessage, seq: u32) -> IpcMessage {
    IpcMessage { header: MessageHeader { sequence: seq, ..msg.header }, payload: msg.payload }
}

/// Sequence number after `s` (wrapping).
pub open spec fn next_seq(s: u32) -> u32 {
    if s == u32::MAX { 0 } else { (s + 1) as u32 }
}

impl IpcEndpoint {
    /// What the endpoint holds.
    pub open spec fn ep_state(&self) -> EndpointState {
        self.state
    }

    /// Idle endpoint with sequence 0.
    pub fn new(id: EndpointId, required_rights: Rights) -> (r: Self)
        ensures
            r.id == id,
            r.required_rights == required_rights,
            r.sequence == 0,
            r.ep_state() is Idle,
    {
        IpcEndpoint { id, required_rights, state: EndpointState::Idle, sequence: 0 }
    }

    fn next_sequence(&mut self) -> (r: u32)
        ensures
            r == next_seq(old(self).sequence),
            final(self).sequence == r,
            final(self).id == old(self).id,
            final(self).required_rights == old(self).required_rights,
            final(self).ep_state() == old(self).ep_state(),
    {
        self.sequence = self.sequence.wrapping_add(1);
        self.sequence
    }

    /// Posts a request: the capability must grant the endpoint's rights, no other
    /// request may be pending and the declared length must fit. On success the
    /// request is stamped with the next sequence number.
    pub fn post(&mut self, cap: &Capability, msg: IpcMessage) -> (r: Result<(), IpcError>)
        ensures
            !cap_allows(*cap, old(self).id, old(self).required_rights) ==>
                r == Err::<(), IpcError>(IpcError::CapabilityDenied) && *final(self) == *old(self),
            cap_allows(*cap, old(self).id, old(self).required_rights) && old(self).ep_state() is PendingReply ==>
                r == Err::<(), IpcError>(IpcError::EndpointBusy) && *final(self) == *old(self),
            cap_allows(*cap, old(self).id, old(self).required_rights) && !(old(self).ep_state() is PendingReply)
                && msg.header.payload_len > IPC_MAX_PAYLOAD ==>
                r == Err::<(), IpcError>(IpcError::PayloadLenMismatch) && *final(self) == *old(self),
            cap_allows(*cap, old(self).id, old(self).required_rights) && !(old(self).ep_state() is PendingReply)
                && msg.header.payload_len <= IPC_MAX_PAYLOAD ==> {
                &&& r == Ok::<(), IpcError>(())
                &&& posted(*old(self), *final(self), msg)
            },
    {
        if !cap.is_valid_for(self.id, self.required_rights) {
            return Err(IpcError::CapabilityDenied);
        }
        if let EndpointState::PendingReply(_) = &self.state {
            return Err(IpcError::EndpointBusy);
        }
        if msg.header.payload_len as usize > IPC_MAX_PAYLOAD {
            return Err(IpcError::PayloadLenMismatch);
        }
        let mut msg = msg;
        msg.header.sequence = self.next_sequence();
        self.state = EndpointState::PendingReply(msg);
        Ok(())
    }

    /// Takes the pending request, leaving the endpoint idle; `NoMessage` (and no
    /// change) when no request is pending.
    pub fn take(&mut self) -> (r: Result<IpcMessage, IpcError>)
        ensures
            old(self).ep_state() matches EndpointState::PendingReply(m) ==> r == Ok::<IpcMessage, IpcError>(m)
                && final(self).ep_state() is Idle,
            !(old(self).ep_state() is PendingReply) ==> r == Err::<IpcMessage, IpcError>(IpcError::NoMessage)
                && final(self).ep_state() == old(self).ep_state(),
            final(self).id == old(self).id,
            final(self).required_rights == old(self).required_rights,
            final(self).sequence == old(self).sequence,
    {
        let mut state = EndpointState::Idle;
        std::mem::swap(&mut self.state, &mut state);
        match state {
            EndpointState::PendingReply(msg) => Ok(msg),
            other => {
                self.state = other;
                Err(IpcError::NoMessage)
            },
        }
    }

    /// Posts a reply; refused with `EndpointBusy` while an earlier reply waits.
    pub fn post_reply(&mut self, reply: IpcMessage) -> (r: Result<(), IpcError>)
        ensures
            old(self).ep_state() is ReplyReady ==> r == Err::<(), IpcError>(IpcError::EndpointBusy)
                && *final(self) == *old(self),
            !(old(self).ep_state() is ReplyReady) ==> r == Ok::<(), IpcError>(())
                && final(self).ep_state() == EndpointState::ReplyReady(reply),
            final(self).id == old(self).id,
            final(self).required_rights == old(self).required_rights,
            final(self).sequence == old(self).sequence,
    {
        if let EndpointState::ReplyReady(_) = &self.state {
            return Err(IpcError::EndpointBusy);
        }
        self.state = EndpointState::ReplyReady(reply);
        Ok(())
    }

    /// Takes the ready reply, leaving the endpoint idle; `NoMessage` (and no
    /// change) when no reply is ready.
    pub fn take_reply(&mut self) -> (r: Result<IpcMessage, IpcError>)
        ensures
            old(self).ep_state() matches EndpointState::ReplyReady(m) ==> r == Ok::<IpcMessage, IpcError>(m)
                && final(self).ep_state() is Idle,
            !(old(self).ep_state() is ReplyReady) ==> r == Err::<IpcMessage, IpcError>(IpcError::NoMessage)
                && final(self).ep_state() == old(self).ep_state(),
            final(self).id == old(self).id,
            final(self).required_rights == old(self).required_rights,
            final(self).sequence == old(self).sequence,
    {
        let mut state = EndpointState::Idle;
        std::mem::swap(&mut self.state, &mut state);
        match state {
            EndpointState::ReplyReady(msg) => Ok(msg),
            other => {
                self.state = other;
                Err(IpcError::NoMessage)
            },
        }
    }
}

/// `after` is `before` with `msg` accepted: same identity and rights, the next
/// sequence number, and the stamped request pending.
pub open spec fn posted(before: IpcEndpoint, after: IpcEndpoint, msg: IpcMessage) -> bool {
    &&& after.id == before.id
    &&& after.required_rights == before.required_rights
    &&& after.sequence == next_seq(before.sequence)
    &&& after.ep_state() == EndpointState::PendingReply(stamped(msg, next_seq(before.sequence)))
}

/// What `take` hands out after an accepted post is the posted request itself,
/// carrying the endpoint's next sequence number; until then the endpoint is
/// busy for further posts.
pub proof fn law_post_then_take(before: IpcEndpoint, after: IpcEndpoint, msg: IpcMessage)
    requires
        posted(before, after, msg),
    ensures
        after.ep_state() matches EndpointState::PendingReply(m) && m.payload == msg.payload
            && m.header.msg_type == msg.header.msg_type && m.header.payload_len == msg.header.payload_len
            && m.header.sequence == next_seq(before.sequence),
        after.ep_state() is PendingReply,
{
}

/// Whether slot `o` holds endpoint `id`.
pub open spec fn ep_matches(o: Option<IpcEndpoint>, id: EndpointId) -> bool {
    o matches Some(ep) && ep.id == id
}

/// Index of the first slot holding endpoint `id`.
pub open spec fn first_match(s: Seq<Option<IpcEndpoint>>, id: EndpointId) -> Option<int>
    decreases s.len(),
{
    if s.len() == 0 {
        None
    } else {
        match first_match(s.drop_last(), id) {
            Some(i) => Some(i),
            None => if ep_matches(s.last(), id) { Some(s.len() - 1) } else { None },
        }
    }
}

/// Number of occupied slots.
pub open spec fn count_some(s: Seq<Option<IpcEndpoint>>) -> nat
    decreases s.len(),
{
    if s.len() == 0 {
        0
    } else {
        count_some(s.drop_last()) + if s.last() is Some { 1nat } else { 0nat }
    }
}

proof fn lemma_first_match_props(s: Seq<Option<IpcEndpoint>>, id: EndpointId)
    ensures
        first_match(s, id) matches Some(i) ==> 0 <= i < s.len() && ep_matches(s[i], id)
            && forall|j: int| 0 <= j < i ==> !ep_matches(#[trigger] s[j], id),
        first_match(s, id) is None ==> forall|j: int| 0 <= j < s.len() ==> !ep_matches(#[trigger] s[j], id),
    decreases s.len(),
{
    if s.len() > 0 {
        lemma_first_match_props(s.drop_last(), id);
        assert forall|j: int| 0 <= j < s.len() - 1 implies s.drop_last()[j] == s[j] by {}
    }
}

proof fn lemma_first_match_prefix(s: Seq<Option<IpcEndpoint>>, id: EndpointId, i: int)
    requires
        0 <= i < s.len(),
        first_match(s.take(i), id) is None,
    ensures
        ep_matches(s[i], id) ==> first_match(s.take(i + 1), id) == Some(i),
        !ep_matches(s[i], id) ==> first_match(s.take(i + 1), id) is None,
{
    assert(s.take(i + 1).drop_last() =~= s.take(i));
}

proof fn lemma_first_match_same(s: Seq<Option<IpcEndpoint>>, t: Seq<Option<IpcEndpoint>>, id: EndpointId)
    requires
        s.len() == t.len(),
        forall|j: int| 0 <= j < s.len() ==> (ep_matches(#[trigger] s[j], id) <==> ep_matches(t[j], id)),
    ensures
        first_match(s, id) == first_match(t, id),
    decreases s.len(),
{
    if s.len() > 0 {
        lemma_first_match_same(s.drop_last(), t.drop_last(), id);
    }
}

proof fn lemma_count_update(s: Seq<Option<IpcEndpoint>>, i: int, x: Option<IpcEndpoint>)
    requires
        0 <= i < s.len(),
        s[i] is None,
        x is Some,
    ensures
        count_some(s.update(i, x)) == count_some(s) + 1,
    decreases s.len(),
{
    if i == s.len() - 1 {
        assert(s.update(i, x).drop_last() =~= s.drop_last());
    } else {
        assert(s.update(i, x).drop_last() =~= s.drop_last().update(i, x));
        lemma_count_update(s.drop_last(), i, x);
    }
}

proof fn lemma_count_full(s: Seq<Option<IpcEndpoint>>)
    ensures
        count_some(s) <= s.len(),
        (forall|j: int| 0 <= j < s.len() ==> s[j] is Some) ==> count_some(s) == s.len(),
        (exists|j: int| 0 <= j < s.len() && s[j] is None) ==> count_some(s) < s.len(),
    decreases s.len(),
{
    if s.len() > 0 {
        lemma_count_full(s.drop_last());
        if forall|j: int| 0 <= j < s.len() ==> s[j] is Some {
            assert forall|j: int| 0 <= j < s.len() - 1 implies s.drop_last()[j] is Some by {
                assert(s[j] is Some);
            }
        }
        if exists|j: int| 0 <= j < s.len() && s[j] is None {
            let j = choose|j: int| 0 <= j < s.len() && s[j] is None;
            if j < s.len() - 1 {
                assert(s.drop_last()[j] is None);
            }
        }
    }
}

/// The kernel's endpoint table.
pub struct IpcRegistry {
    endpoints: Vec<Option<IpcEndpoint>>,
    count: usize,
}

impl IpcRegistry {
    /// The endpoint slots.
    pub closed spec fn slots(&self) -> Seq<Option<IpcEndpoint>> {
        self.endpoints@
    }

    /// Number of occupied slots.
    pub closed spec fn count_spec(&self) -> nat {
        self.count as nat
    }

    pub closed spec fn wf(&self) -> bool {
        &&& self.endpoints@.len() == IPC_MAX_ENDPOINTS
        &&& self.count as nat == count_some(self.endpoints@)
    }

    /// No endpoints.
    pub fn empty() -> (r: Self)
        ensures
            r.wf(),
            r.count_spec() == 0,
            r.slots().len() == IPC_MAX_ENDPOINTS,
            forall|i: int| 0 <= i < IPC_MAX_ENDPOINTS ==> r.slots()[i] is None,
    {
        let mut endpoints: Vec<Option<IpcEndpoint>> = Vec::new();
        let mut i: usize = 0;
        while i < IPC_MAX_ENDPOINTS
            invariant
                i <= IPC_MAX_ENDPOINTS,
                endpoints@.len() == i,
                forall|j: int| 0 <= j < i ==> endpoints@[j] is None,
                count_some(endpoints@) == 0,
            decreases IPC_MAX_ENDPOINTS - i,
        {
            let ghost before = endpoints@;
            endpoints.push(None);
            assert(endpoints@.drop_last() =~= before);
            i = i + 1;
        }
        IpcRegistry { endpoints, count: 0 }
    }

    /// Registers an idle endpoint in the first free slot; `EndpointsFull` when
    /// every slot is taken.
    pub fn register(&mut self, id: EndpointId, required_rights: Rights) -> (r: Result<(), IpcError>)
        requires
            old(self).wf(),
        ensures
            final(self).wf(),
            old(self).count_spec() >= IPC_MAX_ENDPOINTS ==> r == Err::<(), IpcError>(IpcError::EndpointsFull)
                && final(self).slots() == old(self).slots(),
            old(self).count_spec() < IPC_MAX_ENDPOINTS ==> final(self).count_spec() == old(self).count_spec() + 1,
            old(self).count_spec() < IPC_MAX_ENDPOINTS ==> r == Ok::<(), IpcError>(()) && exists|i: int|
                0 <= i < IPC_MAX_ENDPOINTS && old(self).slots()[i] is None
                && (forall|j: int| 0 <= j < i ==> old(self).slots()[j] is Some)
                && (final(self).slots()[i] matches Some(ep) && ep.id == id && ep.required_rights == required_rights
                    && ep.sequence == 0 && ep.ep_state() is Idle)
                && (forall|j: int| 0 <= j < IPC_MAX_ENDPOINTS && j != i ==> final(self).slots()[j] == old(self).slots()[j])
                && final(self).slots().len() == IPC_MAX_ENDPOINTS,
    {
        if self.count >= IPC_MAX_ENDPOINTS {
            return Err(IpcError::EndpointsFull);
        }
        let mut i: usize = 0;
        while i < IPC_MAX_ENDPOINTS
            invariant
                i <= IPC_MAX_ENDPOINTS,
                self.endpoints@ == old(self).endpoints@,
                self.endpoints@.len() == IPC_MAX_ENDPOINTS,
                self.count == old(self).count,
                self.count < IPC_MAX_ENDPOINTS,
                self.count as nat == count_some(self.endpoints@),
                forall|j: int| 0 <= j < i ==> self.endpoints@[j] is Some,
            decreases IPC_MAX_ENDPOINTS - i,
        {
            if self.endpoints[i].is_none() {
                let ghost s = self.endpoints@;
                let ep = IpcEndpoint::new(id, required_rights);
                self.endpoints.set(i, Some(ep));
                proof {
                    lemma_count_update(s, i as int, Some(ep));
                    assert(self.endpoints@ == s.update(i as int, Some(ep)));
                }
                self.count = self.count + 1;
                proof {
                    let k = i as int;
                    assert(old(self).slots()[k] is None);
                    assert(forall|j: int| 0 <= j < k ==> old(self).slots()[j] is Some);
                    assert(forall|j: int| 0 <= j < IPC_MAX_ENDPOINTS && j != k ==> self.slots()[j] == old(self).slots()[j]);
                    assert(self.slots()[k] matches Some(e) && e.id == id && e.required_rights == required_rights
                        && e.sequence == 0 && e.ep_state() is Idle);
                }
                return Ok(());
            }
            i = i + 1;
        }
        proof {
            lemma_count_full(self.endpoints@);
        }
        Err(IpcError::EndpointsFull)
    }

    /// Index of the first slot holding endpoint `id`.
    pub fn find(&self, id: EndpointId) -> (r: Option<usize>)
        requires
            self.wf(),
        ensures
            r matches Some(i) ==> first_match(self.slots(), id) == Some(i as int),
            r is None ==> first_match(self.slots(), id) is None,
    {
        let mut i: usize = 0;
        while i < IPC_MAX_ENDPOINTS
            invariant
                i <= IPC_MAX_ENDPOINTS,
                self.endpoints@.len() == IPC_MAX_ENDPOINTS,
                first_match(self.endpoints@.take(i as int), id) is None,
            decreases IPC_MAX_ENDPOINTS - i,
        {
            proof {
                lemma_first_match_prefix(self.endpoints@, id, i as int);
            }
            match &self.endpoints[i] {
                Some(ep) => {
                    if ep.id.0 == id.0 {
                        proof {
                            assert(self.endpoints@.take(IPC_MAX_ENDPOINTS as int) =~= self.endpoints@);
                            lemma_first_match_props(self.endpoints@.take(i as int + 1), id);
                            lemma_first_match_extend(self.endpoints@, id, i as int + 1);
                        }
                        return Some(i);
                    }
                },
                None => {},
            }
            i = i + 1;
        }
        assert(self.endpoints@.take(IPC_MAX_ENDPOINTS as int) =~= self.endpoints@);
        None
    }

    /// Posts a request built from `msg_type` and `payload` to the endpoint that
    /// `cap` names (the sending half of a call).
    pub fn ipc_send(&mut self, cap: &Capability, msg_type: MessageType, payload: &[u8]) -> (r: Result<(), IpcError>)
        requires
            old(self).wf(),
        ensures
            final(self).wf(),
            ipc_send_spec(old(self).slots(), final(self).slots(), *cap, msg_type, payload@, r),
    {
        let mut msg = IpcMessage::new(msg_type, 0);
        let res = msg.set_payload(payload);
        if res.is_err() {
            return Err(IpcError::PayloadTooLarge);
        }
        proof {
            assert(msg.body() =~= payload@);
        }
        let idx = match self.find(cap.endpoint_id) {
            Some(i) => i,
            None => return Err(IpcError::EndpointNotFound),
        };
        proof {
            lemma_first_match_props(self.endpoints@, cap.endpoint_id);
        }
        let ghost s = self.endpoints@;
        let mut slot: Option<IpcEndpoint> = None;
        std::mem::swap(&mut slot, &mut self.endpoints[idx]);
        let mut ep = match slot {
            Some(ep) => ep,
            None => {
                proof { assert(false); }
                return Err(IpcError::EndpointNotFound);
            },
        };
        let r = ep.post(cap, msg);
        self.endpoints.set(idx, Some(ep));
        proof {
            assert(self.endpoints@ =~= s.update(idx as int, self.endpoints@[idx as int]));
            lemma_count_swap(s, idx as int, self.endpoints@[idx as int]);
            if r.is_err() {
                assert(self.endpoints@ =~= s);
            }
        }
        r
    }

    /// Takes the request pending at endpoint `id` (the service's receive).
    pub fn ipc_recv(&mut self, id: EndpointId) -> (r: Result<IpcMessage, IpcError>)
        requires
            old(self).wf(),
        ensures
            final(self).wf(),
            ipc_recv_spec(old(self).slots(), final(self).slots(), id, r),
    {
        let idx = match self.find(id) {
            Some(i) => i,
            None => return Err(IpcError::EndpointNotFound),
        };
        proof {
            lemma_first_match_props(self.endpoints@, id);
        }
        let ghost s = self.endpoints@;
        let mut slot: Option<IpcEndpoint> = None;
        std::mem::swap(&mut slot, &mut self.endpoints[idx]);
        let mut ep = match slot {
            Some(ep) => ep,
            None => {
                proof { assert(false); }
                return Err(IpcError::EndpointNotFound);
            },
        };
        let r = ep.take();
        self.endpoints.set(idx, Some(ep));
        proof {
            assert(self.endpoints@ =~= s.update(idx as int, self.endpoints@[idx as int]));
            lemma_count_swap(s, idx as int, self.endpoints@[idx as int]);
        }
        r
    }

    /// Posts a reply of type `reply_type` carrying `payload` at endpoint `id`,
    /// stamped with the endpoint's current sequence number.
    pub fn ipc_reply(&mut self, id: EndpointId, reply_type: MessageType, payload: &[u8]) -> (r: Result<(), IpcError>)
        requires
            old(self).wf(),
        ensures
            final(self).wf(),
            ipc_reply_spec(old(self).slots(), final(self).slots(), id, reply_type, payload@, r),
    {
        let idx = match self.find(id) {
            Some(i) => i,
            None => return Err(IpcError::EndpointNotFound),
        };
        proof {
            lemma_first_match_props(self.endpoints@, id);
        }
        let seq = match &self.endpoints[idx] {
            Some(ep) => ep.sequence,
            None => {
                proof { assert(false); }
                return Err(IpcError::EndpointNotFound);
            },
        };
        let mut reply = IpcMessage::new(reply_type, seq);
        let res = reply.set_payload(payload);
        if res.is_err() {
            return Err(IpcError::PayloadTooLarge);
        }
        proof {
            assert(reply.body() =~= payload@);
        }
        let ghost s = self.endpoints@;
        let mut slot: Option<IpcEndpoint> = None;
        std::mem::swap(&mut slot, &mut self.endpoints[idx]);
        let mut ep = match slot {
            Some(ep) => ep,
            None => {
                proof { assert(false); }
                return Err(IpcError::EndpointNotFound);
            },
        };
        let r = ep.post_reply(reply);
        self.endpoints.set(idx, Some(ep));
        proof {
            assert(self.endpoints@ =~= s.update(idx as int, self.endpoints@[idx as int]));
            lemma_count_swap(s, idx as int, self.endpoints@[idx as int]);
            if r.is_err() {
                assert(self.endpoints@ =~= s);
            }
        }
        r
    }

    /// Takes the reply ready at endpoint `id` (the caller's receive).
    pub fn poll_reply(&mut self, id: EndpointId) -> (r: Result<IpcMessage, IpcError>)
        requires
            old(self).wf(),
        ensures
            final(self).wf(),
            poll_reply_spec(old(self).slots(), final(self).slots(), id, r),
    {
        let idx = match self.find(id) {
            Some(i) => i,
            None => return Err(IpcError::EndpointNotFound),
        };
        proof {
            lemma_first_match_props(self.endpoints@, id);
        }
        let ghost s = self.endpoints@;
        let mut slot: Option<IpcEndpoint> = None;
        std::mem::swap(&mut slot, &mut self.endpoints[idx]);
        let mut ep = match slot {
            Some(ep) => ep,
            None => {
                proof { assert(false); }
                return Err(IpcError::EndpointNotFound);
            },
        };
        let r = ep.take_reply();
        self.endpoints.set(idx, Some(ep));
        proof {
            assert(self.endpoints@ =~= s.update(idx as int, self.endpoints@[idx as int]));
            lemma_count_swap(s, idx as int, self.endpoints@[idx as int]);
        }
        r
    }
}

/// Outcome of `ipc_recv`.
pub open spec fn ipc_recv_spec(o: Seq<Option<IpcEndpoint>>, f: Seq<Option<IpcEndpoint>>, id: EndpointId, r: Result<IpcMessage, IpcError>) -> bool {
    &&& (first_match(o, id) is None ==> r == Err::<IpcMessage, IpcError>(IpcError::EndpointNotFound)
                && f == o)
    &&& (first_match(o, id) matches Some(i) ==> {
                let ep = o[i]->Some_0;
                &&& f.len() == o.len()
                &&& forall|j: int| 0 <= j < IPC_MAX_ENDPOINTS && j != i ==> f[j] == o[j]
                &&& f[i] matches Some(e2) && e2.id == ep.id && e2.required_rights == ep.required_rights
                    && e2.sequence == ep.sequence
                    && (ep.ep_state() matches EndpointState::PendingReply(m) ==> r == Ok::<IpcMessage, IpcError>(m)
                        && e2.ep_state() is Idle)
                    && (!(ep.ep_state() is PendingReply) ==> r == Err::<IpcMessage, IpcError>(IpcError::NoMessage)
                        && e2.ep_state() == ep.ep_state())
            })
}

/// Outcome of `ipc_reply`.
pub open spec fn ipc_reply_spec(o: Seq<Option<IpcEndpoint>>, f: Seq<Option<IpcEndpoint>>, id: EndpointId, reply_type: MessageType, payload: Seq<u8>, r: Result<(), IpcError>) -> bool {
    &&& (first_match(o, id) is None ==> r == Err::<(), IpcError>(IpcError::EndpointNotFound)
                && f == o)
    &&& (first_match(o, id) is Some && payload.len() > IPC_MAX_PAYLOAD ==>
                r == Err::<(), IpcError>(IpcError::PayloadTooLarge) && f == o)
    &&& (first_match(o, id) matches Some(i) ==> (payload.len() <= IPC_MAX_PAYLOAD ==> {
                let ep = o[i]->Some_0;
                &&& f.len() == o.len()
                &&& forall|j: int| 0 <= j < IPC_MAX_ENDPOINTS && j != i ==> f[j] == o[j]
                &&& ep.ep_state() is ReplyReady ==> r == Err::<(), IpcError>(IpcError::EndpointBusy)
                    && f == o
                &&& !(ep.ep_state() is ReplyReady) ==> r == Ok::<(), IpcError>(())
                    && (f[i] matches Some(e2) && e2.id == ep.id
                    && e2.required_rights == ep.required_rights && e2.sequence == ep.sequence
                    && (e2.ep_state() matches EndpointState::ReplyReady(m)
                    && m.header.msg_type == reply_type && m.header.sequence == ep.sequence
                    && m.body() == payload))
            }))
}

/// Outcome of `poll_reply`.
pub open spec fn poll_reply_spec(o: Seq<Option<IpcEndpoint>>, f: Seq<Option<IpcEndpoint>>, id: EndpointId, r: Result<IpcMessage, IpcError>) -> bool {
    &&& (first_match(o, id) is None ==> r == Err::<IpcMessage, IpcError>(IpcError::EndpointNotFound)
                && f == o)
    &&& (first_match(o, id) matches Some(i) ==> {
                let ep = o[i]->Some_0;
                &&& f.len() == o.len()
                &&& forall|j: int| 0 <= j < IPC_MAX_ENDPOINTS && j != i ==> f[j] == o[j]
                &&& f[i] matches Some(e2) && e2.id == ep.id && e2.required_rights == ep.required_rights
                    && e2.sequence == ep.sequence
                    && (ep.ep_state() matches EndpointState::ReplyReady(m) ==> r == Ok::<IpcMessage, IpcError>(m)
                        && e2.ep_state() is Idle)
                    && (!(ep.ep_state() is ReplyReady) ==> r == Err::<IpcMessage, IpcError>(IpcError::NoMessage)
                        && e2.ep_state() == ep.ep_state())
            })
}

/// Outcome of `ipc_send`.
pub open spec fn ipc_send_spec(o: Seq<Option<IpcEndpoint>>, f: Seq<Option<IpcEndpoint>>, cap: Capability, msg_type: MessageType, payload: Seq<u8>, r: Result<(), IpcError>) -> bool {
    &&& (payload.len() > IPC_MAX_PAYLOAD ==> r == Err::<(), IpcError>(IpcError::PayloadTooLarge)
                && f == o)
    &&& (payload.len() <= IPC_MAX_PAYLOAD && first_match(o, cap.endpoint_id) is None ==>
                r == Err::<(), IpcError>(IpcError::EndpointNotFound) && f == o)
    &&& (payload.len() <= IPC_MAX_PAYLOAD ==> (first_match(o, cap.endpoint_id) matches Some(i) ==> {
                let ep = o[i]->Some_0;
                &&& !cap_allows(cap, ep.id, ep.required_rights) ==> r == Err::<(), IpcError>(IpcError::CapabilityDenied)
                    && f == o
                &&& cap_allows(cap, ep.id, ep.required_rights) && ep.ep_state() is PendingReply ==>
                    r == Err::<(), IpcError>(IpcError::EndpointBusy) && f == o
                &&& cap_allows(cap, ep.id, ep.required_rights) && !(ep.ep_state() is PendingReply) ==> {
                    &&& r == Ok::<(), IpcError>(())
                    &&& f.len() == o.len()
                    &&& forall|j: int| 0 <= j < IPC_MAX_ENDPOINTS && j != i ==> f[j] == o[j]
                    &&& f[i] matches Some(e2) && e2.id == ep.id
                        && e2.required_rights == ep.required_rights
                        && e2.sequence == next_seq(ep.sequence)
                        && (e2.ep_state() matches EndpointState::PendingReply(m)
                        && m.header.msg_type == msg_type
                        && m.header.sequence == next_seq(ep.sequence)
                        && m.body() == payload)
                }
            }))
}

proof fn lemma_first_match_extend(s: Seq<Option<IpcEndpoint>>, id: EndpointId, k: int)
    requires
        0 <= k <= s.len(),
        first_match(s.take(k), id) is Some,
    ensures
        first_match(s, id) == first_match(s.take(k), id),
    decreases s.len() - k,
{
    if k < s.len() {
        assert(s.take(k + 1).drop_last() =~= s.take(k));
        lemma_first_match_extend(s, id, k + 1);
    } else {
        assert(s.take(k) =~= s);
    }
}

proof fn lemma_count_swap(s: Seq<Option<IpcEndpoint>>, i: int, x: Option<IpcEndpoint>)
    requires
        0 <= i < s.len(),
        s[i] is Some,
        x is Some,
    ensures
        count_some(s.update(i, x)) == count_some(s),
    decreases s.len(),
{
    if i == s.len() - 1 {
        assert(s.update(i, x).drop_last() =~= s.drop_last());
    } else {
        assert(s.update(i, x).drop_last() =~= s.drop_last().update(i, x));
        lemma_count_swap(s.drop_last(), i, x);
    }
}

proof fn lemma_registered_at(s: Seq<Option<IpcEndpoint>>, t: Seq<Option<IpcEndpoint>>, k: int)
    requires
        0 <= k < s.len(),
        t.len() == s.len(),
        forall|j: int| 0 <= j < k ==> s[j] is Some,
        forall|j: int| k <= j < s.len() ==> s[j] is None,
        exists|i: int| 0 <= i < s.len() && s[i] is None
            && (forall|j: int| 0 <= j < i ==> s[j] is Some)
            && t[i] is Some
            && (forall|j: int| 0 <= j < s.len() && j != i ==> t[j] == s[j]),
    ensures
        forall|j: int| 0 <= j < k ==> t[j] == s[j],
        t[k] is Some,
        forall|j: int| k < j < s.len() ==> t[j] is None,
{
    let i = choose|i: int| 0 <= i < s.len() && s[i] is None
        && (forall|j: int| 0 <= j < i ==> s[j] is Some)
        && t[i] is Some
        && (forall|j: int| 0 <= j < s.len() && j != i ==> t[j] == s[j]);
    if i < k {
        assert(s[i] is Some);
    }
    if i > k {
        assert(s[k] is Some);
    }
}

/// Whether endpoint `id` is registered (never for the invalid id).
pub fn endpoint_exists(reg: &IpcRegistry, id: EndpointId) -> (r: bool)
    requires
        reg.wf(),
    ensures
        r == (id.0 != ENDPOINT_INVALID && exists|j: int| 0 <= j < reg.slots().len() && ep_matches(reg.slots()[j], id)),
{
    if id.0 == ENDPOINT_INVALID {
        return false;
    }
    let r = reg.find(id);
    proof {
        lemma_first_match_props(reg.slots(), id);
    }
    r.is_some()
}

/// A message the registry accepted is what the next receive on that endpoint
/// gets: same type, same payload.
pub proof fn law_send_then_recv(o: Seq<Option<IpcEndpoint>>, f: Seq<Option<IpcEndpoint>>, g: Seq<Option<IpcEndpoint>>,
    cap: Capability, msg_type: MessageType, payload: Seq<u8>, sent: Result<(), IpcError>, got: Result<IpcMessage, IpcError>)
    requires
        o.len() == IPC_MAX_ENDPOINTS,
        ipc_send_spec(o, f, cap, msg_type, payload, sent),
        sent is Ok,
        ipc_recv_spec(f, g, cap.endpoint_id, got),
    ensures
        got matches Ok(m) && m.header.msg_type == msg_type && m.body() == payload,
{
    lemma_first_match_props(o, cap.endpoint_id);
    let i = first_match(o, cap.endpoint_id)->Some_0;
    assert forall|j: int| 0 <= j < o.len() implies (ep_matches(#[trigger] o[j], cap.endpoint_id) <==> ep_matches(f[j], cap.endpoint_id)) by {
        if j != i {
            assert(f[j] == o[j]);
        }
    }
    lemma_first_match_same(o, f, cap.endpoint_id);
}

/// A reply the server posted is what the caller's next poll on that endpoint
/// gets: same type and payload.
pub proof fn law_reply_then_poll(o: Seq<Option<IpcEndpoint>>, f: Seq<Option<IpcEndpoint>>, g: Seq<Option<IpcEndpoint>>,
    id: EndpointId, reply_type: MessageType, payload: Seq<u8>, replied: Result<(), IpcError>, got: Result<IpcMessage, IpcError>)
    requires
        o.len() == IPC_MAX_ENDPOINTS,
        ipc_reply_spec(o, f, id, reply_type, payload, replied),
        replied is Ok,
        poll_reply_spec(f, g, id, got),
    ensures
        got matches Ok(m) && m.header.msg_type == reply_type && m.body() == payload,
{
    lemma_first_match_props(o, id);
    let i = first_match(o, id)->Some_0;
    assert forall|j: int| 0 <= j < o.len() implies (ep_matches(#[trigger] o[j], id) <==> ep_matches(f[j], id)) by {
        if j != i {
            assert(f[j] == o[j]);
        }
    }
    lemma_first_match_same(o, f, id);
}

/// Without the endpoint's required rights, or with a null token, a send
/// changes nothing and is refused.
pub proof fn law_send_needs_capability(o: Seq<Option<IpcEndpoint>>, f: Seq<Option<IpcEndpoint>>, cap: Capability,
    msg_type: MessageType, payload: Seq<u8>, sent: Result<(), IpcError>)
    requires
        o.len() == IPC_MAX_ENDPOINTS,
        ipc_send_spec(o, f, cap, msg_type, payload, sent),
        payload.len() <= IPC_MAX_PAYLOAD,
        first_match(o, cap.endpoint_id) matches Some(i)
            && !cap_allows(cap, o[i]->Some_0.id, o[i]->Some_0.required_rights),
    ensures
        sent == Err::<(), IpcError>(IpcError::CapabilityDenied),
        f == o,
{
}

/// Registers the kernel's own endpoints (system, crypto, sign, lumen wire), each
/// requiring the CALL right.
pub fn init() -> (r: IpcRegistry)
    ensures
        r.wf(),
        forall|k: int| 0 <= k < 4 ==> ((#[trigger] r.slots()[k]) matches Some(ep) && ep.required_rights == Rights(RIGHTS_CALL)
            && ep.sequence == 0 && ep.ep_state() is Idle),
        r.slots()[0]->Some_0.id == EndpointId(EP_SYSTEM),
        r.slots()[1]->Some_0.id == EndpointId(EP_CRYPTO),
        r.slots()[2]->Some_0.id == EndpointId(EP_SIGN),
        r.slots()[3]->Some_0.id == EndpointId(EP_LUMEN_WIRE),
        forall|k: int| 4 <= k < IPC_MAX_ENDPOINTS ==> (#[trigger] r.slots()[k]) is None,
{
    let mut reg = IpcRegistry::empty();
    let ghost s0 = reg.slots();
    let _ = reg.register(EndpointId(EP_SYSTEM), Rights(RIGHTS_CALL));
    let ghost s1 = reg.slots();
    proof { lemma_registered_at(s0, s1, 0); }
    let _ = reg.register(EndpointId(EP_CRYPTO), Rights(RIGHTS_CALL));
    let ghost s2 = reg.slots();
    proof { lemma_registered_at(s1, s2, 1); }
    let _ = reg.register(EndpointId(EP_SIGN), Rights(RIGHTS_CALL));
    let ghost s3 = reg.slots();
    proof { lemma_registered_at(s2, s3, 2); }
    let _ = reg.register(EndpointId(EP_LUMEN_WIRE), Rights(RIGHTS_CALL));
    let ghost s4 = reg.slots();
    proof { lemma_registered_at(s3, s4, 3); }
    reg
}

} // verus!

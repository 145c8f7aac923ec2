//! Lumen wire protocol and the HSM bus surface.
//!
//! A frame is a 16-byte little-endian header (magic "LWK0", version, cmd,
//! request id, payload length, status) followed by the payload. Responses set
//! the top bit of `cmd`; error frames carry no payload.
use vstd::prelude::*;
use crate::capability::{EndpointId, ENDPOINT_INVALID};
use crate::ipc::{IpcRegistry, endpoint_exists, ep_matches};
use crate::hsm_attest::{AuditRing, EnrollEvent, AUDIT_RING_CAPACITY, min3, snapshot_events};

verus! {

/// Largest frame.
pub const WIRE_FRAME_MAX: usize = 4096;
/// Largest payload (frame minus header).
pub const WIRE_PAYLOAD_MAX: usize = 4080;
/// Protocol version.
pub const WIRE_VERSION: u16 = 0x0001;
/// Bit set in the `cmd` of every response.
pub const WIRE_CMD_RESPONSE_BIT: u16 = 0x8000;
/// ML-DSA-44 public key length.
pub const MLDSA44_PK_LEN: usize = 1312;
/// ML-DSA-44 signature length.
pub const MLDSA44_SIG_LEN: usize = 2420;
/// AttestSubmit payload: public key, bus kind octet, signature.
pub const WIRE_ATTEST_LEN: usize = 3733;
/// Largest bus instance footprint.
pub const BUS_INSTANCE_MAX: usize = 4224;
/// Largest bus init blob.
pub const MAX_BUS_INIT_BLOB: usize = 32;
/// Software bus ring size.
pub const SW_BUS_BUF: usize = 64;

/// Frame magic bytes "LWK0".
pub open spec fn wire_magic() -> Seq<u8> {
    seq![0x4Cu8, 0x57u8, 0x4Bu8, 0x30u8]
}

/// Fixed 16-byte frame header.
#[derive(Clone, Copy, Debug, PartialEq, Eq)]
pub struct WireFrameHeader {
    pub magic: [u8; 4],
    pub version: u16,
    pub cmd: u16,
    pub req_id: u32,
    pub payload_len: u16,
    pub status: u16,
}

/// Wire commands.
#[derive(Clone, Copy, Debug, PartialEq, Eq, Structural)]
pub enum WireCmd {
    Ping,
    Blake3Hash,
    AttestSubmit,
    Status,
    Error,
}

/// Numeric code of a command.
pub open spec fn cmd_code_spec(c: WireCmd) -> u16 {
    match c {
        WireCmd::Ping => 0x0001,
        WireCmd::Blake3Hash => 0x0010,
        WireCmd::AttestSubmit => 0x0040,
        WireCmd::Status => 0x0080,
        WireCmd::Error => 0xFFFF,
    }
}

impl WireCmd {
    /// Numeric code of the command.
    pub fn code(self) -> (r: u16)
        ensures
            r == cmd_code_spec(self),
    {
        match self {
            WireCmd::Ping => 0x0001,
            WireCmd::Blake3Hash => 0x0010,
            WireCmd::AttestSubmit => 0x0040,
            WireCmd::Status => 0x0080,
            WireCmd::Error => 0xFFFF,
        }
    }
}

/// Wire status codes.
#[derive(Clone, Copy, Debug, PartialEq, Eq, Structural)]
pub enum WireStatus {
    Success,
    BadFrame,
    UnknownCmd,
    Denied,
    Internal,
}

/// Numeric code of a status.
pub open spec fn status_code_spec(s: WireStatus) -> u16 {
    match s {
        WireStatus::Success => 0,
        WireStatus::BadFrame => 1,
        WireStatus::UnknownCmd => 2,
        WireStatus::Denied => 3,
        WireStatus::Internal => 4,
    }
}

impl WireStatus {
    /// Numeric code of the status.
    pub fn code(self) -> (r: u16)
        ensures
            r == status_code_spec(self),
    {
        match self {
            WireStatus::Success => 0,
            WireStatus::BadFrame => 1,
            WireStatus::UnknownCmd => 2,
            WireStatus::Denied => 3,
            WireStatus::Internal => 4,
        }
    }
}

/// Little-endian 16-bit value at `off`.
pub open spec fn le16(s: Seq<u8>, off: int) -> int {
    s[off] + 256 * s[off + 1]
}

/// Little-endian 32-bit value at `off`.
pub open spec fn le32(s: Seq<u8>, off: int) -> int {
    le16(s, off) + 65536 * le16(s, off + 2)
}

/// Header decoded from 16 bytes.
pub open spec fn header_of(s: Seq<u8>) -> WireFrameHeader {
    WireFrameHeader {
        magic: [s[0], s[1], s[2], s[3]],
        version: le16(s, 4) as u16,
        cmd: le16(s, 6) as u16,
        req_id: le32(s, 8) as u32,
        payload_len: le16(s, 12) as u16,
        status: le16(s, 14) as u16,
    }
}

/// Little-endian bytes of a 16-bit value.
pub open spec fn le16_bytes(v: u16) -> Seq<u8> {
    seq![(v % 256) as u8, (v / 256) as u8]
}

/// Little-endian bytes of a 32-bit value.
pub open spec fn le32_bytes(v: u32) -> Seq<u8> {
    seq![(v % 256) as u8, ((v / 256) % 256) as u8, ((v / 65536) % 256) as u8, (v / 16777216) as u8]
}

/// The 16 bytes encoding a header.
pub open spec fn header_bytes(h: WireFrameHeader) -> Seq<u8> {
    seq![
        h.magic[0], h.magic[1], h.magic[2], h.magic[3],
        (h.version % 256) as u8, (h.version / 256) as u8,
        (h.cmd % 256) as u8, (h.cmd / 256) as u8,
        (h.req_id % 256) as u8, ((h.req_id / 256) % 256) as u8,
        ((h.req_id / 65536) % 256) as u8, (h.req_id / 16777216) as u8,
        (h.payload_len % 256) as u8, (h.payload_len / 256) as u8,
        (h.status % 256) as u8, (h.status / 256) as u8
    ]
}

fn rd16(b: &[u8; 16], off: usize) -> (r: u16)
    requires
        off + 1 < 16,
    ensures
        r == le16(b@, off as int),
{
    b[off] as u16 + (b[off + 1] as u16) * 256
}

/// Decodes a 16-byte header.
pub fn parse_header(bytes: &[u8; 16]) -> (r: WireFrameHeader)
    ensures
        r == header_of(bytes@),
{
    let lo = rd16(bytes, 8);
    let hi = rd16(bytes, 10);
    let r = WireFrameHeader {
        magic: [bytes[0], bytes[1], bytes[2], bytes[3]],
        version: rd16(bytes, 4),
        cmd: rd16(bytes, 6),
        req_id: lo as u32 + (hi as u32) * 65536,
        payload_len: rd16(bytes, 12),
        status: rd16(bytes, 14),
    };
    assert(r.magic@ =~= header_of(bytes@).magic@);
    r
}

/// Encodes a header into 16 little-endian bytes.
pub fn write_header(h: &WireFrameHeader, out: &mut [u8; 16])
    ensures
        final(out)@ == header_bytes(*h),
{
    out[0] = h.magic[0];
    out[1] = h.magic[1];
    out[2] = h.magic[2];
    out[3] = h.magic[3];
    out[4] = (h.version % 256) as u8;
    out[5] = (h.version / 256) as u8;
    out[6] = (h.cmd % 256) as u8;
    out[7] = (h.cmd / 256) as u8;
    out[8] = (h.req_id % 256) as u8;
    out[9] = ((h.req_id / 256) % 256) as u8;
    out[10] = ((h.req_id / 65536) % 256) as u8;
    out[11] = (h.req_id / 16777216) as u8;
    out[12] = (h.payload_len % 256) as u8;
    out[13] = (h.payload_len / 256) as u8;
    out[14] = (h.status % 256) as u8;
    out[15] = (h.status / 256) as u8;
    assert(out@ =~= header_bytes(*h));
}

proof fn lemma_join16(v: u16)
    ensures
        (v % 256) as u8 + 256 * ((v / 256) as u8) == v,
{
}

proof fn lemma_join32(v: u32)
    ensures
        ((v % 256) as u8 + 256 * (((v / 256) % 256) as u8)) as u16 as int
            + 65536 * ((((v / 65536) % 256) as u8 + 256 * ((v / 16777216) as u8)) as u16 as int) == v,
{
    assert(((v % 256) as u8 + 256 * (((v / 256) % 256) as u8)) == v % 65536) by (nonlinear_arith);
    assert((((v / 65536) % 256) as u8 + 256 * ((v / 16777216) as u8)) == v / 65536) by (nonlinear_arith);
}

proof fn lemma_split16(a: u8, b: u8)
    ensures
        ((a + 256 * b) as u16 % 256) as u8 == a,
        ((a + 256 * b) as u16 / 256) as u8 == b,
{
}

proof fn lemma_split32(a: u8, b: u8, c: u8, d: u8)
    ensures
        ({
            let v = ((a + 256 * b) as u16 + 65536 * ((c + 256 * d) as u16)) as u32;
            &&& (v % 256) as u8 == a
            &&& ((v / 256) % 256) as u8 == b
            &&& ((v / 65536) % 256) as u8 == c
            &&& (v / 16777216) as u8 == d
        }),
{
    let v = ((a + 256 * b) as u16 + 65536 * ((c + 256 * d) as u16)) as u32;
    assert(v == a + 256 * b + 65536 * c + 16777216 * d);
    assert(v % 256 == a) by (nonlinear_arith)
        requires v == a + 256 * b + 65536 * c + 16777216 * d, a < 256;
    assert((v / 256) % 256 == b) by (nonlinear_arith)
        requires v == a + 256 * b + 65536 * c + 16777216 * d, a < 256, b < 256;
    assert((v / 65536) % 256 == c) by (nonlinear_arith)
        requires v == a + 256 * b + 65536 * c + 16777216 * d, a < 256, b < 256, c < 256;
    assert(v / 16777216 == d) by (nonlinear_arith)
        requires v == a + 256 * b + 65536 * c + 16777216 * d, a < 256, b < 256, c < 256;
}

/// Decoding the encoding of a header gives the header back, and encoding a
/// decoded 16-byte string gives the string back.
pub proof fn law_header_roundtrip(h: WireFrameHeader, s: Seq<u8>)
    requires
        s.len() == 16,
    ensures
        header_of(header_bytes(h)) == h,
        header_bytes(header_of(s)) == s,
{
    let b = header_bytes(h);
    lemma_join16(h.version);
    lemma_join16(h.cmd);
    lemma_join16(h.payload_len);
    lemma_join16(h.status);
    lemma_join32(h.req_id);
    assert(header_of(b).magic@ =~= h.magic@);
    assert(header_of(b).magic == h.magic);
    lemma_split16(s[4], s[5]);
    lemma_split16(s[6], s[7]);
    lemma_split16(s[12], s[13]);
    lemma_split16(s[14], s[15]);
    lemma_split32(s[8], s[9], s[10], s[11]);
    assert(header_bytes(header_of(s)) =~= s);
}

/// Header of a response frame.
pub open spec fn response_header(req_id: u32, cmd: WireCmd, status: WireStatus, payload_len: int) -> WireFrameHeader {
    WireFrameHeader {
        magic: [0x4Cu8, 0x57u8, 0x4Bu8, 0x30u8],
        version: WIRE_VERSION,
        cmd: cmd_code_spec(cmd) | WIRE_CMD_RESPONSE_BIT,
        req_id,
        payload_len: payload_len as u16,
        status: status_code_spec(status),
    }
}

/// Header of an error frame (no payload).
pub open spec fn error_header(req_id: u32, status: WireStatus) -> WireFrameHeader {
    WireFrameHeader {
        magic: [0x4Cu8, 0x57u8, 0x4Bu8, 0x30u8],
        version: WIRE_VERSION,
        cmd: 0xFFFF,
        req_id,
        payload_len: 0,
        status: status_code_spec(status),
    }
}

fn copy_into(out: &mut [u8; WIRE_FRAME_MAX], at: usize, src: &[u8])
    requires
        at + src@.len() <= WIRE_FRAME_MAX,
    ensures
        forall|j: int| 0 <= j < at ==> #[trigger] final(out)@[j] == old(out)@[j],
        forall|j: int| at <= j < at + src@.len() ==> #[trigger] final(out)@[j] == src@[j - at],
        forall|j: int| at + src@.len() <= j < WIRE_FRAME_MAX ==> #[trigger] final(out)@[j] == old(out)@[j],
{
    let mut i: usize = 0;
    while i < src.len()
        invariant
            i <= src@.len(),
            at + src@.len() <= WIRE_FRAME_MAX,
            forall|j: int| 0 <= j < at ==> #[trigger] out@[j] == old(out)@[j],
            forall|j: int| at <= j < at + i ==> #[trigger] out@[j] == src@[j - at],
            forall|j: int| at + i <= j < WIRE_FRAME_MAX ==> #[trigger] out@[j] == old(out)@[j],
        decreases src@.len() - i,
    {
        out[at + i] = src[i];
        i = i + 1;
    }
}

/// Writes a response frame (header with the response bit, then `payload`) and
/// returns its length.
pub fn build_response_frame(req_id: u32, cmd: WireCmd, status: WireStatus, payload: &[u8],
    out: &mut [u8; WIRE_FRAME_MAX]) -> (r: usize)
    requires
        payload@.len() <= WIRE_PAYLOAD_MAX,
    ensures
        r == 16 + payload@.len(),
        final(out)@.subrange(0, 16) == header_bytes(response_header(req_id, cmd, status, payload@.len() as int)),
        final(out)@.subrange(16, r as int) == payload@,
        final(out)@.subrange(r as int, WIRE_FRAME_MAX as int) == old(out)@.subrange(r as int, WIRE_FRAME_MAX as int),
{
    let hdr = WireFrameHeader {
        magic: [0x4C, 0x57, 0x4B, 0x30],
        version: WIRE_VERSION,
        cmd: cmd.code() | WIRE_CMD_RESPONSE_BIT,
        req_id,
        payload_len: payload.len() as u16,
        status: status.code(),
    };
    let mut hdr_bytes = [0u8; 16];
    write_header(&hdr, &mut hdr_bytes);
    let ghost o = out@;
    copy_into(out, 0, &hdr_bytes);
    let ghost o1 = out@;
    copy_into(out, 16, payload);
    proof {
        assert(hdr == response_header(req_id, cmd, status, payload@.len() as int));
        assert(out@.subrange(0, 16) =~= o1.subrange(0, 16));
        assert(o1.subrange(0, 16) =~= hdr_bytes@);
        assert(out@.subrange(16, 16 + payload@.len() as int) =~= payload@);
        assert(out@.subrange(16 + payload@.len() as int, WIRE_FRAME_MAX as int)
            =~= o.subrange(16 + payload@.len() as int, WIRE_FRAME_MAX as int));
    }
    16 + payload.len()
}

/// Writes a payload-less error frame and returns its length (16).
pub fn build_error_frame_inplace(req_id: u32, status: WireStatus, out: &mut [u8; WIRE_FRAME_MAX]) -> (r: usize)
    ensures
        r == 16,
        final(out)@.subrange(0, 16) == header_bytes(error_header(req_id, status)),
        final(out)@.subrange(16, WIRE_FRAME_MAX as int) == old(out)@.subrange(16, WIRE_FRAME_MAX as int),
{
    let hdr = WireFrameHeader {
        magic: [0x4C, 0x57, 0x4B, 0x30],
        version: WIRE_VERSION,
        cmd: WireCmd::Error.code(),
        req_id,
        payload_len: 0,
        status: status.code(),
    };
    let mut hdr_bytes = [0u8; 16];
    write_header(&hdr, &mut hdr_bytes);
    let ghost o = out@;
    copy_into(out, 0, &hdr_bytes);
    proof {
        assert(hdr == error_header(req_id, status));
        assert(out@.subrange(0, 16) =~= hdr_bytes@);
        assert(out@.subrange(16, WIRE_FRAME_MAX as int) =~= o.subrange(16, WIRE_FRAME_MAX as int));
    }
    16
}

/// Ping: an empty OK response.
pub fn handle_ping(req_id: u32, out: &mut [u8; WIRE_FRAME_MAX]) -> (r: usize)
    ensures
        r == 16,
        final(out)@.subrange(0, 16) == header_bytes(response_header(req_id, WireCmd::Ping, WireStatus::Success, 0)),
        final(out)@.subrange(16, WIRE_FRAME_MAX as int) == old(out)@.subrange(16, WIRE_FRAME_MAX as int),
{
    let empty: [u8; 0] = [];
    build_response_frame(req_id, WireCmd::Ping, WireStatus::Success, &empty, out)
}

/// The 12 little-endian bytes of an audit event.
pub open spec fn event_bytes(e: EnrollEvent) -> Seq<u8> {
    le32_bytes(e.seq) + seq![e.slot_idx, e.result, e.bus_kind, e.pad] + e.pk_hash_prefix@
}

/// Header of the status payload.
pub open spec fn status_header_bytes(written: int, total: u32) -> Seq<u8> {
    le16_bytes(written as u16) + le32_bytes(total) + seq![0u8, 0u8]
}

/// Concatenated event records.
pub open spec fn events_bytes(events: Seq<EnrollEvent>) -> Seq<u8>
    decreases events.len(),
{
    if events.len() == 0 { Seq::empty() } else { events_bytes(events.drop_last()) + event_bytes(events.last()) }
}

pub(crate) fn put_u8(buf: &mut Vec<u8>, v: u8)
    ensures
        final(buf)@ == old(buf)@.push(v),
{
    buf.push(v);
}

pub(crate) fn put16(buf: &mut Vec<u8>, v: u16)
    ensures
        final(buf)@ == old(buf)@ + le16_bytes(v),
{
    buf.push((v % 256) as u8);
    buf.push((v / 256) as u8);
    assert(buf@ =~= old(buf)@ + le16_bytes(v));
}

pub(crate) fn put32(buf: &mut Vec<u8>, v: u32)
    ensures
        final(buf)@ == old(buf)@ + le32_bytes(v),
{
    buf.push((v % 256) as u8);
    buf.push(((v / 256) % 256) as u8);
    buf.push(((v / 65536) % 256) as u8);
    buf.push((v / 16777216) as u8);
    assert(buf@ =~= old(buf)@ + le32_bytes(v));
}

/// Serialises an audit snapshot: header then `events[..written]`.
pub fn encode_status_payload(events: &[EnrollEvent], written: usize, total: u32) -> (r: Vec<u8>)
    requires
        written <= events@.len(),
        written <= 0xFFFF,
    ensures
        r@ == status_header_bytes(written as int, total) + events_bytes(events@.subrange(0, written as int)),
        r@.len() == 8 + 12 * written,
{
    let mut buf: Vec<u8> = Vec::new();
    put16(&mut buf, written as u16);
    put32(&mut buf, total);
    put_u8(&mut buf, 0);
    put_u8(&mut buf, 0);
    assert(buf@ =~= status_header_bytes(written as int, total));
    let mut i: usize = 0;
    while i < written
        invariant
            i <= written,
            written <= events@.len(),
            buf@ == status_header_bytes(written as int, total) + events_bytes(events@.subrange(0, i as int)),
            buf@.len() == 8 + 12 * i,
        decreases written - i,
    {
        let ev = events[i];
        let ghost before = buf@;
        put32(&mut buf, ev.seq);
        put_u8(&mut buf, ev.slot_idx);
        put_u8(&mut buf, ev.result);
        put_u8(&mut buf, ev.bus_kind);
        put_u8(&mut buf, ev.pad);
        put_u8(&mut buf, ev.pk_hash_prefix[0]);
        put_u8(&mut buf, ev.pk_hash_prefix[1]);
        put_u8(&mut buf, ev.pk_hash_prefix[2]);
        put_u8(&mut buf, ev.pk_hash_prefix[3]);
        proof {
            assert(events@.subrange(0, i as int + 1).drop_last() =~= events@.subrange(0, i as int));
            assert(buf@ =~= before + event_bytes(ev));
        }
        i = i + 1;
    }
    buf
}

/// Status command: refuses a non-empty payload with BadFrame, otherwise answers
/// with the audit snapshot.
pub fn handle_status(req_id: u32, payload: &[u8], audit: &AuditRing, out: &mut [u8; WIRE_FRAME_MAX]) -> (r: usize)
    requires
        audit.wf(),
    ensures
        payload@.len() != 0 ==> r == 16 && final(out)@.subrange(0, 16) == header_bytes(error_header(req_id, WireStatus::BadFrame)),
        payload@.len() == 0 ==> {
            let n = min3(audit.total_spec() as int, AUDIT_RING_CAPACITY as int, AUDIT_RING_CAPACITY as int);
            &&& r == 16 + 8 + 12 * n
            &&& final(out)@.subrange(0, 16) == header_bytes(response_header(req_id, WireCmd::Status, WireStatus::Success, 8 + 12 * n))
            &&& final(out)@.subrange(16, r as int) == status_header_bytes(n, audit.total_spec())
                + events_bytes(snapshot_events(*audit))
        },
{
    if payload.len() != 0 {
        return build_error_frame_inplace(req_id, WireStatus::BadFrame, out);
    }
    let mut events_local: Vec<EnrollEvent> = Vec::new();
    let mut k: usize = 0;
    while k < AUDIT_RING_CAPACITY
        invariant
            k <= AUDIT_RING_CAPACITY,
            events_local@.len() == k,
        decreases AUDIT_RING_CAPACITY - k,
    {
        events_local.push(EnrollEvent::zeroed());
        k = k + 1;
    }
    let (written, total) = audit.audit_snapshot(events_local.as_mut_slice());
    assert(events_local@.subrange(0, written as int) =~= snapshot_events(*audit));
    let staging = encode_status_payload(events_local.as_slice(), written, total);
    build_response_frame(req_id, WireCmd::Status, WireStatus::Success, staging.as_slice(), out)
}

/// Transport behind an HSM slot.
#[derive(Clone, Copy, Debug, PartialEq, Eq, Structural)]
pub enum BusKind {
    Software,
    Ring3Process,
    Usb,
    Spi,
    Serial,
    SmartCard,
    Network,
}

/// Octet of a bus kind.
pub open spec fn bus_kind_code(k: BusKind) -> u8 {
    match k {
        BusKind::Software => 0,
        BusKind::Ring3Process => 1,
        BusKind::Usb => 2,
        BusKind::Spi => 3,
        BusKind::Serial => 4,
        BusKind::SmartCard => 5,
        BusKind::Network => 6,
    }
}

impl BusKind {
    /// Octet of the bus kind.
    pub fn code(self) -> (r: u8)
        ensures
            r == bus_kind_code(self),
    {
        match self {
            BusKind::Software => 0,
            BusKind::Ring3Process => 1,
            BusKind::Usb => 2,
            BusKind::Spi => 3,
            BusKind::Serial => 4,
            BusKind::SmartCard => 5,
            BusKind::Network => 6,
        }
    }
}

/// Bus failures (collapsed at the syscall boundary).
#[derive(Clone, Copy, Debug, PartialEq, Eq, Structural)]
pub enum BusError {
    NotImplemented,
    NotOpen,
    AlreadyOpen,
    WireNotReady,
    BadInit,
    BufferTooSmall,
    Closed,
    Internal,
}

/// Result of `poll`.
#[derive(Clone, Copy, Debug, PartialEq, Eq, Structural)]
pub struct BusReady {
    pub readable: bool,
    pub writable: bool,
    pub closed: bool,
}

/// Mode of a software bus.
#[derive(Clone, Copy, Debug, PartialEq, Eq, Structural)]
pub enum SoftHsmRole {
    Echo,
    Blake3,
    AesGcm,
}

/// Length of a BLAKE3 digest.
pub const BLAKE3_OUT_LEN: usize = 32;
/// AES-GCM nonce length.
pub const GCM_NONCE_SIZE: usize = 12;
/// AES-GCM tag length.
pub const GCM_TAG_SIZE: usize = 16;

/// Role selected by an init blob: empty means Echo, otherwise the first octet.
pub open spec fn role_of_init(init: Seq<u8>) -> Option<SoftHsmRole> {
    if init.len() == 0 {
        Some(SoftHsmRole::Echo)
    } else if init[0] == 0 {
        Some(SoftHsmRole::Echo)
    } else if init[0] == 1 {
        Some(SoftHsmRole::Blake3)
    } else if init[0] == 2 {
        Some(SoftHsmRole::AesGcm)
    } else {
        None
    }
}

/// Every octet of `s` from `from` on is zero.
pub open spec fn zero_from(s: Seq<u8>, from: int) -> bool {
    forall|i: int| from <= i < s.len() ==> #[trigger] s[i] == 0
}

fn check_zero_from(s: &[u8], from: usize) -> (r: bool)
    ensures
        r == zero_from(s@, from as int),
{
    let mut i = from;
    while i < s.len()
        invariant
            from <= i,
            forall|j: int| from <= j < i && j < s@.len() ==> #[trigger] s@[j] == 0,
        decreases s@.len() - i,
    {
        if s[i] != 0 {
            return false;
        }
        i = i + 1;
    }
    true
}

/// Secret state of the AES-GCM role: the key and the last nonce counter used.
#[derive(Clone, Copy)]
pub struct SoftHsmAesGcmState {
    pub key: [u8; 32],
    pub nonce_counter: u64,
}

impl SoftHsmAesGcmState {
    /// Erases the key and resets the counter.
    pub fn zeroize(&mut self)
        ensures
            forall|i: int| 0 <= i < 32 ==> final(self).key@[i] == 0,
            final(self).nonce_counter == 0,
    {
        crate::health::secure_zero(&mut self.key);
        self.nonce_counter = 0;
    }
}

/// The 12-octet nonce for counter value `c`: little-endian counter, then zeros.
pub open spec fn gcm_nonce(c: u64) -> Seq<u8> {
    seq![
        (c % 256) as u8, ((c / 0x100) % 256) as u8, ((c / 0x10000) % 256) as u8,
        ((c / 0x1000000) % 256) as u8, ((c / 0x100000000) % 256) as u8,
        ((c / 0x10000000000) % 256) as u8, ((c / 0x1000000000000) % 256) as u8,
        ((c / 0x100000000000000) % 256) as u8, 0u8, 0u8, 0u8, 0u8
    ]
}

/// Builds the nonce for counter value `c`.
pub fn gcm_nonce_bytes(c: u64) -> (r: [u8; 12])
    ensures
        r@ == gcm_nonce(c),
{
    let mut n = [0u8; 12];
    n[0] = (c % 256) as u8;
    n[1] = ((c / 0x100) % 256) as u8;
    n[2] = ((c / 0x10000) % 256) as u8;
    n[3] = ((c / 0x1000000) % 256) as u8;
    n[4] = ((c / 0x100000000) % 256) as u8;
    n[5] = ((c / 0x10000000000) % 256) as u8;
    n[6] = ((c / 0x1000000000000) % 256) as u8;
    n[7] = ((c / 0x100000000000000) % 256) as u8;
    assert(n@ =~= gcm_nonce(c));
    n
}

/// 64-byte loopback bus in one of three roles. The Echo role appends what is
/// written; the BLAKE3 role keeps the digest of the last write; the AES-GCM
/// role keeps nonce || ciphertext || tag of the last write.
pub struct SoftwareBus {
    ring: [u8; SW_BUS_BUF],
    write_len: usize,
    read_pos: usize,
    open_state: bool,
    role: SoftHsmRole,
    aes_state: Option<SoftHsmAesGcmState>,
}

impl SoftwareBus {
    pub closed spec fn ring_spec(&self) -> Seq<u8> {
        self.ring@
    }

    pub closed spec fn write_len_spec(&self) -> nat {
        self.write_len as nat
    }

    pub closed spec fn read_pos_spec(&self) -> nat {
        self.read_pos as nat
    }

    pub closed spec fn is_open(&self) -> bool {
        self.open_state
    }

    pub closed spec fn role_spec(&self) -> SoftHsmRole {
        self.role
    }

    pub closed spec fn aes_spec(&self) -> Option<SoftHsmAesGcmState> {
        self.aes_state
    }

    pub closed spec fn wf(&self) -> bool {
        &&& self.read_pos <= self.write_len
        &&& self.write_len <= SW_BUS_BUF
    }

    /// A well-formed bus has a `SW_BUS_BUF`-octet ring whose unread part lies
    /// between the read position and the write length.
    pub proof fn lemma_wf_bounds(&self)
        requires
            self.wf(),
        ensures
            self.ring_spec().len() == SW_BUS_BUF,
            self.read_pos_spec() <= self.write_len_spec() <= SW_BUS_BUF,
    {
    }

    /// Closed Echo bus with an empty ring.
    pub fn new() -> (r: Self)
        ensures
            r.wf(),
            !r.is_open(),
            r.role_spec() == SoftHsmRole::Echo,
            r.aes_spec() is None,
            r.write_len_spec() == 0,
            r.read_pos_spec() == 0,
            forall|i: int| 0 <= i < SW_BUS_BUF ==> r.ring_spec()[i] == 0,
    {
        SoftwareBus {
            ring: [0u8; SW_BUS_BUF],
            write_len: 0,
            read_pos: 0,
            open_state: false,
            role: SoftHsmRole::Echo,
            aes_state: None,
        }
    }

    /// Opens the bus in the role that `init` selects (trailing octets must be
    /// zero). The AES-GCM role takes `fresh_key`, fresh random bytes drawn by the
    /// caller; `None` there means the random source failed.
    pub fn open(&mut self, init: &[u8], fresh_key: Option<[u8; 32]>) -> (r: Result<(), BusError>)
        requires
            old(self).wf(),
        ensures
            final(self).wf(),
            sw_open_spec(*old(self), *final(self), init@, fresh_key, r),
    {
        if self.open_state {
            return Err(BusError::AlreadyOpen);
        }
        let role = if init.len() == 0 {
            SoftHsmRole::Echo
        } else if init[0] == 0 {
            SoftHsmRole::Echo
        } else if init[0] == 1 {
            SoftHsmRole::Blake3
        } else if init[0] == 2 {
            SoftHsmRole::AesGcm
        } else {
            return Err(BusError::BadInit);
        };
        if !check_zero_from(init, 1) {
            return Err(BusError::BadInit);
        }
        if role == SoftHsmRole::AesGcm {
            match fresh_key {
                Some(k) => {
                    self.aes_state = Some(SoftHsmAesGcmState { key: k, nonce_counter: 0 });
                },
                None => return Err(BusError::Internal),
            }
        } else {
            self.aes_state = None;
        }
        self.role = role;
        self.ring = [0u8; SW_BUS_BUF];
        self.write_len = 0;
        self.read_pos = 0;
        self.open_state = true;
        Ok(())
    }

    /// Closes the bus and clears the ring; `NotOpen` when it is not open.
    pub fn close(&mut self) -> (r: Result<(), BusError>)
        requires
            old(self).wf(),
        ensures
            final(self).wf(),
            sw_close_spec(*old(self), *final(self), r),
    {
        if !self.open_state {
            return Err(BusError::NotOpen);
        }
        self.ring = [0u8; SW_BUS_BUF];
        self.write_len = 0;
        self.read_pos = 0;
        self.open_state = false;
        Ok(())
    }

    /// Copies the unread bytes, as many as fit in `out`, and consumes them.
    pub fn read(&mut self, out: &mut [u8]) -> (r: Result<usize, BusError>)
        requires
            old(self).wf(),
        ensures
            final(self).wf(),
            sw_read_spec(*old(self), *final(self), old(out)@, final(out)@, r),
    {
        if !self.open_state {
            return Err(BusError::NotOpen);
        }
        let available = self.write_len - self.read_pos;
        let n = if available <= out.len() { available } else { out.len() };
        let mut i: usize = 0;
        while i < n
            invariant
                i <= n,
                n <= out@.len(),
                self.read_pos + n <= self.write_len,
                self.write_len <= SW_BUS_BUF,
                out@.len() == old(out)@.len(),
                forall|j: int| 0 <= j < i ==> #[trigger] out@[j] == self.ring@[self.read_pos + j],
                forall|j: int| i <= j < out@.len() ==> #[trigger] out@[j] == old(out)@[j],
            decreases n - i,
        {
            out[i] = self.ring[self.read_pos + i];
            i = i + 1;
        }
        self.read_pos = self.read_pos + n;
        Ok(n)
    }

    /// Nonce the next AES-GCM write will use (counter + 1, wrapping).
    pub fn aes_next_nonce(&self) -> (r: Option<[u8; 12]>)
        ensures
            self.aes_spec() is None ==> r is None,
            self.aes_spec() matches Some(st) ==> r matches Some(n) && n@ == gcm_nonce(
                if st.nonce_counter == u64::MAX { 0 } else { (st.nonce_counter + 1) as u64 }),
    {
        match &self.aes_state {
            Some(st) => Some(gcm_nonce_bytes(st.nonce_counter.wrapping_add(1))),
            None => None,
        }
    }

    /// Key and next nonce of the AES-GCM role, which the caller's primitive
    /// seals under; `None` for the other roles.
    pub fn aes_material(&self) -> (r: Option<([u8; 32], [u8; 12])>)
        ensures
            self.aes_spec() is None ==> r is None,
            self.aes_spec() matches Some(st) ==> r matches Some((k, n)) && k == st.key && n@ == gcm_nonce(
                if st.nonce_counter == u64::MAX { 0 } else { (st.nonce_counter + 1) as u64 }),
    {
        match &self.aes_state {
            Some(st) => Some((st.key, gcm_nonce_bytes(st.nonce_counter.wrapping_add(1)))),
            None => None,
        }
    }

    /// Writes `data`. The Echo role appends it to the ring (refusing what does not
    /// fit). The other roles store what their primitive produced from `data`,
    /// handed in as `primitive_out`: the 32-octet BLAKE3 digest, or for AES-GCM the
    /// ciphertext followed by the 16-octet tag under the nonce `aes_next_nonce`
    /// (any other length counts as a failed primitive).
    pub fn write(&mut self, data: &[u8], primitive_out: &[u8]) -> (r: Result<usize, BusError>)
        requires
            old(self).wf(),
        ensures
            final(self).wf(),
            sw_write_spec(*old(self), *final(self), data@, primitive_out@, r),
    {
        if !self.open_state {
            return Err(BusError::NotOpen);
        }
        match self.role {
            SoftHsmRole::Echo => {
                if data.len() > SW_BUS_BUF - self.write_len {
                    return Err(BusError::BufferTooSmall);
                }
                let at = self.write_len;
                copy_ring(&mut self.ring, at, data);
                proof {
                    assert(self.ring@ =~= old(self).ring@.subrange(0, at as int) + data@
                        + old(self).ring@.subrange(at + data@.len(), SW_BUS_BUF as int));
                }
                self.write_len = self.write_len + data.len();
                Ok(data.len())
            },
            SoftHsmRole::Blake3 => {
                if primitive_out.len() != BLAKE3_OUT_LEN {
                    return Err(BusError::Internal);
                }
                copy_ring(&mut self.ring, 0, primitive_out);
                proof {
                    assert(self.ring@.subrange(0, BLAKE3_OUT_LEN as int) =~= primitive_out@);
                    assert(self.ring@.subrange(BLAKE3_OUT_LEN as int, SW_BUS_BUF as int)
                        =~= old(self).ring@.subrange(BLAKE3_OUT_LEN as int, SW_BUS_BUF as int));
                }
                self.write_len = BLAKE3_OUT_LEN;
                self.read_pos = 0;
                Ok(BLAKE3_OUT_LEN)
            },
            SoftHsmRole::AesGcm => {
                let (key, counter) = match &self.aes_state {
                    Some(st) => (st.key, st.nonce_counter),
                    None => return Err(BusError::Internal),
                };
                if counter == u64::MAX {
                    return Err(BusError::Internal);
                }
                if data.len() > SW_BUS_BUF - GCM_NONCE_SIZE - GCM_TAG_SIZE {
                    return Err(BusError::BufferTooSmall);
                }
                let total = data.len() + GCM_NONCE_SIZE + GCM_TAG_SIZE;
                let next = counter + 1;
                self.aes_state = Some(SoftHsmAesGcmState { key, nonce_counter: next });
                if primitive_out.len() != data.len() + GCM_TAG_SIZE {
                    return Err(BusError::BufferTooSmall);
                }
                let nonce = gcm_nonce_bytes(next);
                copy_ring(&mut self.ring, 0, &nonce);
                copy_ring(&mut self.ring, GCM_NONCE_SIZE, primitive_out);
                proof {
                    assert(self.ring@.subrange(0, total as int) =~= gcm_nonce(next) + primitive_out@);
                }
                self.write_len = total;
                self.read_pos = 0;
                Ok(total)
            },
        }
    }

    /// The bus's role.
    pub fn role(&self) -> (r: SoftHsmRole)
        ensures
            r == self.role_spec(),
    {
        self.role
    }

    /// Readiness: readable while unread bytes remain, writable while the ring
    /// has room; `NotOpen` when closed.
    pub fn poll(&self) -> (r: Result<BusReady, BusError>)
        requires
            self.wf(),
        ensures
            !self.is_open() ==> r == Err::<BusReady, BusError>(BusError::NotOpen),
            self.is_open() ==> r == Ok::<BusReady, BusError>(BusReady {
                readable: self.write_len_spec() > self.read_pos_spec(),
                writable: self.write_len_spec() < SW_BUS_BUF,
                closed: false,
            }),
    {
        if !self.open_state {
            return Err(BusError::NotOpen);
        }
        Ok(BusReady { readable: self.write_len > self.read_pos, writable: self.write_len < SW_BUS_BUF, closed: false })
    }

    /// Always `Software`.
    pub fn kind(&self) -> (r: BusKind)
        ensures
            r == BusKind::Software,
    {
        BusKind::Software
    }

    /// Erases the key, resets the role to Echo, clears the ring and closes.
    pub fn zeroize(&mut self)
        ensures
            final(self).wf(),
            !final(self).is_open(),
            final(self).aes_spec() is None,
            final(self).role_spec() == SoftHsmRole::Echo,
            final(self).write_len_spec() == 0,
            final(self).read_pos_spec() == 0,
            forall|i: int| 0 <= i < SW_BUS_BUF ==> final(self).ring_spec()[i] == 0,
    {
        if let Some(st) = &mut self.aes_state {
            st.zeroize();
        }
        self.aes_state = None;
        self.role = SoftHsmRole::Echo;
        crate::health::secure_zero(&mut self.ring);
        self.write_len = 0;
        self.read_pos = 0;
        self.open_state = false;
    }
}

/// Outcome of `open`.
pub open spec fn sw_open_spec(o: SoftwareBus, f: SoftwareBus, init: Seq<u8>, fresh_key: Option<[u8; 32]>, r: Result<(), BusError>) -> bool {
    &&& (o.is_open() ==> r == Err::<(), BusError>(BusError::AlreadyOpen) && f == o)
    &&& (!o.is_open() && (role_of_init(init) is None || !zero_from(init, 1)) ==>
                    r == Err::<(), BusError>(BusError::BadInit) && f == o)
    &&& (!o.is_open() && role_of_init(init) == Some(SoftHsmRole::AesGcm) && zero_from(init, 1)
                    && fresh_key is None ==> r == Err::<(), BusError>(BusError::Internal) && f == o)
    &&& (!o.is_open() && zero_from(init, 1) ==> (role_of_init(init) matches Some(role) ==> (
                    (role != SoftHsmRole::AesGcm || fresh_key is Some) ==> {
                    &&& r == Ok::<(), BusError>(())
                    &&& f.is_open()
                    &&& f.role_spec() == role
                    &&& f.write_len_spec() == 0
                    &&& f.read_pos_spec() == 0
                    &&& forall|i: int| 0 <= i < SW_BUS_BUF ==> f.ring_spec()[i] == 0
                    &&& role == SoftHsmRole::AesGcm ==> f.aes_spec() == Some(SoftHsmAesGcmState {
                            key: fresh_key->Some_0, nonce_counter: 0 })
                    &&& role != SoftHsmRole::AesGcm ==> f.aes_spec() is None
    })))
}

/// Outcome of `close`.
pub open spec fn sw_close_spec(o: SoftwareBus, f: SoftwareBus, r: Result<(), BusError>) -> bool {
    &&& (!o.is_open() ==> r == Err::<(), BusError>(BusError::NotOpen) && f == o)
    &&& (o.is_open() ==> {
                    &&& r == Ok::<(), BusError>(())
                    &&& !f.is_open()
                    &&& f.write_len_spec() == 0
                    &&& f.read_pos_spec() == 0
                    &&& forall|i: int| 0 <= i < SW_BUS_BUF ==> f.ring_spec()[i] == 0
                    &&& f.role_spec() == o.role_spec()
                    &&& f.aes_spec() == o.aes_spec()
    })
}

/// Outcome of `read`.
pub open spec fn sw_read_spec(o: SoftwareBus, f: SoftwareBus, oo: Seq<u8>, fo: Seq<u8>, r: Result<usize, BusError>) -> bool {
    &&& (!o.is_open() ==> r == Err::<usize, BusError>(BusError::NotOpen) && f == o
                    && fo == oo)
    &&& (o.is_open() ==> {
                    let avail = o.write_len_spec() - o.read_pos_spec();
                    let n = if avail <= oo.len() { avail } else { oo.len() as int };
                    &&& r == Ok::<usize, BusError>(n as usize)
                    &&& fo.len() == oo.len()
                    &&& forall|i: int| 0 <= i < n ==> #[trigger] fo[i] == o.ring_spec()[o.read_pos_spec() + i]
                    &&& forall|i: int| n <= i < oo.len() ==> #[trigger] fo[i] == oo[i]
                    &&& f.read_pos_spec() == o.read_pos_spec() + n
                    &&& f.write_len_spec() == o.write_len_spec()
                    &&& f.ring_spec() == o.ring_spec()
                    &&& f.is_open() && f.role_spec() == o.role_spec()
                    &&& f.aes_spec() == o.aes_spec()
    })
}

/// Outcome of `write`.
pub open spec fn sw_write_spec(o: SoftwareBus, f: SoftwareBus, data: Seq<u8>, primitive_out: Seq<u8>, r: Result<usize, BusError>) -> bool {
    &&& (f.is_open() == o.is_open())
    &&& (f.role_spec() == o.role_spec())
    &&& (!o.is_open() ==> r == Err::<usize, BusError>(BusError::NotOpen) && f == o)
    &&& (o.is_open() && o.role_spec() == SoftHsmRole::Echo ==> {
                    let wl = o.write_len_spec();
                    &&& data.len() > SW_BUS_BUF - wl ==> r == Err::<usize, BusError>(BusError::BufferTooSmall)
                        && f == o
                    &&& data.len() <= SW_BUS_BUF - wl ==> {
                        &&& r == Ok::<usize, BusError>(data.len() as usize)
                        &&& f.write_len_spec() == wl + data.len()
                        &&& f.read_pos_spec() == o.read_pos_spec()
                        &&& f.ring_spec() == o.ring_spec().subrange(0, wl as int) + data
                            + o.ring_spec().subrange(wl + data.len() as int, SW_BUS_BUF as int)
                        &&& f.aes_spec() == o.aes_spec()
                    }
    })
    &&& (o.is_open() && o.role_spec() == SoftHsmRole::Blake3 ==> {
                    &&& primitive_out.len() != BLAKE3_OUT_LEN ==> r == Err::<usize, BusError>(BusError::Internal)
                        && f == o
                    &&& primitive_out.len() == BLAKE3_OUT_LEN ==> {
                        &&& r == Ok::<usize, BusError>(BLAKE3_OUT_LEN)
                        &&& f.write_len_spec() == BLAKE3_OUT_LEN
                        &&& f.read_pos_spec() == 0
                        &&& f.ring_spec().subrange(0, BLAKE3_OUT_LEN as int) == primitive_out
                        &&& f.ring_spec().subrange(BLAKE3_OUT_LEN as int, SW_BUS_BUF as int)
                            == o.ring_spec().subrange(BLAKE3_OUT_LEN as int, SW_BUS_BUF as int)
                        &&& f.aes_spec() == o.aes_spec()
                    }
    })
    &&& (o.is_open() && o.role_spec() == SoftHsmRole::AesGcm ==> {
                    let total = data.len() + GCM_NONCE_SIZE + GCM_TAG_SIZE;
                    &&& o.aes_spec() is None ==> r == Err::<usize, BusError>(BusError::Internal)
                        && f == o
                    &&& o.aes_spec() matches Some(st) ==> {
                        &&& st.nonce_counter == u64::MAX ==> r == Err::<usize, BusError>(BusError::Internal)
                            && f == o
                        &&& st.nonce_counter < u64::MAX && total > SW_BUS_BUF ==>
                            r == Err::<usize, BusError>(BusError::BufferTooSmall) && f == o
                        &&& st.nonce_counter < u64::MAX && total <= SW_BUS_BUF ==> {
                            &&& f.aes_spec() == Some(SoftHsmAesGcmState { key: st.key,
                                    nonce_counter: (st.nonce_counter + 1) as u64 })
                            &&& primitive_out.len() != data.len() + GCM_TAG_SIZE ==>
                                r == Err::<usize, BusError>(BusError::BufferTooSmall)
                                && f.ring_spec() == o.ring_spec()
                                && f.write_len_spec() == o.write_len_spec()
                                && f.read_pos_spec() == o.read_pos_spec()
                            &&& primitive_out.len() == data.len() + GCM_TAG_SIZE ==> {
                                &&& r == Ok::<usize, BusError>(total as usize)
                                &&& f.write_len_spec() == total
                                &&& f.read_pos_spec() == 0
                                &&& f.ring_spec().subrange(0, total) ==
                                    gcm_nonce((st.nonce_counter + 1) as u64) + primitive_out
                            }
                        }
                    }
    })
}

/// Outcome of `open`.
pub open spec fn r3_open_spec(o: Ring3ProcessBus, f: Ring3ProcessBus, init: Seq<u8>, endpoints: IpcRegistry, r: Result<(), BusError>) -> bool {
    &&& (o.is_open() ==> r == Err::<(), BusError>(BusError::AlreadyOpen) && f == o)
    &&& (!o.is_open() ==> {
                    let id = EndpointId((init[0] + 256 * init[1]) as u16);
                    let ok = init.len() >= 2 && zero_from(init, 2) && id.0 != ENDPOINT_INVALID
                        && exists|j: int| 0 <= j < endpoints.slots().len() && ep_matches(endpoints.slots()[j], id);
                    &&& !ok ==> r == Err::<(), BusError>(BusError::BadInit) && f == o
                    &&& ok ==> r == Ok::<(), BusError>(()) && f.is_open() && f.endpoint_spec() == id
                        && f.response_len_spec() == o.response_len_spec()
                        && f.response_buf() == o.response_buf()
    })
}

/// Outcome of `close`.
pub open spec fn r3_close_spec(o: Ring3ProcessBus, f: Ring3ProcessBus, r: Result<(), BusError>) -> bool {
    &&& (!o.is_open() ==> r == Err::<(), BusError>(BusError::NotOpen) && f == o)
    &&& (o.is_open() ==> r == Ok::<(), BusError>(()) && !f.is_open()
                    && f.endpoint_spec() == EndpointId(ENDPOINT_INVALID)
                    && f.response_len_spec() == o.response_len_spec()
                    && f.response_buf() == o.response_buf())
}

/// Outcome of `read`.
pub open spec fn r3_read_spec(o: Ring3ProcessBus, f: Ring3ProcessBus, oo: Seq<u8>, fo: Seq<u8>, r: Result<usize, BusError>) -> bool {
    &&& (f.is_open() == o.is_open())
    &&& (f.endpoint_spec() == o.endpoint_spec())
    &&& (!o.is_open() ==> r == Err::<usize, BusError>(BusError::NotOpen) && f == o
                    && fo == oo)
    &&& (o.is_open() && o.response_len_spec() == 0 ==>
                    r == Err::<usize, BusError>(BusError::WireNotReady) && f == o && fo == oo)
    &&& (o.is_open() && o.response_len_spec() != 0 && oo.len() < o.response_len_spec() ==>
                    r == Err::<usize, BusError>(BusError::Internal) && f == o && fo == oo)
    &&& (o.is_open() && o.response_len_spec() != 0 && oo.len() >= o.response_len_spec() ==> {
                    let n = o.response_len_spec() as int;
                    &&& r == Ok::<usize, BusError>(n as usize)
                    &&& fo.len() == oo.len()
                    &&& fo.subrange(0, n) == o.pending()
                    &&& fo.subrange(n, oo.len() as int) == oo.subrange(n, oo.len() as int)
                    &&& f.response_len_spec() == 0
                    &&& forall|i: int| 0 <= i < WIRE_FRAME_MAX ==> f.response_buf()[i] == 0
    })
}

/// Outcome of `write`.
pub open spec fn r3_write_spec(o: Ring3ProcessBus, f: Ring3ProcessBus, data: Seq<u8>, audit: AuditRing, r: Result<(usize, WireAction), BusError>) -> bool {
    &&& (f.is_open() == o.is_open())
    &&& (f.endpoint_spec() == o.endpoint_spec())
    &&& (!o.is_open() ==> r == Err::<(usize, WireAction), BusError>(BusError::NotOpen) && f == o)
    &&& (o.is_open() && (data.len() < 16 || data.len() > WIRE_FRAME_MAX || o.response_len_spec() != 0
                    || !request_ok(header_of(data.subrange(0, 16)), data.len() as int)) ==>
                    r == Err::<(usize, WireAction), BusError>(BusError::Internal) && f == o)
    &&& (o.is_open() && 16 <= data.len() <= WIRE_FRAME_MAX && o.response_len_spec() == 0
                    && request_ok(header_of(data.subrange(0, 16)), data.len() as int) ==> {
                    let h = header_of(data.subrange(0, 16));
                    let payload = data.subrange(16, 16 + h.payload_len);
                    &&& h.cmd == cmd_code_spec(WireCmd::Ping) ==> r == Ok::<(usize, WireAction), BusError>((data.len() as usize, WireAction::Answered))
                        && f.pending() == header_bytes(response_header(h.req_id, WireCmd::Ping, WireStatus::Success, 0))
                    &&& h.cmd == cmd_code_spec(WireCmd::Status) ==> r == Ok::<(usize, WireAction), BusError>((data.len() as usize, WireAction::Answered))
                        && (h.payload_len != 0 ==> f.pending() == header_bytes(error_header(h.req_id, WireStatus::BadFrame)))
                        && (h.payload_len == 0 ==> {
                            let n = min3(audit.total_spec() as int, AUDIT_RING_CAPACITY as int, AUDIT_RING_CAPACITY as int);
                            &&& f.response_len_spec() == 24 + 12 * n
                            &&& f.pending().subrange(0, 16) == header_bytes(
                                response_header(h.req_id, WireCmd::Status, WireStatus::Success, 8 + 12 * n))
                            &&& f.pending().subrange(16, 24 + 12 * n) == status_header_bytes(n, audit.total_spec())
                                + events_bytes(snapshot_events(audit))
                        })
                    &&& h.cmd == cmd_code_spec(WireCmd::Blake3Hash) ==> r == Ok::<(usize, WireAction), BusError>((data.len() as usize, WireAction::Blake3Hash { req_id: h.req_id, payload_len: h.payload_len }))
                        && f == o
                    &&& h.cmd == cmd_code_spec(WireCmd::AttestSubmit) ==> {
                        &&& (h.payload_len != WIRE_ATTEST_LEN || payload[MLDSA44_PK_LEN as int] > 1) ==>
                            r == Ok::<(usize, WireAction), BusError>((data.len() as usize, WireAction::Answered))
                            && f.pending() == header_bytes(error_header(h.req_id, WireStatus::BadFrame))
                        &&& (h.payload_len == WIRE_ATTEST_LEN && payload[MLDSA44_PK_LEN as int] <= 1) ==>
                            r == Ok::<(usize, WireAction), BusError>((data.len() as usize, WireAction::AttestSubmit {
                                req_id: h.req_id, bus_octet: payload[MLDSA44_PK_LEN as int] }))
                            && f == o
                    }
                    &&& (h.cmd != cmd_code_spec(WireCmd::Ping) && h.cmd != cmd_code_spec(WireCmd::Status)
                        && h.cmd != cmd_code_spec(WireCmd::Blake3Hash) && h.cmd != cmd_code_spec(WireCmd::AttestSubmit)) ==>
                        r == Ok::<(usize, WireAction), BusError>((data.len() as usize, WireAction::Answered))
                        && f.pending() == header_bytes(error_header(h.req_id, WireStatus::UnknownCmd))
    })
}

fn copy_ring(ring: &mut [u8; SW_BUS_BUF], at: usize, src: &[u8])
    requires
        at + src@.len() <= SW_BUS_BUF,
    ensures
        forall|j: int| 0 <= j < at ==> #[trigger] final(ring)@[j] == old(ring)@[j],
        forall|j: int| at <= j < at + src@.len() ==> #[trigger] final(ring)@[j] == src@[j - at],
        forall|j: int| at + src@.len() <= j < SW_BUS_BUF ==> #[trigger] final(ring)@[j] == old(ring)@[j],
{
    let mut i: usize = 0;
    while i < src.len()
        invariant
            i <= src@.len(),
            at + src@.len() <= SW_BUS_BUF,
            forall|j: int| 0 <= j < at ==> #[trigger] ring@[j] == old(ring)@[j],
            forall|j: int| at <= j < at + i ==> #[trigger] ring@[j] == src@[j - at],
            forall|j: int| at + i <= j < SW_BUS_BUF ==> #[trigger] ring@[j] == old(ring)@[j],
        decreases src@.len() - i,
    {
        ring[at + i] = src[i];
        i = i + 1;
    }
}

/// What a Ring 3 bus write leaves to its caller. `Answered`: the response is
/// pending. `Blake3Hash`: the request's payload (at offset 16, `payload_len`
/// octets) must be hashed by the HSM slot its leading capability names, then
/// `finish_blake3` stores the answer. `AttestSubmit`: the ML-DSA attestation in
/// the payload must be verified, then `finish_attest` records and answers it.
#[derive(Clone, Copy, Debug, PartialEq, Eq, Structural)]
pub enum WireAction {
    Answered,
    Blake3Hash { req_id: u32, payload_len: u16 },
    AttestSubmit { req_id: u32, bus_octet: u8 },
}

/// The four frame checks a request must pass: magic, version, declared length
/// within the data and the payload limit, and a request (not response or error) command.
pub open spec fn request_ok(h: WireFrameHeader, len: int) -> bool {
    &&& h.magic@ == wire_magic()
    &&& h.version == WIRE_VERSION
    &&& h.payload_len + 16 <= len
    &&& h.payload_len <= WIRE_PAYLOAD_MAX
    &&& h.cmd & WIRE_CMD_RESPONSE_BIT == 0
    &&& h.cmd != 0xFFFF
}

/// Bus bound to a Ring 3 endpoint that speaks the wire protocol with a single
/// response in flight.
pub struct Ring3ProcessBus {
    endpoint: EndpointId,
    open_state: bool,
    pending_response: [u8; WIRE_FRAME_MAX],
    response_len: u16,
}

impl Ring3ProcessBus {
    pub closed spec fn endpoint_spec(&self) -> EndpointId {
        self.endpoint
    }

    pub closed spec fn is_open(&self) -> bool {
        self.open_state
    }

    /// Length of the pending response (0 = none).
    pub closed spec fn response_len_spec(&self) -> nat {
        self.response_len as nat
    }

    /// The response buffer.
    pub closed spec fn response_buf(&self) -> Seq<u8> {
        self.pending_response@
    }

    /// The pending response.
    pub open spec fn pending(&self) -> Seq<u8> {
        self.response_buf().subrange(0, self.response_len_spec() as int)
    }

    pub closed spec fn wf(&self) -> bool {
        self.response_len as usize <= WIRE_FRAME_MAX
    }

    /// Closed bus with no endpoint and no response.
    pub fn new() -> (r: Self)
        ensures
            r.wf(),
            !r.is_open(),
            r.endpoint_spec() == EndpointId(ENDPOINT_INVALID),
            r.response_len_spec() == 0,
            forall|i: int| 0 <= i < WIRE_FRAME_MAX ==> r.response_buf()[i] == 0,
    {
        Ring3ProcessBus {
            endpoint: EndpointId(ENDPOINT_INVALID),
            open_state: false,
            pending_response: [0u8; WIRE_FRAME_MAX],
            response_len: 0,
        }
    }

    /// Binds the bus to the endpoint named by the first two octets of `init`
    /// (little-endian; the rest must be zero). The endpoint must be valid and
    /// registered in `endpoints`.
    pub fn open(&mut self, init: &[u8], endpoints: &IpcRegistry) -> (r: Result<(), BusError>)
        requires
            old(self).wf(),
            endpoints.wf(),
        ensures
            final(self).wf(),
            r3_open_spec(*old(self), *final(self), init@, *endpoints, r),
    {
        if self.open_state {
            return Err(BusError::AlreadyOpen);
        }
        if init.len() < 2 {
            return Err(BusError::BadInit);
        }
        let id_raw: u16 = init[0] as u16 + (init[1] as u16) * 256;
        let endpoint = EndpointId(id_raw);
        if !check_zero_from(init, 2) {
            return Err(BusError::BadInit);
        }
        if endpoint.0 == ENDPOINT_INVALID {
            return Err(BusError::BadInit);
        }
        if !endpoint_exists(endpoints, endpoint) {
            return Err(BusError::BadInit);
        }
        self.endpoint = endpoint;
        self.open_state = true;
        Ok(())
    }

    /// Unbinds the bus; `NotOpen` when it is not open.
    pub fn close(&mut self) -> (r: Result<(), BusError>)
        requires
            old(self).wf(),
        ensures
            final(self).wf(),
            r3_close_spec(*old(self), *final(self), r),
    {
        if !self.open_state {
            return Err(BusError::NotOpen);
        }
        self.endpoint = EndpointId(ENDPOINT_INVALID);
        self.open_state = false;
        Ok(())
    }

    /// Hands out the pending response and clears it. `WireNotReady` when there is
    /// none; `Internal` when `out` is too small (nothing changes then).
    pub fn read(&mut self, out: &mut [u8]) -> (r: Result<usize, BusError>)
        requires
            old(self).wf(),
        ensures
            final(self).wf(),
            r3_read_spec(*old(self), *final(self), old(out)@, final(out)@, r),
    {
        if !self.open_state {
            return Err(BusError::NotOpen);
        }
        if self.response_len == 0 {
            return Err(BusError::WireNotReady);
        }
        let n = self.response_len as usize;
        if out.len() < n {
            return Err(BusError::Internal);
        }
        let mut i: usize = 0;
        while i < n
            invariant
                i <= n,
                n <= out@.len(),
                n <= WIRE_FRAME_MAX,
                out@.len() == old(out)@.len(),
                forall|j: int| 0 <= j < i ==> #[trigger] out@[j] == self.pending_response@[j],
                forall|j: int| i <= j < out@.len() ==> #[trigger] out@[j] == old(out)@[j],
            decreases n - i,
        {
            out[i] = self.pending_response[i];
            i = i + 1;
        }
        proof {
            assert(out@.subrange(0, n as int) =~= old(self).pending());
            assert(out@.subrange(n as int, out@.len() as int) =~= old(out)@.subrange(n as int, out@.len() as int));
        }
        self.pending_response = [0u8; WIRE_FRAME_MAX];
        self.response_len = 0;
        Ok(n)
    }

    /// Checks and dispatches one request frame. Frames that fail the size limits
    /// or the four header checks, and any frame while a response is still
    /// pending, are refused with `Internal` and change nothing. Ping, Status and
    /// unknown commands are answered at once; Blake3Hash and AttestSubmit are
    /// answered here when malformed and otherwise handed back as a `WireAction`.
    #[verifier::rlimit(40)]
    pub fn write(&mut self, data: &[u8], audit: &AuditRing) -> (r: Result<(usize, WireAction), BusError>)
        requires
            old(self).wf(),
            audit.wf(),
        ensures
            final(self).wf(),
            r3_write_spec(*old(self), *final(self), data@, *audit, r),
    {
        if !self.open_state {
            return Err(BusError::NotOpen);
        }
        if data.len() < 16 || data.len() > WIRE_FRAME_MAX {
            return Err(BusError::Internal);
        }
        if self.response_len != 0 {
            return Err(BusError::Internal);
        }
        let mut hdr_bytes = [0u8; 16];
        let mut k: usize = 0;
        while k < 16
            invariant
                k <= 16,
                16 <= data@.len(),
                forall|j: int| 0 <= j < k ==> #[trigger] hdr_bytes@[j] == data@[j],
            decreases 16 - k,
        {
            hdr_bytes[k] = data[k];
            k = k + 1;
        }
        assert(hdr_bytes@ =~= data@.subrange(0, 16));
        let hdr = parse_header(&hdr_bytes);
        let magic_ok = hdr.magic[0] == 0x4C && hdr.magic[1] == 0x57 && hdr.magic[2] == 0x4B && hdr.magic[3] == 0x30;
        let version_ok = hdr.version == WIRE_VERSION;
        let len_ok = (hdr.payload_len as usize) + 16 <= data.len() && (hdr.payload_len as usize) <= WIRE_PAYLOAD_MAX;
        let cmd_is_request = (hdr.cmd & WIRE_CMD_RESPONSE_BIT) == 0 && hdr.cmd != 0xFFFF;
        proof {
            assert(magic_ok <==> hdr.magic@ =~= wire_magic());
        }
        if !(magic_ok && version_ok && len_ok && cmd_is_request) {
            return Err(BusError::Internal);
        }
        let plen = hdr.payload_len as usize;
        let payload = &data[16..16 + plen];
        let n: usize;
        if hdr.cmd == 0x0001 {
            n = handle_ping(hdr.req_id, &mut self.pending_response);
        } else if hdr.cmd == 0x0080 {
            n = handle_status(hdr.req_id, payload, audit, &mut self.pending_response);
        } else if hdr.cmd == 0x0010 {
            return Ok((data.len(), WireAction::Blake3Hash { req_id: hdr.req_id, payload_len: hdr.payload_len }));
        } else if hdr.cmd == 0x0040 {
            if plen != WIRE_ATTEST_LEN {
                n = build_error_frame_inplace(hdr.req_id, WireStatus::BadFrame, &mut self.pending_response);
            } else {
                let bus_octet = payload[MLDSA44_PK_LEN];
                if bus_octet > 1 {
                    n = build_error_frame_inplace(hdr.req_id, WireStatus::BadFrame, &mut self.pending_response);
                } else {
                    return Ok((data.len(), WireAction::AttestSubmit { req_id: hdr.req_id, bus_octet }));
                }
            }
        } else {
            n = build_error_frame_inplace(hdr.req_id, WireStatus::UnknownCmd, &mut self.pending_response);
        }
        self.response_len = n as u16;
        proof {
            assert(self.pending() =~= self.pending_response@.subrange(0, n as int));
            if n >= 16 {
                assert(self.pending().subrange(0, 16) =~= self.pending_response@.subrange(0, 16));
                assert(self.pending().subrange(16, n as int) =~= self.pending_response@.subrange(16, n as int));
            }
        }
        Ok((data.len(), WireAction::Answered))
    }

    /// Stores the answer to a Blake3Hash request: the digest on success, an
    /// error frame with the given status otherwise.
    pub fn finish_blake3(&mut self, req_id: u32, outcome: Result<[u8; 32], WireStatus>)
        requires
            old(self).wf(),
        ensures
            final(self).wf(),
            final(self).is_open() == old(self).is_open(),
            final(self).endpoint_spec() == old(self).endpoint_spec(),
            outcome matches Ok(d) ==> final(self).pending() == header_bytes(
                response_header(req_id, WireCmd::Blake3Hash, WireStatus::Success, 32)) + d@,
            outcome matches Err(st) ==> final(self).pending() == header_bytes(error_header(req_id, st)),
    {
        let n = match outcome {
            Ok(d) => {
                let n = build_response_frame(req_id, WireCmd::Blake3Hash, WireStatus::Success, &d, &mut self.pending_response);
                proof {
                    assert(self.pending_response@.subrange(0, n as int) =~=
                        self.pending_response@.subrange(0, 16) + self.pending_response@.subrange(16, n as int));
                }
                n
            },
            Err(st) => build_error_frame_inplace(req_id, st, &mut self.pending_response),
        };
        self.response_len = n as u16;
    }

    /// Records an AttestSubmit outcome in the audit ring (slot marker 0xFE,
    /// result 5 when verified, 6 otherwise) and stores the answer: an empty
    /// success frame, or a Denied error frame.
    pub fn finish_attest(&mut self, req_id: u32, bus_octet: u8, verified: bool, pk_prefix: [u8; 4], audit: &mut AuditRing)
        requires
            old(self).wf(),
            old(audit).wf(),
        ensures
            final(self).wf(),
            final(audit).wf(),
            final(self).is_open() == old(self).is_open(),
            final(self).endpoint_spec() == old(self).endpoint_spec(),
            final(audit).history() == old(audit).history().push(EnrollEvent {
                seq: old(audit).total_spec(), slot_idx: 0xFE, result: if verified { 5u8 } else { 6u8 },
                bus_kind: bus_octet, pad: 0, pk_hash_prefix: pk_prefix }),
            verified ==> final(self).pending() == header_bytes(
                response_header(req_id, WireCmd::AttestSubmit, WireStatus::Success, 0)),
            !verified ==> final(self).pending() == header_bytes(error_header(req_id, WireStatus::Denied)),
    {
        let code: u8 = if verified { 5 } else { 6 };
        audit.audit_enqueue(0xFE, code, bus_octet, pk_prefix);
        let n = if verified {
            let empty: [u8; 0] = [];
            build_response_frame(req_id, WireCmd::AttestSubmit, WireStatus::Success, &empty, &mut self.pending_response)
        } else {
            build_error_frame_inplace(req_id, WireStatus::Denied, &mut self.pending_response)
        };
        self.response_len = n as u16;
    }

    /// Readable while a response is pending, writable otherwise; `NotOpen` when closed.
    pub fn poll(&self) -> (r: Result<BusReady, BusError>)
        ensures
            !self.is_open() ==> r == Err::<BusReady, BusError>(BusError::NotOpen),
            self.is_open() ==> r == Ok::<BusReady, BusError>(BusReady {
                readable: self.response_len_spec() != 0,
                writable: self.response_len_spec() == 0,
                closed: false,
            }),
    {
        if !self.open_state {
            return Err(BusError::NotOpen);
        }
        Ok(BusReady { readable: self.response_len != 0, writable: self.response_len == 0, closed: false })
    }

    /// Always `Ring3Process`.
    pub fn kind(&self) -> (r: BusKind)
        ensures
            r == BusKind::Ring3Process,
    {
        BusKind::Ring3Process
    }

    /// Clears the response, unbinds and closes.
    pub fn zeroize(&mut self)
        ensures
            final(self).wf(),
            !final(self).is_open(),
            final(self).endpoint_spec() == EndpointId(ENDPOINT_INVALID),
            final(self).response_len_spec() == 0,
            forall|i: int| 0 <= i < WIRE_FRAME_MAX ==> final(self).response_buf()[i] == 0,
    {
        crate::health::secure_zero(&mut self.pending_response);
        self.response_len = 0;
        self.endpoint = EndpointId(ENDPOINT_INVALID);
        self.open_state = false;
    }
}

/// The bus held by an HSM slot. Only the software and Ring 3 transports are
/// implemented; the others answer `NotImplemented`, and an empty slot `NotOpen`.
pub enum BusInstance {
    Empty,
    Software(SoftwareBus),
    Ring3Process(Ring3ProcessBus),
    Usb,
    Spi,
    Serial,
    SmartCard,
    Network,
}

/// Whether a bus instance is one of the unimplemented transports.
pub open spec fn is_stub(b: BusInstance) -> bool {
    b is Usb || b is Spi || b is Serial || b is SmartCard || b is Network
}

impl BusInstance {
    pub open spec fn wf(&self) -> bool {
        match self {
            BusInstance::Software(s) => s.wf(),
            BusInstance::Ring3Process(r) => r.wf(),
            _ => true,
        }
    }

    /// The empty instance.
    pub fn new_empty() -> (r: Self)
        ensures
            r is Empty,
    {
        BusInstance::Empty
    }

    /// A fresh, closed instance of the given transport.
    pub fn new(kind: BusKind) -> (r: Self)
        ensures
            r.wf(),
            kind == BusKind::Software ==> (r matches BusInstance::Software(s) && !s.is_open()
                && s.role_spec() == SoftHsmRole::Echo && s.aes_spec() is None
                && s.write_len_spec() == 0 && s.read_pos_spec() == 0),
            kind == BusKind::Ring3Process ==> (r matches BusInstance::Ring3Process(b) && !b.is_open()
                && b.response_len_spec() == 0 && b.endpoint_spec() == EndpointId(ENDPOINT_INVALID)),
            kind == BusKind::Usb ==> r is Usb,
            kind == BusKind::Spi ==> r is Spi,
            kind == BusKind::Serial ==> r is Serial,
            kind == BusKind::SmartCard ==> r is SmartCard,
            kind == BusKind::Network ==> r is Network,
    {
        match kind {
            BusKind::Software => BusInstance::Software(SoftwareBus::new()),
            BusKind::Ring3Process => BusInstance::Ring3Process(Ring3ProcessBus::new()),
            BusKind::Usb => BusInstance::Usb,
            BusKind::Spi => BusInstance::Spi,
            BusKind::Serial => BusInstance::Serial,
            BusKind::SmartCard => BusInstance::SmartCard,
            BusKind::Network => BusInstance::Network,
        }
    }

    /// Octets a read can take now (see `bus_available`).
    pub fn available(&self) -> (r: usize)
        requires
            self.wf(),
        ensures
            r == bus_available(*self),
    {
        match self {
            BusInstance::Software(s) => if s.open_state { s.write_len - s.read_pos } else { 0 },
            BusInstance::Ring3Process(b) => if b.open_state { b.response_len as usize } else { 0 },
            _ => 0,
        }
    }

    /// Opens the underlying bus (see `SoftwareBus::open`, `Ring3ProcessBus::open`).
    pub fn open(&mut self, init: &[u8], fresh_key: Option<[u8; 32]>, endpoints: &IpcRegistry) -> (r: Result<(), BusError>)
        requires
            old(self).wf(),
            endpoints.wf(),
        ensures
            final(self).wf(),
            *old(self) is Empty ==> r == Err::<(), BusError>(BusError::NotOpen) && *final(self) == *old(self),
            is_stub(*old(self)) ==> r == Err::<(), BusError>(BusError::NotImplemented) && *final(self) == *old(self),
            *old(self) matches BusInstance::Software(s) ==> (*final(self) matches BusInstance::Software(s2)
                && sw_open_spec(s, s2, init@, fresh_key, r)),
            *old(self) matches BusInstance::Ring3Process(b) ==> (*final(self) matches BusInstance::Ring3Process(b2)
                && r3_open_spec(b, b2, init@, *endpoints, r)),
    {
        match self {
            BusInstance::Software(s) => s.open(init, fresh_key),
            BusInstance::Ring3Process(b) => b.open(init, endpoints),
            BusInstance::Empty => Err(BusError::NotOpen),
            _ => Err(BusError::NotImplemented),
        }
    }

    /// Closes the underlying bus.
    pub fn close(&mut self) -> (r: Result<(), BusError>)
        requires
            old(self).wf(),
        ensures
            final(self).wf(),
            *old(self) is Empty ==> r == Err::<(), BusError>(BusError::NotOpen) && *final(self) == *old(self),
            is_stub(*old(self)) ==> r == Err::<(), BusError>(BusError::NotImplemented) && *final(self) == *old(self),
            *old(self) matches BusInstance::Software(s) ==> (*final(self) matches BusInstance::Software(s2)
                && sw_close_spec(s, s2, r)),
            *old(self) matches BusInstance::Ring3Process(b) ==> (*final(self) matches BusInstance::Ring3Process(b2)
                && r3_close_spec(b, b2, r)),
    {
        match self {
            BusInstance::Software(s) => s.close(),
            BusInstance::Ring3Process(b) => b.close(),
            BusInstance::Empty => Err(BusError::NotOpen),
            _ => Err(BusError::NotImplemented),
        }
    }

    /// Reads from the underlying bus.
    pub fn read(&mut self, out: &mut [u8]) -> (r: Result<usize, BusError>)
        requires
            old(self).wf(),
        ensures
            final(self).wf(),
            bus_read_spec(*old(self), *final(self), old(out)@, final(out)@, r),
    {
        match self {
            BusInstance::Software(s) => s.read(out),
            BusInstance::Ring3Process(b) => b.read(out),
            BusInstance::Empty => Err(BusError::NotOpen),
            _ => Err(BusError::NotImplemented),
        }
    }

    /// Writes to the underlying bus. `primitive_out` is what the software
    /// bus's role primitive produced from `data`; `audit` answers Status requests
    /// on a Ring 3 bus. A software write is always `Answered`.
    pub fn write(&mut self, data: &[u8], primitive_out: &[u8], audit: &AuditRing) -> (r: Result<(usize, WireAction), BusError>)
        requires
            old(self).wf(),
            audit.wf(),
        ensures
            final(self).wf(),
            bus_write_spec(*old(self), *final(self), data@, primitive_out@, *audit, r),
    {
        match self {
            BusInstance::Software(s) => match s.write(data, primitive_out) {
                Ok(n) => Ok((n, WireAction::Answered)),
                Err(e) => Err(e),
            },
            BusInstance::Ring3Process(b) => b.write(data, audit),
            BusInstance::Empty => Err(BusError::NotOpen),
            _ => Err(BusError::NotImplemented),
        }
    }

    /// Readiness of the underlying bus.
    pub fn poll(&self) -> (r: Result<BusReady, BusError>)
        requires
            self.wf(),
        ensures
            self is Empty ==> r == Err::<BusReady, BusError>(BusError::NotOpen),
            is_stub(*self) ==> r == Err::<BusReady, BusError>(BusError::NotImplemented),
            self matches BusInstance::Software(s) ==> (!s.is_open() ==> r == Err::<BusReady, BusError>(BusError::NotOpen))
                && (s.is_open() ==> r == Ok::<BusReady, BusError>(BusReady {
                    readable: s.write_len_spec() > s.read_pos_spec(),
                    writable: s.write_len_spec() < SW_BUS_BUF,
                    closed: false })),
            self matches BusInstance::Ring3Process(b) ==> (!b.is_open() ==> r == Err::<BusReady, BusError>(BusError::NotOpen))
                && (b.is_open() ==> r == Ok::<BusReady, BusError>(BusReady {
                    readable: b.response_len_spec() != 0,
                    writable: b.response_len_spec() == 0,
                    closed: false })),
    {
        match self {
            BusInstance::Software(s) => s.poll(),
            BusInstance::Ring3Process(b) => b.poll(),
            BusInstance::Empty => Err(BusError::NotOpen),
            _ => Err(BusError::NotImplemented),
        }
    }

    /// Whether the instance is a Ring 3 bus.
    pub fn is_ring3(&self) -> (r: bool)
        ensures
            r == (*self is Ring3Process),
    {
        match self {
            BusInstance::Ring3Process(_) => true,
            _ => false,
        }
    }

    /// Transport of the instance (an empty slot reports `Software`).
    pub fn kind(&self) -> (r: BusKind)
        ensures
            r == bus_instance_kind(*self),
    {
        match self {
            BusInstance::Software(_) => BusKind::Software,
            BusInstance::Ring3Process(_) => BusKind::Ring3Process,
            BusInstance::Empty => BusKind::Software,
            BusInstance::Usb => BusKind::Usb,
            BusInstance::Spi => BusKind::Spi,
            BusInstance::Serial => BusKind::Serial,
            BusInstance::SmartCard => BusKind::SmartCard,
            BusInstance::Network => BusKind::Network,
        }
    }

    /// Clears the active transport and leaves the instance empty.
    pub fn zeroize(&mut self)
        ensures
            *final(self) is Empty,
    {
        match self {
            BusInstance::Software(s) => s.zeroize(),
            BusInstance::Ring3Process(b) => b.zeroize(),
            _ => {},
        }
        *self = BusInstance::Empty;
    }
}

/// Whether opening a fresh bus of `kind` with `init` succeeds: a software bus
/// needs a known role, zero trailing octets and, for AES-GCM, a key; a Ring 3 bus
/// needs a registered, valid endpoint id and zero trailing octets; the other
/// transports never open.
pub open spec fn open_would_succeed(kind: BusKind, init: Seq<u8>, fresh_key: Option<[u8; 32]>, endpoints: IpcRegistry) -> bool {
    match kind {
        BusKind::Software => (role_of_init(init) matches Some(role) && zero_from(init, 1)
            && (role != SoftHsmRole::AesGcm || fresh_key is Some)),
        BusKind::Ring3Process => {
            let id = EndpointId((init[0] + 256 * init[1]) as u16);
            &&& init.len() >= 2
            &&& zero_from(init, 2)
            &&& id.0 != ENDPOINT_INVALID
            &&& exists|j: int| 0 <= j < endpoints.slots().len() && ep_matches(endpoints.slots()[j], id)
        },
        _ => false,
    }
}

/// Octets a read can take from the bus now: the unread part of an open
/// software ring, the pending response of an open Ring 3 bus, none otherwise.
pub open spec fn bus_available(b: BusInstance) -> int {
    match b {
        BusInstance::Software(s) => if s.is_open() { s.write_len_spec() - s.read_pos_spec() } else { 0 },
        BusInstance::Ring3Process(p) => if p.is_open() { p.response_len_spec() as int } else { 0 },
        _ => 0,
    }
}

/// `b` is a fresh bus of `kind` opened with `init`: a software bus open in the
/// role `init` names with an empty ring (and, for AES-GCM, `fresh_key` with the
/// counter at zero); a Ring 3 bus open on the endpoint `init[0..2]` names with no
/// response pending.
pub open spec fn bus_opened_from(kind: BusKind, init: Seq<u8>, fresh_key: Option<[u8; 32]>, b: BusInstance) -> bool {
    match kind {
        BusKind::Software => b matches BusInstance::Software(s) && s.is_open() && role_of_init(init) == Some(s.role_spec())
            && s.write_len_spec() == 0 && s.read_pos_spec() == 0
            && (forall|i: int| 0 <= i < SW_BUS_BUF ==> s.ring_spec()[i] == 0)
            && (s.role_spec() == SoftHsmRole::AesGcm ==> s.aes_spec() == Some(SoftHsmAesGcmState {
                key: fresh_key->Some_0, nonce_counter: 0 }))
            && (s.role_spec() != SoftHsmRole::AesGcm ==> s.aes_spec() is None),
        BusKind::Ring3Process => b matches BusInstance::Ring3Process(p) && p.is_open()
            && p.endpoint_spec() == EndpointId((init[0] + 256 * init[1]) as u16) && p.response_len_spec() == 0,
        _ => false,
    }
}

/// Outcome of `BusInstance::read`: an empty slot is not open, stubs are not
/// implemented, the two real transports behave as their own `read`.
pub open spec fn bus_read_spec(o: BusInstance, f: BusInstance, oo: Seq<u8>, fo: Seq<u8>, r: Result<usize, BusError>) -> bool {
    &&& fo.len() == oo.len()
    &&& (r matches Ok(n) ==> n <= oo.len())
    &&& (o is Empty ==> r == Err::<usize, BusError>(BusError::NotOpen) && f == o && fo == oo)
    &&& (is_stub(o) ==> r == Err::<usize, BusError>(BusError::NotImplemented) && f == o && fo == oo)
    &&& (o matches BusInstance::Software(s) ==> (f matches BusInstance::Software(s2) && sw_read_spec(s, s2, oo, fo, r)))
    &&& (o matches BusInstance::Ring3Process(b) ==> (f matches BusInstance::Ring3Process(b2) && r3_read_spec(b, b2, oo, fo, r)))
}

/// Outcome of `BusInstance::write`; a software write is always `Answered`.
pub open spec fn bus_write_spec(o: BusInstance, f: BusInstance, data: Seq<u8>, primitive_out: Seq<u8>, audit: AuditRing,
    r: Result<(usize, WireAction), BusError>) -> bool {
    &&& (o is Empty ==> r == Err::<(usize, WireAction), BusError>(BusError::NotOpen) && f == o)
    &&& (is_stub(o) ==> r == Err::<(usize, WireAction), BusError>(BusError::NotImplemented) && f == o)
    &&& (o matches BusInstance::Software(s) ==> (f matches BusInstance::Software(s2)
        && sw_write_spec(s, s2, data, primitive_out, match r {
            Ok((n, _)) => Ok::<usize, BusError>(n),
            Err(e) => Err::<usize, BusError>(e),
        }) && (r matches Ok((_, a)) ==> a == WireAction::Answered)))
    &&& (o matches BusInstance::Ring3Process(b) ==> (f matches BusInstance::Ring3Process(b2) && r3_write_spec(b, b2, data, audit, r)))
}

/// Transport reported by `kind`.
pub open spec fn bus_instance_kind(b: BusInstance) -> BusKind {
    match b {
        BusInstance::Software(_) => BusKind::Software,
        BusInstance::Ring3Process(_) => BusKind::Ring3Process,
        BusInstance::Empty => BusKind::Software,
        BusInstance::Usb => BusKind::Usb,
        BusInstance::Spi => BusKind::Spi,
        BusInstance::Serial => BusKind::Serial,
        BusInstance::SmartCard => BusKind::SmartCard,
        BusInstance::Network => BusKind::Network,
    }
}

} // verus!

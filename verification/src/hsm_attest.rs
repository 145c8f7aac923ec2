//! Attach-time attestation surface: the enrollment audit ring, the signed
//! pre-image and the boot challenge it binds, and how a signature check
//! result becomes an attestation verdict.
//!
//! The ring keeps the last `AUDIT_RING_CAPACITY` enrollment events; older events
//! are overwritten. Each event carries the running sequence number.
use vstd::prelude::*;

verus! {

/// Events kept by the audit ring.
pub const AUDIT_RING_CAPACITY: usize = 32;

/// One audit event (12-byte ABI record).
#[derive(Clone, Copy)]
pub struct EnrollEvent {
    pub seq: u32,
    pub slot_idx: u8,
    pub result: u8,
    pub bus_kind: u8,
    pub pad: u8,
    pub pk_hash_prefix: [u8; 4],
}

impl EnrollEvent {
    /// All-zero event.
    pub fn zeroed() -> (r: Self)
        ensures
            r.seq == 0 && r.slot_idx == 0 && r.result == 0 && r.bus_kind == 0 && r.pad == 0,
            r.pk_hash_prefix@ == seq![0u8, 0u8, 0u8, 0u8],
    {
        EnrollEvent { seq: 0, slot_idx: 0, result: 0, bus_kind: 0, pad: 0, pk_hash_prefix: [0u8; 4] }
    }
}

/// Attestation failure (all verifier outcomes collapse into one).
#[derive(Clone, Copy, Debug, PartialEq, Eq, Structural)]
pub enum AttestError {
    AttestFailed,
}

/// Ring of the most recent enrollment events.
pub struct AuditRing {
    events: Vec<EnrollEvent>,
    head: u8,
    total: u32,
    history: Ghost<Seq<EnrollEvent>>,
}

impl AuditRing {
    /// Every event ever enqueued, oldest first.
    pub closed spec fn history(&self) -> Seq<EnrollEvent> {
        self.history@
    }

    /// Events counter (wraps at 2^32).
    pub closed spec fn total_spec(&self) -> u32 {
        self.total
    }

    /// The ring slots.
    pub closed spec fn slots(&self) -> Seq<EnrollEvent> {
        self.events@
    }

    /// Next slot to write.
    pub closed spec fn head_spec(&self) -> u8 {
        self.head
    }

    pub closed spec fn wf(&self) -> bool {
        &&& self.events@.len() == AUDIT_RING_CAPACITY
        &&& self.head < AUDIT_RING_CAPACITY
        &&& self.head as int == self.history@.len() % 32
        &&& self.total as int == self.history@.len() % 0x1_0000_0000
        &&& forall|k: int| #![trigger self.history@[k]]
            0 <= k < self.history@.len() && self.history@.len() - k <= AUDIT_RING_CAPACITY
            ==> self.events@[k % 32] == self.history@[k]
    }

    /// Empty ring.
    pub fn new() -> (r: Self)
        ensures
            r.wf(),
            r.history() == Seq::<EnrollEvent>::empty(),
    {
        let mut events: Vec<EnrollEvent> = Vec::new();
        let mut i: usize = 0;
        while i < AUDIT_RING_CAPACITY
            invariant
                i <= AUDIT_RING_CAPACITY,
                events@.len() == i,
            decreases AUDIT_RING_CAPACITY - i,
        {
            events.push(EnrollEvent::zeroed());
            i = i + 1;
        }
        AuditRing { events, head: 0, total: 0, history: Ghost(Seq::empty()) }
    }

    /// Records one event, overwriting the oldest once the ring is full; the event's
    /// sequence number is the running total before the call.
    pub fn audit_enqueue(&mut self, slot_idx: u8, result: u8, bus_kind: u8, pk_hash_prefix: [u8; 4])
        requires
            old(self).wf(),
        ensures
            final(self).wf(),
            final(self).history() == old(self).history().push(EnrollEvent {
                seq: old(self).total_spec(),
                slot_idx,
                result,
                bus_kind,
                pad: 0,
                pk_hash_prefix,
            }),
            final(self).total_spec() as int == (old(self).total_spec() + 1) % 0x1_0000_0000,
    {
        let i = (self.head as usize) % AUDIT_RING_CAPACITY;
        let ev = EnrollEvent { seq: self.total, slot_idx, result, bus_kind, pad: 0, pk_hash_prefix };
        self.events[i] = ev;
        self.head = ((self.head as usize + 1) % AUDIT_RING_CAPACITY) as u8;
        self.total = self.total.wrapping_add(1);
        self.history = Ghost(self.history@.push(ev));
        proof {
            let h = self.history@;
            let n = h.len();
            assert forall|k: int| #![trigger h[k]] 0 <= k < n && n - k <= AUDIT_RING_CAPACITY
                implies self.events@[k % 32] == h[k] by {
                if k < n - 1 {
                    assert(old(self).history@[k] == h[k]);
                    assert(k % 32 != (n - 1) % 32);
                }
            }
        }
    }

    /// Copies up to `out.len()` of the retained events into `out`, oldest first,
    /// and returns how many were copied together with the running total.
    /// While fewer than 33 events were ever recorded the copy starts at slot 0,
    /// afterwards at the oldest slot.
    pub fn audit_snapshot(&self, out: &mut [EnrollEvent]) -> (r: (usize, u32))
        requires
            self.wf(),
        ensures
            r.1 == self.total_spec(),
            r.0 == min3(self.total_spec() as int, AUDIT_RING_CAPACITY as int, old(out)@.len() as int),
            final(out)@.len() == old(out)@.len(),
            forall|i: int| 0 <= i < r.0 ==> #[trigger] final(out)@[i] == self.slots()[
                ((if self.total_spec() > AUDIT_RING_CAPACITY { self.head_spec() as int } else { 0 }) + i) % 32],
            forall|i: int| r.0 <= i < final(out)@.len() ==> #[trigger] final(out)@[i] == old(out)@[i],
    {
        let cap = if out.len() < AUDIT_RING_CAPACITY { out.len() } else { AUDIT_RING_CAPACITY };
        let valid = if (self.total as usize) < AUDIT_RING_CAPACITY { self.total as usize } else { AUDIT_RING_CAPACITY };
        let start = if self.total as usize > AUDIT_RING_CAPACITY { self.head as usize } else { 0 };
        let n = if valid < cap { valid } else { cap };
        let mut i: usize = 0;
        while i < n
            invariant
                self.wf(),
                i <= n,
                n <= out@.len(),
                n <= AUDIT_RING_CAPACITY,
                start < AUDIT_RING_CAPACITY,
                start == (if self.total_spec() > AUDIT_RING_CAPACITY { self.head_spec() as int } else { 0 }),
                out@.len() == old(out)@.len(),
                forall|j: int| 0 <= j < i ==> #[trigger] out@[j] == self.events@[(start + j) % 32],
                forall|j: int| i <= j < out@.len() ==> #[trigger] out@[j] == old(out)@[j],
            decreases n - i,
        {
            out[i] = self.events[(start + i) % AUDIT_RING_CAPACITY];
            i = i + 1;
        }
        (n, self.total)
    }
}

/// Smallest of three.
pub open spec fn min3(a: int, b: int, c: int) -> int {
    if a <= b && a <= c { a } else if b <= c { b } else { c }
}

/// While the counter has not wrapped, a snapshot yields exactly the most recent
/// `n` events in the order they were recorded.
pub proof fn law_snapshot_is_recent_history(ring: AuditRing, n: int, i: int)
    requires
        ring.wf(),
        ring.history().len() < 0x1_0000_0000,
        n == min3(ring.total_spec() as int, AUDIT_RING_CAPACITY as int, n),
        0 <= n <= AUDIT_RING_CAPACITY,
        n <= ring.history().len(),
        0 <= i < n,
    ensures
        ring.slots()[((if ring.total_spec() > AUDIT_RING_CAPACITY { ring.head_spec() as int } else { 0 }) + i) % 32]
            == ring.history()[ring.history().len() - (if ring.history().len() <= 32 { ring.history().len() } else { 32 }) + i],
{
    let len = ring.history().len() as int;
    let k = len - (if len <= 32 { len } else { 32 }) + i;
    assert(ring.history()[k] == ring.slots()[k % 32]);
    if len > 32 {
        assert(((ring.head_spec() as int) + i) % 32 == k % 32);
    }
}

/// ML-DSA-44 public key length.
pub const ATTEST_PK_LEN: usize = 1312;
/// Length of the attestation pre-image: public key, bus octet, challenge.
pub const ATTEST_PREIMAGE_LEN: usize = 1345;

/// The events a snapshot of `ring` into 32 slots yields: the most recent
/// ones (at most 32), oldest first.
pub open spec fn snapshot_events(ring: AuditRing) -> Seq<EnrollEvent> {
    Seq::new(min3(ring.total_spec() as int, AUDIT_RING_CAPACITY as int, AUDIT_RING_CAPACITY as int) as nat,
        |i: int| ring.slots()[((if ring.total_spec() > AUDIT_RING_CAPACITY { ring.head_spec() as int } else { 0 }) + i) % 32])
}

/// Big-endian bytes of a 64-bit value.
pub open spec fn be64_bytes(v: u64) -> Seq<u8> {
    Seq::new(8, |i: int| ((v as int / pow2_8(7 - i)) % 256) as u8)
}

/// 256 to the power `n`.
pub open spec fn pow2_8(n: int) -> int
    decreases n,
{
    if n <= 0 { 1 } else { 256 * pow2_8(n - 1) }
}

/// The 32-byte boot challenge: four random tokens, each big-endian.
pub fn boot_challenge(tokens: [u64; 4]) -> (r: [u8; 32])
    ensures
        r@ == be64_bytes(tokens[0]) + be64_bytes(tokens[1]) + be64_bytes(tokens[2]) + be64_bytes(tokens[3]),
{
    let mut c = [0u8; 32];
    let mut i: usize = 0;
    while i < 4
        invariant
            i <= 4,
            c@.len() == 32,
            forall|j: int| 0 <= j < 8 * i ==> #[trigger] c@[j] == be64_bytes(tokens@[j / 8])[j % 8],
        decreases 4 - i,
    {
        let t = tokens[i];
        let mut k: usize = 0;
        let mut div: u64 = 0x100_0000_0000_0000;
        proof {
            reveal_with_fuel(pow2_8, 8);
        }
        while k < 8
            invariant
                i < 4,
                k <= 8,
                c@.len() == 32,
                t == tokens@[i as int],
                div == pow2_8(7 - k),
                forall|j: int| 0 <= j < 8 * i ==> #[trigger] c@[j] == be64_bytes(tokens@[j / 8])[j % 8],
                forall|j: int| 8 * i <= j < 8 * i + k ==> #[trigger] c@[j] == be64_bytes(t)[j - 8 * i],
            decreases 8 - k,
        {
            proof {
                reveal_with_fuel(pow2_8, 8);
            }
            c[8 * i + k] = ((t / div) % 256) as u8;
            if k < 7 {
                div = div / 256;
            }
            k = k + 1;
        }
        proof {
            assert forall|j: int| 0 <= j < 8 * (i + 1) implies #[trigger] c@[j] == be64_bytes(tokens@[j / 8])[j % 8] by {
                if j >= 8 * i {
                    assert(j / 8 == i && j % 8 == j - 8 * i);
                }
            }
        }
        i = i + 1;
    }
    proof {
        let whole = be64_bytes(tokens[0]) + be64_bytes(tokens[1]) + be64_bytes(tokens[2]) + be64_bytes(tokens[3]);
        assert forall|j: int| 0 <= j < 32 implies #[trigger] c@[j] == whole[j] by {
            assert(c@[j] == be64_bytes(tokens@[j / 8])[j % 8]);
        }
        assert(c@ =~= whole);
    }
    c
}

/// What the trust root signs for an attach: the module's public key, the
/// bus octet and the boot challenge.
pub fn attest_preimage(hsm_pk: &[u8; 1312], bus_octet: u8, challenge: &[u8; 32]) -> (r: Vec<u8>)
    ensures
        r@ == hsm_pk@ + seq![bus_octet] + challenge@,
        r@.len() == ATTEST_PREIMAGE_LEN,
{
    let mut pre: Vec<u8> = Vec::new();
    let mut i: usize = 0;
    while i < 1312
        invariant
            i <= 1312,
            pre@ == hsm_pk@.take(i as int),
        decreases 1312 - i,
    {
        pre.push(hsm_pk[i]);
        i = i + 1;
        assert(pre@ =~= hsm_pk@.take(i as int));
    }
    pre.push(bus_octet);
    let mut k: usize = 0;
    while k < 32
        invariant
            k <= 32,
            pre@ == hsm_pk@ + seq![bus_octet] + challenge@.take(k as int),
        decreases 32 - k,
    {
        pre.push(challenge[k]);
        k = k + 1;
        assert(pre@ =~= hsm_pk@ + seq![bus_octet] + challenge@.take(k as int));
    }
    assert(challenge@.take(32) =~= challenge@);
    assert(hsm_pk@.take(1312) =~= hsm_pk@);
    pre
}

/// The attestation verdict from the signature check: accepted only when the
/// check ran and answered true.
pub fn attest_verdict(check: Result<bool, ()>) -> (r: Result<(), AttestError>)
    ensures
        r is Ok <==> check == Ok::<bool, ()>(true),
{
    match check {
        Ok(true) => Ok(()),
        _ => Err(AttestError::AttestFailed),
    }
}

/// The audit prefix of a public key: the first four bytes of its digest, or
/// zeros when no digest could be computed.
pub fn pk_prefix_from_digest(digest: Option<[u8; 32]>) -> (r: [u8; 4])
    ensures
        digest matches Some(d) ==> r@ == d@.take(4),
        digest is None ==> r@ == seq![0u8, 0u8, 0u8, 0u8],
{
    match digest {
        Some(d) => {
            let r = [d[0], d[1], d[2], d[3]];
            assert(r@ =~= d@.take(4));
            r
        },
        None => {
            let r = [0u8; 4];
            assert(r@ =~= seq![0u8, 0u8, 0u8, 0u8]);
            r
        },
    }
}

} // verus!

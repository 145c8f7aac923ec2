//! Capability-based access control: rights masks, endpoint identifiers,
//! unforgeable capability tokens and a per-process capability space.
use vstd::prelude::*;

verus! {

/// Access rights on an IPC endpoint (bit mask).
#[derive(Clone, Copy, PartialEq, Eq, Debug, Structural)]
pub struct Rights(pub u32);

/// No right.
pub const RIGHTS_NONE: u32 = 0;
/// Send a message.
pub const RIGHTS_SEND: u32 = 1;
/// Receive (server side).
pub const RIGHTS_RECV: u32 = 2;
/// Synchronous call.
pub const RIGHTS_CALL: u32 = 4;
/// Delegate the capability.
pub const RIGHTS_GRANT: u32 = 8;
/// Every right.
pub const RIGHTS_ALL: u32 = 0x0F;

impl Rights {

    /// Every right of `other` is held by `self`.
    pub fn contains(self, other: Self) -> (r: bool)
        ensures
            r == (self.0 & other.0 == other.0),
    {
        (self.0 & other.0) == other.0
    }

    /// Rights held by either.
    pub fn union(self, other: Self) -> (r: Self)
        ensures
            r.0 == self.0 | other.0,
    {
        Rights(self.0 | other.0)
    }

    /// Delegation narrowing: only rights held by both.
    pub fn restrict(self, subset: Self) -> (r: Self)
        ensures
            r.0 == self.0 & subset.0,
    {
        Rights(self.0 & subset.0)
    }
}

/// IPC endpoint identifier (0xFFFF is invalid).
#[derive(Clone, Copy, PartialEq, Eq, Debug, Structural)]
pub struct EndpointId(pub u16);

/// The invalid endpoint identifier.
pub const ENDPOINT_INVALID: u16 = 0xFFFF;
/// Kernel system-call service.
pub const EP_SYSTEM: u16 = 0x0000;
/// Cryptographic service.
pub const EP_CRYPTO: u16 = 0x0001;
/// ML-DSA signing service.
pub const EP_SIGN: u16 = 0x0002;
/// Ring 3 lumen wire endpoint.
pub const EP_LUMEN_WIRE: u16 = 0x0003;

/// Unforgeable capability: a random token bound to an endpoint and a rights mask.
#[derive(Clone, Copy, PartialEq, Eq, Structural)]
pub struct Capability {
    /// Random anti-forgery value (0 = invalid).
    pub token: u64,
    pub endpoint_id: EndpointId,
    pub rights: Rights,
    pub pad: u16,
}

/// Capability check: non-zero token, matching endpoint, every required right held.
pub open spec fn cap_allows(cap: Capability, endpoint_id: EndpointId, required: Rights) -> bool {
    &&& cap.token != 0
    &&& cap.endpoint_id == endpoint_id
    &&& cap.rights.0 & required.0 == required.0
}

impl Capability {
    /// Capability from its parts.
    pub fn new(token: u64, endpoint_id: EndpointId, rights: Rights) -> (r: Self)
        ensures
            r.token == token,
            r.endpoint_id == endpoint_id,
            r.rights == rights,
    {
        Capability { token, endpoint_id, rights, pad: 0 }
    }

    /// A capability that every check rejects.
    pub fn null() -> (r: Self)
        ensures
            r.token == 0,
            r.endpoint_id == EndpointId(ENDPOINT_INVALID),
            r.rights == Rights(RIGHTS_NONE),
    {
        Capability { token: 0, endpoint_id: EndpointId(ENDPOINT_INVALID), rights: Rights(RIGHTS_NONE), pad: 0 }
    }

    /// Whether this capability grants `required` on `endpoint_id`. All three
    /// conditions are evaluated without early exit.
    pub fn is_valid_for(&self, endpoint_id: EndpointId, required: Rights) -> (r: bool)
        ensures
            r == cap_allows(*self, endpoint_id, required),
    {
        let token_nonzero = ct_ne_u64(self.token, 0);
        let ep_eq = ct_eq_u16(self.endpoint_id.0, endpoint_id.0);
        let masked: u32 = self.rights.0 & required.0;
        let rights_ok = ct_eq_u32(masked, required.0);
        proof {
            assert(token_nonzero <= 1 && ep_eq <= 1 && rights_ok <= 1 ==>
                (((token_nonzero & ep_eq & rights_ok) == 1) <==> (token_nonzero == 1 && ep_eq == 1 && rights_ok == 1)))
                by (bit_vector);
        }
        (token_nonzero & ep_eq & rights_ok) == 1
    }

    /// 1 when both tokens are equal, else 0 (computed without branching on the values).
    pub fn ct_token_eq(&self, other: &Self) -> (r: u8)
        ensures
            r == if self.token == other.token { 1u8 } else { 0u8 },
    {
        ct_eq_u64(self.token, other.token)
    }

    /// Delegates with narrowed rights; requires the GRANT right.
    pub fn derive(&self, subset_rights: Rights) -> (r: Result<Self, CapError>)
        ensures
            self.rights.0 & RIGHTS_GRANT != RIGHTS_GRANT ==> r == Err::<Self, CapError>(CapError::NoGrantRight),
            self.rights.0 & RIGHTS_GRANT == RIGHTS_GRANT ==> (r matches Ok(c) && c.token == self.token
                && c.endpoint_id == self.endpoint_id && c.rights.0 == self.rights.0 & subset_rights.0),
    {
        if !self.rights.contains(Rights(RIGHTS_GRANT)) {
            return Err(CapError::NoGrantRight);
        }
        Ok(Capability {
            token: self.token,
            endpoint_id: self.endpoint_id,
            rights: self.rights.restrict(subset_rights),
            pad: 0,
        })
    }

    /// Erases the token and makes the capability invalid.
    pub fn zeroize(&mut self)
        ensures
            final(self).token == 0,
            final(self).rights == Rights(RIGHTS_NONE),
            final(self).endpoint_id == EndpointId(ENDPOINT_INVALID),
    {
        crate::health::secure_zero_u64(&mut self.token);
        self.rights = Rights(RIGHTS_NONE);
        self.endpoint_id = EndpointId(ENDPOINT_INVALID);
    }
}

/// Delegation never adds a right: whatever a derived capability allows, the
/// parent allows too, on the same endpoint and token.
pub proof fn law_derive_never_escalates(parent: Capability, child: Capability, subset: Rights,
    endpoint_id: EndpointId, required: Rights)
    requires
        child.token == parent.token,
        child.endpoint_id == parent.endpoint_id,
        child.rights.0 == parent.rights.0 & subset.0,
        cap_allows(child, endpoint_id, required),
    ensures
        cap_allows(parent, endpoint_id, required),
        required.0 & subset.0 == required.0,
{
    let p = parent.rights.0;
    let s = subset.0;
    let q = required.0;
    assert((p & s) & q == q ==> p & q == q && q & s == q) by (bit_vector);
}

/// 1 when equal, else 0.
pub fn ct_eq_u64(a: u64, b: u64) -> (r: u8)
    ensures
        r == if a == b { 1u8 } else { 0u8 },
{
    let x = a ^ b;
    let y = (x >> 1) | (x & 1);
    proof {
        assert((a ^ b == 0) <==> a == b) by (bit_vector);
        assert(y <= 0x7FFF_FFFF_FFFF_FFFFu64 && (y == 0 <==> x == 0)) by (bit_vector)
            requires y == (x >> 1) | (x & 1);
    }
    let z: u64 = y + 0x7FFF_FFFF_FFFF_FFFF;
    let folded = z >> 63;
    proof {
        assert(y == 0 ==> z >> 63 == 0) by (bit_vector)
            requires y <= 0x7FFF_FFFF_FFFF_FFFFu64, z == y + 0x7FFF_FFFF_FFFF_FFFFu64;
        assert(y != 0 ==> z >> 63 == 1) by (bit_vector)
            requires y <= 0x7FFF_FFFF_FFFF_FFFFu64, z == y + 0x7FFF_FFFF_FFFF_FFFFu64;
    }
    (1 - folded) as u8
}

/// 1 when different, else 0.
pub fn ct_ne_u64(a: u64, b: u64) -> (r: u8)
    ensures
        r == if a != b { 1u8 } else { 0u8 },
{
    1 - ct_eq_u64(a, b)
}

/// 1 when equal, else 0.
pub fn ct_eq_u32(a: u32, b: u32) -> (r: u8)
    ensures
        r == if a == b { 1u8 } else { 0u8 },
{
    ct_eq_u64(a as u64, b as u64)
}

/// 1 when equal, else 0.
pub fn ct_eq_u16(a: u16, b: u16) -> (r: u8)
    ensures
        r == if a == b { 1u8 } else { 0u8 },
{
    ct_eq_u64(a as u64, b as u64)
}

/// 1 when equal, else 0.
pub fn ct_eq_u8(a: u8, b: u8) -> (r: u8)
    ensures
        r == if a == b { 1u8 } else { 0u8 },
{
    ct_eq_u64(a as u64, b as u64)
}

/// Token from 8 bytes of DRBG output read big-endian; a zero token is refused
/// (`None`), since zero marks an invalid capability and the draw must be retried.
pub fn token_from_drbg_output(bytes: [u8; 8]) -> (r: Option<u64>)
    ensures
        r == if be_u64(bytes@) == 0 { None } else { Some(be_u64(bytes@) as u64) },
{
    let mut t: u64 = 0;
    let mut i: usize = 0;
    while i < 8
        invariant
            i <= 8,
            t == be_u64(bytes@.subrange(0, i as int)),
        decreases 8 - i,
    {
        proof {
            assert(bytes@.subrange(0, i as int + 1).drop_last() == bytes@.subrange(0, i as int));
            lemma_be_u64_bound(bytes@.subrange(0, i as int));
        }
        t = t * 256 + bytes[i] as u64;
        i = i + 1;
    }
    assert(bytes@.subrange(0, 8) == bytes@);
    if t == 0 { None } else { Some(t) }
}

/// Big-endian value of a byte string.
pub open spec fn be_u64(s: Seq<u8>) -> int
    decreases s.len(),
{
    if s.len() == 0 { 0 } else { be_u64(s.drop_last()) * 256 + s.last() }
}

proof fn lemma_be_u64_bound(s: Seq<u8>)
    requires
        s.len() <= 7,
    ensures
        0 <= be_u64(s) < 0x100_0000_0000_0000,
{
    lemma_be_u64_pow(s);
    lemma_pow256_mono(s.len() as int);
    reveal_with_fuel(pow256, 8);
    assert(pow256(7) == 0x100_0000_0000_0000);
}

proof fn lemma_be_u64_pow(s: Seq<u8>)
    ensures
        0 <= be_u64(s) < pow256(s.len() as int),
    decreases s.len(),
{
    if s.len() > 0 {
        lemma_be_u64_pow(s.drop_last());
    }
}

proof fn lemma_pow256_mono(n: int)
    requires
        0 <= n <= 7,
    ensures
        1 <= pow256(n) <= pow256(7),
    decreases 7 - n,
{
    if n < 7 {
        lemma_pow256_mono(n + 1);
        assert(pow256(n + 1) == 256 * pow256(n));
    } else {
        reveal_with_fuel(pow256, 8);
    }
}

spec fn pow256(n: int) -> int
    decreases n,
{
    if n <= 0 { 1 } else { 256 * pow256(n - 1) }
}

/// The slot holds a capability with the non-zero token `token`.
pub open spec fn holds_token(slot: Option<Capability>, token: u64) -> bool {
    match slot {
        Some(c) => c.token == token && c.token != 0,
        None => false,
    }
}

/// Capability slots per process.
pub const MAX_CAPS_PER_SPACE: usize = 32;

/// Per-process capability storage; slot indices are the handles user code sees.
pub struct CapabilitySpace {
    slots: Vec<Option<Capability>>,
    count: usize,
}

impl View for CapabilitySpace {
    type V = Seq<Option<Capability>>;

    closed spec fn view(&self) -> Seq<Option<Capability>> {
        self.slots@
    }
}

impl CapabilitySpace {
    pub closed spec fn wf(&self) -> bool {
        self.slots@.len() == MAX_CAPS_PER_SPACE
    }

    /// A well-formed space has exactly `MAX_CAPS_PER_SPACE` slots.
    pub proof fn lemma_wf_len(&self)
        requires
            self.wf(),
        ensures
            self@.len() == MAX_CAPS_PER_SPACE,
    {
    }

    /// All slots empty.
    pub fn empty() -> (r: Self)
        ensures
            r.wf(),
            r@.len() == MAX_CAPS_PER_SPACE,
            forall|i: int| 0 <= i < MAX_CAPS_PER_SPACE ==> #[trigger] r@[i] is None,
    {
        let mut slots: Vec<Option<Capability>> = Vec::new();
        let mut i: usize = 0;
        while i < MAX_CAPS_PER_SPACE
            invariant
                i <= MAX_CAPS_PER_SPACE,
                slots@.len() == i,
                forall|j: int| 0 <= j < i ==> #[trigger] slots@[j] is None,
            decreases MAX_CAPS_PER_SPACE - i,
        {
            slots.push(None);
            i = i + 1;
        }
        CapabilitySpace { slots, count: 0 }
    }

    /// Stores `cap` in the lowest empty slot and returns its index; `None` when full.
    pub fn insert(&mut self, cap: Capability) -> (r: Option<usize>)
        requires
            old(self).wf(),
        ensures
            final(self).wf(),
            final(self)@.len() == MAX_CAPS_PER_SPACE,
            r is None <==> forall|i: int| 0 <= i < MAX_CAPS_PER_SPACE ==> #[trigger] old(self)@[i] is Some,
            r is None ==> final(self)@ == old(self)@,
            r matches Some(i) ==> {
                &&& i < MAX_CAPS_PER_SPACE
                &&& old(self)@[i as int] is None
                &&& forall|j: int| 0 <= j < i ==> #[trigger] old(self)@[j] is Some
                &&& final(self)@ == old(self)@.update(i as int, Some(cap))
            },
    {
        let mut i: usize = 0;
        while i < MAX_CAPS_PER_SPACE
            invariant
                self.wf(),
                *self == *old(self),
                i <= MAX_CAPS_PER_SPACE,
                forall|j: int| 0 <= j < i ==> #[trigger] self@[j] is Some,
            decreases MAX_CAPS_PER_SPACE - i,
        {
            if self.slots[i].is_none() {
                self.slots[i] = Some(cap);
                self.count = self.count.wrapping_add(1);
                return Some(i);
            }
            i = i + 1;
        }
        None
    }

    /// Capability in slot `idx`, if any.
    pub fn get(&self, idx: usize) -> (r: Option<&Capability>)
        requires
            self.wf(),
        ensures
            idx >= MAX_CAPS_PER_SPACE ==> r is None,
            idx < MAX_CAPS_PER_SPACE ==> r == match self@[idx as int] {
                Some(c) => Some(&c),
                None => None::<&Capability>,
            },
    {
        if idx >= self.slots.len() {
            return None;
        }
        match &self.slots[idx] {
            Some(c) => Some(c),
            None => None,
        }
    }

    /// Lowest slot holding a capability whose non-zero token equals `token`.
    /// Every slot is compared, with no early exit.
    pub fn find_by_token(&self, token: u64) -> (r: Option<usize>)
        requires
            self.wf(),
        ensures
            r is None <==> forall|i: int| 0 <= i < MAX_CAPS_PER_SPACE ==> !holds_token(#[trigger] self@[i], token),
            r matches Some(i) ==> i < MAX_CAPS_PER_SPACE && holds_token(self@[i as int], token)
                && forall|j: int| 0 <= j < i ==> !holds_token(#[trigger] self@[j], token),
    {
        let mut found: Option<usize> = None;
        let query = Capability { token, endpoint_id: EndpointId(ENDPOINT_INVALID), rights: Rights(RIGHTS_NONE), pad: 0 };
        let mut i: usize = 0;
        while i < MAX_CAPS_PER_SPACE
            invariant
                self.wf(),
                i <= MAX_CAPS_PER_SPACE,
                query.token == token,
                found is None <==> forall|j: int| 0 <= j < i ==> !holds_token(#[trigger] self@[j], token),
                found matches Some(k) ==> k < i && holds_token(self@[k as int], token)
                    && forall|j: int| 0 <= j < k ==> !holds_token(#[trigger] self@[j], token),
            decreases MAX_CAPS_PER_SPACE - i,
        {
            let ghost prev = found;
            if let Some(cap) = &self.slots[i] {
                let m = cap.ct_token_eq(&query);
                if m == 1 && cap.token != 0 && found.is_none() {
                    found = Some(i);
                }
            }
            proof {
                assert(holds_token(self@[i as int], token) ==> found is Some);
                assert(prev is Some ==> found == prev);
                assert(found is Some && prev is None ==> found == Some(i) && holds_token(self@[i as int], token));
            }
            i = i + 1;
        }
        found
    }

    /// Revokes slot `idx`, erasing the token; an empty slot stays empty.
    pub fn revoke(&mut self, idx: usize) -> (r: Result<(), CapError>)
        requires
            old(self).wf(),
        ensures
            final(self).wf(),
            final(self)@.len() == MAX_CAPS_PER_SPACE,
            idx >= MAX_CAPS_PER_SPACE ==> r == Err::<(), CapError>(CapError::InvalidSlot) && final(self)@ == old(self)@,
            idx < MAX_CAPS_PER_SPACE ==> r is Ok && final(self)@ == old(self)@.update(idx as int, None),
    {
        if idx >= self.slots.len() {
            return Err(CapError::InvalidSlot);
        }
        self.slots[idx] = None;
        self.count = self.count.saturating_sub(1);
        Ok(())
    }
}

/// Capability errors.
#[derive(Debug, PartialEq, Eq, Structural)]
pub enum CapError {
    InvalidSlot,
    NoGrantRight,
    SlotsFull,
    PrngNotInitialized,
    NoEntropy,
    DrbgInit,
}

} // verus!

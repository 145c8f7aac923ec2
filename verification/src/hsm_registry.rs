//! HSM slot registry: attach a bus to one of eight slots behind a random
//! capability token, authenticate capabilities against the stored token and
//! rights, detach with zeroisation, and enumerate attached slots.
use vstd::prelude::*;
use crate::bus::{BusInstance, BusKind, BusError, WireAction, WireStatus, bus_kind_code, bus_instance_kind, open_would_succeed, bus_opened_from, bus_available,
    bus_read_spec, bus_write_spec};
use crate::capability::{CapError, ct_eq_u64, ct_ne_u64, ct_eq_u16, ct_eq_u8};
use crate::hsm_attest::AuditRing;
use crate::ipc::IpcRegistry;
use crate::syscall::{SyscallContext, SyscallError, rax_of, user_range, user_range_ok};

verus! {

/// Number of HSM slots.
pub const HSM_MAX_SLOTS: usize = 8;
/// Largest single write or relay.
pub const CHAN_MAX: usize = 4096;
/// Exact attestation payload of an attach: public key (1312) then signature (2420).
pub const ATTEST_EXACT: usize = 3732;

/// Index of a slot.
#[derive(Clone, Copy, PartialEq, Eq, Debug, Structural)]
pub struct HsmSlotIdx(pub u8);

/// Slot index that names no slot.
pub const HSM_SLOT_INVALID: u8 = 0xFF;

/// Rights bit set of an HSM capability.
#[derive(Clone, Copy, PartialEq, Eq, Debug, Structural)]
pub struct HsmRights(pub u16);

pub const HSM_RIGHTS_NONE: u16 = 0;
pub const HSM_RIGHTS_USE: u16 = 1;
pub const HSM_RIGHTS_ENUMERATE: u16 = 2;
pub const HSM_RIGHTS_REVOKE: u16 = 4;
pub const HSM_RIGHTS_RELAY_SRC: u16 = 8;
pub const HSM_RIGHTS_RELAY_DST: u16 = 16;
pub const HSM_RIGHTS_NETWORK_ATTACH: u16 = 32;

impl HsmRights {
    /// Union of two right sets.
    pub fn union(self, rhs: Self) -> (r: Self)
        ensures
            r.0 == self.0 | rhs.0,
    {
        HsmRights(self.0 | rhs.0)
    }
}

/// Slot lifecycle.
#[derive(Clone, Copy, Debug, PartialEq, Eq, Structural)]
pub enum HsmSlotState {
    Empty,
    Attached,
    Detaching,
}

/// Octet of a slot state.
pub open spec fn slot_state_code(s: HsmSlotState) -> u8 {
    match s {
        HsmSlotState::Empty => 0,
        HsmSlotState::Attached => 1,
        HsmSlotState::Detaching => 2,
    }
}

impl HsmSlotState {
    /// Octet of the state.
    pub fn code(self) -> (r: u8)
        ensures
            r == slot_state_code(self),
    {
        match self {
            HsmSlotState::Empty => 0,
            HsmSlotState::Attached => 1,
            HsmSlotState::Detaching => 2,
        }
    }
}

/// Registry failures.
#[derive(Clone, Copy, Debug, PartialEq, Eq, Structural)]
pub enum HsmCapError {
    InvalidToken,
    InvalidSlot,
    RightsMissing,
    Full,
    NotAttached,
    Busy,
    TokenGen,
    BadInit,
    AttestFailed,
}

/// 16-octet HSM capability: token, slot, rights and explicit padding.
#[derive(Clone, Copy, PartialEq, Eq)]
pub struct HsmCapability {
    pub token: u64,
    pub slot: HsmSlotIdx,
    pub pad0: u8,
    pub rights: HsmRights,
    pub pad: u8,
    pub pad1: [u8; 3],
}

/// Little-endian value of the octets `s[off..off+n]`.
pub open spec fn le_value(s: Seq<u8>, off: int, n: nat) -> int
    decreases n,
{
    if n == 0 { 0 } else { s[off] + 256 * le_value(s, off + 1, (n - 1) as nat) }
}

/// Capability decoded from its 16-octet layout: token (LE, 0..8), slot (8),
/// pad (9), rights (LE, 10..12), pad (12), pad (13..16).
pub open spec fn cap_of_bytes(s: Seq<u8>) -> HsmCapability {
    HsmCapability {
        token: le_value(s, 0, 8) as u64,
        slot: HsmSlotIdx(s[8]),
        pad0: s[9],
        rights: HsmRights(le_value(s, 10, 2) as u16),
        pad: s[12],
        pad1: [s[13], s[14], s[15]],
    }
}

impl HsmCapability {
    /// The capability that names no slot and holds nothing.
    pub fn invalid() -> (r: Self)
        ensures
            r.token == 0,
            r.slot == HsmSlotIdx(HSM_SLOT_INVALID),
            r.rights == HsmRights(HSM_RIGHTS_NONE),
            r.pad0 == 0 && r.pad == 0,
            r.pad1@ == seq![0u8, 0u8, 0u8],
    {
        let r = HsmCapability { token: 0, slot: HsmSlotIdx(HSM_SLOT_INVALID), pad0: 0, rights: HsmRights(HSM_RIGHTS_NONE), pad: 0, pad1: [0u8; 3] };
        assert(r.pad1@ =~= seq![0u8, 0u8, 0u8]);
        r
    }

    /// A capability with arbitrary fields, for exercising the authentication path.
    pub fn with_forged_token(token: u64, slot: HsmSlotIdx, rights: HsmRights) -> (r: Self)
        ensures
            r.token == token,
            r.slot == slot,
            r.rights == rights,
            r.pad0 == 0 && r.pad == 0,
    {
        HsmCapability { token, slot, pad0: 0, rights, pad: 0, pad1: [0u8; 3] }
    }

    /// Self-consistency only (non-zero token, matching slot, rights present);
    /// authentication against a slot is `HsmRegistry::authenticate`.
    pub fn is_valid_for(&self, slot: HsmSlotIdx, required: HsmRights) -> (r: bool)
        ensures
            r == (self.token != 0 && self.slot == slot && self.rights.0 & required.0 == required.0),
    {
        let token_nonzero = ct_ne_u64(self.token, 0);
        let slot_eq = ct_eq_u8(self.slot.0, slot.0);
        let masked: u16 = self.rights.0 & required.0;
        let rights_ok = ct_eq_u16(masked, required.0);
        proof {
            assert(token_nonzero <= 1 && slot_eq <= 1 && rights_ok <= 1 ==>
                (((token_nonzero & slot_eq & rights_ok) == 1) <==> (token_nonzero == 1 && slot_eq == 1 && rights_ok == 1)))
                by (bit_vector);
        }
        (token_nonzero & slot_eq & rights_ok) == 1
    }

    /// 1 when the tokens are equal, else 0.
    pub fn ct_token_eq(&self, other: &Self) -> (r: u8)
        ensures
            r == if self.token == other.token { 1u8 } else { 0u8 },
    {
        ct_eq_u64(self.token, other.token)
    }

    /// Erases the token and rights and points at no slot.
    pub fn zeroize(&mut self)
        ensures
            final(self).token == 0,
            final(self).slot == HsmSlotIdx(HSM_SLOT_INVALID),
            final(self).rights == HsmRights(HSM_RIGHTS_NONE),
            final(self).pad0 == 0 && final(self).pad == 0,
            final(self).pad1@ == seq![0u8, 0u8, 0u8],
    {
        crate::health::secure_zero_u64(&mut self.token);
        self.slot = HsmSlotIdx(HSM_SLOT_INVALID);
        self.rights = HsmRights(HSM_RIGHTS_NONE);
        self.pad0 = 0;
        self.pad = 0;
        self.pad1 = [0u8; 3];
        assert(self.pad1@ =~= seq![0u8, 0u8, 0u8]);
    }

    /// Decodes the 16-octet layout at the start of `b`.
    pub fn from_bytes(b: &[u8]) -> (r: Self)
        requires
            b@.len() >= 16,
        ensures
            r == cap_of_bytes(b@),
    {
        let mut token: u64 = 0;
        let mut i: usize = 8;
        while i > 0
            invariant
                0 <= i <= 8,
                b@.len() >= 16,
                token == le_value(b@, i as int, (8 - i) as nat),
                token < pow256((8 - i) as nat),
            decreases i,
        {
            proof {
                lemma_pow256_step((8 - i) as nat);
                assert(token * 256 + b@[i - 1] < pow256((8 - i + 1) as nat)) by (nonlinear_arith)
                    requires token < pow256((8 - i) as nat), b@[i - 1] < 256, pow256((8 - i + 1) as nat) == 256 * pow256((8 - i) as nat);
                lemma_pow256_8();
                lemma_pow256_mono((8 - i + 1) as nat, 8);
            }
            token = token * 256 + b[i - 1] as u64;
            i = i - 1;
        }
        let rights: u16 = b[10] as u16 + (b[11] as u16) * 256;
        proof {
            reveal_with_fuel(le_value, 3);
        }
        let r = HsmCapability { token, slot: HsmSlotIdx(b[8]), pad0: b[9], rights: HsmRights(rights), pad: b[12], pad1: [b[13], b[14], b[15]] };
        assert(r.pad1@ =~= cap_of_bytes(b@).pad1@);
        r
    }
}

/// 256 to the power `n`.
pub open spec fn pow256(n: nat) -> int
    decreases n,
{
    if n == 0 { 1 } else { 256 * pow256((n - 1) as nat) }
}

proof fn lemma_pow256_step(n: nat)
    ensures
        pow256(n + 1) == 256 * pow256(n),
        pow256(n) >= 1,
    decreases n,
{
    if n > 0 {
        lemma_pow256_step((n - 1) as nat);
    }
}

proof fn lemma_pow256_8()
    ensures
        pow256(8) == 0x1_0000_0000_0000_0000,
{
    reveal_with_fuel(pow256, 9);
}

proof fn lemma_pow256_mono(a: nat, b: nat)
    requires
        a <= b,
    ensures
        pow256(a) <= pow256(b),
    decreases b - a,
{
    if a < b {
        lemma_pow256_step(a);
        lemma_pow256_mono(a + 1, b);
    }
}

/// One HSM slot.
pub struct HsmSlot {
    pub state: HsmSlotState,
    pub token: u64,
    pub rights: HsmRights,
    pub bus: BusInstance,
    /// Attestation result code (0 = verified).
    pub verify_result_code: u8,
    /// First four octets of the BLAKE3 hash of the attested public key.
    pub pk_hash_prefix: [u8; 4],
}

/// Whether a slot is in its reset state.
pub open spec fn slot_cleared(s: HsmSlot) -> bool {
    &&& s.state == HsmSlotState::Empty
    &&& s.token == 0
    &&& s.rights == HsmRights(HSM_RIGHTS_NONE)
    &&& s.bus is Empty
    &&& s.verify_result_code == 0
    &&& s.pk_hash_prefix@ == seq![0u8, 0u8, 0u8, 0u8]
}

impl HsmSlot {
    /// An empty slot.
    pub fn new() -> (r: Self)
        ensures
            slot_cleared(r),
    {
        let r = HsmSlot {
            state: HsmSlotState::Empty,
            token: 0,
            rights: HsmRights(HSM_RIGHTS_NONE),
            bus: BusInstance::new_empty(),
            verify_result_code: 0,
            pk_hash_prefix: [0u8; 4],
        };
        assert(r.pk_hash_prefix@ =~= seq![0u8, 0u8, 0u8, 0u8]);
        r
    }

    /// Erases the token, clears the bus and rights, and returns to Empty.
    pub fn zeroize(&mut self)
        ensures
            slot_cleared(*final(self)),
    {
        crate::health::secure_zero_u64(&mut self.token);
        self.bus.zeroize();
        self.rights = HsmRights(HSM_RIGHTS_NONE);
        self.verify_result_code = 0;
        self.pk_hash_prefix = [0u8; 4];
        self.state = HsmSlotState::Empty;
        assert(self.pk_hash_prefix@ =~= seq![0u8, 0u8, 0u8, 0u8]);
    }
}

/// `cap` authenticates for `required` against `slots`: its slot index is in
/// range, that slot is attached, the token is non-zero and equals the stored
/// one, and both the stored rights and the capability's rights cover `required`.
pub open spec fn authentic(slots: Seq<HsmSlot>, cap: HsmCapability, required: HsmRights) -> bool {
    let i = cap.slot.0 as int;
    &&& i < HSM_MAX_SLOTS
    &&& slots[i].state == HsmSlotState::Attached
    &&& cap.token != 0
    &&& cap.token == slots[i].token
    &&& slots[i].rights.0 & required.0 == required.0
    &&& cap.rights.0 & required.0 == required.0
}

/// Enumerate record of one slot: index, state octet, and in the reserved octets
/// the bus kind, the verify result code and the key-hash prefix.
#[derive(Clone, Copy)]
pub struct HsmSlotInfo {
    pub slot: u8,
    pub state: u8,
    pub reserved: [u8; 6],
}

impl HsmSlotInfo {
    /// Record naming no slot.
    pub fn empty() -> (r: Self)
        ensures
            r.slot == 0xFF,
            r.state == 0,
            r.reserved@ == seq![0u8, 0u8, 0u8, 0u8, 0u8, 0u8],
    {
        let r = HsmSlotInfo { slot: 0xFF, state: 0, reserved: [0u8; 6] };
        assert(r.reserved@ =~= seq![0u8, 0u8, 0u8, 0u8, 0u8, 0u8]);
        r
    }
}

/// Enumerate record of attached slot `i`.
pub open spec fn slot_info(i: int, s: HsmSlot) -> (u8, u8, Seq<u8>) {
    (i as u8, slot_state_code(s.state),
        seq![bus_kind_code(bus_instance_kind(s.bus)), s.verify_result_code] + s.pk_hash_prefix@)
}

/// Indices of attached slots among the first `n`, in order.
pub open spec fn attached_upto(slots: Seq<HsmSlot>, n: int) -> Seq<int>
    decreases n,
{
    if n <= 0 {
        Seq::empty()
    } else if slots[n - 1].state == HsmSlotState::Attached {
        attached_upto(slots, n - 1).push(n - 1)
    } else {
        attached_upto(slots, n - 1)
    }
}

/// The eight HSM slots.
pub struct HsmRegistry {
    slots: Vec<HsmSlot>,
}

impl HsmRegistry {
    /// The slots.
    pub closed spec fn slots(&self) -> Seq<HsmSlot> {
        self.slots@
    }

    pub closed spec fn wf(&self) -> bool {
        &&& self.slots@.len() == HSM_MAX_SLOTS
        &&& forall|i: int| 0 <= i < HSM_MAX_SLOTS ==> (#[trigger] self.slots@[i]).bus.wf()
    }

    /// Eight empty slots.
    pub fn new() -> (r: Self)
        ensures
            r.wf(),
            forall|i: int| 0 <= i < HSM_MAX_SLOTS ==> slot_cleared(#[trigger] r.slots()[i]),
    {
        let mut slots: Vec<HsmSlot> = Vec::new();
        let mut i: usize = 0;
        while i < HSM_MAX_SLOTS
            invariant
                i <= HSM_MAX_SLOTS,
                slots@.len() == i,
                forall|j: int| 0 <= j < i ==> slot_cleared(#[trigger] slots@[j]),
            decreases HSM_MAX_SLOTS - i,
        {
            slots.push(HsmSlot::new());
            i = i + 1;
        }
        HsmRegistry { slots }
    }

    /// Number of attached slots.
    pub fn attached_count(&self) -> (r: usize)
        requires
            self.wf(),
        ensures
            r == attached_upto(self.slots(), HSM_MAX_SLOTS as int).len(),
    {
        let mut n: usize = 0;
        let mut i: usize = 0;
        while i < HSM_MAX_SLOTS
            invariant
                i <= HSM_MAX_SLOTS,
                self.slots@.len() == HSM_MAX_SLOTS,
                n == attached_upto(self.slots@, i as int).len(),
                n <= i,
            decreases HSM_MAX_SLOTS - i,
        {
            if self.slots[i].state == HsmSlotState::Attached {
                n = n + 1;
            }
            i = i + 1;
        }
        n
    }

    /// Whether `idx` names an empty slot (false when out of range).
    pub fn slot_is_empty(&self, idx: HsmSlotIdx) -> (r: bool)
        requires
            self.wf(),
        ensures
            r == ((idx.0 as int) < HSM_MAX_SLOTS && self.slots()[idx.0 as int].state == HsmSlotState::Empty),
    {
        let raw = idx.0 as usize;
        if raw >= HSM_MAX_SLOTS {
            return false;
        }
        self.slots[raw].state == HsmSlotState::Empty
    }

    /// Checks `cap` against the slot it names: see `authentic`. All comparisons
    /// are made whatever the outcome of the others.
    pub fn authenticate(&self, cap: &HsmCapability, required: HsmRights) -> (r: bool)
        requires
            self.wf(),
        ensures
            r == authentic(self.slots(), *cap, required),
    {
        let idx = cap.slot.0 as usize;
        let in_range = idx < HSM_MAX_SLOTS;
        let safe_idx = if in_range { idx } else { 0 };
        let slot = &self.slots[safe_idx];
        let state_ok = ct_eq_u8(slot.state.code(), HsmSlotState::Attached.code());
        let token_eq = ct_eq_u64(cap.token, slot.token);
        let stored_masked: u16 = slot.rights.0 & required.0;
        let stored_rights_ok = ct_eq_u16(stored_masked, required.0);
        let cap_masked: u16 = cap.rights.0 & required.0;
        let cap_rights_ok = ct_eq_u16(cap_masked, required.0);
        let token_nonzero = ct_ne_u64(cap.token, 0);
        let range_bit: u8 = if in_range { 1 } else { 0 };
        proof {
            assert(token_nonzero <= 1 && state_ok <= 1 && token_eq <= 1 && stored_rights_ok <= 1 && cap_rights_ok <= 1
                && range_bit <= 1 ==>
                ((token_nonzero & state_ok & token_eq & stored_rights_ok & cap_rights_ok & range_bit) == 1 <==>
                (token_nonzero == 1 && state_ok == 1 && token_eq == 1 && stored_rights_ok == 1 && cap_rights_ok == 1
                && range_bit == 1)))
                by (bit_vector);
            assert(slot_state_code(slot.state) == 1 <==> slot.state == HsmSlotState::Attached);
        }
        (token_nonzero & state_ok & token_eq & stored_rights_ok & cap_rights_ok & range_bit) == 1
    }

    /// Detaches the slot that `cap` names when it authenticates for `required`:
    /// the slot's bus is closed and the slot wiped back to Empty. When it does not
    /// authenticate nothing changes and the error says why: slot out of range,
    /// slot detaching (`Busy`), slot empty (`NotAttached`), or else `InvalidToken`.
    pub fn detach(&mut self, cap: &HsmCapability, required: HsmRights) -> (r: Result<(), HsmCapError>)
        requires
            old(self).wf(),
        ensures
            final(self).wf(),
            !authentic(old(self).slots(), *cap, required) ==> {
                let i = cap.slot.0 as int;
                &&& final(self).slots() == old(self).slots()
                &&& i >= HSM_MAX_SLOTS ==> r == Err::<(), HsmCapError>(HsmCapError::InvalidSlot)
                &&& i < HSM_MAX_SLOTS && old(self).slots()[i].state == HsmSlotState::Detaching ==>
                    r == Err::<(), HsmCapError>(HsmCapError::Busy)
                &&& i < HSM_MAX_SLOTS && old(self).slots()[i].state == HsmSlotState::Empty ==>
                    r == Err::<(), HsmCapError>(HsmCapError::NotAttached)
                &&& i < HSM_MAX_SLOTS && old(self).slots()[i].state == HsmSlotState::Attached ==>
                    r == Err::<(), HsmCapError>(HsmCapError::InvalidToken)
            },
            authentic(old(self).slots(), *cap, required) ==> {
                let i = cap.slot.0 as int;
                &&& r == Ok::<(), HsmCapError>(())
                &&& final(self).slots().len() == HSM_MAX_SLOTS
                &&& slot_cleared(final(self).slots()[i])
                &&& forall|j: int| 0 <= j < HSM_MAX_SLOTS && j != i ==> final(self).slots()[j] == old(self).slots()[j]
            },
    {
        if !self.authenticate(cap, required) {
            let idx = cap.slot.0 as usize;
            if idx >= HSM_MAX_SLOTS {
                return Err(HsmCapError::InvalidSlot);
            }
            return match self.slots[idx].state {
                HsmSlotState::Detaching => Err(HsmCapError::Busy),
                HsmSlotState::Empty => Err(HsmCapError::NotAttached),
                HsmSlotState::Attached => Err(HsmCapError::InvalidToken),
            };
        }
        let idx = cap.slot.0 as usize;
        let mut slot = HsmSlot::new();
        std::mem::swap(&mut slot, &mut self.slots[idx]);
        slot.state = HsmSlotState::Detaching;
        let _ = slot.bus.close();
        slot.zeroize();
        self.slots.set(idx, slot);
        proof {
            assert forall|j: int| 0 <= j < HSM_MAX_SLOTS implies (#[trigger] self.slots@[j]).bus.wf() by {
                if j != idx as int {
                    assert(self.slots@[j] == old(self).slots@[j]);
                }
            }
        }
        Ok(())
    }

    /// Attaches a fresh bus of `bus_kind` to the first empty slot.
    ///
    /// With an attestation payload, that check comes first: the payload must be
    /// exactly `ATTEST_EXACT` octets and `attest_verified` must report that its
    /// ML-DSA signature verified; otherwise `AttestFailed` and nothing changes.
    /// `pk_prefix` is recorded for an attested attach. With a free slot, `token`
    /// is the capability token drawn for it (an error there is `TokenGen`); the
    /// bus is opened with `init_blob` (an error there is `BadInit`, nothing
    /// changes). No free slot: `Full`.
    pub fn attach(
        &mut self,
        bus_kind: BusKind,
        init_blob: &[u8],
        attest_payload: Option<&[u8]>,
        attest_verified: bool,
        pk_prefix: [u8; 4],
        rights: HsmRights,
        token: Result<u64, CapError>,
        fresh_key: Option<[u8; 32]>,
        endpoints: &IpcRegistry,
    ) -> (r: Result<HsmCapability, HsmCapError>)
        requires
            old(self).wf(),
            endpoints.wf(),
            token matches Ok(t) ==> t != 0,
        ensures
            final(self).wf(),
            r is Err ==> final(self).slots() == old(self).slots(),
            (attest_payload matches Some(p) && (p@.len() != ATTEST_EXACT || !attest_verified)) ==>
                r == Err::<HsmCapability, HsmCapError>(HsmCapError::AttestFailed),
            (attest_payload is None || (attest_payload matches Some(p) && p@.len() == ATTEST_EXACT && attest_verified)) ==> {
                &&& (forall|j: int| 0 <= j < HSM_MAX_SLOTS ==> old(self).slots()[j].state != HsmSlotState::Empty) ==>
                    r == Err::<HsmCapability, HsmCapError>(HsmCapError::Full)
                &&& (exists|j: int| 0 <= j < HSM_MAX_SLOTS && old(self).slots()[j].state == HsmSlotState::Empty) ==> {
                    &&& token is Err ==> r == Err::<HsmCapability, HsmCapError>(HsmCapError::TokenGen)
                    &&& token matches Ok(t) ==> (r is Err ==> r == Err::<HsmCapability, HsmCapError>(HsmCapError::BadInit))
                    &&& r matches Ok(c) ==> {
                        let i = c.slot.0 as int;
                        &&& 0 <= i < HSM_MAX_SLOTS
                        &&& old(self).slots()[i].state == HsmSlotState::Empty
                        &&& forall|j: int| 0 <= j < i ==> old(self).slots()[j].state != HsmSlotState::Empty
                        &&& token == Ok::<u64, CapError>(c.token)
                        &&& c.rights == rights && c.pad0 == 0 && c.pad == 0
                        &&& final(self).slots()[i].state == HsmSlotState::Attached
                        &&& final(self).slots()[i].token == c.token
                        &&& final(self).slots()[i].rights == rights
                        &&& bus_instance_kind(final(self).slots()[i].bus) == bus_kind
                        &&& bus_opened_from(bus_kind, init_blob@, fresh_key, final(self).slots()[i].bus)
                        &&& attest_payload is Some ==> final(self).slots()[i].verify_result_code == 0
                            && final(self).slots()[i].pk_hash_prefix == pk_prefix
                        &&& attest_payload is None ==>
                            final(self).slots()[i].verify_result_code == old(self).slots()[i].verify_result_code
                            && final(self).slots()[i].pk_hash_prefix == old(self).slots()[i].pk_hash_prefix
                        &&& forall|j: int| 0 <= j < HSM_MAX_SLOTS && j != i ==> final(self).slots()[j] == old(self).slots()[j]
                    }
                    &&& token is Ok ==> (r is Ok <==> open_would_succeed(bus_kind, init_blob@, fresh_key, *endpoints))
                }
            },
    {
        if let Some(p) = attest_payload {
            if p.len() != ATTEST_EXACT || !attest_verified {
                return Err(HsmCapError::AttestFailed);
            }
        }
        let mut i: usize = 0;
        while i < HSM_MAX_SLOTS
            invariant
                i <= HSM_MAX_SLOTS,
                self.slots@ == old(self).slots@,
                self.wf(),
                endpoints.wf(),
                forall|j: int| 0 <= j < i ==> self.slots@[j].state != HsmSlotState::Empty,
                attest_payload matches Some(p) ==> p@.len() == ATTEST_EXACT && attest_verified,
            decreases HSM_MAX_SLOTS - i,
        {
            if self.slots[i].state == HsmSlotState::Empty {
                let t = match token {
                    Ok(t) => t,
                    Err(_) => return Err(HsmCapError::TokenGen),
                };
                let mut bus = BusInstance::new(bus_kind);
                let opened = bus.open(init_blob, fresh_key, endpoints);
                if opened.is_err() {
                    return Err(HsmCapError::BadInit);
                }
                let mut slot = HsmSlot::new();
                std::mem::swap(&mut slot, &mut self.slots[i]);
                slot.bus = bus;
                slot.token = t;
                slot.rights = rights;
                if attest_payload.is_some() {
                    slot.verify_result_code = 0;
                    slot.pk_hash_prefix = pk_prefix;
                }
                slot.state = HsmSlotState::Attached;
                self.slots.set(i, slot);
                proof {
                    assert forall|j: int| 0 <= j < HSM_MAX_SLOTS implies (#[trigger] self.slots@[j]).bus.wf() by {
                        if j != i as int {
                            assert(self.slots@[j] == old(self).slots@[j]);
                        }
                    }
                }
                return Ok(HsmCapability { token: t, slot: HsmSlotIdx(i as u8), pad0: 0, rights, pad: 0, pad1: [0u8; 3] });
            }
            i = i + 1;
        }
        Err(HsmCapError::Full)
    }
}

impl HsmRegistry {
    /// Writes one record per attached slot among the first `min(out.len(), 8)`
    /// slots, in slot order, to the front of `out`, and returns how many.
    pub fn enumerate(&self, out: &mut [HsmSlotInfo]) -> (r: usize)
        requires
            self.wf(),
        ensures
            ({
                let cap = if old(out)@.len() < HSM_MAX_SLOTS { old(out)@.len() as int } else { HSM_MAX_SLOTS as int };
                let idx = attached_upto(self.slots(), cap);
                &&& r == idx.len()
                &&& final(out)@.len() == old(out)@.len()
                &&& forall|k: int| 0 <= k < r ==> {
                    let info = #[trigger] final(out)@[k];
                    (info.slot, info.state, info.reserved@) == slot_info(idx[k], self.slots()[idx[k]])
                }
                &&& forall|k: int| r <= k < old(out)@.len() ==> #[trigger] final(out)@[k] == old(out)@[k]
            }),
    {
        let cap = if out.len() < HSM_MAX_SLOTS { out.len() } else { HSM_MAX_SLOTS };
        let mut written: usize = 0;
        let mut i: usize = 0;
        while i < cap
            invariant
                i <= cap,
                cap <= HSM_MAX_SLOTS,
                cap <= out@.len(),
                self.wf(),
                out@.len() == old(out)@.len(),
                written == attached_upto(self.slots(), i as int).len(),
                written <= i,
                forall|k: int| 0 <= k < written ==> {
                    let info = #[trigger] out@[k];
                    let idx = attached_upto(self.slots(), i as int);
                    (info.slot, info.state, info.reserved@) == slot_info(idx[k], self.slots()[idx[k]])
                },
                forall|k: int| written <= k < out@.len() ==> #[trigger] out@[k] == old(out)@[k],
            decreases cap - i,
        {
            let ghost prev = attached_upto(self.slots(), i as int);
            proof {
                lemma_attached_upto_bounds(self.slots(), i as int);
            }
            if self.slots[i].state == HsmSlotState::Attached {
                let slot = &self.slots[i];
                let mut res = [0u8; 6];
                res[0] = slot.bus.kind().code();
                res[1] = slot.verify_result_code;
                res[2] = slot.pk_hash_prefix[0];
                res[3] = slot.pk_hash_prefix[1];
                res[4] = slot.pk_hash_prefix[2];
                res[5] = slot.pk_hash_prefix[3];
                let info = HsmSlotInfo { slot: i as u8, state: slot.state.code(), reserved: res };
                proof {
                    assert(info.reserved@ =~= seq![bus_kind_code(bus_instance_kind(slot.bus)), slot.verify_result_code]
                        + slot.pk_hash_prefix@);
                    assert(attached_upto(self.slots(), i as int + 1) == prev.push(i as int));
                }
                out[written] = info;
                written = written + 1;
            } else {
                proof {
                    assert(attached_upto(self.slots(), i as int + 1) == prev);
                }
            }
            i = i + 1;
        }
        written
    }
}

pub(crate) proof fn lemma_attached_upto_bounds(slots: Seq<HsmSlot>, n: int)
    requires
        0 <= n,
    ensures
        attached_upto(slots, n).len() <= n,
        forall|k: int| 0 <= k < attached_upto(slots, n).len() ==> 0 <= #[trigger] attached_upto(slots, n)[k] < n,
    decreases n,
{
    if n > 0 {
        lemma_attached_upto_bounds(slots, n - 1);
    }
}

/// Revocation: once `detach` has wiped the slot a capability names, that
/// capability no longer authenticates, for any rights.
pub proof fn law_detached_cap_is_dead(after: Seq<HsmSlot>, cap: HsmCapability, required: HsmRights)
    requires
        (cap.slot.0 as int) < HSM_MAX_SLOTS,
        slot_cleared(after[cap.slot.0 as int]),
    ensures
        !authentic(after, cap, required),
{
}

/// A capability returned by `attach` authenticates for every subset of the
/// rights it was issued with, as long as its slot is untouched.
pub proof fn law_attached_cap_authenticates(after: Seq<HsmSlot>, cap: HsmCapability, required: HsmRights)
    requires
        (cap.slot.0 as int) < HSM_MAX_SLOTS,
        after[cap.slot.0 as int].state == HsmSlotState::Attached,
        after[cap.slot.0 as int].token == cap.token,
        after[cap.slot.0 as int].rights == cap.rights,
        cap.token != 0,
        cap.rights.0 & required.0 == required.0,
    ensures
        authentic(after, cap, required),
{
}

/// Two capabilities for the same slot with different tokens never both
/// authenticate: only the stored token opens a slot.
pub proof fn law_token_unforgeable(slots: Seq<HsmSlot>, a: HsmCapability, b: HsmCapability, ra: HsmRights, rb: HsmRights)
    requires
        a.slot == b.slot,
        a.token != b.token,
    ensures
        !(authentic(slots, a, ra) && authentic(slots, b, rb)),
{
}

/// Rights issued with every attach from user space: use, enumerate, revoke,
/// relay source and relay destination.
pub const ATTACH_RIGHTS: u16 = 0x1F;

/// `a` and `b` differ at most in their bus.
pub open spec fn same_except_bus(a: HsmSlot, b: HsmSlot) -> bool {
    &&& a.state == b.state
    &&& a.token == b.token
    &&& a.rights == b.rights
    &&& a.verify_result_code == b.verify_result_code
    &&& a.pk_hash_prefix == b.pk_hash_prefix
}

impl HsmRegistry {
    /// Writes to the bus of slot `slot` (`Internal` for an index out of range).
    pub fn slot_bus_write(&mut self, slot: usize, data: &[u8], primitive_out: &[u8], audit: &AuditRing)
        -> (r: Result<(usize, WireAction), BusError>)
        requires
            old(self).wf(),
            audit.wf(),
        ensures
            final(self).wf(),
            slot >= HSM_MAX_SLOTS ==> r == Err::<(usize, WireAction), BusError>(BusError::Internal)
                && final(self).slots() == old(self).slots(),
            slot < HSM_MAX_SLOTS ==> {
                &&& final(self).slots().len() == HSM_MAX_SLOTS
                &&& same_except_bus(old(self).slots()[slot as int], final(self).slots()[slot as int])
                &&& bus_write_spec(old(self).slots()[slot as int].bus, final(self).slots()[slot as int].bus,
                    data@, primitive_out@, *audit, r)
                &&& forall|j: int| 0 <= j < HSM_MAX_SLOTS && j != slot ==> final(self).slots()[j] == old(self).slots()[j]
            },
    {
        if slot >= HSM_MAX_SLOTS {
            return Err(BusError::Internal);
        }
        let mut s = HsmSlot::new();
        std::mem::swap(&mut s, &mut self.slots[slot]);
        let r = s.bus.write(data, primitive_out, audit);
        self.slots.set(slot, s);
        proof {
            assert forall|j: int| 0 <= j < HSM_MAX_SLOTS implies (#[trigger] self.slots@[j]).bus.wf() by {
                if j != slot as int {
                    assert(self.slots@[j] == old(self).slots@[j]);
                }
            }
        }
        r
    }

    /// Reads from the bus of slot `slot` (`Internal` for an index out of range).
    pub fn slot_bus_read(&mut self, slot: usize, out: &mut [u8]) -> (r: Result<usize, BusError>)
        requires
            old(self).wf(),
        ensures
            final(self).wf(),
            slot >= HSM_MAX_SLOTS ==> r == Err::<usize, BusError>(BusError::Internal)
                && final(self).slots() == old(self).slots() && final(out)@ == old(out)@,
            slot < HSM_MAX_SLOTS ==> {
                &&& final(self).slots().len() == HSM_MAX_SLOTS
                &&& same_except_bus(old(self).slots()[slot as int], final(self).slots()[slot as int])
                &&& bus_read_spec(old(self).slots()[slot as int].bus, final(self).slots()[slot as int].bus,
                    old(out)@, final(out)@, r)
                &&& forall|j: int| 0 <= j < HSM_MAX_SLOTS && j != slot ==> final(self).slots()[j] == old(self).slots()[j]
            },
    {
        if slot >= HSM_MAX_SLOTS {
            return Err(BusError::Internal);
        }
        let mut s = HsmSlot::new();
        std::mem::swap(&mut s, &mut self.slots[slot]);
        let r = s.bus.read(out);
        self.slots.set(slot, s);
        proof {
            assert forall|j: int| 0 <= j < HSM_MAX_SLOTS implies (#[trigger] self.slots@[j]).bus.wf() by {
                if j != slot as int {
                    assert(self.slots@[j] == old(self).slots@[j]);
                }
            }
        }
        r
    }

    /// Role of the software bus in slot `slot`, if that slot holds one.
    pub fn slot_role(&self, slot: usize) -> (r: Option<crate::bus::SoftHsmRole>)
        requires
            self.wf(),
        ensures
            slot < HSM_MAX_SLOTS ==> (self.slots()[slot as int].bus matches BusInstance::Software(b) ==> r == Some(b.role_spec())),
            !(slot < HSM_MAX_SLOTS && self.slots()[slot as int].bus is Software) ==> r is None,
    {
        if slot >= HSM_MAX_SLOTS {
            return None;
        }
        match &self.slots[slot].bus {
            BusInstance::Software(b) => Some(b.role()),
            _ => None,
        }
    }

    /// AES-GCM key and next nonce of the software bus in slot `slot`, when that
    /// bus has the AES-GCM role.
    pub fn slot_aes_material(&self, slot: usize) -> (r: Option<([u8; 32], [u8; 12])>)
        requires
            self.wf(),
        ensures
            !(slot < HSM_MAX_SLOTS && self.slots()[slot as int].bus is Software) ==> r is None,
            slot < HSM_MAX_SLOTS ==> (self.slots()[slot as int].bus matches BusInstance::Software(b) ==> (
                (b.aes_spec() is None ==> r is None)
                && (b.aes_spec() matches Some(st) ==> r matches Some((k, n)) && k == st.key && n@ == crate::bus::gcm_nonce(
                    if st.nonce_counter == u64::MAX { 0 } else { (st.nonce_counter + 1) as u64 })))),
    {
        if slot >= HSM_MAX_SLOTS {
            return None;
        }
        match &self.slots[slot].bus {
            BusInstance::Software(b) => b.aes_material(),
            _ => None,
        }
    }

    /// Answers a wire Blake3Hash request whose payload is `payload`: the first 16
    /// octets are a capability that must authenticate for USE; the rest is
    /// written to that slot's bus (with `primitive_out`, the digest its role
    /// computed) and 32 octets are read back. Short payload: `BadFrame`; failed
    /// authentication: `Denied`; a bus error or a short read: `Internal`.
    pub fn wire_blake3(&mut self, payload: &[u8], primitive_out: &[u8], audit: &AuditRing) -> (r: Result<[u8; 32], WireStatus>)
        requires
            old(self).wf(),
            audit.wf(),
        ensures
            final(self).wf(),
            payload@.len() < 16 ==> r == Err::<[u8; 32], WireStatus>(WireStatus::BadFrame) && final(self).slots() == old(self).slots(),
            payload@.len() >= 16 && !authentic(old(self).slots(), cap_of_bytes(payload@), HsmRights(HSM_RIGHTS_USE)) ==>
                r == Err::<[u8; 32], WireStatus>(WireStatus::Denied) && final(self).slots() == old(self).slots(),
            r is Ok ==> payload@.len() >= 16 && authentic(old(self).slots(), cap_of_bytes(payload@), HsmRights(HSM_RIGHTS_USE)),
            payload@.len() >= 16 && authentic(old(self).slots(), cap_of_bytes(payload@), HsmRights(HSM_RIGHTS_USE)) ==> {
                let i = cap_of_bytes(payload@).slot.0 as int;
                &&& final(self).slots().len() == HSM_MAX_SLOTS
                &&& same_except_bus(old(self).slots()[i], final(self).slots()[i])
                &&& forall|j: int| 0 <= j < HSM_MAX_SLOTS && j != i ==> final(self).slots()[j] == old(self).slots()[j]
                &&& r is Err ==> r == Err::<[u8; 32], WireStatus>(WireStatus::Internal)
                &&& exists|mid: BusInstance, w: Result<(usize, WireAction), BusError>|
                    #[trigger] bus_write_spec(old(self).slots()[i].bus, mid, payload@.subrange(16, payload@.len() as int),
                        primitive_out@, *audit, w)
                    && (w is Err ==> r is Err && final(self).slots()[i].bus == mid)
                    && (w is Ok ==> exists|out1: Seq<u8>, rd: Result<usize, BusError>|
                        #[trigger] bus_read_spec(mid, final(self).slots()[i].bus, crate::crypto_service::zeros(32), out1, rd)
                        && (r is Ok <==> rd == Ok::<usize, BusError>(32))
                        && (r matches Ok(d) ==> d@ == out1))
            },
    {
        if payload.len() < 16 {
            return Err(WireStatus::BadFrame);
        }
        let mut cap = HsmCapability::from_bytes(payload);
        if !self.authenticate(&cap, HsmRights(HSM_RIGHTS_USE)) {
            cap.zeroize();
            return Err(WireStatus::Denied);
        }
        let slot = cap.slot.0 as usize;
        let input = &payload[16..payload.len()];
        let ghost s0 = self.slots();
        let w = self.slot_bus_write(slot, input, primitive_out, audit);
        let ghost mid = self.slots()[slot as int].bus;
        cap.zeroize();
        if w.is_err() {
            assert(bus_write_spec(s0[slot as int].bus, mid, payload@.subrange(16, payload@.len() as int),
                primitive_out@, *audit, w));
            return Err(WireStatus::Internal);
        }
        let ghost s1 = self.slots();
        let mut digest = [0u8; 32];
        assert(digest@ =~= crate::crypto_service::zeros(32));
        let ghost d0 = digest@;
        let rd = self.slot_bus_read(slot, &mut digest);
        proof {
            assert(bus_write_spec(s0[slot as int].bus, mid, payload@.subrange(16, payload@.len() as int),
                primitive_out@, *audit, w));
            assert(bus_read_spec(mid, self.slots()[slot as int].bus, crate::crypto_service::zeros(32), digest@, rd));
        }
        match rd {
            Ok(n) => {
                if n == 32 {
                    Ok(digest)
                } else {
                    Err(WireStatus::Internal)
                }
            },
            Err(_) => Err(WireStatus::Internal),
        }
    }

    /// Stores the answer to a Blake3Hash request on the Ring 3 bus of slot
    /// `slot`; `false` (and no change) when that slot holds no Ring 3 bus.
    pub fn complete_blake3(&mut self, slot: usize, req_id: u32, outcome: Result<[u8; 32], WireStatus>) -> (r: bool)
        requires
            old(self).wf(),
        ensures
            final(self).wf(),
            r == (slot < HSM_MAX_SLOTS && old(self).slots()[slot as int].bus is Ring3Process),
            !r ==> final(self).slots() == old(self).slots(),
            r ==> {
                &&& final(self).slots().len() == HSM_MAX_SLOTS
                &&& same_except_bus(old(self).slots()[slot as int], final(self).slots()[slot as int])
                &&& forall|j: int| 0 <= j < HSM_MAX_SLOTS && j != slot ==> final(self).slots()[j] == old(self).slots()[j]
                &&& final(self).slots()[slot as int].bus matches BusInstance::Ring3Process(b)
                    && (outcome matches Ok(d) ==> b.pending() == crate::bus::header_bytes(crate::bus::response_header(
                        req_id, crate::bus::WireCmd::Blake3Hash, WireStatus::Success, 32)) + d@)
                    && (outcome matches Err(st) ==> b.pending() == crate::bus::header_bytes(crate::bus::error_header(req_id, st)))
            },
    {
        if slot >= HSM_MAX_SLOTS {
            return false;
        }
        if !(self.slots[slot].bus.is_ring3()) {
            return false;
        }
        let mut s = HsmSlot::new();
        std::mem::swap(&mut s, &mut self.slots[slot]);
        match &mut s.bus {
            BusInstance::Ring3Process(b) => b.finish_blake3(req_id, outcome),
            _ => {},
        }
        self.slots.set(slot, s);
        proof {
            assert forall|j: int| 0 <= j < HSM_MAX_SLOTS implies (#[trigger] self.slots@[j]).bus.wf() by {
                if j != slot as int {
                    assert(self.slots@[j] == old(self).slots@[j]);
                }
            }
        }
        true
    }

    /// Records and answers an AttestSubmit request on the Ring 3 bus of slot
    /// `slot` (see `Ring3ProcessBus::finish_attest`); `false` (and no change)
    /// when that slot holds no Ring 3 bus.
    pub fn complete_attest(&mut self, slot: usize, req_id: u32, bus_octet: u8, verified: bool, pk_prefix: [u8; 4],
        audit: &mut AuditRing) -> (r: bool)
        requires
            old(self).wf(),
            old(audit).wf(),
        ensures
            final(self).wf(),
            final(audit).wf(),
            r == (slot < HSM_MAX_SLOTS && old(self).slots()[slot as int].bus is Ring3Process),
            !r ==> final(self).slots() == old(self).slots() && *final(audit) == *old(audit),
            r ==> {
                &&& final(self).slots().len() == HSM_MAX_SLOTS
                &&& same_except_bus(old(self).slots()[slot as int], final(self).slots()[slot as int])
                &&& forall|j: int| 0 <= j < HSM_MAX_SLOTS && j != slot ==> final(self).slots()[j] == old(self).slots()[j]
                &&& final(audit).history() == old(audit).history().push(crate::hsm_attest::EnrollEvent {
                    seq: old(audit).total_spec(), slot_idx: 0xFE, result: if verified { 5u8 } else { 6u8 },
                    bus_kind: bus_octet, pad: 0, pk_hash_prefix: pk_prefix })
                &&& final(self).slots()[slot as int].bus matches BusInstance::Ring3Process(b)
                    && (verified ==> b.pending() == crate::bus::header_bytes(crate::bus::response_header(
                        req_id, crate::bus::WireCmd::AttestSubmit, WireStatus::Success, 0)))
                    && (!verified ==> b.pending() == crate::bus::header_bytes(crate::bus::error_header(req_id, WireStatus::Denied)))
            },
    {
        if slot >= HSM_MAX_SLOTS {
            return false;
        }
        if !(self.slots[slot].bus.is_ring3()) {
            return false;
        }
        let mut s = HsmSlot::new();
        std::mem::swap(&mut s, &mut self.slots[slot]);
        match &mut s.bus {
            BusInstance::Ring3Process(b) => b.finish_attest(req_id, bus_octet, verified, pk_prefix, audit),
            _ => {},
        }
        self.slots.set(slot, s);
        proof {
            assert forall|j: int| 0 <= j < HSM_MAX_SLOTS implies (#[trigger] self.slots@[j]).bus.wf() by {
                if j != slot as int {
                    assert(self.slots@[j] == old(self).slots@[j]);
                }
            }
        }
        true
    }
}

/// Size of a capability in user memory.
pub const HSM_CAP_SIZE: u64 = 16;
/// Size of an enumerate record in user memory.
pub const HSM_SLOT_INFO_SIZE: u64 = 8;
/// Largest attach init blob.
pub const MAX_INIT_BLOB: u64 = 32;

/// Argument checks of the attach syscall (arg0 bus kind, arg1/arg2 init blob,
/// arg3/arg5 attestation payload, arg4 capability out-pointer), in the
/// order the handler makes them. Bus kinds 0 and 1 are accepted; kind 6 (network) is
/// refused as `Denied` and recorded in the audit ring (slot 0xFF, result 2,
/// bus 6); every other kind is `BadArg`. Then the blob and payload lengths
/// (`BadArg`; a payload length of zero is the four-argument attach without
/// attestation, any other length must be `ATTEST_EXACT`) and the user ranges
/// (`BadAddress`; the payload range only when there is a payload).
pub fn attach_check(ctx: &SyscallContext, audit: &mut AuditRing) -> (r: Result<BusKind, u64>)
    requires
        old(audit).wf(),
    ensures
        final(audit).wf(),
        ctx.arg0 == 6 ==> r == Err::<BusKind, u64>(rax_of(SyscallError::Denied))
            && final(audit).history().drop_last() == old(audit).history()
            && final(audit).history().len() == old(audit).history().len() + 1
            && ({
                let e = final(audit).history().last();
                &&& e.seq == old(audit).total_spec() && e.slot_idx == 0xFF && e.result == 2 && e.bus_kind == 6 && e.pad == 0
                &&& e.pk_hash_prefix@ == seq![0u8, 0u8, 0u8, 0u8]
            }),
        ctx.arg0 != 6 ==> *final(audit) == *old(audit),
        ctx.arg0 != 0 && ctx.arg0 != 1 && ctx.arg0 != 6 ==> r == Err::<BusKind, u64>(rax_of(SyscallError::BadArg)),
        (ctx.arg0 == 0 || ctx.arg0 == 1) ==> {
            let kind = if ctx.arg0 == 0 { BusKind::Software } else { BusKind::Ring3Process };
            &&& ctx.arg2 > MAX_INIT_BLOB ==> r == Err::<BusKind, u64>(rax_of(SyscallError::BadArg))
            &&& ctx.arg2 <= MAX_INIT_BLOB && ctx.arg5 != 0 && ctx.arg5 != ATTEST_EXACT ==>
                r == Err::<BusKind, u64>(rax_of(SyscallError::BadArg))
            &&& ctx.arg2 <= MAX_INIT_BLOB && (ctx.arg5 == 0 || ctx.arg5 == ATTEST_EXACT) ==> {
                &&& (ctx.arg2 > 0 && !user_range(ctx.arg1, ctx.arg2)) ==> r == Err::<BusKind, u64>(rax_of(SyscallError::BadAddress))
                &&& !(ctx.arg2 > 0 && !user_range(ctx.arg1, ctx.arg2)) && !user_range(ctx.arg4, HSM_CAP_SIZE) ==>
                    r == Err::<BusKind, u64>(rax_of(SyscallError::BadAddress))
                &&& !(ctx.arg2 > 0 && !user_range(ctx.arg1, ctx.arg2)) && user_range(ctx.arg4, HSM_CAP_SIZE)
                    && ctx.arg5 != 0 && !user_range(ctx.arg3, ctx.arg5) ==> r == Err::<BusKind, u64>(rax_of(SyscallError::BadAddress))
                &&& !(ctx.arg2 > 0 && !user_range(ctx.arg1, ctx.arg2)) && user_range(ctx.arg4, HSM_CAP_SIZE)
                    && (ctx.arg5 == 0 || user_range(ctx.arg3, ctx.arg5)) ==> r == Ok::<BusKind, u64>(kind)
            }
        },
{
    let kind = if ctx.arg0 == 0 {
        BusKind::Software
    } else if ctx.arg0 == 1 {
        BusKind::Ring3Process
    } else if ctx.arg0 == 6 {
        let z = [0u8; 4];
        audit.audit_enqueue(0xFF, 2, 6, z);
        proof {
            assert(z@ =~= seq![0u8, 0u8, 0u8, 0u8]);
            assert(audit.history().drop_last() =~= old(audit).history());
        }
        return Err(SyscallError::Denied.as_rax());
    } else {
        return Err(SyscallError::BadArg.as_rax());
    };
    if ctx.arg2 > MAX_INIT_BLOB {
        return Err(SyscallError::BadArg.as_rax());
    }
    if ctx.arg5 != 0 && ctx.arg5 != ATTEST_EXACT as u64 {
        return Err(SyscallError::BadArg.as_rax());
    }
    if ctx.arg2 > 0 && !user_range_ok(ctx.arg1, ctx.arg2) {
        return Err(SyscallError::BadAddress.as_rax());
    }
    if !user_range_ok(ctx.arg4, HSM_CAP_SIZE) {
        return Err(SyscallError::BadAddress.as_rax());
    }
    if ctx.arg5 != 0 && !user_range_ok(ctx.arg3, ctx.arg5) {
        return Err(SyscallError::BadAddress.as_rax());
    }
    Ok(kind)
}

/// Maps an attach result to the syscall's answer and records it: success is
/// audited with the slot (result 0); `AttestFailed` is audited with slot 0xFF
/// (result 1) and answered `Denied`; `Full` and `BadInit` are `BadArg`; the
/// rest `Internal` (neither audited).
pub fn attach_outcome(result: Result<HsmCapability, HsmCapError>, bus_kind: BusKind, pk_prefix: [u8; 4], audit: &mut AuditRing)
    -> (r: Result<HsmCapability, u64>)
    requires
        old(audit).wf(),
    ensures
        final(audit).wf(),
        result matches Ok(c) ==> r == Ok::<HsmCapability, u64>(c)
            && final(audit).history() == old(audit).history().push(crate::hsm_attest::EnrollEvent {
                seq: old(audit).total_spec(), slot_idx: c.slot.0, result: 0, bus_kind: bus_kind_code(bus_kind), pad: 0,
                pk_hash_prefix: pk_prefix }),
        result == Err::<HsmCapability, HsmCapError>(HsmCapError::AttestFailed) ==>
            r == Err::<HsmCapability, u64>(rax_of(SyscallError::Denied))
            && final(audit).history() == old(audit).history().push(crate::hsm_attest::EnrollEvent {
                seq: old(audit).total_spec(), slot_idx: 0xFF, result: 1, bus_kind: bus_kind_code(bus_kind), pad: 0,
                pk_hash_prefix: pk_prefix }),
        (result == Err::<HsmCapability, HsmCapError>(HsmCapError::Full)
            || result == Err::<HsmCapability, HsmCapError>(HsmCapError::BadInit)) ==>
            r == Err::<HsmCapability, u64>(rax_of(SyscallError::BadArg)) && *final(audit) == *old(audit),
        (result matches Err(e) && e != HsmCapError::AttestFailed && e != HsmCapError::Full && e != HsmCapError::BadInit) ==>
            r == Err::<HsmCapability, u64>(rax_of(SyscallError::Internal)) && *final(audit) == *old(audit),
{
    match result {
        Ok(c) => {
            audit.audit_enqueue(c.slot.0, 0, bus_kind.code(), pk_prefix);
            Ok(c)
        },
        Err(HsmCapError::AttestFailed) => {
            audit.audit_enqueue(0xFF, 1, bus_kind.code(), pk_prefix);
            Err(SyscallError::Denied.as_rax())
        },
        Err(HsmCapError::Full) => Err(SyscallError::BadArg.as_rax()),
        Err(HsmCapError::BadInit) => Err(SyscallError::BadArg.as_rax()),
        Err(_) => Err(SyscallError::Internal.as_rax()),
    }
}

/// Argument checks of the detach syscall (arg0 capability pointer, arg2 its size).
pub fn detach_check(ctx: &SyscallContext) -> (r: Result<(), u64>)
    ensures
        ctx.arg2 != HSM_CAP_SIZE ==> r == Err::<(), u64>(rax_of(SyscallError::BadArg)),
        ctx.arg2 == HSM_CAP_SIZE && !user_range(ctx.arg0, ctx.arg2) ==> r == Err::<(), u64>(rax_of(SyscallError::BadAddress)),
        ctx.arg2 == HSM_CAP_SIZE && user_range(ctx.arg0, ctx.arg2) ==> r == Ok::<(), u64>(()),
{
    if ctx.arg2 != HSM_CAP_SIZE {
        return Err(SyscallError::BadArg.as_rax());
    }
    if !user_range_ok(ctx.arg0, ctx.arg2) {
        return Err(SyscallError::BadAddress.as_rax());
    }
    Ok(())
}

/// Answer of the detach syscall: 0 on success, `Denied` for every refusal of
/// the capability, `Internal` otherwise.
pub fn detach_rax(result: Result<(), HsmCapError>) -> (r: u64)
    ensures
        result is Ok ==> r == 0,
        result matches Err(e) ==> (r == if e == HsmCapError::InvalidToken || e == HsmCapError::InvalidSlot
            || e == HsmCapError::NotAttached || e == HsmCapError::Busy || e == HsmCapError::RightsMissing {
            rax_of(SyscallError::Denied) } else { rax_of(SyscallError::Internal) }),
{
    match result {
        Ok(()) => 0,
        Err(HsmCapError::InvalidToken) => SyscallError::Denied.as_rax(),
        Err(HsmCapError::InvalidSlot) => SyscallError::Denied.as_rax(),
        Err(HsmCapError::NotAttached) => SyscallError::Denied.as_rax(),
        Err(HsmCapError::Busy) => SyscallError::Denied.as_rax(),
        Err(HsmCapError::RightsMissing) => SyscallError::Denied.as_rax(),
        Err(_) => SyscallError::Internal.as_rax(),
    }
}

/// First check of the enumerate syscall: the capability pointer (arg0).
pub fn enumerate_check(ctx: &SyscallContext) -> (r: Result<(), u64>)
    ensures
        !user_range(ctx.arg0, HSM_CAP_SIZE) ==> r == Err::<(), u64>(rax_of(SyscallError::BadAddress)),
        user_range(ctx.arg0, HSM_CAP_SIZE) ==> r == Ok::<(), u64>(()),
{
    if !user_range_ok(ctx.arg0, HSM_CAP_SIZE) {
        return Err(SyscallError::BadAddress.as_rax());
    }
    Ok(())
}

/// Checks of the write syscall (arg0 capability, arg1/arg2 data): the length
/// must be in 1..=CHAN_MAX (`BadArg`), both ranges in user memory (`BadAddress`).
pub fn write_check(ctx: &SyscallContext) -> (r: Result<(), u64>)
    ensures
        (ctx.arg2 == 0 || ctx.arg2 > CHAN_MAX) ==> r == Err::<(), u64>(rax_of(SyscallError::BadArg)),
        0 < ctx.arg2 <= CHAN_MAX ==> {
            &&& !user_range(ctx.arg0, HSM_CAP_SIZE) ==> r == Err::<(), u64>(rax_of(SyscallError::BadAddress))
            &&& user_range(ctx.arg0, HSM_CAP_SIZE) && !user_range(ctx.arg1, ctx.arg2) ==>
                r == Err::<(), u64>(rax_of(SyscallError::BadAddress))
            &&& user_range(ctx.arg0, HSM_CAP_SIZE) && user_range(ctx.arg1, ctx.arg2) ==> r == Ok::<(), u64>(())
        },
{
    if ctx.arg2 == 0 || ctx.arg2 > CHAN_MAX as u64 {
        return Err(SyscallError::BadArg.as_rax());
    }
    if !user_range_ok(ctx.arg0, HSM_CAP_SIZE) {
        return Err(SyscallError::BadAddress.as_rax());
    }
    if !user_range_ok(ctx.arg1, ctx.arg2) {
        return Err(SyscallError::BadAddress.as_rax());
    }
    Ok(())
}

/// Checks of the relay syscall (arg0/arg1 capabilities, arg2 byte count).
pub fn relay_check(ctx: &SyscallContext) -> (r: Result<(), u64>)
    ensures
        (ctx.arg2 == 0 || ctx.arg2 > CHAN_MAX) ==> r == Err::<(), u64>(rax_of(SyscallError::BadArg)),
        0 < ctx.arg2 <= CHAN_MAX ==> {
            &&& (!user_range(ctx.arg0, HSM_CAP_SIZE) || !user_range(ctx.arg1, HSM_CAP_SIZE)) ==>
                r == Err::<(), u64>(rax_of(SyscallError::BadAddress))
            &&& user_range(ctx.arg0, HSM_CAP_SIZE) && user_range(ctx.arg1, HSM_CAP_SIZE) ==> r == Ok::<(), u64>(())
        },
{
    if ctx.arg2 == 0 || ctx.arg2 > CHAN_MAX as u64 {
        return Err(SyscallError::BadArg.as_rax());
    }
    if !user_range_ok(ctx.arg0, HSM_CAP_SIZE) {
        return Err(SyscallError::BadAddress.as_rax());
    }
    if !user_range_ok(ctx.arg1, HSM_CAP_SIZE) {
        return Err(SyscallError::BadAddress.as_rax());
    }
    Ok(())
}

/// Checks of the read syscall (arg0 capability, arg1/arg2 output buffer): the
/// length must be in 16..=WIRE_FRAME_MAX.
pub fn read_check(ctx: &SyscallContext) -> (r: Result<(), u64>)
    ensures
        (ctx.arg2 < 16 || ctx.arg2 > crate::bus::WIRE_FRAME_MAX) ==> r == Err::<(), u64>(rax_of(SyscallError::BadArg)),
        16 <= ctx.arg2 <= crate::bus::WIRE_FRAME_MAX ==> {
            &&& !user_range(ctx.arg0, HSM_CAP_SIZE) ==> r == Err::<(), u64>(rax_of(SyscallError::BadAddress))
            &&& user_range(ctx.arg0, HSM_CAP_SIZE) && !user_range(ctx.arg1, ctx.arg2) ==>
                r == Err::<(), u64>(rax_of(SyscallError::BadAddress))
            &&& user_range(ctx.arg0, HSM_CAP_SIZE) && user_range(ctx.arg1, ctx.arg2) ==> r == Ok::<(), u64>(())
        },
{
    if ctx.arg2 < 16 || ctx.arg2 > crate::bus::WIRE_FRAME_MAX as u64 {
        return Err(SyscallError::BadArg.as_rax());
    }
    if !user_range_ok(ctx.arg0, HSM_CAP_SIZE) {
        return Err(SyscallError::BadAddress.as_rax());
    }
    if !user_range_ok(ctx.arg1, ctx.arg2) {
        return Err(SyscallError::BadAddress.as_rax());
    }
    Ok(())
}

impl HsmRegistry {
    /// Rest of the enumerate syscall once the capability is read: it must
    /// authenticate for ENUMERATE (`Denied`); the count (arg2) must be at most 8
    /// (`BadArg`) and the output range (arg1) user memory (`BadAddress`). Returns
    /// the records to copy out.
    pub fn enumerate_request(&self, ctx: &SyscallContext, cap: &HsmCapability) -> (r: Result<Vec<HsmSlotInfo>, u64>)
        requires
            self.wf(),
        ensures
            !authentic(self.slots(), *cap, HsmRights(HSM_RIGHTS_ENUMERATE)) ==> r == Err::<Vec<HsmSlotInfo>, u64>(rax_of(SyscallError::Denied)),
            authentic(self.slots(), *cap, HsmRights(HSM_RIGHTS_ENUMERATE)) ==> {
                &&& ctx.arg2 > HSM_MAX_SLOTS ==> r == Err::<Vec<HsmSlotInfo>, u64>(rax_of(SyscallError::BadArg))
                &&& ctx.arg2 <= HSM_MAX_SLOTS && !user_range(ctx.arg1, (ctx.arg2 * HSM_SLOT_INFO_SIZE) as u64) ==>
                    r == Err::<Vec<HsmSlotInfo>, u64>(rax_of(SyscallError::BadAddress))
                &&& ctx.arg2 <= HSM_MAX_SLOTS && user_range(ctx.arg1, (ctx.arg2 * HSM_SLOT_INFO_SIZE) as u64) ==> {
                    let idx = attached_upto(self.slots(), ctx.arg2 as int);
                    &&& r matches Ok(v) && v@.len() == idx.len()
                        && forall|k: int| 0 <= k < idx.len() ==> {
                            let info = #[trigger] v@[k];
                            (info.slot, info.state, info.reserved@) == slot_info(idx[k], self.slots()[idx[k]])
                        }
                }
            },
    {
        if !self.authenticate(cap, HsmRights(HSM_RIGHTS_ENUMERATE)) {
            return Err(SyscallError::Denied.as_rax());
        }
        if ctx.arg2 > HSM_MAX_SLOTS as u64 {
            return Err(SyscallError::BadArg.as_rax());
        }
        let info_bytes = ctx.arg2 * HSM_SLOT_INFO_SIZE;
        if !user_range_ok(ctx.arg1, info_bytes) {
            return Err(SyscallError::BadAddress.as_rax());
        }
        let count = ctx.arg2 as usize;
        let mut buf: Vec<HsmSlotInfo> = Vec::new();
        let mut k: usize = 0;
        while k < count
            invariant
                k <= count,
                buf@.len() == k,
            decreases count - k,
        {
            buf.push(HsmSlotInfo::empty());
            k = k + 1;
        }
        let n = self.enumerate(buf.as_mut_slice());
        proof {
            lemma_attached_upto_bounds(self.slots(), count as int);
        }
        let mut out: Vec<HsmSlotInfo> = Vec::new();
        let mut j: usize = 0;
        while j < n
            invariant
                j <= n,
                n <= buf@.len(),
                out@.len() == j,
                forall|q: int| 0 <= q < j ==> #[trigger] out@[q] == buf@[q],
            decreases n - j,
        {
            out.push(buf[j]);
            j = j + 1;
        }
        Ok(out)
    }

    /// Authenticates the capability of a write or read for USE and yields its slot.
    pub fn use_auth(&self, cap: &HsmCapability) -> (r: Result<usize, u64>)
        requires
            self.wf(),
        ensures
            authentic(self.slots(), *cap, HsmRights(HSM_RIGHTS_USE)) ==> r == Ok::<usize, u64>(cap.slot.0 as usize),
            !authentic(self.slots(), *cap, HsmRights(HSM_RIGHTS_USE)) ==> r == Err::<usize, u64>(rax_of(SyscallError::Denied)),
    {
        if self.authenticate(cap, HsmRights(HSM_RIGHTS_USE)) {
            Ok(cap.slot.0 as usize)
        } else {
            Err(SyscallError::Denied.as_rax())
        }
    }

    /// Authenticates both capabilities of a relay (both always checked):
    /// RELAY_SRC for the source, RELAY_DST for the destination.
    pub fn relay_auth(&self, src: &HsmCapability, dst: &HsmCapability) -> (r: Result<(usize, usize), u64>)
        requires
            self.wf(),
        ensures
            (authentic(self.slots(), *src, HsmRights(HSM_RIGHTS_RELAY_SRC)) && authentic(self.slots(), *dst, HsmRights(HSM_RIGHTS_RELAY_DST)))
                ==> r == Ok::<(usize, usize), u64>((src.slot.0 as usize, dst.slot.0 as usize)),
            !(authentic(self.slots(), *src, HsmRights(HSM_RIGHTS_RELAY_SRC)) && authentic(self.slots(), *dst, HsmRights(HSM_RIGHTS_RELAY_DST)))
                ==> r == Err::<(usize, usize), u64>(rax_of(SyscallError::Denied)),
    {
        let src_ok = self.authenticate(src, HsmRights(HSM_RIGHTS_RELAY_SRC));
        let dst_ok = self.authenticate(dst, HsmRights(HSM_RIGHTS_RELAY_DST));
        let a: u8 = if src_ok { 1 } else { 0 };
        let b: u8 = if dst_ok { 1 } else { 0 };
        proof {
            assert(a <= 1 && b <= 1 ==> ((a & b) == 1 <==> (a == 1 && b == 1))) by (bit_vector);
        }
        if (a & b) != 1 {
            return Err(SyscallError::Denied.as_rax());
        }
        Ok((src.slot.0 as usize, dst.slot.0 as usize))
    }

    /// Source half of a relay: reads exactly `byte_len` octets from slot
    /// `src_slot`'s bus. The relay is atomic: when fewer than `byte_len` octets
    /// are available, or the bus cannot hand out exactly that many, the answer is
    /// `Internal` and no slot changes.
    pub fn relay_read(&mut self, src_slot: usize, byte_len: usize) -> (r: Result<Vec<u8>, u64>)
        requires
            old(self).wf(),
        ensures
            final(self).wf(),
            r matches Ok(v) ==> v@.len() == byte_len,
            r matches Err(e) ==> e == rax_of(SyscallError::Internal),
            r is Err ==> final(self).slots() == old(self).slots(),
            src_slot >= HSM_MAX_SLOTS ==> r is Err,
            src_slot < HSM_MAX_SLOTS && bus_available(old(self).slots()[src_slot as int].bus) < byte_len ==> r is Err,
            src_slot < HSM_MAX_SLOTS && ({
                let b = old(self).slots()[src_slot as int].bus;
                ||| b is Software && bus_available(b) >= byte_len && (b matches BusInstance::Software(sb) && sb.is_open())
                ||| b is Ring3Process && bus_available(b) == byte_len && byte_len > 0
            }) ==> r is Ok,
            src_slot < HSM_MAX_SLOTS ==> {
                &&& final(self).slots().len() == HSM_MAX_SLOTS
                &&& same_except_bus(old(self).slots()[src_slot as int], final(self).slots()[src_slot as int])
                &&& forall|j: int| 0 <= j < HSM_MAX_SLOTS && j != src_slot ==> final(self).slots()[j] == old(self).slots()[j]
                &&& r matches Ok(v) ==> bus_read_spec(old(self).slots()[src_slot as int].bus,
                        final(self).slots()[src_slot as int].bus, Seq::new(byte_len as nat, |i: int| 0u8), v@,
                        Ok::<usize, BusError>(byte_len))
            },
    {
        if src_slot >= HSM_MAX_SLOTS {
            return Err(SyscallError::Internal.as_rax());
        }
        if self.slots[src_slot].bus.available() < byte_len {
            proof {
                assert(self.slots()[src_slot as int] == self.slots@[src_slot as int]);
            }
            return Err(SyscallError::Internal.as_rax());
        }
        let mut buf: Vec<u8> = Vec::new();
        let mut k: usize = 0;
        while k < byte_len
            invariant
                k <= byte_len,
                buf@ == Seq::new(k as nat, |i: int| 0u8),
            decreases byte_len - k,
        {
            buf.push(0);
            k = k + 1;
            assert(buf@ =~= Seq::new(k as nat, |i: int| 0u8));
        }
        let ghost out0 = buf@;
        let ghost before = *self;
        let rd = self.slot_bus_read(src_slot, buf.as_mut_slice());
        match rd {
            Ok(n) => {
                if n == byte_len {
                    Ok(buf)
                } else {
                    proof {
                        assert(false);
                    }
                    Err(SyscallError::Internal.as_rax())
                }
            },
            Err(_) => {
                proof {
                    assert(self.slots() =~= before.slots());
                }
                Err(SyscallError::Internal.as_rax())
            },
        }
    }

    /// Destination half of a relay: writes `data` to slot `dst_slot`'s bus; any
    /// error, or an accepted count other than `data.len()`, is `Internal`.
    pub fn relay_write(&mut self, dst_slot: usize, data: &[u8], primitive_out: &[u8], audit: &AuditRing) -> (r: u64)
        requires
            old(self).wf(),
            audit.wf(),
        ensures
            final(self).wf(),
            r == 0 || r == rax_of(SyscallError::Internal),
            dst_slot >= HSM_MAX_SLOTS ==> r == rax_of(SyscallError::Internal) && final(self).slots() == old(self).slots(),
            dst_slot < HSM_MAX_SLOTS ==> {
                &&& final(self).slots().len() == HSM_MAX_SLOTS
                &&& same_except_bus(old(self).slots()[dst_slot as int], final(self).slots()[dst_slot as int])
                &&& forall|j: int| 0 <= j < HSM_MAX_SLOTS && j != dst_slot ==> final(self).slots()[j] == old(self).slots()[j]
                &&& exists|rw: Result<(usize, WireAction), BusError>|
                    bus_write_spec(old(self).slots()[dst_slot as int].bus, final(self).slots()[dst_slot as int].bus,
                        data@, primitive_out@, *audit, rw)
                    && (r == 0 <==> (rw matches Ok((m, _)) && m == data@.len()))
            },
    {
        let w = self.slot_bus_write(dst_slot, data, primitive_out, audit);
        match w {
            Ok((m, _)) => {
                if m == data.len() {
                    0
                } else {
                    SyscallError::Internal.as_rax()
                }
            },
            Err(_) => SyscallError::Internal.as_rax(),
        }
    }

    /// Data half of the write syscall: writes `data` to slot `slot`'s bus once.
    /// The syscall answer is 0 when the bus accepted the write and `Internal`
    /// for any bus error; on success the wire work the bus handed out comes back
    /// with it.
    pub fn write_request(&mut self, slot: usize, data: &[u8], primitive_out: &[u8], audit: &AuditRing)
        -> (r: (u64, WireAction))
        requires
            old(self).wf(),
            audit.wf(),
        ensures
            final(self).wf(),
            r.0 == 0 || r.0 == rax_of(SyscallError::Internal),
            slot >= HSM_MAX_SLOTS ==> r.0 == rax_of(SyscallError::Internal) && final(self).slots() == old(self).slots(),
            slot < HSM_MAX_SLOTS ==> {
                &&& final(self).slots().len() == HSM_MAX_SLOTS
                &&& same_except_bus(old(self).slots()[slot as int], final(self).slots()[slot as int])
                &&& forall|j: int| 0 <= j < HSM_MAX_SLOTS && j != slot ==> final(self).slots()[j] == old(self).slots()[j]
                &&& exists|rw: Result<(usize, WireAction), BusError>|
                    bus_write_spec(old(self).slots()[slot as int].bus, final(self).slots()[slot as int].bus,
                        data@, primitive_out@, *audit, rw)
                    && (r.0 == 0 <==> rw is Ok)
                    && (rw matches Ok((_, a)) ==> r.1 == a)
            },
    {
        let w = self.slot_bus_write(slot, data, primitive_out, audit);
        match w {
            Ok((_, action)) => (0, action),
            Err(_) => (SyscallError::Internal.as_rax(), WireAction::Answered),
        }
    }

    /// Data half of the read syscall: reads up to `out_len` octets from slot
    /// `slot`'s bus; any bus error is `Internal`.
    pub fn read_request(&mut self, slot: usize, out_len: usize) -> (r: Result<Vec<u8>, u64>)
        requires
            old(self).wf(),
        ensures
            final(self).wf(),
            r matches Err(e) ==> e == rax_of(SyscallError::Internal),
            slot >= HSM_MAX_SLOTS ==> r is Err && final(self).slots() == old(self).slots(),
            slot < HSM_MAX_SLOTS ==> {
                &&& final(self).slots().len() == HSM_MAX_SLOTS
                &&& same_except_bus(old(self).slots()[slot as int], final(self).slots()[slot as int])
                &&& forall|j: int| 0 <= j < HSM_MAX_SLOTS && j != slot ==> final(self).slots()[j] == old(self).slots()[j]
                &&& exists|out0: Seq<u8>, out1: Seq<u8>, rr: Result<usize, BusError>|
                    out0 == Seq::new(out_len as nat, |i: int| 0u8) && bus_read_spec(old(self).slots()[slot as int].bus,
                        final(self).slots()[slot as int].bus, out0, out1, rr)
                    && (r is Ok <==> rr is Ok)
                    && (r matches Ok(v) ==> rr matches Ok(n) && v@ == out1.subrange(0, n as int))
            },
    {
        let mut buf: Vec<u8> = Vec::new();
        let mut k: usize = 0;
        while k < out_len
            invariant
                k <= out_len,
                buf@ == Seq::new(k as nat, |i: int| 0u8),
            decreases out_len - k,
        {
            buf.push(0);
            k = k + 1;
            assert(buf@ =~= Seq::new(k as nat, |i: int| 0u8));
        }
        let rd = self.slot_bus_read(slot, buf.as_mut_slice());
        match rd {
            Ok(n) => {
                let mut out: Vec<u8> = Vec::new();
                let mut j: usize = 0;
                while j < n
                    invariant
                        j <= n,
                        n <= buf@.len(),
                        out@.len() == j,
                        forall|q: int| 0 <= q < j ==> #[trigger] out@[q] == buf@[q],
                    decreases n - j,
                {
                    out.push(buf[j]);
                    j = j + 1;
                }
                proof {
                    assert(out@ =~= buf@.subrange(0, n as int));
                }
                Ok(out)
            },
            Err(_) => Err(SyscallError::Internal.as_rax()),
        }
    }
}

} // verus!

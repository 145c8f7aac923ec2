//! Long-term secret (PSK) access: the driver interface, the driver for a
//! machine without an HSM, and the software key store that stands in for one.
//!
//! The store has eight slots. A slot goes from Empty to Provisioned and, once
//! wiped, stays Wiped: it is never provisioned again. Key material never leaves
//! the store; callers get HKDF-Extract(salt, PSK) only.
use vstd::prelude::*;
use crate::crypto_service::{SHA256_OUTPUT_SIZE, hkdf_extract, hmac_spec};

verus! {

/// 16-octet PSK identifier.
#[derive(Clone, Copy)]
pub struct PskId(pub [u8; 16]);

impl PskId {
    /// The all-zero identifier.
    pub fn zero() -> (r: Self)
        ensures
            r.0@ == Seq::new(16, |i: int| 0u8),
    {
        let r = PskId([0u8; 16]);
        assert(r.0@ =~= Seq::new(16, |i: int| 0u8));
        r
    }

    /// Identifier from its octets.
    pub fn from_bytes(b: [u8; 16]) -> (r: Self)
        ensures
            r.0@ == b@,
    {
        PskId(b)
    }

    /// The identifier's octets.
    pub fn as_bytes(&self) -> (r: &[u8; 16])
        ensures
            r@ == self.0@,
    {
        &self.0
    }
}

/// Whether two identifiers are equal, comparing every octet.
pub fn id_eq(a: &PskId, b: &PskId) -> (r: bool)
    ensures
        r == (a.0@ == b.0@),
{
    let mut diff: u8 = 0;
    let mut i: usize = 0;
    while i < 16
        invariant
            i <= 16,
            (diff == 0) == (forall|j: int| 0 <= j < i ==> a.0@[j] == b.0@[j]),
        decreases 16 - i,
    {
        let ai = a.0[i];
        let bi = b.0[i];
        let x = ai ^ bi;
        proof {
            assert((x == 0) == (ai == bi)) by (bit_vector)
                requires x == ai ^ bi;
            assert(((diff | x) == 0) == (diff == 0 && x == 0)) by (bit_vector);
        }
        diff = diff | x;
        i = i + 1;
    }
    proof {
        if diff == 0 {
            assert(a.0@ =~= b.0@);
        }
    }
    diff == 0
}

/// Driver failures.
#[derive(Clone, Copy, Debug, PartialEq, Eq, Structural)]
pub enum HsmError {
    PskNotFound,
    NotProvisioned,
    Internal,
}

/// Access to long-term secrets: whether an identifier is provisioned,
/// HKDF-Extract with the secret as input key material, and destruction.
pub trait HsmDriver {
    fn psk_exists(&self, id: &PskId) -> bool;

    fn psk_hkdf_extract(&self, id: &PskId, salt: &[u8], prk_out: &mut [u8; SHA256_OUTPUT_SIZE]) -> Result<(), HsmError>;

    fn psk_destroy(&mut self, id: &PskId) -> Result<(), HsmError>;
}

/// Driver of a machine without an HSM: nothing is ever provisioned.
pub struct NullHsm;

impl NullHsm {
    pub fn new() -> (r: Self) {
        NullHsm
    }
}

impl HsmDriver for NullHsm {
    fn psk_exists(&self, id: &PskId) -> (r: bool)
        ensures
            !r,
    {
        false
    }

    fn psk_hkdf_extract(&self, id: &PskId, salt: &[u8], prk_out: &mut [u8; SHA256_OUTPUT_SIZE]) -> (r: Result<(), HsmError>)
        ensures
            r == Err::<(), HsmError>(HsmError::NotProvisioned),
            final(prk_out)@ == old(prk_out)@,
    {
        Err(HsmError::NotProvisioned)
    }

    fn psk_destroy(&mut self, id: &PskId) -> (r: Result<(), HsmError>)
        ensures
            r == Ok::<(), HsmError>(()),
    {
        Ok(())
    }
}

/// Most slots in the store.
pub const MAX_PSK_SLOTS: usize = 8;
/// Longest PSK.
pub const MAX_PSK_LEN: usize = 64;
/// Slot number reserved for the trust root.
pub const TRUST_ROOT_PSK_SLOT: u8 = 0xFE;

/// Lifecycle of a store slot.
#[derive(Clone, Copy, Debug, PartialEq, Eq, Structural)]
pub enum SlotState {
    Empty,
    Provisioned,
    Wiped,
}

/// Key store failures.
#[derive(Clone, Copy, Debug, PartialEq, Eq, Structural)]
pub enum KeystoreError {
    InvalidLength,
    Full,
    Duplicate,
    NotFound,
}

/// One slot: identifier, state and key material (`material_len` octets).
pub struct PskSlot {
    id: PskId,
    state: SlotState,
    material: [u8; MAX_PSK_LEN],
    material_len: usize,
}

/// Abstract slot: identifier octets, state and key material.
pub struct SlotView {
    pub id: Seq<u8>,
    pub state: SlotState,
    pub material: Seq<u8>,
}

impl PskSlot {
    pub closed spec fn view_slot(&self) -> SlotView {
        SlotView { id: self.id.0@, state: self.state, material: self.material@.subrange(0, self.material_len as int) }
    }

    fn empty() -> (r: Self)
        ensures
            r.material_len == 0,
            r.state == SlotState::Empty,
            r.id.0@ == Seq::new(16, |i: int| 0u8),
    {
        PskSlot { id: PskId::zero(), state: SlotState::Empty, material: [0u8; MAX_PSK_LEN], material_len: 0 }
    }
}

/// Sixteen zero octets.
pub open spec fn zero_id() -> Seq<u8> {
    Seq::new(16, |i: int| 0u8)
}

/// Index of the first provisioned slot holding `id`.
pub open spec fn first_provisioned(s: Seq<SlotView>, id: Seq<u8>) -> Option<int>
    decreases s.len(),
{
    if s.len() == 0 {
        None
    } else {
        match first_provisioned(s.drop_last(), id) {
            Some(i) => Some(i),
            None => if s.last().state == SlotState::Provisioned && s.last().id == id { Some(s.len() - 1) } else { None },
        }
    }
}

/// Index of the first non-empty slot holding `id`.
pub open spec fn first_with_id(s: Seq<SlotView>, id: Seq<u8>) -> Option<int>
    decreases s.len(),
{
    if s.len() == 0 {
        None
    } else {
        match first_with_id(s.drop_last(), id) {
            Some(i) => Some(i),
            None => if s.last().state != SlotState::Empty && s.last().id == id { Some(s.len() - 1) } else { None },
        }
    }
}

/// Number of provisioned slots among the first `n`.
pub open spec fn provisioned_upto(s: Seq<SlotView>, n: int) -> nat
    decreases n,
{
    if n <= 0 { 0 } else { provisioned_upto(s, n - 1) + if s[n - 1].state == SlotState::Provisioned { 1nat } else { 0nat } }
}

/// No two provisioned slots hold the same identifier.
pub closed spec fn ids_unique(slots: Seq<PskSlot>) -> bool {
    forall|x: int, y: int| 0 <= x < y < slots.len() && (#[trigger] slots[x]).state == SlotState::Provisioned
        && (#[trigger] slots[y]).state == SlotState::Provisioned ==> slots[x].id.0@ != slots[y].id.0@
}

/// The software key store.
pub struct SoftKeystore {
    slots: Vec<PskSlot>,
}

impl SoftKeystore {
    /// Slot count, material bounds, non-provisioned slots hold no identifier
    /// or material, and no two provisioned slots share an identifier.
    pub closed spec fn wf(&self) -> bool {
        &&& self.slots@.len() == MAX_PSK_SLOTS
        &&& forall|i: int| 0 <= i < MAX_PSK_SLOTS ==> (#[trigger] self.slots@[i]).material_len <= MAX_PSK_LEN
        &&& forall|i: int| 0 <= i < MAX_PSK_SLOTS ==> (#[trigger] self.slots@[i]).state != SlotState::Provisioned
            ==> self.slots@[i].id.0@ == zero_id() && self.slots@[i].material_len == 0
        &&& ids_unique(self.slots@)
    }

    fn well_formed(&self) -> (r: bool)
        ensures
            r == self.wf(),
    {
        if self.slots.len() != MAX_PSK_SLOTS {
            return false;
        }
        let mut i: usize = 0;
        while i < MAX_PSK_SLOTS
            invariant
                i <= MAX_PSK_SLOTS,
                self.slots@.len() == MAX_PSK_SLOTS,
                forall|j: int| 0 <= j < i ==> (#[trigger] self.slots@[j]).material_len <= MAX_PSK_LEN,
                forall|j: int| 0 <= j < i ==> (#[trigger] self.slots@[j]).state != SlotState::Provisioned
                    ==> self.slots@[j].id.0@ == zero_id() && self.slots@[j].material_len == 0,
            decreases MAX_PSK_SLOTS - i,
        {
            let s = &self.slots[i];
            if s.material_len > MAX_PSK_LEN {
                return false;
            }
            if s.state != SlotState::Provisioned {
                if s.material_len != 0 {
                    return false;
                }
                let z = PskId::zero();
                if !id_eq(&s.id, &z) {
                    return false;
                }
            }
            i = i + 1;
        }
        let mut a: usize = 0;
        while a < MAX_PSK_SLOTS
            invariant
                a <= MAX_PSK_SLOTS,
                self.slots@.len() == MAX_PSK_SLOTS,
                forall|j: int| 0 <= j < MAX_PSK_SLOTS ==> (#[trigger] self.slots@[j]).material_len <= MAX_PSK_LEN,
                forall|j: int| 0 <= j < MAX_PSK_SLOTS ==> (#[trigger] self.slots@[j]).state != SlotState::Provisioned
                    ==> self.slots@[j].id.0@ == zero_id() && self.slots@[j].material_len == 0,
                forall|x: int, y: int| 0 <= x < a && x < y < MAX_PSK_SLOTS
                    && (#[trigger] self.slots@[x]).state == SlotState::Provisioned
                    && (#[trigger] self.slots@[y]).state == SlotState::Provisioned ==> self.slots@[x].id.0@ != self.slots@[y].id.0@,
            decreases MAX_PSK_SLOTS - a,
        {
            let mut b: usize = a + 1;
            while b < MAX_PSK_SLOTS
                invariant
                    a < MAX_PSK_SLOTS,
                    a + 1 <= b <= MAX_PSK_SLOTS,
                    self.slots@.len() == MAX_PSK_SLOTS,
                    forall|x: int, y: int| 0 <= x < a && x < y < MAX_PSK_SLOTS
                        && (#[trigger] self.slots@[x]).state == SlotState::Provisioned
                        && (#[trigger] self.slots@[y]).state == SlotState::Provisioned ==> self.slots@[x].id.0@ != self.slots@[y].id.0@,
                    forall|y: int| a < y < b && self.slots@[a as int].state == SlotState::Provisioned
                        && (#[trigger] self.slots@[y]).state == SlotState::Provisioned ==> self.slots@[a as int].id.0@ != self.slots@[y].id.0@,
                decreases MAX_PSK_SLOTS - b,
            {
                if self.slots[a].state == SlotState::Provisioned && self.slots[b].state == SlotState::Provisioned
                    && id_eq(&self.slots[a].id, &self.slots[b].id) {
                    return false;
                }
                b = b + 1;
            }
            a = a + 1;
        }
        true
    }

    /// The slots.
    pub closed spec fn slots(&self) -> Seq<SlotView> {
        self.slots@.map_values(|s: PskSlot| s.view_slot())
    }

    /// Eight empty slots.
    pub fn new() -> (r: Self)
        ensures
            r.wf(),
            r.slots().len() == MAX_PSK_SLOTS,
            forall|i: int| 0 <= i < MAX_PSK_SLOTS ==> (#[trigger] r.slots()[i]).state == SlotState::Empty,
    {
        let mut slots: Vec<PskSlot> = Vec::new();
        let mut i: usize = 0;
        while i < MAX_PSK_SLOTS
            invariant
                i <= MAX_PSK_SLOTS,
                slots@.len() == i,
                forall|j: int| 0 <= j < i ==> (#[trigger] slots@[j]).material_len == 0 && slots@[j].state == SlotState::Empty
                    && slots@[j].id.0@ == zero_id(),
            decreases MAX_PSK_SLOTS - i,
        {
            slots.push(PskSlot::empty());
            i = i + 1;
        }
        SoftKeystore { slots }
    }

    fn find_provisioned(&self, id: &PskId) -> (r: Option<usize>)
        requires
            self.wf(),
        ensures
            r matches Some(i) ==> first_provisioned(self.slots(), id.0@) == Some(i as int),
            r is None ==> first_provisioned(self.slots(), id.0@) is None,
    {
        let mut i: usize = 0;
        while i < MAX_PSK_SLOTS
            invariant
                i <= MAX_PSK_SLOTS,
                self.slots@.len() == MAX_PSK_SLOTS,
                first_provisioned(self.slots().take(i as int), id.0@) is None,
            decreases MAX_PSK_SLOTS - i,
        {
            let s = &self.slots[i];
            proof {
                assert(self.slots().take(i as int + 1).drop_last() =~= self.slots().take(i as int));
            }
            if s.state == SlotState::Provisioned && id_eq(&s.id, id) {
                proof {
                    lemma_prefix_fp(self.slots(), id.0@, i as int + 1);
                }
                return Some(i);
            }
            i = i + 1;
        }
        assert(self.slots().take(MAX_PSK_SLOTS as int) =~= self.slots());
        None
    }

    fn find_any_with_id(&self, id: &PskId) -> (r: Option<usize>)
        requires
            self.wf(),
        ensures
            r matches Some(i) ==> first_with_id(self.slots(), id.0@) == Some(i as int),
            r is None ==> first_with_id(self.slots(), id.0@) is None,
    {
        let mut i: usize = 0;
        while i < MAX_PSK_SLOTS
            invariant
                i <= MAX_PSK_SLOTS,
                self.slots@.len() == MAX_PSK_SLOTS,
                first_with_id(self.slots().take(i as int), id.0@) is None,
            decreases MAX_PSK_SLOTS - i,
        {
            let s = &self.slots[i];
            proof {
                assert(self.slots().take(i as int + 1).drop_last() =~= self.slots().take(i as int));
            }
            if s.state != SlotState::Empty && id_eq(&s.id, id) {
                proof {
                    lemma_prefix_fw(self.slots(), id.0@, i as int + 1);
                }
                return Some(i);
            }
            i = i + 1;
        }
        assert(self.slots().take(MAX_PSK_SLOTS as int) =~= self.slots());
        None
    }

    /// Stores `material` (1..=64 octets) under `id` in the first empty slot.
    /// An identifier already present in a non-empty slot is `Duplicate`.
    pub fn provision(&mut self, id: PskId, material: &[u8]) -> (r: Result<(), KeystoreError>)
        requires
            old(self).wf(),
        ensures
            final(self).wf(),
            final(self).slots().len() == MAX_PSK_SLOTS,
            r is Err ==> final(self).slots() == old(self).slots(),
            r is Ok ==> provisioned_with(final(self).slots(), id.0@),
            (material@.len() == 0 || material@.len() > MAX_PSK_LEN) ==> r == Err::<(), KeystoreError>(KeystoreError::InvalidLength),
            0 < material@.len() <= MAX_PSK_LEN && first_with_id(old(self).slots(), id.0@) is Some ==>
                r == Err::<(), KeystoreError>(KeystoreError::Duplicate),
            0 < material@.len() <= MAX_PSK_LEN && first_with_id(old(self).slots(), id.0@) is None ==> {
                &&& (forall|j: int| 0 <= j < MAX_PSK_SLOTS ==> old(self).slots()[j].state != SlotState::Empty) ==>
                    r == Err::<(), KeystoreError>(KeystoreError::Full)
                &&& (exists|j: int| 0 <= j < MAX_PSK_SLOTS && old(self).slots()[j].state == SlotState::Empty) ==>
                    r == Ok::<(), KeystoreError>(())
                &&& r is Ok ==> exists|i: int| 0 <= i < MAX_PSK_SLOTS
                    && old(self).slots()[i].state == SlotState::Empty
                    && (forall|j: int| 0 <= j < i ==> old(self).slots()[j].state != SlotState::Empty)
                    && final(self).slots()[i] == (SlotView { id: id.0@, state: SlotState::Provisioned, material: material@ })
                    && (forall|j: int| 0 <= j < MAX_PSK_SLOTS && j != i ==> final(self).slots()[j] == old(self).slots()[j])
            },
    {
        if material.len() == 0 || material.len() > MAX_PSK_LEN {
            return Err(KeystoreError::InvalidLength);
        }
        if self.find_any_with_id(&id).is_some() {
            return Err(KeystoreError::Duplicate);
        }
        let mut i: usize = 0;
        while i < MAX_PSK_SLOTS
            invariant
                i <= MAX_PSK_SLOTS,
                self.slots@ == old(self).slots@,
                self.slots@.len() == MAX_PSK_SLOTS,
                self.wf(),
                0 < material@.len() <= MAX_PSK_LEN,
                first_with_id(self.slots(), id.0@) is None,
                forall|j: int| 0 <= j < i ==> self.slots@[j].state != SlotState::Empty,
            decreases MAX_PSK_SLOTS - i,
        {
            proof {
                assert(self.slots()[i as int] == self.slots@[i as int].view_slot());
            }
            if self.slots[i].state == SlotState::Empty {
                let mut mat = [0u8; MAX_PSK_LEN];
                let mut k: usize = 0;
                while k < material.len()
                    invariant
                        k <= material@.len(),
                        material@.len() <= MAX_PSK_LEN,
                        forall|q: int| 0 <= q < k ==> #[trigger] mat@[q] == material@[q],
                    decreases material@.len() - k,
                {
                    mat[k] = material[k];
                    k = k + 1;
                }
                let slot = PskSlot { id, state: SlotState::Provisioned, material: mat, material_len: material.len() };
                self.slots.set(i, slot);
                proof {
                    assert(slot.view_slot().material =~= material@);
                    assert(self.slots()[i as int] == slot.view_slot());
                    assert forall|j: int| 0 <= j < MAX_PSK_SLOTS && j != i implies self.slots()[j] == old(self).slots()[j] by {
                        assert(self.slots@[j] == old(self).slots@[j]);
                    }
                    lemma_first_with_id_props(old(self).slots(), id.0@);
                    assert forall|j: int| 0 <= j < MAX_PSK_SLOTS && j != i
                        && (#[trigger] self.slots@[j]).state == SlotState::Provisioned implies self.slots@[j].id.0@ != id.0@ by {
                        assert(self.slots@[j] == old(self).slots@[j]);
                        assert(old(self).slots()[j] == old(self).slots@[j].view_slot());
                    }
                    assert(ids_unique(self.slots@));
                }
                return Ok(());
            }
            i = i + 1;
        }
        Err(KeystoreError::Full)
    }

    /// Wipes every slot: key material zeroed, identifier zeroed, state Wiped.
    pub fn wipe_all(&mut self)
        requires
            old(self).wf(),
        ensures
            final(self).wf(),
            final(self).slots().len() == MAX_PSK_SLOTS,
            forall|i: int| 0 <= i < MAX_PSK_SLOTS ==> (#[trigger] final(self).slots()[i]).state == SlotState::Wiped
                && final(self).slots()[i].id == zero_id() && final(self).slots()[i].material.len() == 0,
    {
        let mut i: usize = 0;
        while i < MAX_PSK_SLOTS
            invariant
                i <= MAX_PSK_SLOTS,
                self.slots@.len() == MAX_PSK_SLOTS,
                forall|j: int| 0 <= j < MAX_PSK_SLOTS ==> (#[trigger] self.slots@[j]).material_len <= MAX_PSK_LEN,
                forall|j: int| 0 <= j < MAX_PSK_SLOTS ==> (#[trigger] self.slots@[j]).state != SlotState::Provisioned
                    ==> self.slots@[j].id.0@ == zero_id() && self.slots@[j].material_len == 0,
                forall|j: int| 0 <= j < i ==> (#[trigger] self.slots@[j]).state == SlotState::Wiped,
            decreases MAX_PSK_SLOTS - i,
        {
            let slot = PskSlot { id: PskId::zero(), state: SlotState::Wiped, material: [0u8; MAX_PSK_LEN], material_len: 0 };
            self.slots.set(i, slot);
            i = i + 1;
        }
        proof {
            assert forall|i: int| 0 <= i < MAX_PSK_SLOTS implies (#[trigger] self.slots()[i]).state == SlotState::Wiped
                && self.slots()[i].id == zero_id() && self.slots()[i].material.len() == 0 by {
                assert(self.slots@[i].material_len == 0);
            }
        }
    }

    /// Number of provisioned slots.
    pub fn provisioned_count(&self) -> (r: usize)
        requires
            self.wf(),
        ensures
            r == provisioned_upto(self.slots(), MAX_PSK_SLOTS as int),
    {
        let mut n: usize = 0;
        let mut i: usize = 0;
        while i < MAX_PSK_SLOTS
            invariant
                i <= MAX_PSK_SLOTS,
                self.slots@.len() == MAX_PSK_SLOTS,
                n == provisioned_upto(self.slots(), i as int),
                n <= i,
            decreases MAX_PSK_SLOTS - i,
        {
            if self.slots[i].state == SlotState::Provisioned {
                n = n + 1;
            }
            i = i + 1;
        }
        n
    }
}

proof fn lemma_prefix_fp(s: Seq<SlotView>, id: Seq<u8>, k: int)
    requires
        0 <= k <= s.len(),
        first_provisioned(s.take(k), id) is Some,
    ensures
        first_provisioned(s, id) == first_provisioned(s.take(k), id),
    decreases s.len() - k,
{
    if k < s.len() {
        assert(s.take(k + 1).drop_last() =~= s.take(k));
        lemma_prefix_fp(s, id, k + 1);
    } else {
        assert(s.take(k) =~= s);
    }
}

proof fn lemma_prefix_fw(s: Seq<SlotView>, id: Seq<u8>, k: int)
    requires
        0 <= k <= s.len(),
        first_with_id(s.take(k), id) is Some,
    ensures
        first_with_id(s, id) == first_with_id(s.take(k), id),
    decreases s.len() - k,
{
    if k < s.len() {
        assert(s.take(k + 1).drop_last() =~= s.take(k));
        lemma_prefix_fw(s, id, k + 1);
    } else {
        assert(s.take(k) =~= s);
    }
}

proof fn lemma_first_provisioned_props(s: Seq<SlotView>, id: Seq<u8>)
    ensures
        first_provisioned(s, id) matches Some(i) ==> 0 <= i < s.len() && s[i].state == SlotState::Provisioned && s[i].id == id,
        first_provisioned(s, id) is None <==> !(exists|j: int| 0 <= j < s.len() && s[j].state == SlotState::Provisioned && s[j].id == id),
    decreases s.len(),
{
    if s.len() > 0 {
        lemma_first_provisioned_props(s.drop_last(), id);
        assert forall|j: int| 0 <= j < s.len() - 1 implies s.drop_last()[j] == s[j] by {}
        if first_provisioned(s, id) is None {
            assert forall|j: int| 0 <= j < s.len() implies !(s[j].state == SlotState::Provisioned && s[j].id == id) by {
                if j < s.len() - 1 {
                    assert(s.drop_last()[j] == s[j]);
                }
            }
        }
    }
}

proof fn lemma_first_with_id_props(s: Seq<SlotView>, id: Seq<u8>)
    ensures
        first_with_id(s, id) matches Some(i) ==> 0 <= i < s.len() && s[i].state != SlotState::Empty && s[i].id == id,
        first_with_id(s, id) is None ==> forall|j: int| 0 <= j < s.len() ==> !(s[j].state != SlotState::Empty && s[j].id == id),
    decreases s.len(),
{
    if s.len() > 0 {
        lemma_first_with_id_props(s.drop_last(), id);
        if first_with_id(s, id) is None {
            assert forall|j: int| 0 <= j < s.len() implies !(s[j].state != SlotState::Empty && s[j].id == id) by {
                if j < s.len() - 1 {
                    assert(s.drop_last()[j] == s[j]);
                }
            }
        }
    }
}

/// Whether some provisioned slot holds `id`.
pub open spec fn provisioned_with(s: Seq<SlotView>, id: Seq<u8>) -> bool {
    exists|j: int| 0 <= j < s.len() && s[j].state == SlotState::Provisioned && s[j].id == id
}

impl HsmDriver for SoftKeystore {
    /// Whether a provisioned slot holds `id`; every slot is examined.
    fn psk_exists(&self, id: &PskId) -> (r: bool)
        ensures
            self.wf() ==> r == provisioned_with(self.slots(), id.0@),
    {
        if self.slots.len() != MAX_PSK_SLOTS {
            return false;
        }
        let mut acc: u8 = 0;
        let mut i: usize = 0;
        while i < MAX_PSK_SLOTS
            invariant
                i <= MAX_PSK_SLOTS,
                self.slots@.len() == MAX_PSK_SLOTS,
                acc <= 1,
                (acc == 1) == (exists|j: int| 0 <= j < i && self.slots()[j].state == SlotState::Provisioned && self.slots()[j].id == id.0@),
            decreases MAX_PSK_SLOTS - i,
        {
            let s = &self.slots[i];
            let hit: u8 = if s.state == SlotState::Provisioned && id_eq(&s.id, id) { 1 } else { 0 };
            proof {
                assert(self.slots()[i as int] == s.view_slot());
                assert(acc <= 1 && hit <= 1 ==> (acc | hit) <= 1 && (((acc | hit) == 1) == (acc == 1 || hit == 1))) by (bit_vector);
            }
            acc = acc | hit;
            i = i + 1;
        }
        acc == 1
    }

    /// PRK = HMAC-SHA256(salt, PSK) for the first provisioned slot holding `id`.
    fn psk_hkdf_extract(&self, id: &PskId, salt: &[u8], prk_out: &mut [u8; SHA256_OUTPUT_SIZE]) -> (r: Result<(), HsmError>)
        ensures
            self.wf() && first_provisioned(self.slots(), id.0@) is None ==> r == Err::<(), HsmError>(HsmError::PskNotFound)
                && final(prk_out)@ == old(prk_out)@,
            self.wf() ==> (first_provisioned(self.slots(), id.0@) matches Some(i) ==> ({
                let m = self.slots()[i].material;
                &&& m.len() == 0 ==> r == Err::<(), HsmError>(HsmError::Internal) && final(prk_out)@ == old(prk_out)@
                &&& m.len() > 0 ==> r == Ok::<(), HsmError>(()) && final(prk_out)@ == hmac_spec(salt@, m)
            })),
    {
        if !self.well_formed() {
            return Err(HsmError::Internal);
        }
        let idx = match self.find_provisioned(id) {
            Some(i) => i,
            None => return Err(HsmError::PskNotFound),
        };
        proof {
            lemma_first_provisioned_props(self.slots(), id.0@);
            assert(self.slots()[idx as int] == self.slots@[idx as int].view_slot());
        }
        let slot = &self.slots[idx];
        if slot.material_len == 0 {
            return Err(HsmError::Internal);
        }
        let psk = &slot.material[0..slot.material_len];
        hkdf_extract(salt, psk, prk_out);
        Ok(())
    }

    /// Wipes the first non-empty slot holding `id` (state Wiped, identifier and
    /// material zeroed); nothing to wipe is no error. Afterwards no key is
    /// provisioned under a non-zero `id`.
    fn psk_destroy(&mut self, id: &PskId) -> (r: Result<(), HsmError>)
        ensures
            r == Ok::<(), HsmError>(()),
            old(self).wf() ==> final(self).wf(),
            old(self).wf() ==> final(self).slots().len() == MAX_PSK_SLOTS,
            !old(self).wf() ==> *final(self) == *old(self),
            old(self).wf() && first_with_id(old(self).slots(), id.0@) is None ==> final(self).slots() == old(self).slots(),
            old(self).wf() ==> (first_with_id(old(self).slots(), id.0@) matches Some(i) ==> (
                final(self).slots()[i] == (SlotView { id: zero_id(), state: SlotState::Wiped, material: Seq::empty() })
                && forall|j: int| 0 <= j < MAX_PSK_SLOTS && j != i ==> final(self).slots()[j] == old(self).slots()[j])),
            old(self).wf() && id.0@ != zero_id() ==> !provisioned_with(final(self).slots(), id.0@),
    {
        if !self.well_formed() {
            return Ok(());
        }
        let found = self.find_any_with_id(id);
        proof {
            lemma_first_with_id_props(self.slots(), id.0@);
        }
        match found {
            Some(idx) => {
                let slot = PskSlot { id: PskId::zero(), state: SlotState::Wiped, material: [0u8; MAX_PSK_LEN], material_len: 0 };
                self.slots.set(idx, slot);
                proof {
                    assert(slot.view_slot().material =~= Seq::<u8>::empty());
                    assert forall|j: int| 0 <= j < MAX_PSK_SLOTS && j != idx implies self.slots()[j] == old(self).slots()[j] by {
                        assert(self.slots@[j] == old(self).slots@[j]);
                    }
                }
            },
            None => {},
        }
        Ok(())
    }
}

} // verus!

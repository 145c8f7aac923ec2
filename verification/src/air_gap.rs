//! Air-gap policy: one-shot hand-over of the audit-read (and, in builds with
//! an external network, the network-attach) capability, the boot self check,
//! and the 456-octet status record served to the audit-read holder.
use vstd::prelude::*;
use crate::hsm_attest::{AuditRing, EnrollEvent, AUDIT_RING_CAPACITY, min3};
use crate::hsm_registry::{HsmCapability, HsmRegistry, HsmRights, HsmSlotIdx, HsmSlotInfo, HSM_CAP_SIZE, HSM_RIGHTS_NONE, HSM_SLOT_INVALID, attached_upto, slot_info, HSM_MAX_SLOTS};
use crate::syscall::{SyscallContext, SyscallError, rax_of, user_range, user_range_ok};
use crate::capability::ct_eq_u64;

verus! {

/// State of a one-shot capability.
#[derive(Clone, Copy, Debug, PartialEq, Eq, Structural)]
pub enum NetCapState {
    Provisioned,
    Taken,
}

/// Status record header length.
pub const GAP_STATUS_HEADER_LEN: usize = 8;
/// Length of the eight slot entries.
pub const GAP_STATUS_ENTRIES_LEN: usize = 64;
/// Length of the 32 audit events.
pub const GAP_STATUS_AUDIT_LEN: usize = 384;
/// Status record length.
pub const GAP_STATUS_LEN: usize = 456;

/// One slot entry of the status record.
#[derive(Clone, Copy)]
pub struct StatusEntry {
    pub slot_idx: u8,
    pub bus_kind: u8,
    pub attest_result: u8,
    pub pad: u8,
    pub pk_hash_prefix: [u8; 4],
}

/// The two one-shot capabilities and their states.
pub struct AirGap {
    pub audit_read_cap: HsmCapability,
    pub audit_cap_state: NetCapState,
    pub network_attach_cap: HsmCapability,
    pub network_cap_state: NetCapState,
}

/// `after` is `before` with one more event (sequence = old total).
pub open spec fn audited(before: AuditRing, after: AuditRing, slot_idx: u8, result: u8, bus_kind: u8) -> bool {
    &&& after.history().len() == before.history().len() + 1
    &&& after.history().drop_last() == before.history()
    &&& after.history().last().seq == before.total_spec()
    &&& after.history().last().slot_idx == slot_idx
    &&& after.history().last().result == result
    &&& after.history().last().bus_kind == bus_kind
    &&& after.history().last().pad == 0
    &&& after.history().last().pk_hash_prefix@ == seq![0u8, 0u8, 0u8, 0u8]
}

fn audit_zero(audit: &mut AuditRing, slot_idx: u8, result: u8, bus_kind: u8)
    requires
        old(audit).wf(),
    ensures
        final(audit).wf(),
        audited(*old(audit), *final(audit), slot_idx, result, bus_kind),
        final(audit).total_spec() as int == (old(audit).total_spec() + 1) % 0x1_0000_0000,
{
    let z = [0u8; 4];
    audit.audit_enqueue(slot_idx, result, bus_kind, z);
    proof {
        assert(z@ =~= seq![0u8, 0u8, 0u8, 0u8]);
        assert(audit.history().drop_last() =~= old(audit).history());
    }
}

impl AirGap {
    /// Both capabilities invalid and provisioned.
    pub fn new() -> (r: Self)
        ensures
            r.audit_read_cap.token == 0,
            r.network_attach_cap.token == 0,
            r.audit_read_cap.slot == HsmSlotIdx(HSM_SLOT_INVALID) && r.network_attach_cap.slot == HsmSlotIdx(HSM_SLOT_INVALID),
            r.audit_read_cap.rights == HsmRights(HSM_RIGHTS_NONE) && r.network_attach_cap.rights == HsmRights(HSM_RIGHTS_NONE),
            r.audit_read_cap.pad0 == 0 && r.audit_read_cap.pad == 0 && r.audit_read_cap.pad1@ == seq![0u8, 0u8, 0u8],
            r.network_attach_cap.pad0 == 0 && r.network_attach_cap.pad == 0
                && r.network_attach_cap.pad1@ == seq![0u8, 0u8, 0u8],
            r.audit_cap_state == NetCapState::Provisioned,
            r.network_cap_state == NetCapState::Provisioned,
    {
        AirGap {
            audit_read_cap: HsmCapability::invalid(),
            audit_cap_state: NetCapState::Provisioned,
            network_attach_cap: HsmCapability::invalid(),
            network_cap_state: NetCapState::Provisioned,
        }
    }

    /// Gives the audit-read capability its token: the first of two tokens drawn
    /// (`None`, a failed draw, leaves token 0; the second token is discarded).
    pub fn init_audit_read_cap(&mut self, first_token: Option<u64>)
        ensures
            final(self).audit_read_cap.token == match first_token { Some(t) => t, None => 0 },
            final(self).audit_cap_state == old(self).audit_cap_state,
            final(self).network_attach_cap == old(self).network_attach_cap,
            final(self).network_cap_state == old(self).network_cap_state,
    {
        self.audit_read_cap.token = match first_token {
            Some(t) => t,
            None => 0,
        };
    }

    /// Gives the network-attach capability its token, as `init_audit_read_cap`.
    pub fn init_network_cap(&mut self, first_token: Option<u64>)
        ensures
            final(self).network_attach_cap.token == match first_token { Some(t) => t, None => 0 },
            final(self).audit_read_cap == old(self).audit_read_cap,
            final(self).audit_cap_state == old(self).audit_cap_state,
            final(self).network_cap_state == old(self).network_cap_state,
    {
        self.network_attach_cap.token = match first_token {
            Some(t) => t,
            None => 0,
        };
    }

    /// Boot self check: each present capability must have a token. A missing
    /// token is recorded (slot 0xFC, result 4, with the bus kind of the
    /// capability: 6 for network, 0 for audit) and the check fails; the boot
    /// must then stop. `network` says whether this build has the network capability.
    pub fn gap_self_check(&self, network: bool, audit: &mut AuditRing) -> (r: bool)
        requires
            old(audit).wf(),
        ensures
            final(audit).wf(),
            network && self.network_attach_cap.token == 0 ==> !r && audited(*old(audit), *final(audit), 0xFC, 4, 6),
            !(network && self.network_attach_cap.token == 0) && self.audit_read_cap.token == 0 ==>
                !r && audited(*old(audit), *final(audit), 0xFC, 4, 0),
            !(network && self.network_attach_cap.token == 0) && self.audit_read_cap.token != 0 ==>
                r && *final(audit) == *old(audit),
    {
        if network && self.network_attach_cap.token == 0 {
            audit_zero(audit, 0xFC, 4, 6);
            return false;
        }
        if self.audit_read_cap.token == 0 {
            audit_zero(audit, 0xFC, 4, 0);
            return false;
        }
        true
    }

    /// One-shot hand-over of the audit-read capability to the user buffer at
    /// arg0: a non-user buffer is `Denied` (nothing recorded); once taken it is
    /// `Denied` and recorded (0xFD, result 2); the first take records (0xFD,
    /// result 3), marks it taken and returns the capability to copy out.
    pub fn take_audit_read_cap(&mut self, ctx: &SyscallContext, audit: &mut AuditRing) -> (r: Result<HsmCapability, u64>)
        requires
            old(audit).wf(),
        ensures
            final(audit).wf(),
            final(self).network_attach_cap == old(self).network_attach_cap,
            final(self).network_cap_state == old(self).network_cap_state,
            final(self).audit_read_cap == old(self).audit_read_cap,
            !user_range(ctx.arg0, HSM_CAP_SIZE) ==> r == Err::<HsmCapability, u64>(rax_of(SyscallError::Denied))
                && *final(audit) == *old(audit) && final(self).audit_cap_state == old(self).audit_cap_state,
            user_range(ctx.arg0, HSM_CAP_SIZE) && old(self).audit_cap_state == NetCapState::Taken ==>
                r == Err::<HsmCapability, u64>(rax_of(SyscallError::Denied)) && audited(*old(audit), *final(audit), 0xFD, 2, 0)
                && final(self).audit_cap_state == NetCapState::Taken,
            user_range(ctx.arg0, HSM_CAP_SIZE) && old(self).audit_cap_state == NetCapState::Provisioned ==>
                r == Ok::<HsmCapability, u64>(old(self).audit_read_cap) && audited(*old(audit), *final(audit), 0xFD, 3, 0)
                && final(self).audit_cap_state == NetCapState::Taken,
    {
        if !user_range_ok(ctx.arg0, HSM_CAP_SIZE) {
            return Err(SyscallError::Denied.as_rax());
        }
        if self.audit_cap_state != NetCapState::Provisioned {
            audit_zero(audit, 0xFD, 2, 0);
            return Err(SyscallError::Denied.as_rax());
        }
        let cap = self.audit_read_cap;
        self.audit_cap_state = NetCapState::Taken;
        audit_zero(audit, 0xFD, 3, 0);
        Ok(cap)
    }

    /// One-shot hand-over of the network-attach capability, as
    /// `take_audit_read_cap` with records (0xFE, 2 / 3, bus 6).
    pub fn take_network_cap(&mut self, ctx: &SyscallContext, audit: &mut AuditRing) -> (r: Result<HsmCapability, u64>)
        requires
            old(audit).wf(),
        ensures
            final(audit).wf(),
            final(self).audit_read_cap == old(self).audit_read_cap,
            final(self).audit_cap_state == old(self).audit_cap_state,
            final(self).network_attach_cap == old(self).network_attach_cap,
            !user_range(ctx.arg0, HSM_CAP_SIZE) ==> r == Err::<HsmCapability, u64>(rax_of(SyscallError::Denied))
                && *final(audit) == *old(audit) && final(self).network_cap_state == old(self).network_cap_state,
            user_range(ctx.arg0, HSM_CAP_SIZE) && old(self).network_cap_state == NetCapState::Taken ==>
                r == Err::<HsmCapability, u64>(rax_of(SyscallError::Denied)) && audited(*old(audit), *final(audit), 0xFE, 2, 6)
                && final(self).network_cap_state == NetCapState::Taken,
            user_range(ctx.arg0, HSM_CAP_SIZE) && old(self).network_cap_state == NetCapState::Provisioned ==>
                r == Ok::<HsmCapability, u64>(old(self).network_attach_cap) && audited(*old(audit), *final(audit), 0xFE, 3, 6)
                && final(self).network_cap_state == NetCapState::Taken,
    {
        if !user_range_ok(ctx.arg0, HSM_CAP_SIZE) {
            return Err(SyscallError::Denied.as_rax());
        }
        if self.network_cap_state != NetCapState::Provisioned {
            audit_zero(audit, 0xFE, 2, 6);
            return Err(SyscallError::Denied.as_rax());
        }
        let cap = self.network_attach_cap;
        self.network_cap_state = NetCapState::Taken;
        audit_zero(audit, 0xFE, 3, 6);
        Ok(cap)
    }
}

/// Status-record entry of an enumerate record: slot, bus kind, attestation
/// result, a zero octet, key-hash prefix.
pub open spec fn entry_bytes(slot: u8, reserved: Seq<u8>) -> Seq<u8> {
    seq![slot, reserved[0], reserved[1], 0u8] + reserved.subrange(2, 6)
}

/// Entries of the first `k` records.
pub open spec fn entries_bytes(infos: Seq<(u8, Seq<u8>)>, k: int) -> Seq<u8>
    decreases k,
{
    if k <= 0 { Seq::empty() } else { entries_bytes(infos, k - 1) + entry_bytes(infos[k - 1].0, infos[k - 1].1) }
}

/// The eight enumerate records of the status record: the attached slots in
/// order, then records naming no slot.
pub open spec fn status_infos(slots: Seq<crate::hsm_registry::HsmSlot>) -> Seq<(u8, Seq<u8>)> {
    let idx = attached_upto(slots, HSM_MAX_SLOTS as int);
    Seq::new(8, |k: int| if k < idx.len() {
        (slot_info(idx[k], slots[idx[k]]).0, slot_info(idx[k], slots[idx[k]]).2)
    } else {
        (0xFFu8, seq![0u8, 0u8, 0u8, 0u8, 0u8, 0u8])
    })
}

/// The 456-octet status record: attached-slot count (LE u16), events copied
/// (LE u16), running total (LE u32), eight slot entries, then the copied
/// events, zero-padded to 32.
pub open spec fn status_record_spec(slots: Seq<crate::hsm_registry::HsmSlot>, events: Seq<EnrollEvent>, total: u32) -> Seq<u8> {
    let n = attached_upto(slots, HSM_MAX_SLOTS as int).len();
    crate::bus::le16_bytes(n as u16) + crate::bus::le16_bytes(events.len() as u16) + crate::bus::le32_bytes(total)
        + entries_bytes(status_infos(slots), 8) + crate::bus::events_bytes(events)
        + Seq::new((GAP_STATUS_AUDIT_LEN - 12 * events.len()) as nat, |i: int| 0u8)
}

/// `bytes` is the status record of the slots and the ring: the registry part
/// and the snapshot events (the most recent ones, oldest first).
pub open spec fn is_status_record(slots: Seq<crate::hsm_registry::HsmSlot>, audit: AuditRing, bytes: Seq<u8>) -> bool {
    exists|events: Seq<EnrollEvent>|
        events.len() == min3(audit.total_spec() as int, AUDIT_RING_CAPACITY as int, AUDIT_RING_CAPACITY as int)
        && (forall|i: int| 0 <= i < events.len() ==> #[trigger] events[i] == audit.slots()[
            ((if audit.total_spec() > AUDIT_RING_CAPACITY { audit.head_spec() as int } else { 0 }) + i) % 32])
        && bytes == status_record_spec(slots, events, audit.total_spec())
}

/// Builds the status record from the registry and the audit ring (the events
/// are those of a snapshot: the most recent ones, oldest first).
pub fn status_record(reg: &HsmRegistry, audit: &AuditRing) -> (r: Vec<u8>)
    requires
        reg.wf(),
        audit.wf(),
    ensures
        r@.len() == GAP_STATUS_LEN,
        is_status_record(reg.slots(), *audit, r@),
{
    let mut infos: Vec<HsmSlotInfo> = Vec::new();
    let mut k: usize = 0;
    while k < 8
        invariant
            k <= 8,
            infos@.len() == k,
            forall|q: int| 0 <= q < k ==> (#[trigger] infos@[q]).slot == 0xFF
                && infos@[q].reserved@ == seq![0u8, 0u8, 0u8, 0u8, 0u8, 0u8],
        decreases 8 - k,
    {
        infos.push(HsmSlotInfo::empty());
        k = k + 1;
    }
    let n = reg.enumerate(infos.as_mut_slice());
    let mut events_local: Vec<EnrollEvent> = Vec::new();
    let mut e: usize = 0;
    while e < AUDIT_RING_CAPACITY
        invariant
            e <= AUDIT_RING_CAPACITY,
            events_local@.len() == e,
        decreases AUDIT_RING_CAPACITY - e,
    {
        events_local.push(EnrollEvent::zeroed());
        e = e + 1;
    }
    let (written, total) = audit.audit_snapshot(events_local.as_mut_slice());
    let ghost events = events_local@.subrange(0, written as int);
    let ghost infos_spec = status_infos(reg.slots());
    proof {
        crate::hsm_registry::lemma_attached_upto_bounds(reg.slots(), HSM_MAX_SLOTS as int);
        assert forall|q: int| 0 <= q < 8 implies (#[trigger] infos@[q]).slot == infos_spec[q].0
            && infos@[q].reserved@ == infos_spec[q].1 by {
            if q < n {
            }
        }
    }
    let mut buf: Vec<u8> = Vec::new();
    crate::bus::put16(&mut buf, n as u16);
    crate::bus::put16(&mut buf, written as u16);
    crate::bus::put32(&mut buf, total);
    let ghost head = buf@;
    let mut i: usize = 0;
    while i < 8
        invariant
            i <= 8,
            infos@.len() == 8,
            forall|q: int| 0 <= q < 8 ==> (#[trigger] infos@[q]).slot == infos_spec[q].0
                && infos@[q].reserved@ == infos_spec[q].1,
            buf@ == head + entries_bytes(infos_spec, i as int),
        decreases 8 - i,
    {
        let info = infos[i];
        let ghost before = buf@;
        crate::bus::put_u8(&mut buf, info.slot);
        crate::bus::put_u8(&mut buf, info.reserved[0]);
        crate::bus::put_u8(&mut buf, info.reserved[1]);
        crate::bus::put_u8(&mut buf, 0);
        crate::bus::put_u8(&mut buf, info.reserved[2]);
        crate::bus::put_u8(&mut buf, info.reserved[3]);
        crate::bus::put_u8(&mut buf, info.reserved[4]);
        crate::bus::put_u8(&mut buf, info.reserved[5]);
        proof {
            assert(buf@ =~= before + entry_bytes(info.slot, info.reserved@));
        }
        i = i + 1;
    }
    let ghost mid = buf@;
    let mut j: usize = 0;
    while j < written
        invariant
            j <= written,
            written <= AUDIT_RING_CAPACITY,
            written <= events_local@.len(),
            events == events_local@.subrange(0, written as int),
            buf@ == mid + crate::bus::events_bytes(events_local@.subrange(0, j as int)),
        decreases written - j,
    {
        let ev = events_local[j];
        let ghost before = buf@;
        crate::bus::put32(&mut buf, ev.seq);
        crate::bus::put_u8(&mut buf, ev.slot_idx);
        crate::bus::put_u8(&mut buf, ev.result);
        crate::bus::put_u8(&mut buf, ev.bus_kind);
        crate::bus::put_u8(&mut buf, ev.pad);
        crate::bus::put_u8(&mut buf, ev.pk_hash_prefix[0]);
        crate::bus::put_u8(&mut buf, ev.pk_hash_prefix[1]);
        crate::bus::put_u8(&mut buf, ev.pk_hash_prefix[2]);
        crate::bus::put_u8(&mut buf, ev.pk_hash_prefix[3]);
        proof {
            assert(events_local@.subrange(0, j as int + 1).drop_last() =~= events_local@.subrange(0, j as int));
            assert(buf@ =~= before + crate::bus::event_bytes(ev));
        }
        j = j + 1;
    }
    let ghost tail_start = buf@;
    let pad = GAP_STATUS_AUDIT_LEN - 12 * written;
    let mut z: usize = 0;
    while z < pad
        invariant
            z <= pad,
            buf@ == tail_start + Seq::new(z as nat, |q: int| 0u8),
        decreases pad - z,
    {
        crate::bus::put_u8(&mut buf, 0);
        z = z + 1;
        assert(buf@ =~= tail_start + Seq::new(z as nat, |q: int| 0u8));
    }
    proof {
        assert(events_local@.subrange(0, written as int) == events);
        lemma_events_len(events);
        lemma_entries_len(infos_spec, 8);
        assert(buf@ =~= status_record_spec(reg.slots(), events, total));
    }
    buf
}

proof fn lemma_events_len(events: Seq<EnrollEvent>)
    ensures
        crate::bus::events_bytes(events).len() == 12 * events.len(),
    decreases events.len(),
{
    if events.len() > 0 {
        lemma_events_len(events.drop_last());
    }
}

proof fn lemma_entries_len(infos: Seq<(u8, Seq<u8>)>, k: int)
    requires
        0 <= k <= infos.len(),
        forall|q: int| 0 <= q < infos.len() ==> (#[trigger] infos[q]).1.len() == 6,
    ensures
        entries_bytes(infos, k).len() == 8 * k,
    decreases k,
{
    if k > 0 {
        lemma_entries_len(infos, k - 1);
    }
}

impl AirGap {
    /// The status syscall (arg0/arg1 output buffer, arg2 the caller's token): a
    /// buffer shorter than the record is `Denied`; a token other than the
    /// audit-read capability's is `Denied` and recorded (0xFF, result 2); a
    /// non-user buffer is `BadAddress`; otherwise the record to copy out.
    pub fn handle_status(&self, ctx: &SyscallContext, reg: &HsmRegistry, audit: &mut AuditRing) -> (r: Result<Vec<u8>, u64>)
        requires
            reg.wf(),
            old(audit).wf(),
        ensures
            final(audit).wf(),
            ctx.arg1 < GAP_STATUS_LEN ==> r == Err::<Vec<u8>, u64>(rax_of(SyscallError::Denied)) && *final(audit) == *old(audit),
            ctx.arg1 >= GAP_STATUS_LEN && ctx.arg2 != self.audit_read_cap.token ==>
                r == Err::<Vec<u8>, u64>(rax_of(SyscallError::Denied)) && audited(*old(audit), *final(audit), 0xFF, 2, 0),
            ctx.arg1 >= GAP_STATUS_LEN && ctx.arg2 == self.audit_read_cap.token && !user_range(ctx.arg0, ctx.arg1) ==>
                r == Err::<Vec<u8>, u64>(rax_of(SyscallError::BadAddress)) && *final(audit) == *old(audit),
            ctx.arg1 >= GAP_STATUS_LEN && ctx.arg2 == self.audit_read_cap.token && user_range(ctx.arg0, ctx.arg1) ==>
                (r matches Ok(v) && v@.len() == GAP_STATUS_LEN && is_status_record(reg.slots(), *old(audit), v@))
                && *final(audit) == *old(audit),
    {
        if ctx.arg1 < GAP_STATUS_LEN as u64 {
            return Err(SyscallError::Denied.as_rax());
        }
        if ct_eq_u64(self.audit_read_cap.token, ctx.arg2) != 1 {
            audit_zero(audit, 0xFF, 2, 0);
            return Err(SyscallError::Denied.as_rax());
        }
        if !user_range_ok(ctx.arg0, ctx.arg1) {
            return Err(SyscallError::BadAddress.as_rax());
        }
        Ok(status_record(reg, audit))
    }
}

} // verus!

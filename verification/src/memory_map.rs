//! Firmware-neutral physical memory map (fixed capacity, no allocation beyond the region list).
use vstd::prelude::*;

verus! {

/// Errors a firmware adapter reports while building a memory map.
#[derive(Debug)]
pub enum ParseError {
    /// The firmware info address was null or misaligned.
    InvalidAddress,
    /// The header's total size was out of range.
    InvalidSize,
}

/// Purpose of a physical memory region.
#[derive(Clone, Copy, Debug, PartialEq, Eq, Structural)]
pub enum MemoryKind {
    Usable,
    Reserved,
    AcpiReclaimable,
    AcpiNvs,
    BadMemory,
}

/// One physical memory region `[base, base + length)`.
#[derive(Clone, Copy, Debug)]
pub struct MemoryRegion {
    pub base: u64,
    pub length: u64,
    pub kind: MemoryKind,
}

impl MemoryRegion {
    /// Exclusive end address of the region.
    pub fn end(self) -> (r: u64)
        requires
            self.base + self.length <= u64::MAX,
        ensures
            r == self.base + self.length,
    {
        self.base + self.length
    }
}

/// Maximum number of regions a map holds; further regions are dropped silently.
pub const MAX_REGIONS: usize = 64;

/// Sum of the lengths of the usable regions of `s`.
pub open spec fn usable_bytes(s: Seq<MemoryRegion>) -> int
    decreases s.len(),
{
    if s.len() == 0 {
        0
    } else {
        usable_bytes(s.drop_last()) + if s.last().kind == MemoryKind::Usable {
            s.last().length as int
        } else {
            0
        }
    }
}

/// Largest exclusive end address over the regions of `s` (0 for no region).
pub open spec fn highest_end(s: Seq<MemoryRegion>) -> int
    decreases s.len(),
{
    if s.len() == 0 {
        0
    } else {
        let prev = highest_end(s.drop_last());
        let e = s.last().base + s.last().length;
        if prev >= e { prev } else { e }
    }
}

/// The usable regions of `s`, in order.
pub open spec fn usable_only(s: Seq<MemoryRegion>) -> Seq<MemoryRegion> {
    s.filter(|r: MemoryRegion| r.kind == MemoryKind::Usable)
}

/// Parsed physical memory map.
pub struct MemoryMap {
    regions: Vec<MemoryRegion>,
}

impl View for MemoryMap {
    type V = Seq<MemoryRegion>;

    closed spec fn view(&self) -> Seq<MemoryRegion> {
        self.regions@
    }
}

impl MemoryMap {
    /// Invariant: never more than `MAX_REGIONS` regions.
    pub closed spec fn wf(&self) -> bool {
        self.regions@.len() <= MAX_REGIONS
    }

    /// A well-formed map holds at most `MAX_REGIONS` regions.
    pub proof fn lemma_wf_len(&self)
        requires
            self.wf(),
        ensures
            self@.len() <= MAX_REGIONS,
    {
    }

    /// An empty map.
    pub fn empty() -> (m: Self)
        ensures
            m.wf(),
            m@ == Seq::<MemoryRegion>::empty(),
    {
        MemoryMap { regions: Vec::new() }
    }

    /// Appends a region; once `MAX_REGIONS` regions are held the region is ignored.
    /// Always succeeds.
    pub fn add_region(&mut self, region: MemoryRegion) -> (r: Result<(), ParseError>)
        requires
            old(self).wf(),
        ensures
            final(self).wf(),
            r is Ok,
            old(self)@.len() < MAX_REGIONS ==> final(self)@ == old(self)@.push(region),
            old(self)@.len() >= MAX_REGIONS ==> final(self)@ == old(self)@,
    {
        if self.regions.len() >= MAX_REGIONS {
            return Ok(());
        }
        self.regions.push(region);
        Ok(())
    }

    /// All regions, in insertion order.
    pub fn regions(&self) -> (r: &[MemoryRegion])
        ensures
            r@ == self@,
    {
        self.regions.as_slice()
    }

    /// The usable regions, in insertion order.
    pub fn usable_regions(&self) -> (r: Vec<MemoryRegion>)
        ensures
            r@ == usable_only(self@),
    {
        let mut out: Vec<MemoryRegion> = Vec::new();
        let n = self.regions.len();
        for i in 0..n
            invariant
                n == self@.len(),
                out@ == usable_only(self@.subrange(0, i as int)),
        {
            let r = self.regions[i];
            proof {
                let s = self@.subrange(0, i as int + 1);
                assert(s.drop_last() == self@.subrange(0, i as int));
                reveal_with_fuel(Seq::filter, 1);
                assert(s.filter(|r: MemoryRegion| r.kind == MemoryKind::Usable)
                    == s.drop_last().filter(|r: MemoryRegion| r.kind == MemoryKind::Usable)
                    + if s.last().kind == MemoryKind::Usable { seq![s.last()] } else { Seq::empty() });
            }
            if r.kind == MemoryKind::Usable {
                out.push(r);
            }
        }
        assert(self@.subrange(0, n as int) == self@);
        out
    }

    /// Total bytes in usable regions.
    pub fn total_usable_bytes(&self) -> (r: u64)
        requires
            usable_bytes(self@) <= u64::MAX,
        ensures
            r == usable_bytes(self@),
    {
        let mut acc: u64 = 0;
        let n = self.regions.len();
        for i in 0..n
            invariant
                n == self@.len(),
                usable_bytes(self@) <= u64::MAX,
                acc == usable_bytes(self@.subrange(0, i as int)),
        {
            proof {
                let s = self@.subrange(0, i as int + 1);
                assert(s.drop_last() == self@.subrange(0, i as int));
                lemma_usable_bytes_prefix_le(self@, i as int + 1);
            }
            if self.regions[i].kind == MemoryKind::Usable {
                acc = acc + self.regions[i].length;
            }
        }
        assert(self@.subrange(0, n as int) == self@);
        acc
    }

    /// Highest exclusive end address among all regions (0 when empty).
    pub fn highest_addr(&self) -> (r: u64)
        requires
            forall|i: int| 0 <= i < self@.len() ==> self@[i].base + self@[i].length <= u64::MAX,
        ensures
            r == highest_end(self@),
    {
        let mut acc: u64 = 0;
        let n = self.regions.len();
        for i in 0..n
            invariant
                n == self@.len(),
                forall|k: int| 0 <= k < self@.len() ==> self@[k].base + self@[k].length <= u64::MAX,
                acc == highest_end(self@.subrange(0, i as int)),
        {
            proof {
                let s = self@.subrange(0, i as int + 1);
                assert(s.drop_last() == self@.subrange(0, i as int));
            }
            let e = self.regions[i].end();
            if e > acc {
                acc = e;
            }
        }
        assert(self@.subrange(0, n as int) == self@);
        acc
    }
}

proof fn lemma_usable_bytes_prefix_le(s: Seq<MemoryRegion>, k: int)
    requires
        0 <= k <= s.len(),
    ensures
        usable_bytes(s.subrange(0, k)) <= usable_bytes(s),
    decreases s.len() - k,
{
    if k < s.len() {
        lemma_usable_bytes_prefix_le(s, k + 1);
        assert(s.subrange(0, k + 1).drop_last() == s.subrange(0, k));
    } else {
        assert(s.subrange(0, k) == s);
    }
}

} // verus!

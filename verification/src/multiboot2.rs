//! Multiboot2 boot information: the physical memory map tag (type 6) and the
//! KASLR offset tag ("KASR"), read from the bytes of the information
//! structure that the boot loader left in memory. Bytes past the end of the
//! slice read as zero.
use vstd::prelude::*;
use crate::hsm_registry::pow256;
use crate::memory_map::{MemoryKind, MemoryMap, MemoryRegion, ParseError, MAX_REGIONS};
use crate::mmu::SIZE_2MIB;
use crate::platform::BootInfo;

verus! {

/// Tag type that ends the tag list.
pub const MB2_TAG_END: u32 = 0;
/// Tag type of the memory map.
pub const MB2_TAG_MMAP: u32 = 6;
/// Tag type carrying the KASLR linear-map offset ("KASR").
pub const MB2_TAG_KASLR: u32 = 0x4B41_5352;
/// Largest total size accepted for the information structure.
pub const MB2_MAX_TOTAL: u64 = 65536;

/// Byte `i` of `d`; outside `d` it reads as zero.
pub open spec fn rd(d: Seq<u8>, i: int) -> int {
    if 0 <= i < d.len() { d[i] as int } else { 0 }
}

/// Little-endian value of the `n` bytes at `off`.
pub open spec fn le_at(d: Seq<u8>, off: int, n: nat) -> int
    decreases n,
{
    if n == 0 { 0 } else { rd(d, off) + 256 * le_at(d, off + 1, (n - 1) as nat) }
}

/// A value read from `n` bytes is below 256^n.
pub proof fn lemma_le_at_bound(d: Seq<u8>, off: int, n: nat)
    ensures
        0 <= le_at(d, off, n) < pow256(n),
    decreases n,
{
    if n > 0 {
        lemma_le_at_bound(d, off + 1, (n - 1) as nat);
        let rest = le_at(d, off + 1, (n - 1) as nat);
        let p = pow256((n - 1) as nat);
        assert(rd(d, off) + 256 * rest < 256 * p) by (nonlinear_arith)
            requires 0 <= rd(d, off) < 256, 0 <= rest < p;
    }
}

proof fn lemma_pow256_upto_7(k: nat)
    requires
        k <= 7,
    ensures
        pow256(k) <= 0x100_0000_0000_0000,
{
    reveal_with_fuel(pow256, 8);
}

/// Reads `n` (at most eight) little-endian bytes at `off`, zero past the end.
fn read_le(d: &[u8], off: u64, n: u64) -> (r: u64)
    requires
        n <= 8,
        off + n <= u64::MAX,
    ensures
        r == le_at(d@, off as int, n as nat),
        n == 4 ==> r <= u32::MAX,
{
    proof {
        lemma_le_at_bound(d@, off as int, n as nat);
        reveal_with_fuel(pow256, 5);
    }
    let mut v: u64 = 0;
    let mut i: u64 = n;
    while i > 0
        invariant
            i <= n <= 8,
            off + n <= u64::MAX,
            v == le_at(d@, off + i, (n - i) as nat),
        decreases i,
    {
        let idx = off + i - 1;
        let b: u64 = if idx < d.len() as u64 { d[idx as usize] as u64 } else { 0 };
        proof {
            lemma_le_at_bound(d@, off + i, (n - i) as nat);
            lemma_pow256_upto_7((n - i) as nat);
            assert(v * 256 + b <= u64::MAX) by (nonlinear_arith)
                requires v < 0x100_0000_0000_0000, b < 256;
        }
        v = v * 256 + b;
        i = i - 1;
    }
    v
}

/// Memory kind of a map entry type: 1 usable, 3 ACPI reclaimable, 4 ACPI NVS,
/// 5 bad, anything else reserved.
pub open spec fn mb2_kind(t: int) -> MemoryKind {
    if t == 1 { MemoryKind::Usable }
    else if t == 3 { MemoryKind::AcpiReclaimable }
    else if t == 4 { MemoryKind::AcpiNvs }
    else if t == 5 { MemoryKind::BadMemory }
    else { MemoryKind::Reserved }
}

/// Only entries the firmware marks available (type 1) become usable memory;
/// ACPI reclaimable (3), ACPI NVS (4) and bad memory (5) keep their kinds and
/// every other type is reserved.
pub proof fn law_mb2_kinds(t: int)
    ensures
        (mb2_kind(t) == MemoryKind::Usable) == (t == 1),
        (mb2_kind(t) == MemoryKind::AcpiReclaimable) == (t == 3),
        (mb2_kind(t) == MemoryKind::AcpiNvs) == (t == 4),
        (mb2_kind(t) == MemoryKind::BadMemory) == (t == 5),
        (mb2_kind(t) == MemoryKind::Reserved) == (t != 1 && t != 3 && t != 4 && t != 5),
{
}

fn mb2_kind_of(t: u64) -> (r: MemoryKind)
    ensures
        r == mb2_kind(t as int),
{
    match t {
        1 => MemoryKind::Usable,
        3 => MemoryKind::AcpiReclaimable,
        4 => MemoryKind::AcpiNvs,
        5 => MemoryKind::BadMemory,
        _ => MemoryKind::Reserved,
    }
}

/// `acc` with `r` appended while the map has room.
pub open spec fn push_region(acc: Seq<MemoryRegion>, r: MemoryRegion) -> Seq<MemoryRegion> {
    if acc.len() < MAX_REGIONS { acc.push(r) } else { acc }
}

/// The map entries from `ptr` on, `esz` bytes apart, up to `end`: each
/// non-empty entry (base, length, type) becomes a region.
pub open spec fn mmap_entries(d: Seq<u8>, ptr: int, esz: int, end: int, acc: Seq<MemoryRegion>) -> Seq<MemoryRegion>
    decreases end - ptr,
{
    if esz <= 0 || ptr + esz > end {
        acc
    } else {
        let len = le_at(d, ptr + 8, 8);
        let acc2 = if len > 0 {
            push_region(acc, MemoryRegion { base: le_at(d, ptr, 8) as u64, length: len as u64,
                kind: mb2_kind(le_at(d, ptr + 16, 4)) })
        } else {
            acc
        };
        mmap_entries(d, ptr + esz, esz, end, acc2)
    }
}

/// Offset from one tag to the next: its size rounded up to eight bytes.
pub open spec fn tag_next(size: int) -> int {
    size + 7 - (size + 7) % 8
}

/// The step to the next tag moves forward by the size, rounded up.
pub proof fn lemma_tag_next(size: int)
    ensures
        size >= 1 ==> size <= tag_next(size) <= size + 7,
{
    assert(0 <= (size + 7) % 8 < 8) by (nonlinear_arith);
}

/// Regions collected by the tag walk from `off`: a memory map tag that lies
/// inside the structure, is at least 16 bytes and has entries of at least 24
/// bytes contributes its entries.
pub open spec fn mb2_map(d: Seq<u8>, total: int, off: int, acc: Seq<MemoryRegion>) -> Seq<MemoryRegion>
    decreases total - off,
{
    if off >= total {
        acc
    } else {
        let typ = le_at(d, off, 4);
        let size = le_at(d, off + 4, 4);
        let esz = le_at(d, off + 8, 4);
        if typ == 0 {
            acc
        } else {
            let acc2 = if typ == 6 && size >= 16 && off + size <= total && esz >= 24 {
                mmap_entries(d, off + 16, esz, off + size, acc)
            } else {
                acc
            };
            if size == 0 || size > u32::MAX - 7 || off + tag_next(size) > u32::MAX || off + tag_next(size) >= total {
                acc2
            } else {
                proof {
                    lemma_le_at_bound(d, off + 4, 4);
                lemma_tag_next(size);
                }
                mb2_map(d, total, off + tag_next(size), acc2)
            }
        }
    }
}

/// The memory map described at `info_addr`, or why there is none.
pub open spec fn multiboot2_spec(info_addr: u64, d: Seq<u8>) -> Result<Seq<MemoryRegion>, ParseError> {
    let total = le_at(d, 0, 4);
    if info_addr == 0 || info_addr % 8 != 0 {
        Err(ParseError::InvalidAddress)
    } else if total < 8 || total > MB2_MAX_TOTAL {
        Err(ParseError::InvalidSize)
    } else {
        Ok(mb2_map(d, total, 8, Seq::empty()))
    }
}

/// Collects the memory map from the structure at `info_addr` whose bytes are
/// `info`: the address must be non-null and 8-byte aligned, the total size
/// (first word) between 8 and 64 KiB; tags follow at 8-byte aligned offsets
/// until the end tag, the total size, or a tag whose size is zero or too large
/// to step over (the walk always ends); zero-length entries are skipped and
/// regions past `MAX_REGIONS` dropped.
pub fn parse_multiboot2(info_addr: u64, info: &[u8]) -> (r: Result<MemoryMap, ParseError>)
    ensures
        r matches Ok(m) ==> m.wf() && multiboot2_spec(info_addr, info@) == Ok::<Seq<MemoryRegion>, ParseError>(m@),
        r matches Err(e) ==> multiboot2_spec(info_addr, info@) == Err::<Seq<MemoryRegion>, ParseError>(e),
{
    if info_addr == 0 || info_addr % 8 != 0 {
        return Err(ParseError::InvalidAddress);
    }
    let total = read_le(info, 0, 4);
    if total < 8 || total > MB2_MAX_TOTAL {
        return Err(ParseError::InvalidSize);
    }
    let ghost d = info@;
    let mut map = MemoryMap::empty();
    let mut off: u64 = 8;
    let mut done = false;
    while off < total && !done
        invariant
            8 <= off,
            8 <= total <= MB2_MAX_TOTAL,
            info_addr != 0 && info_addr % 8 == 0,
            total == le_at(d, 0, 4),
            d == info@,
            map.wf(),
            !done ==> mb2_map(d, total as int, 8, Seq::empty()) == mb2_map(d, total as int, off as int, map@),
            done ==> mb2_map(d, total as int, 8, Seq::empty()) == map@,
        decreases total - off, if done { 0int } else { 1int },
    {
        let typ = read_le(info, off, 4);
        if typ == 0 {
            done = true;
        } else {
            let size = read_le(info, off + 4, 4);
            let esz = read_le(info, off + 8, 4);
            let ghost acc0 = map@;
            if typ == 6 && size >= 16 && off + size <= total && esz >= 24 {
                let end = off + size;
                let mut p: u64 = off + 16;
                while p + esz <= end
                    invariant
                        off + 16 <= p <= end,
                        end <= total <= MB2_MAX_TOTAL,
                        24 <= esz <= u32::MAX,
                        d == info@,
                        map.wf(),
                        mmap_entries(d, off + 16, esz as int, end as int, acc0)
                            == mmap_entries(d, p as int, esz as int, end as int, map@),
                    decreases end - p,
                {
                    let base = read_le(info, p, 8);
                    let len = read_le(info, p + 8, 8);
                    let t = read_le(info, p + 16, 4);
                    if len > 0 {
                        let kind = mb2_kind_of(t);
                        let _ = map.add_region(MemoryRegion { base, length: len, kind });
                    }
                    p = p + esz;
                }
            }
            if size == 0 || size > 0xFFFF_FFFF - 7 {
                done = true;
            } else {
                let next = size + 7 - (size + 7) % 8;
                if off + next > 0xFFFF_FFFF || off + next >= total {
                    done = true;
                } else {
                    off = off + next;
                }
            }
        }
    }
    Ok(map)
}

/// The KASLR offset found by the tag walk from `off`: the first KASLR tag of at
/// least 16 bytes whose offset is non-zero and 2 MiB aligned.
pub open spec fn kaslr_walk(d: Seq<u8>, total: int, off: int) -> Option<u64>
    decreases total - off,
{
    if off >= total {
        None
    } else {
        let typ = le_at(d, off, 4);
        let size = le_at(d, off + 4, 4);
        let v = le_at(d, off + 8, 8);
        if typ == 0 {
            None
        } else if typ == MB2_TAG_KASLR && size >= 16 && v % (SIZE_2MIB as int) == 0 && v != 0 {
            Some(v as u64)
        } else if size == 0 || size > u32::MAX - 7 || off + tag_next(size) > u32::MAX || off + tag_next(size) >= total {
            None
        } else {
            proof {
                lemma_le_at_bound(d, off + 4, 4);
                lemma_tag_next(size);
            }
            kaslr_walk(d, total, off + tag_next(size))
        }
    }
}

/// The KASLR offset described at `info_addr`, if any.
pub open spec fn kaslr_spec(info_addr: u64, d: Seq<u8>) -> Option<u64> {
    let total = le_at(d, 0, 4);
    if info_addr == 0 || info_addr % 8 != 0 || total < 8 || total > MB2_MAX_TOTAL {
        None
    } else {
        kaslr_walk(d, total, 8)
    }
}

/// The KASLR linear-map offset from the structure at `info_addr`: the first
/// KASLR tag of at least 16 bytes with a non-zero, 2 MiB aligned offset;
/// `None` for a bad address or size, or when there is no such tag.
pub fn parse_kaslr_offset(info_addr: u64, info: &[u8]) -> (r: Option<u64>)
    ensures
        r == kaslr_spec(info_addr, info@),
{
    if info_addr == 0 || info_addr % 8 != 0 {
        return None;
    }
    let total = read_le(info, 0, 4);
    if total < 8 || total > MB2_MAX_TOTAL {
        return None;
    }
    let mut off: u64 = 8;
    while off < total
        invariant
            8 <= off,
            8 <= total <= MB2_MAX_TOTAL,
            info_addr != 0 && info_addr % 8 == 0,
            total == le_at(info@, 0, 4),
            kaslr_walk(info@, total as int, 8) == kaslr_walk(info@, total as int, off as int),
        decreases total - off,
    {
        let typ = read_le(info, off, 4);
        if typ == 0 {
            return None;
        }
        let size = read_le(info, off + 4, 4);
        let v = read_le(info, off + 8, 8);
        if typ == MB2_TAG_KASLR as u64 && size >= 16 && v % SIZE_2MIB == 0 && v != 0 {
            return Some(v);
        }
        if size == 0 || size > 0xFFFF_FFFF - 7 {
            return None;
        }
        let next = size + 7 - (size + 7) % 8;
        if off + next > 0xFFFF_FFFF || off + next >= total {
            return None;
        }
        off = off + next;
    }
    None
}

/// Boot information from a multiboot2 hand-off: the memory map (empty when
/// the structure is refused) and the KASLR offset (0 when there is none);
/// every other field empty.
pub fn boot_info_from_multiboot2(info_addr: u64, info: &[u8]) -> (r: BootInfo)
    ensures
        r.memory_map.wf(),
        r.memory_map@ == match multiboot2_spec(info_addr, info@) {
            Ok(regions) => regions,
            Err(_) => Seq::<MemoryRegion>::empty(),
        },
        r.kaslr_offset == match kaslr_spec(info_addr, info@) {
            Some(o) => o,
            None => 0,
        },
        r.command_line_len == 0 && r.rsdp_ptr == 0 && r.dtb_ptr == 0 && r.framebuffer == 0,
{
    let mut info_out = BootInfo::empty();
    info_out.memory_map = match parse_multiboot2(info_addr, info) {
        Ok(m) => m,
        Err(_) => MemoryMap::empty(),
    };
    info_out.kaslr_offset = match parse_kaslr_offset(info_addr, info) {
        Some(o) => o,
        None => 0,
    };
    info_out
}

} // verus!

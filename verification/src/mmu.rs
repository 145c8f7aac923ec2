//! aarch64 stage-1 page tables (4 KiB granule, 48-bit VA, TTBR0/TTBR1 split).
//!
//! An address space owns two root tables (TTBR0 for the lower user half, TTBR1
//! for the upper kernel half) and a fixed pool of intermediate tables that are
//! handed out in order. Tables are identified by their position: table `t` lives
//! at physical address `base_pa + t * 4096` (the roots first, then the pool),
//! which is how descriptors refer to them. Every leaf descriptor this module
//! builds enforces W^X: a page writable at EL1 is never executable.
use vstd::prelude::*;
use core::marker::PhantomData;

verus! {

/// 4 KiB page size.
pub const PAGE_SIZE: usize = 4096;
const PAGE_SIZE_U64: u64 = 4096;
/// 2 MiB large page size.
pub const SIZE_2MIB: u64 = 0x20_0000;
/// Base of the kernel's upper-half linear mapping.
pub const KERNEL_VMA_BASE: u64 = 0xFFFF_0000_0000_0000;
/// QEMU virt PL011 UART physical base.
pub const UART_PHYS: u64 = 0x0900_0000;
/// QEMU virt GICv3 distributor physical base.
pub const GICD_PHYS: u64 = 0x0800_0000;
/// QEMU virt GICv3 redistributor physical base.
pub const GICR_PHYS: u64 = 0x080A_0000;
/// QEMU virt virtio-mmio window physical base.
pub const VIRTIO_MMIO_PHYS: u64 = 0x0A00_0000;
/// Stride between virtio-mmio transports.
pub const VIRTIO_MMIO_STRIDE: u64 = 0x200;
/// Number of virtio-mmio transports probed.
pub const VIRTIO_MMIO_COUNT: u64 = 32;

/// Entries per table.
pub const TABLE_ENTRIES: usize = 512;
/// Intermediate tables available to one address space.
pub const POOL_TABLES: usize = 24;
/// Root tables plus pool.
pub const NUM_TABLES: usize = 26;
/// Output address field of a descriptor, bits [47:12].
pub const PA_MASK: u64 = 0x0000_FFFF_FFFF_F000;
/// Exclusive bound of the user (TTBR0) half.
pub const USER_VA_END: u64 = 0x0000_8000_0000_0000;

/// MAIR_EL1: Attr0 Device-nGnRnE, Attr1 Device-nGnRE, Attr2 Normal WBWA.
pub const MAIR_EL1_VALUE: u64 = 0xFF_0400;

pub const DESC_VALID: u64 = 0x1;
pub const DESC_PAGE: u64 = 0x2;
pub const DESC_AF: u64 = 0x400;
/// AttrIndx = 1 (Device-nGnRE) at bits [4:2].
pub const DESC_ATTR_DEVICE: u64 = 0x4;
/// AttrIndx = 2 (Normal WBWA) at bits [4:2].
pub const DESC_ATTR_NORMAL: u64 = 0x8;
pub const DESC_AP_RO_EL1: u64 = 0x80;
pub const DESC_AP_RW_EL1_EL0: u64 = 0x40;
pub const DESC_AP_RO_EL1_EL0: u64 = 0xC0;
pub const DESC_SH_INNER: u64 = 0x300;
pub const DESC_PXN: u64 = 0x20_0000_0000_0000;
pub const DESC_UXN: u64 = 0x40_0000_0000_0000;

/// Why building or checking a page table failed.
#[derive(Debug, PartialEq, Eq, Structural)]
pub enum MmuError {
    /// Writable and executable requested together.
    WxPolicyViolation,
    /// The page is already mapped.
    AlreadyMapped,
    /// The intermediate table pool is used up.
    TableExhausted,
    /// An address is not 4 KiB aligned, or not in the user half where one is required.
    UnalignedAddress,
    /// The post-enable translation self test faulted.
    SelfTestFault,
    /// The post-enable self test found a non-device attribute on the UART page.
    SelfTestAttr,
}

/// Architecture-neutral mapping intent flags.
#[derive(Clone, Copy, PartialEq, Eq, Debug, Structural)]
pub struct PageTableFlags(u64);

pub const FLAG_PRESENT: u64 = 0x1;
pub const FLAG_WRITABLE: u64 = 0x2;
pub const FLAG_USER_ACCESSIBLE: u64 = 0x4;
pub const FLAG_NO_EXECUTE: u64 = 0x8;
pub const FLAG_HUGE_PAGE: u64 = 0x10;

impl View for PageTableFlags {
    type V = u64;

    closed spec fn view(&self) -> u64 {
        self.0
    }
}

impl PageTableFlags {
    /// Mapping present.
    pub fn present() -> (r: Self) ensures r@ == FLAG_PRESENT { PageTableFlags(FLAG_PRESENT) }
    /// Writable (forces execute-never).
    pub fn writable() -> (r: Self) ensures r@ == FLAG_WRITABLE { PageTableFlags(FLAG_WRITABLE) }
    /// Accessible from EL0.
    pub fn user_accessible() -> (r: Self) ensures r@ == FLAG_USER_ACCESSIBLE { PageTableFlags(FLAG_USER_ACCESSIBLE) }
    /// Execute-never.
    pub fn no_execute() -> (r: Self) ensures r@ == FLAG_NO_EXECUTE { PageTableFlags(FLAG_NO_EXECUTE) }
    /// Large page (unused on the 4 KiB process path).
    pub fn huge_page() -> (r: Self) ensures r@ == FLAG_HUGE_PAGE { PageTableFlags(FLAG_HUGE_PAGE) }

    /// No flag set.
    pub fn empty() -> (r: Self)
        ensures
            r@ == 0,
    {
        PageTableFlags(0)
    }

    /// Raw bits.
    pub fn bits(self) -> (r: u64)
        ensures
            r == self@,
    {
        self.0
    }

    /// Every bit of `other` is set in `self`.
    pub fn contains(self, other: Self) -> (r: bool)
        ensures
            r == (self@ & other@ == other@),
    {
        (self.0 & other.0) == other.0
    }

    /// Bits of either.
    pub fn union(self, other: Self) -> (r: Self)
        ensures
            r@ == self@ | other@,
    {
        PageTableFlags(self.0 | other.0)
    }

    /// Bits of `self` without those of `other`.
    pub fn remove(self, other: Self) -> (r: Self)
        ensures
            r@ == self@ & !other@,
    {
        PageTableFlags(self.0 & !other.0)
    }
}

proof fn lemma_bits_or(x: u64, y: u64, z: u64)
    by (bit_vector)
    ensures
        x | y == y | x,
        (x | y) | z == x | (y | z),
        x | 0u64 == x,
        (x | y) & x == x,
        (x | y) & y == y,
        (x | y) & !y == x & !y,
{
}

/// Flag sets combine as sets of bits: union is commutative and associative
/// with the empty set as identity, the union contains both operands, removing
/// `b` from `a` united with `b` is removing it from `a`, and two flag values
/// with the same bits are the same value.
pub proof fn law_flags_union(a: PageTableFlags, b: PageTableFlags, c: PageTableFlags)
    ensures
        (a@ | b@) == (b@ | a@),
        ((a@ | b@) | c@) == (a@ | (b@ | c@)),
        (a@ | 0u64) == a@,
        (a@ | b@) & a@ == a@,
        (a@ | b@) & b@ == b@,
        (a@ | b@) & !b@ == a@ & !b@,
        a@ == b@ ==> a == b,
{
    lemma_bits_or(a@, b@, c@);
}

/// An all-zero descriptor is not valid.
proof fn lemma_zero_desc_invalid()
    ensures
        0u64 & 1u64 == 0,
        0u64 & DESC_VALID == 0,
{
    assert(0u64 & 1u64 == 0) by (bit_vector);
}

/// `va` lies in the user (TTBR0) half and is page aligned.
pub fn is_user_va(va: u64) -> (r: bool)
    ensures
        r == (va < USER_VA_END && va % 4096 == 0),
{
    proof {
        lemma_page_offset(va);
    }
    va < USER_VA_END && (va & (PAGE_SIZE_U64 - 1)) == 0
}

/// Index of `va` in a table at `level` (0..=3): VA[47:39], [38:30], [29:21], [20:12].
pub open spec fn va_index(va: u64, level: int) -> int {
    ((va >> ((12 + (3 - level) * 9) as u64)) & 0x1FFu64) as int
}

/// Two addresses select the same slot at every level.
pub open spec fn same_page(a: u64, b: u64) -> bool {
    &&& va_index(a, 0) == va_index(b, 0)
    &&& va_index(a, 1) == va_index(b, 1)
    &&& va_index(a, 2) == va_index(b, 2)
    &&& va_index(a, 3) == va_index(b, 3)
}

fn table_index(va: u64, level: u8) -> (r: usize)
    requires
        level <= 3,
    ensures
        r == va_index(va, level as int),
        r < TABLE_ENTRIES,
{
    let shift = 12 + (3 - level) as u64 * 9;
    let r = ((va >> shift) & 0x1FF) as usize;
    proof {
        let x = va >> shift;
        assert(x & 0x1FFu64 <= 0x1FF) by (bit_vector);
    }
    r
}

/// Descriptor pointing at the next-level table at `pa`.
pub open spec fn table_desc(pa: u64) -> u64 {
    DESC_VALID | DESC_PAGE | pa
}

/// EL1 leaf descriptor for `pa`.
pub open spec fn leaf_desc_spec(pa: u64, writable: bool, executable: bool, device: bool) -> u64 {
    let base = DESC_VALID | DESC_PAGE | DESC_AF | (pa & PA_MASK);
    let attr = if device {
        DESC_ATTR_DEVICE | DESC_UXN | DESC_PXN
    } else {
        DESC_ATTR_NORMAL | DESC_SH_INNER
    };
    let ap = if writable { 0u64 } else { DESC_AP_RO_EL1 };
    let xn = if writable || !executable { DESC_UXN | DESC_PXN } else { 0u64 };
    base | attr | ap | xn
}

/// EL0 leaf descriptor for `pa`: data RW and never executable; read-only pages
/// never executable by the kernel and executable at EL0 only when `executable`.
pub open spec fn leaf_desc_user_spec(pa: u64, writable: bool, executable: bool) -> u64 {
    let base = DESC_VALID | DESC_PAGE | DESC_AF | (pa & PA_MASK) | DESC_ATTR_NORMAL | DESC_SH_INNER;
    if writable {
        base | DESC_AP_RW_EL1_EL0 | DESC_UXN | DESC_PXN
    } else {
        base | DESC_AP_RO_EL1_EL0 | DESC_PXN | (if executable { 0u64 } else { DESC_UXN })
    }
}

/// W^X for a leaf: when AP[2] is clear (writable) both execute-never bits are set.
pub open spec fn wx_ok(d: u64) -> bool {
    d & DESC_AP_RO_EL1 == 0 ==> (d & DESC_PXN != 0 && d & DESC_UXN != 0)
}

/// Valid bit set.
pub open spec fn desc_valid(d: u64) -> bool {
    d & DESC_VALID != 0
}

/// One level of a stage-1 table (512 descriptors).
pub struct Table {
    entries: Vec<u64>,
}

impl Table {
    /// Descriptors of the table.
    pub closed spec fn entries(&self) -> Seq<u64> {
        self.entries@
    }

    fn zeroed() -> (t: Self)
        ensures
            t.entries().len() == TABLE_ENTRIES,
            forall|i: int| 0 <= i < TABLE_ENTRIES ==> #[trigger] t.entries()[i] == 0,
    {
        let entries = vec![0u64; TABLE_ENTRIES];
        proof {
            assert forall|i: int| 0 <= i < TABLE_ENTRIES implies #[trigger] entries@[i] == 0 by {
                assert(cloned(0u64, entries@[i]));
            }
        }
        Table { entries }
    }
}

/// Stage-1 address space: TTBR0 and TTBR1 roots plus an intermediate table pool.
pub struct AddressSpace {
    base_pa: u64,
    tables: Vec<Table>,
    pool_next: usize,
    kids: Ghost<Map<(int, int), int>>,
    parent: Ghost<Map<int, (int, int)>>,
    level: Ghost<Map<int, int>>,
}

/// Root table index for a half.
pub open spec fn root_of(high: bool) -> int {
    if high { 1 } else { 0 }
}

impl AddressSpace {
    pub closed spec fn base(&self) -> u64 {
        self.base_pa
    }

    pub closed spec fn ent(&self, t: int, i: int) -> u64 {
        self.tables@[t].entries()[i]
    }

    spec fn allocated(&self, t: int) -> bool {
        0 <= t < 2 + self.pool_next
    }

    spec fn pa_of(&self, t: int) -> int {
        self.base_pa + t * 4096
    }

    /// Intermediate tables still available.
    pub closed spec fn tables_left(&self) -> int {
        POOL_TABLES - self.pool_next
    }

    pub closed spec fn wf(&self) -> bool {
        &&& self.base_pa % 4096 == 0
        &&& self.base_pa + NUM_TABLES * 4096 <= 0x1_0000_0000_0000
        &&& self.tables@.len() == NUM_TABLES
        &&& forall|t: int| 0 <= t < NUM_TABLES ==> (#[trigger] self.tables@[t]).entries().len() == TABLE_ENTRIES
        &&& self.pool_next <= POOL_TABLES
        &&& self.level@.dom().contains(0) && self.level@[0] == 0
        &&& self.level@.dom().contains(1) && self.level@[1] == 0
        &&& forall|c: int| 2 <= c < 2 + self.pool_next ==> {
            &&& #[trigger] self.level@.dom().contains(c)
            &&& 1 <= self.level@[c] <= 3
            &&& self.parent@.dom().contains(c)
            &&& self.allocated(self.parent@[c].0)
            &&& self.level@.dom().contains(self.parent@[c].0)
            &&& self.level@[self.parent@[c].0] == self.level@[c] - 1
            &&& self.kids@.dom().contains(self.parent@[c])
            &&& self.kids@[self.parent@[c]] == c
        }
        &&& forall|k: (int, int)| #[trigger] self.kids@.dom().contains(k) ==> {
            &&& self.allocated(k.0)
            &&& self.level@.dom().contains(k.0)
            &&& self.level@[k.0] < 3
            &&& 0 <= k.1 < TABLE_ENTRIES
            &&& 2 <= self.kids@[k] < 2 + self.pool_next
            &&& self.parent@[self.kids@[k]] == k
            &&& self.ent(k.0, k.1) == table_desc(self.pa_of(self.kids@[k]) as u64)
        }
        &&& forall|t: int, i: int| self.allocated(t) && 0 <= i < TABLE_ENTRIES
            && self.level@[t] < 3 && desc_valid(#[trigger] self.ent(t, i))
            ==> self.kids@.dom().contains((t, i))
        &&& forall|t: int, i: int| self.allocated(t) && 0 <= i < TABLE_ENTRIES
            && self.level@[t] == 3 && desc_valid(#[trigger] self.ent(t, i))
            ==> wx_ok(self.ent(t, i))
    }

    /// Table reached after walking `level` levels of `va` from the root of a half.
    pub closed spec fn path_table(&self, high: bool, va: u64, level: int) -> Option<int>
        decreases level,
    {
        if level <= 0 {
            Some(root_of(high))
        } else {
            match self.path_table(high, va, level - 1) {
                Some(t) => if self.kids@.dom().contains((t, va_index(va, level - 1))) {
                    Some(self.kids@[(t, va_index(va, level - 1))])
                } else {
                    None
                },
                None => None,
            }
        }
    }

    /// The leaf descriptor mapping `va` in the given half, if any.
    pub closed spec fn mapping(&self, high: bool, va: u64) -> Option<u64> {
        match self.path_table(high, va, 3) {
            Some(t) => if desc_valid(self.ent(t, va_index(va, 3))) {
                Some(self.ent(t, va_index(va, 3)))
            } else {
                None
            },
            None => None,
        }
    }

    /// Number of levels of `va`'s walk that already exist (1 to 3 intermediate levels).
    pub closed spec fn depth(&self, high: bool, va: u64) -> int {
        if self.path_table(high, va, 3) is Some {
            3
        } else if self.path_table(high, va, 2) is Some {
            2
        } else if self.path_table(high, va, 1) is Some {
            1
        } else {
            0
        }
    }

    /// Intermediate tables a new mapping of `va` would need.
    pub open spec fn tables_needed(&self, high: bool, va: u64) -> int {
        3 - self.depth(high, va)
    }

    /// A mapping never needs more than the three intermediate levels, and a
    /// space holds at most the pool's tables.
    pub proof fn lemma_tables_needed_bounds(&self, high: bool, va: u64)
        ensures
            0 <= self.tables_needed(high, va) <= 3,
            self.wf() ==> 0 <= self.tables_left() <= POOL_TABLES,
    {
    }

    proof fn lemma_path_props(&self, high: bool, va: u64, level: int)
        requires
            self.wf(),
            0 <= level <= 3,
        ensures
            self.path_table(high, va, level) matches Some(t) ==> {
                &&& self.allocated(t)
                &&& self.level@.dom().contains(t)
                &&& self.level@[t] == level
            },
        decreases level,
    {
        if level > 0 {
            self.lemma_path_props(high, va, level - 1);
            if let Some(t) = self.path_table(high, va, level - 1) {
                let k = (t, va_index(va, level - 1));
                if self.kids@.dom().contains(k) {
                    let c = self.kids@[k];
                    assert(self.parent@[c] == k);
                    assert(self.level@.dom().contains(c));
                }
            }
        }
    }

    proof fn lemma_path_unique(&self, h1: bool, v1: u64, h2: bool, v2: u64, level: int)
        requires
            self.wf(),
            0 <= level <= 3,
            self.path_table(h1, v1, level) is Some,
            self.path_table(h1, v1, level) == self.path_table(h2, v2, level),
        ensures
            h1 == h2,
            forall|l: int| 0 <= l < level ==> va_index(v1, l) == va_index(v2, l),
        decreases level,
    {
        if level > 0 {
            let t1 = self.path_table(h1, v1, level - 1).unwrap();
            let t2 = self.path_table(h2, v2, level - 1).unwrap();
            let k1 = (t1, va_index(v1, level - 1));
            let k2 = (t2, va_index(v2, level - 1));
            assert(self.kids@[k1] == self.kids@[k2]);
            assert(self.parent@[self.kids@[k1]] == k1);
            assert(self.parent@[self.kids@[k2]] == k2);
            self.lemma_path_unique(h1, v1, h2, v2, level - 1);
        } else {
            assert(root_of(h1) == root_of(h2));
        }
    }

    /// Every installed leaf obeys W^X.
    pub proof fn law_mappings_wx(&self, high: bool, va: u64)
        requires
            self.wf(),
        ensures
            self.mapping(high, va) matches Some(d) ==> wx_ok(d) && desc_valid(d),
    {
        self.lemma_path_props(high, va, 3);
        lemma_va_index_range(va, 3);
    }

    /// An empty address space whose tables start at physical address `base_pa`
    /// (TTBR0 root, then TTBR1 root, then the pool, 4 KiB apart).
    pub fn new(base_pa: u64) -> (r: Self)
        requires
            base_pa % 4096 == 0,
            base_pa + NUM_TABLES * 4096 <= 0x1_0000_0000_0000,
        ensures
            r.wf(),
            r.base() == base_pa,
            r.tables_left() == POOL_TABLES,
            forall|h: bool, va: u64| r.mapping(h, va) is None,
            forall|h: bool, va: u64| #[trigger] r.tables_needed(h, va) == 3,
    {
        let mut tables: Vec<Table> = Vec::new();
        let mut k: usize = 0;
        while k < NUM_TABLES
            invariant
                k <= NUM_TABLES,
                tables@.len() == k,
                forall|t: int| 0 <= t < k ==> (#[trigger] tables@[t]).entries().len() == TABLE_ENTRIES,
                forall|t: int, i: int| 0 <= t < k && 0 <= i < TABLE_ENTRIES ==> #[trigger] tables@[t].entries()[i] == 0,
            decreases NUM_TABLES - k,
        {
            tables.push(Table::zeroed());
            k = k + 1;
        }
        let r = AddressSpace {
            base_pa,
            tables,
            pool_next: 0,
            kids: Ghost(Map::empty()),
            parent: Ghost(Map::empty()),
            level: Ghost(Map::empty().insert(0int, 0int).insert(1int, 0int)),
        };
        proof {
            assert forall|t: int, i: int| r.allocated(t) && 0 <= i < TABLE_ENTRIES
                implies !desc_valid(#[trigger] r.ent(t, i)) by {
                assert(r.ent(t, i) == 0);
                lemma_zero_desc_invalid();
            }
            assert forall|h: bool, va: u64| r.mapping(h, va) is None && #[trigger] r.tables_needed(h, va) == 3 by {
                assert(r.path_table(h, va, 1) is None);
                assert(r.path_table(h, va, 2) is None);
                assert(r.path_table(h, va, 3) is None);
            }
        }
        r
    }

    /// Physical address of the TTBR0 root table.
    pub fn ttbr0_root_pa(&self) -> (r: u64)
        requires
            self.wf(),
        ensures
            r == self.base(),
    {
        self.base_pa
    }

    /// Physical address of the TTBR1 root table.
    pub fn ttbr1_root_pa(&self) -> (r: u64)
        requires
            self.wf(),
        ensures
            r == self.base() + 4096,
    {
        self.base_pa + PAGE_SIZE_U64
    }

    /// Builds a leaf descriptor for EL1, enforcing W^X.
    fn leaf_desc(pa: u64, writable: bool, executable: bool, device: bool) -> (r: Result<u64, MmuError>)
        ensures
            writable && executable ==> r == Err::<u64, MmuError>(MmuError::WxPolicyViolation),
            !(writable && executable) && pa % 4096 != 0 ==> r == Err::<u64, MmuError>(MmuError::UnalignedAddress),
            !(writable && executable) && pa % 4096 == 0 ==> r == Ok::<u64, MmuError>(leaf_desc_spec(pa, writable, executable, device)),
            r matches Ok(d) ==> wx_ok(d) && desc_valid(d) && d & PA_MASK == pa & PA_MASK,
    {
        if writable && executable {
            return Err(MmuError::WxPolicyViolation);
        }
        proof {
            lemma_page_offset(pa);
        }
        if pa & (PAGE_SIZE_U64 - 1) != 0 {
            return Err(MmuError::UnalignedAddress);
        }
        let mut d = DESC_VALID | DESC_PAGE | DESC_AF | (pa & PA_MASK);
        if device {
            d = d | (DESC_ATTR_DEVICE | DESC_UXN | DESC_PXN);
        } else {
            d = d | (DESC_ATTR_NORMAL | DESC_SH_INNER);
        }
        d = d | if writable { 0u64 } else { DESC_AP_RO_EL1 };
        if writable || !executable {
            d = d | (DESC_UXN | DESC_PXN);
        } else {
            d = d | 0u64;
        }
        proof {
            lemma_leaf_desc_props(pa, writable, executable, device);
        }
        Ok(d)
    }

    /// Builds a leaf descriptor for EL0 pages: data RW+XN, read-only pages with
    /// kernel execute-never and user execute-never unless `executable`.
    fn leaf_desc_user(pa: u64, writable: bool, executable: bool) -> (r: Result<u64, MmuError>)
        ensures
            pa % 4096 != 0 ==> r == Err::<u64, MmuError>(MmuError::UnalignedAddress),
            pa % 4096 == 0 ==> r == Ok::<u64, MmuError>(leaf_desc_user_spec(pa, writable, executable)),
            r matches Ok(d) ==> wx_ok(d) && desc_valid(d) && d & PA_MASK == pa & PA_MASK,
    {
        proof {
            lemma_page_offset(pa);
        }
        if pa & (PAGE_SIZE_U64 - 1) != 0 {
            return Err(MmuError::UnalignedAddress);
        }
        let base = DESC_VALID | DESC_PAGE | DESC_AF | (pa & PA_MASK) | DESC_ATTR_NORMAL | DESC_SH_INNER;
        let d = if writable {
            base | DESC_AP_RW_EL1_EL0 | DESC_UXN | DESC_PXN
        } else {
            base | DESC_AP_RO_EL1_EL0 | DESC_PXN | (if executable { 0u64 } else { DESC_UXN })
        };
        proof {
            lemma_leaf_desc_user_props(pa, writable, executable);
        }
        Ok(d)
    }
}


/// What a walk-and-install of `leaf` for `va` in one half does: it fails when the
/// page is already mapped or the pool cannot supply the missing tables, and
/// otherwise maps exactly the page of `va` to `leaf`; a failure changes no mapping.
pub open spec fn map_outcome(pre: AddressSpace, post: AddressSpace, high: bool, va: u64, leaf: u64,
    r: Result<(), MmuError>) -> bool
{
    &&& (r == Err::<(), MmuError>(MmuError::AlreadyMapped)) == (pre.mapping(high, va) is Some)
    &&& (r == Err::<(), MmuError>(MmuError::TableExhausted))
        == (pre.mapping(high, va) is None && pre.tables_needed(high, va) > pre.tables_left())
    &&& (r is Ok) == (pre.mapping(high, va) is None && pre.tables_needed(high, va) <= pre.tables_left())
    &&& r is Ok ==> forall|h: bool, v: u64| #[trigger] post.mapping(h, v)
        == if h == high && same_page(va, v) { Some(leaf) } else { pre.mapping(h, v) }
    &&& r is Err ==> forall|h: bool, v: u64| #[trigger] post.mapping(h, v) == pre.mapping(h, v)
}

impl AddressSpace {
    spec fn linked(pre: AddressSpace, post: AddressSpace, t: int, i: int, c: int) -> bool {
        &&& post.base_pa == pre.base_pa
        &&& c == 2 + pre.pool_next
        &&& post.pool_next == pre.pool_next + 1
        &&& pre.allocated(t)
        &&& pre.level@.dom().contains(t)
        &&& pre.level@[t] < 3
        &&& 0 <= i < TABLE_ENTRIES
        &&& !pre.kids@.dom().contains((t, i))
        &&& post.kids@ == pre.kids@.insert((t, i), c)
        &&& post.parent@ == pre.parent@.insert(c, (t, i))
        &&& post.level@ == pre.level@.insert(c, pre.level@[t] + 1)
        &&& post.tables@.len() == NUM_TABLES
        &&& forall|x: int| 0 <= x < NUM_TABLES ==> (#[trigger] post.tables@[x]).entries().len() == TABLE_ENTRIES
        &&& forall|x: int, j: int| 0 <= x < NUM_TABLES && 0 <= j < TABLE_ENTRIES && x != c && (x, j) != (t, i)
            ==> #[trigger] post.ent(x, j) == pre.ent(x, j)
        &&& forall|j: int| 0 <= j < TABLE_ENTRIES ==> #[trigger] post.ent(c, j) == 0
        &&& post.ent(t, i) == table_desc(pre.pa_of(c) as u64)
    }

    proof fn lemma_link_paths(pre: AddressSpace, post: AddressSpace, t: int, i: int, c: int,
        h: bool, v: u64, level: int)
        requires
            pre.wf(),
            Self::linked(pre, post, t, i, c),
            0 <= level <= 3,
        ensures
            pre.path_table(h, v, level) is Some ==> post.path_table(h, v, level) == pre.path_table(h, v, level),
            pre.path_table(h, v, level) is None ==> (post.path_table(h, v, level) is None
                || post.path_table(h, v, level) == Some(c)),
            post.path_table(h, v, level) == Some(c) ==> level >= 1
                && pre.path_table(h, v, level - 1) == Some(t) && va_index(v, level - 1) == i,
        decreases level,
    {
        if level > 0 {
            Self::lemma_link_paths(pre, post, t, i, c, h, v, level - 1);
            pre.lemma_path_props(h, v, level - 1);
            match pre.path_table(h, v, level - 1) {
                Some(y) => {
                    assert(y != c);
                }
                None => {
                    if post.path_table(h, v, level - 1) == Some(c) {
                        let k = (c, va_index(v, level - 1));
                        assert(!post.kids@.dom().contains(k)) by {
                            if pre.kids@.dom().contains(k) {
                                assert(pre.allocated(c));
                            }
                        }
                    }
                }
            }
        }
    }

    proof fn lemma_link_mapping(pre: AddressSpace, post: AddressSpace, t: int, i: int, c: int,
        h: bool, v: u64)
        requires
            pre.wf(),
            Self::linked(pre, post, t, i, c),
        ensures
            post.mapping(h, v) == pre.mapping(h, v),
    {
        Self::lemma_link_paths(pre, post, t, i, c, h, v, 3);
        Self::lemma_link_paths(pre, post, t, i, c, h, v, 2);
        pre.lemma_path_props(h, v, 3);
        pre.lemma_path_props(h, v, 2);
        lemma_va_index_range(v, 3);
        if post.path_table(h, v, 3) == Some(c) {
            assert(pre.level@[t] == 2);
            assert(!desc_valid(post.ent(c, va_index(v, 3)))) by {
                assert(post.ent(c, va_index(v, 3)) == 0);
                lemma_zero_desc_invalid();
            }
        } else if let Some(x) = pre.path_table(h, v, 3) {
            assert(x != t);
        }
    }

    #[verifier::spinoff_prover]
    #[verifier::rlimit(50)]
    /// Allocates the next pool table, zeroes it and installs it under slot `idx`
    /// of table `t`; returns its physical address.
    fn alloc_table(&mut self, t: usize, idx: usize) -> (r: Result<u64, MmuError>)
        requires
            old(self).wf(),
            old(self).allocated(t as int),
            old(self).level@[t as int] < 3,
            idx < TABLE_ENTRIES,
            !desc_valid(old(self).ent(t as int, idx as int)),
        ensures
            final(self).wf(),
            old(self).pool_next >= POOL_TABLES ==> r == Err::<u64, MmuError>(MmuError::TableExhausted)
                && *final(self) == *old(self),
            old(self).pool_next < POOL_TABLES ==> r == Ok::<u64, MmuError>(old(self).pa_of(2 + old(self).pool_next) as u64)
                && Self::linked(*old(self), *final(self), t as int, idx as int, 2 + old(self).pool_next),
    {
        if self.pool_next >= POOL_TABLES {
            return Err(MmuError::TableExhausted);
        }
        let ghost pre = *self;
        let c = 2 + self.pool_next;
        self.pool_next = self.pool_next + 1;
        self.tables[c] = Table::zeroed();
        let pa = self.base_pa + (c as u64) * PAGE_SIZE_U64;
        proof {
            assert(pa % 4096 == 0);
            lemma_table_desc(pa);
        }
        self.tables[t].entries[idx] = DESC_VALID | DESC_PAGE | (pa & PA_MASK);
        self.kids = Ghost(self.kids@.insert((t as int, idx as int), c as int));
        self.parent = Ghost(self.parent@.insert(c as int, (t as int, idx as int)));
        self.level = Ghost(self.level@.insert(c as int, self.level@[t as int] + 1));
        proof {
            if pre.kids@.dom().contains((t as int, idx as int)) {
                let kc = pre.kids@[(t as int, idx as int)];
                lemma_table_desc(pre.pa_of(kc) as u64);
            }
            assert(!pre.kids@.dom().contains((t as int, idx as int)));
            assert forall|x: int, j: int| 0 <= x < NUM_TABLES && 0 <= j < TABLE_ENTRIES && x != c && (x, j) != (t as int, idx as int)
                implies #[trigger] self.ent(x, j) == pre.ent(x, j) by {
            }
            assert(Self::linked(pre, *self, t as int, idx as int, c as int));
            assert forall|k: (int, int)| #[trigger] self.kids@.dom().contains(k) implies {
                &&& self.allocated(k.0)
                &&& self.level@.dom().contains(k.0)
                &&& self.level@[k.0] < 3
                &&& 0 <= k.1 < TABLE_ENTRIES
                &&& 2 <= self.kids@[k] < 2 + self.pool_next
                &&& self.parent@[self.kids@[k]] == k
                &&& self.ent(k.0, k.1) == table_desc(self.pa_of(self.kids@[k]) as u64)
            } by {
                if k != (t as int, idx as int) {
                    assert(pre.kids@.dom().contains(k));
                    assert(pre.allocated(k.0));
                    assert(k.0 != c);
                }
            }
            assert forall|x: int, j: int| self.allocated(x) && 0 <= j < TABLE_ENTRIES
                && self.level@[x] < 3 && desc_valid(#[trigger] self.ent(x, j))
                implies self.kids@.dom().contains((x, j)) by {
                if x == c {
                    assert(self.ent(x, j) == 0);
                    lemma_zero_desc_invalid();
                } else if (x, j) != (t as int, idx as int) {
                    assert(pre.level@[x] == self.level@[x]);
                }
            }
            assert forall|x: int, j: int| self.allocated(x) && 0 <= j < TABLE_ENTRIES
                && self.level@[x] == 3 && desc_valid(#[trigger] self.ent(x, j))
                implies wx_ok(self.ent(x, j)) by {
                if x == c {
                    assert(self.ent(x, j) == 0);
                    lemma_zero_desc_invalid();
                } else {
                    assert(pre.level@[x] == self.level@[x]);
                    assert(x != t as int);
                }
            }
            assert forall|d: int| 2 <= d < 2 + self.pool_next implies {
                &&& #[trigger] self.level@.dom().contains(d)
                &&& 1 <= self.level@[d] <= 3
                &&& self.parent@.dom().contains(d)
                &&& self.allocated(self.parent@[d].0)
                &&& self.level@.dom().contains(self.parent@[d].0)
                &&& self.level@[self.parent@[d].0] == self.level@[d] - 1
                &&& self.kids@.dom().contains(self.parent@[d])
                &&& self.kids@[self.parent@[d]] == d
            } by {
                if d != c {
                    assert(pre.level@.dom().contains(d));
                    assert(pre.parent@[d].0 != c);
                    assert(pre.parent@[d] != (t as int, idx as int));
                }
            }
            assert forall|x: int| 0 <= x < NUM_TABLES implies (#[trigger] self.tables@[x]).entries().len() == TABLE_ENTRIES by {
            }
            assert(self.level@.dom().contains(0) && self.level@[0] == 0);
            assert(self.level@.dom().contains(1) && self.level@[1] == 0);
            assert(self.wf());
        }
        Ok(pa)
    }

    /// Walks (allocating missing tables) and installs `leaf` at the L3 slot of `va`.
    fn map_desc(&mut self, high: bool, va: u64, leaf: u64) -> (r: Result<(), MmuError>)
        requires
            old(self).wf(),
            desc_valid(leaf),
            wx_ok(leaf),
        ensures
            final(self).wf(),
            final(self).base() == old(self).base(),
            map_outcome(*old(self), *final(self), high, va, leaf, r),
    {
        let ghost pre = *self;
        let ghost d = pre.depth(high, va);
        let mut t: usize = if high { 1 } else { 0 };
        let mut level: u8 = 0;
        while level < 3
            invariant
                self.wf(),
                pre.wf(),
                pre == *old(self),
                self.base_pa == pre.base_pa,
                level <= 3,
                0 <= d <= 3,
                d == pre.depth(high, va),
                self.path_table(high, va, level as int) == Some(t as int),
                forall|l: int| 0 <= l <= 3 ==> (#[trigger] self.path_table(high, va, l) is Some)
                    == (pre.path_table(high, va, l) is Some || l <= level),
                forall|l: int| 0 <= l <= 3 && pre.path_table(high, va, l) is Some
                    ==> #[trigger] self.path_table(high, va, l) == pre.path_table(high, va, l),
                self.pool_next == pre.pool_next + if level as int > d { level as int - d } else { 0 },
                level as int > d ==> forall|j: int| 0 <= j < TABLE_ENTRIES ==> #[trigger] self.ent(t as int, j) == 0,
                forall|h: bool, v: u64| #[trigger] self.mapping(h, v) == pre.mapping(h, v),
            decreases 3 - level,
        {
            proof {
                self.lemma_path_props(high, va, level as int);
                pre.lemma_path_props(high, va, level as int);
                assert(pre.path_table(high, va, 3) is Some ==> pre.path_table(high, va, 2) is Some);
                assert(pre.path_table(high, va, 2) is Some ==> pre.path_table(high, va, 1) is Some);
            }
            let idx = table_index(va, level);
            let cur = self.tables[t].entries[idx];
            if cur & DESC_VALID == 0 {
                let ghost before = *self;
                proof {
                    if self.kids@.dom().contains((t as int, idx as int)) {
                        let kc = self.kids@[(t as int, idx as int)];
                        lemma_table_desc(self.pa_of(kc) as u64);
                    }
                    assert(!self.kids@.dom().contains((t as int, idx as int)));
                    assert(self.path_table(high, va, level as int + 1) is None);
                    assert(pre.path_table(high, va, level as int + 1) is None);
                    assert(level as int >= d);
                }
                let next_pa = match self.alloc_table(t, idx) {
                    Ok(pa) => pa,
                    Err(e) => {
                        proof {
                            assert(before.pool_next >= POOL_TABLES);
                            assert(*self == before);
                            assert(3 - d > level as int - d);
                            assert(pre.mapping(high, va) is None);
                        }
                        return Err(e);
                    }
                };
                let ghost c = 2 + before.pool_next;
                proof {
                    lemma_table_desc(next_pa);
                    assert(next_pa == before.base_pa + c * 4096);
                    vstd::arithmetic::div_mod::lemma_div_multiples_vanish(c, 4096);
                    assert forall|h: bool, v: u64| #[trigger] self.mapping(h, v) == pre.mapping(h, v) by {
                        Self::lemma_link_mapping(before, *self, t as int, idx as int, c, h, v);
                    }
                    Self::lemma_link_paths(before, *self, t as int, idx as int, c, high, va, level as int);
                    assert(self.path_table(high, va, level as int + 1) == Some(c));
                    assert forall|l: int| 0 <= l <= 3 implies (#[trigger] self.path_table(high, va, l) is Some)
                        == (pre.path_table(high, va, l) is Some || l <= level + 1) by {
                        Self::lemma_link_paths(before, *self, t as int, idx as int, c, high, va, l);
                        if l > level + 1 {
                            lemma_path_none_mono(before, high, va, level as int + 1, l - 1);
                            lemma_path_none_mono(pre, high, va, level as int + 1, l);
                        }
                    }
                    assert forall|l: int| 0 <= l <= 3 && pre.path_table(high, va, l) is Some
                        implies #[trigger] self.path_table(high, va, l) == pre.path_table(high, va, l) by {
                        Self::lemma_link_paths(before, *self, t as int, idx as int, c, high, va, l);
                    }
                    Self::lemma_link_paths(before, *self, t as int, idx as int, c, high, va, level as int + 1);
                }
                t = ((next_pa - self.base_pa) / PAGE_SIZE_U64) as usize;
            } else {
                proof {
                    assert(desc_valid(self.ent(t as int, idx as int)));
                    assert(self.kids@.dom().contains((t as int, idx as int)));
                    let c = self.kids@[(t as int, idx as int)];
                    lemma_table_desc(self.pa_of(c) as u64);
                    vstd::arithmetic::div_mod::lemma_div_multiples_vanish(c, 4096);
                    if level as int > d {
                        assert(self.ent(t as int, idx as int) == 0);
                        lemma_zero_desc_invalid();
                    }
                    assert(level as int + 1 <= d || pre.path_table(high, va, level as int + 1) is Some);
                }
                let table_pa = cur & PA_MASK;
                t = ((table_pa - self.base_pa) / PAGE_SIZE_U64) as usize;
                proof {
                    assert forall|l: int| 0 <= l <= 3 implies (#[trigger] self.path_table(high, va, l) is Some)
                        == (pre.path_table(high, va, l) is Some || l <= level + 1) by {
                        if l == level + 1 {
                        }
                    }
                }
            }
            level = level + 1;
        }
        proof {
            self.lemma_path_props(high, va, 3);
        }
        let idx = table_index(va, 3);
        if self.tables[t].entries[idx] & DESC_VALID != 0 {
            proof {
                assert(self.mapping(high, va) is Some);
                assert(pre.mapping(high, va) is Some);
            }
            return Err(MmuError::AlreadyMapped);
        }
        let ghost before = *self;
        self.tables[t].entries[idx] = leaf;
        proof {
            assert(before.mapping(high, va) is None);
            assert(pre.mapping(high, va) is None);
            assert forall|h: bool, v: u64| #[trigger] self.path_table(h, v, 3) == before.path_table(h, v, 3) by {
                lemma_same_kids_paths(before, *self, h, v, 3);
            }
            assert forall|x: int, j: int| 0 <= x < NUM_TABLES && 0 <= j < TABLE_ENTRIES && !(x == t as int && j == idx as int)
                implies #[trigger] self.ent(x, j) == before.ent(x, j) by {
            }
            assert(self.ent(t as int, idx as int) == leaf);
            assert forall|h: bool, v: u64| #[trigger] self.mapping(h, v)
                == if h == high && same_page(va, v) { Some(leaf) } else { pre.mapping(h, v) } by {
                assert(self.path_table(h, v, 3) == before.path_table(h, v, 3));
                assert(before.mapping(h, v) == pre.mapping(h, v));
                lemma_va_index_range(v, 3);
                before.lemma_path_props(h, v, 3);
                if h == high && same_page(va, v) {
                    lemma_same_page_path(before, high, va, v, 3);
                    assert(va_index(v, 3) == idx as int);
                    assert(self.mapping(h, v) == Some(leaf));
                } else if let Some(x) = before.path_table(h, v, 3) {
                    if x == t as int && va_index(v, 3) == idx as int {
                        before.lemma_path_unique(high, va, h, v, 3);
                        assert(false);
                    }
                    assert(self.ent(x, va_index(v, 3)) == before.ent(x, va_index(v, 3)));
                } else {
                }
            }
            assert forall|x: int, j: int| self.allocated(x) && 0 <= j < TABLE_ENTRIES
                && self.level@[x] < 3 && desc_valid(#[trigger] self.ent(x, j))
                implies self.kids@.dom().contains((x, j)) by {
                if x == t as int && j == idx as int {
                    assert(self.level@[x] == 3);
                } else {
                    assert(self.ent(x, j) == before.ent(x, j));
                }
            }
            assert forall|k: (int, int)| #[trigger] self.kids@.dom().contains(k) implies
                self.ent(k.0, k.1) == table_desc(self.pa_of(self.kids@[k]) as u64) by {
                assert(before.level@[k.0] < 3);
                assert(k.0 != t as int);
            }
        }
        Ok(())
    }
}

impl AddressSpace {
    /// Physical address that `va` translates to through a 4 KiB leaf, if mapped.
    pub open spec fn translate(&self, va: u64) -> Option<u64> {
        match self.mapping(va >= USER_VA_END, va) {
            Some(d) => Some(d & PA_MASK),
            None => None,
        }
    }

    /// Walks the tables of the half that `va` belongs to and returns the
    /// physical page of its leaf, or `None` when no valid leaf maps it.
    pub fn walk_to_phys(&self, va: u64) -> (r: Option<u64>)
        requires
            self.wf(),
        ensures
            r == self.translate(va),
    {
        let high = va >= USER_VA_END;
        let mut t: usize = if high { 1 } else { 0 };
        let mut level: u8 = 0;
        while level < 3
            invariant
                self.wf(),
                level <= 3,
                high == (va >= USER_VA_END),
                self.path_table(high, va, level as int) == Some(t as int),
            decreases 3 - level,
        {
            proof {
                self.lemma_path_props(high, va, level as int);
            }
            let idx = table_index(va, level);
            let cur = self.tables[t].entries[idx];
            if cur & DESC_VALID == 0 {
                proof {
                    if self.kids@.dom().contains((t as int, idx as int)) {
                        let kc = self.kids@[(t as int, idx as int)];
                        lemma_table_desc(self.pa_of(kc) as u64);
                    }
                    lemma_path_none_mono(*self, high, va, level as int + 1, 3);
                }
                return None;
            }
            proof {
                assert(desc_valid(self.ent(t as int, idx as int)));
                let c = self.kids@[(t as int, idx as int)];
                lemma_table_desc(self.pa_of(c) as u64);
                vstd::arithmetic::div_mod::lemma_div_multiples_vanish(c, 4096);
            }
            if cur & DESC_PAGE == 0 {
                return None;
            }
            let table_pa = cur & PA_MASK;
            t = ((table_pa - self.base_pa) / PAGE_SIZE_U64) as usize;
            level = level + 1;
        }
        proof {
            self.lemma_path_props(high, va, 3);
        }
        let idx = table_index(va, 3);
        let leaf = self.tables[t].entries[idx];
        if leaf & DESC_VALID == 0 {
            return None;
        }
        Some(leaf & PA_MASK)
    }

    fn map_leaf(&mut self, high: bool, va: u64, pa: u64, writable: bool, executable: bool, device: bool)
        -> (r: Result<(), MmuError>)
        requires
            old(self).wf(),
        ensures
            final(self).wf(),
            final(self).base() == old(self).base(),
            writable && executable ==> r == Err::<(), MmuError>(MmuError::WxPolicyViolation) && *final(self) == *old(self),
            !(writable && executable) && pa % 4096 != 0 ==> r == Err::<(), MmuError>(MmuError::UnalignedAddress)
                && *final(self) == *old(self),
            !(writable && executable) && pa % 4096 == 0 ==> map_outcome(*old(self), *final(self), high, va,
                leaf_desc_spec(pa, writable, executable, device), r),
    {
        let leaf = Self::leaf_desc(pa, writable, executable, device)?;
        self.map_desc(high, va, leaf)
    }

    /// Maps the 4 KiB page at `virt_addr` to `phys_addr` following `flags`
    /// (user pages get EL0 descriptors); the half is chosen by the address.
    pub fn map_page(&mut self, virt_addr: u64, phys_addr: u64, flags: PageTableFlags) -> (r: Result<(), MmuError>)
        requires
            old(self).wf(),
        ensures
            final(self).wf(),
            final(self).base() == old(self).base(),
            virt_addr % 4096 != 0 || phys_addr % 4096 != 0 ==>
                r == Err::<(), MmuError>(MmuError::UnalignedAddress) && *final(self) == *old(self),
            virt_addr % 4096 == 0 && phys_addr % 4096 == 0 && flags@ & FLAG_WRITABLE == FLAG_WRITABLE
                && flags@ & FLAG_NO_EXECUTE != FLAG_NO_EXECUTE ==>
                r == Err::<(), MmuError>(MmuError::WxPolicyViolation) && *final(self) == *old(self),
            virt_addr % 4096 == 0 && phys_addr % 4096 == 0 && !(flags@ & FLAG_WRITABLE == FLAG_WRITABLE
                && flags@ & FLAG_NO_EXECUTE != FLAG_NO_EXECUTE) ==>
                map_outcome(*old(self), *final(self), virt_addr >= USER_VA_END, virt_addr,
                    if flags@ & FLAG_USER_ACCESSIBLE == FLAG_USER_ACCESSIBLE {
                        leaf_desc_user_spec(phys_addr, flags@ & FLAG_WRITABLE == FLAG_WRITABLE,
                            flags@ & FLAG_NO_EXECUTE != FLAG_NO_EXECUTE)
                    } else {
                        leaf_desc_spec(phys_addr, flags@ & FLAG_WRITABLE == FLAG_WRITABLE,
                            flags@ & FLAG_NO_EXECUTE != FLAG_NO_EXECUTE, false)
                    }, r),
            r is Ok ==> final(self).translate(virt_addr) == Some(phys_addr & PA_MASK),
            r is Ok ==> forall|v: u64| !same_page(virt_addr, v) ==> #[trigger] final(self).translate(v) == old(self).translate(v),
    {
        proof {
            lemma_page_offset(virt_addr);
            lemma_page_offset(phys_addr);
        }
        if virt_addr & (PAGE_SIZE_U64 - 1) != 0 || phys_addr & (PAGE_SIZE_U64 - 1) != 0 {
            return Err(MmuError::UnalignedAddress);
        }
        let writable = flags.contains(PageTableFlags(FLAG_WRITABLE));
        let executable = !flags.contains(PageTableFlags(FLAG_NO_EXECUTE));
        if writable && executable {
            return Err(MmuError::WxPolicyViolation);
        }
        let high = virt_addr >= USER_VA_END;
        let leaf = if flags.contains(PageTableFlags(FLAG_USER_ACCESSIBLE)) {
            Self::leaf_desc_user(phys_addr, writable, executable)?
        } else {
            Self::leaf_desc(phys_addr, writable, executable, false)?
        };
        let r = self.map_desc(high, virt_addr, leaf);
        proof {
            assert forall|v: u64| !same_page(virt_addr, v) implies #[trigger] self.translate(v) == old(self).translate(v) by {
                if r is Ok {
                    assert(self.mapping(v >= USER_VA_END, v) == old(self).mapping(v >= USER_VA_END, v));
                }
            }
            if r is Ok {
                assert(self.mapping(high, virt_addr) == Some(leaf));
            }
        }
        r
    }

    /// Maps a user page in the TTBR0 half: code is RO and EL0-executable,
    /// data is RW and never executable.
    pub fn map_user_page(&mut self, virt_addr: u64, phys_addr: u64, writable: bool) -> (r: Result<(), MmuError>)
        requires
            old(self).wf(),
        ensures
            final(self).wf(),
            final(self).base() == old(self).base(),
            !(virt_addr < USER_VA_END && virt_addr % 4096 == 0) || phys_addr % 4096 != 0 ==>
                r == Err::<(), MmuError>(MmuError::UnalignedAddress) && *final(self) == *old(self),
            virt_addr < USER_VA_END && virt_addr % 4096 == 0 && phys_addr % 4096 == 0 ==>
                map_outcome(*old(self), *final(self), false, virt_addr, leaf_desc_user_spec(phys_addr, writable, !writable), r),
            r is Ok ==> final(self).translate(virt_addr) == Some(phys_addr & PA_MASK),
            forall|v: u64| #[trigger] final(self).mapping(true, v) == old(self).mapping(true, v),
    {
        if !is_user_va(virt_addr) {
            return Err(MmuError::UnalignedAddress);
        }
        let leaf = Self::leaf_desc_user(phys_addr, writable, !writable)?;
        let r = self.map_desc(false, virt_addr, leaf);
        proof {
            if r is Ok {
                assert(self.mapping(false, virt_addr) == Some(leaf));
            }
        }
        r
    }
}

/// TCR_EL1 bits for 4 KiB granules, 48-bit VA in both halves, inner-shareable WBWA walks.
pub const TCR_EL1_BASE: u64 = 0xB510_3510;

/// IPS encoding from ID_AA64MMFR0_EL1: PARange clamped to 48 bits (0b101).
pub fn parange_from_mmfr0(mmfr0: u64) -> (r: u64)
    ensures
        r == if mmfr0 % 16 > 5 { 5 } else { mmfr0 % 16 },
{
    let parange = mmfr0 & 0xF;
    assert(mmfr0 & 0xFu64 == mmfr0 % 16) by (bit_vector);
    if parange > 0b101 { 0b101 } else { parange }
}

/// TCR_EL1 value for a CPU whose ID_AA64MMFR0_EL1 reads `mmfr0`.
pub fn build_tcr_el1(mmfr0: u64) -> (r: u64)
    ensures
        r == TCR_EL1_BASE | ((if mmfr0 % 16 > 5 { 5u64 } else { (mmfr0 % 16) as u64 }) << 32u64),
{
    let ips = parange_from_mmfr0(mmfr0);
    TCR_EL1_BASE | (ips << 32)
}

/// Typestate marker: MMU not yet configured.
pub struct Uninitialized;
/// Typestate marker: MMU configured, may be activated.
pub struct Initialized;

/// MMU typestate: `initialize` must come before activation.
pub struct Mmu<State> {
    linear: u64,
    _marker: PhantomData<State>,
}

impl Mmu<Uninitialized> {
    /// Unconfigured MMU.
    pub fn new() -> (r: Self)
        ensures
            r.linear_base_spec() == KERNEL_VMA_BASE,
    {
        Mmu { linear: KERNEL_VMA_BASE, _marker: PhantomData }
    }

    /// Fixes the kernel linear-map base to `KERNEL_VMA_BASE` plus the page-aligned
    /// KASLR offset (0 when none), wrapping on overflow.
    pub fn initialize(self, kaslr_offset: Option<u64>) -> (r: Mmu<Initialized>)
        ensures
            r.linear_base_spec() == (KERNEL_VMA_BASE as int + (match kaslr_offset {
                Some(o) => o - o % 4096,
                None => 0,
            })) % 0x1_0000_0000_0000_0000,
    {
        let off = match kaslr_offset {
            Some(o) => o,
            None => 0,
        };
        let aligned = off & !(PAGE_SIZE_U64 - 1);
        proof {
            assert(off & !4095u64 == off - off % 4096) by (bit_vector);
        }
        Mmu { linear: KERNEL_VMA_BASE.wrapping_add(aligned), _marker: PhantomData }
    }
}

impl<State> Mmu<State> {
    pub closed spec fn linear_base_spec(&self) -> u64 {
        self.linear
    }

    /// Base of the kernel linear mapping this MMU was configured with.
    pub fn linear_base(&self) -> (r: u64)
        ensures
            r == self.linear_base_spec(),
    {
        self.linear
    }
}

proof fn lemma_path_none_mono(a: AddressSpace, h: bool, v: u64, l1: int, l2: int)
    requires
        l1 <= l2,
        a.path_table(h, v, l1) is None,
    ensures
        a.path_table(h, v, l2) is None,
    decreases l2 - l1,
{
    if l1 < l2 {
        lemma_path_none_mono(a, h, v, l1, l2 - 1);
    }
}

proof fn lemma_same_kids_paths(a: AddressSpace, b: AddressSpace, h: bool, v: u64, level: int)
    requires
        a.kids@ == b.kids@,
    ensures
        a.path_table(h, v, level) == b.path_table(h, v, level),
    decreases level,
{
    if level > 0 {
        lemma_same_kids_paths(a, b, h, v, level - 1);
    }
}

proof fn lemma_same_page_path(a: AddressSpace, h: bool, va: u64, v: u64, level: int)
    requires
        same_page(va, v),
        0 <= level <= 3,
    ensures
        a.path_table(h, va, level) == a.path_table(h, v, level),
    decreases level,
{
    if level > 0 {
        lemma_same_page_path(a, h, va, v, level - 1);
    }
}

proof fn lemma_table_desc(pa: u64)
    requires
        pa % 4096 == 0,
        pa < 0x1_0000_0000_0000,
    ensures
        pa & PA_MASK == pa,
        desc_valid(table_desc(pa)),
        table_desc(pa) & DESC_PAGE != 0,
        table_desc(pa) & PA_MASK == pa,
        (DESC_VALID | DESC_PAGE | (pa & PA_MASK)) == table_desc(pa),
{
    assert(pa & 0x0000_FFFF_FFFF_F000u64 == pa) by (bit_vector)
        requires pa % 4096 == 0, pa < 0x1_0000_0000_0000u64;
    assert((1u64 | 2u64 | pa) & 1u64 != 0) by (bit_vector);
    assert((1u64 | 2u64 | pa) & 2u64 != 0) by (bit_vector);
    assert((1u64 | 2u64 | pa) & 0x0000_FFFF_FFFF_F000u64 == pa) by (bit_vector)
        requires pa % 4096 == 0, pa < 0x1_0000_0000_0000u64;
}

proof fn lemma_va_index_range(va: u64, level: int)
    ensures
        0 <= va_index(va, level) < 512,
{
    let x = va >> ((12 + (3 - level) * 9) as u64);
    assert(x & 0x1FFu64 <= 0x1FF) by (bit_vector);
}

proof fn lemma_page_offset(x: u64)
    ensures
        (x & 4095u64 == 0) <==> x % 4096 == 0,
{
    assert((x & 4095u64 == 0) <==> x % 4096 == 0) by (bit_vector);
}

proof fn lemma_leaf_desc_props(pa: u64, writable: bool, executable: bool, device: bool)
    requires
        !(writable && executable),
    ensures
        wx_ok(leaf_desc_spec(pa, writable, executable, device)),
        desc_valid(leaf_desc_spec(pa, writable, executable, device)),
        leaf_desc_spec(pa, writable, executable, device) & PA_MASK == pa & PA_MASK,
{
    let m = pa & 0x0000_FFFF_FFFF_F000u64;
    let b = 0x1u64 | 0x2u64 | 0x400u64 | m;
    let a1 = 0x4u64 | 0x40_0000_0000_0000u64 | 0x20_0000_0000_0000u64;
    let a2 = 0x8u64 | 0x300u64;
    let x = 0x40_0000_0000_0000u64 | 0x20_0000_0000_0000u64;
    assert(((b | a1 | 0u64 | x) & 0x80u64 == 0 ==> ((b | a1 | 0u64 | x) & 0x20_0000_0000_0000u64 != 0 && (b | a1 | 0u64 | x) & 0x40_0000_0000_0000u64 != 0))
        && (b | a1 | 0u64 | x) & 1u64 != 0 && (b | a1 | 0u64 | x) & 0x0000_FFFF_FFFF_F000u64 == m) by (bit_vector)
        requires m == pa & 0x0000_FFFF_FFFF_F000u64, b == 0x1u64 | 0x2u64 | 0x400u64 | m,
            a1 == 0x4u64 | 0x40_0000_0000_0000u64 | 0x20_0000_0000_0000u64,
            x == 0x40_0000_0000_0000u64 | 0x20_0000_0000_0000u64;
    assert(((b | a2 | 0u64 | x) & 0x80u64 == 0 ==> ((b | a2 | 0u64 | x) & 0x20_0000_0000_0000u64 != 0 && (b | a2 | 0u64 | x) & 0x40_0000_0000_0000u64 != 0))
        && (b | a2 | 0u64 | x) & 1u64 != 0 && (b | a2 | 0u64 | x) & 0x0000_FFFF_FFFF_F000u64 == m) by (bit_vector)
        requires m == pa & 0x0000_FFFF_FFFF_F000u64, b == 0x1u64 | 0x2u64 | 0x400u64 | m,
            a2 == 0x8u64 | 0x300u64, x == 0x40_0000_0000_0000u64 | 0x20_0000_0000_0000u64;
    assert((b | a1 | 0x80u64 | x) & 1u64 != 0 && (b | a1 | 0x80u64 | x) & 0x0000_FFFF_FFFF_F000u64 == m
        && (b | a1 | 0x80u64 | x) & 0x80u64 != 0) by (bit_vector)
        requires m == pa & 0x0000_FFFF_FFFF_F000u64, b == 0x1u64 | 0x2u64 | 0x400u64 | m,
            a1 == 0x4u64 | 0x40_0000_0000_0000u64 | 0x20_0000_0000_0000u64,
            x == 0x40_0000_0000_0000u64 | 0x20_0000_0000_0000u64;
    assert((b | a2 | 0x80u64 | x) & 1u64 != 0 && (b | a2 | 0x80u64 | x) & 0x0000_FFFF_FFFF_F000u64 == m
        && (b | a2 | 0x80u64 | x) & 0x80u64 != 0) by (bit_vector)
        requires m == pa & 0x0000_FFFF_FFFF_F000u64, b == 0x1u64 | 0x2u64 | 0x400u64 | m,
            a2 == 0x8u64 | 0x300u64, x == 0x40_0000_0000_0000u64 | 0x20_0000_0000_0000u64;
    assert((b | a1 | 0x80u64 | 0u64) & 1u64 != 0 && (b | a1 | 0x80u64 | 0u64) & 0x0000_FFFF_FFFF_F000u64 == m
        && (b | a1 | 0x80u64 | 0u64) & 0x80u64 != 0) by (bit_vector)
        requires m == pa & 0x0000_FFFF_FFFF_F000u64, b == 0x1u64 | 0x2u64 | 0x400u64 | m,
            a1 == 0x4u64 | 0x40_0000_0000_0000u64 | 0x20_0000_0000_0000u64;
    assert((b | a2 | 0x80u64 | 0u64) & 1u64 != 0 && (b | a2 | 0x80u64 | 0u64) & 0x0000_FFFF_FFFF_F000u64 == m
        && (b | a2 | 0x80u64 | 0u64) & 0x80u64 != 0) by (bit_vector)
        requires m == pa & 0x0000_FFFF_FFFF_F000u64, b == 0x1u64 | 0x2u64 | 0x400u64 | m,
            a2 == 0x8u64 | 0x300u64;
}

proof fn lemma_leaf_desc_user_props(pa: u64, writable: bool, executable: bool)
    ensures
        wx_ok(leaf_desc_user_spec(pa, writable, executable)),
        desc_valid(leaf_desc_user_spec(pa, writable, executable)),
        leaf_desc_user_spec(pa, writable, executable) & PA_MASK == pa & PA_MASK,
        writable ==> leaf_desc_user_spec(pa, writable, executable) & 0xC0u64 == 0x40u64
            && leaf_desc_user_spec(pa, writable, executable) & 0x40_0000_0000_0000u64 != 0
            && leaf_desc_user_spec(pa, writable, executable) & 0x20_0000_0000_0000u64 != 0,
        !writable ==> leaf_desc_user_spec(pa, writable, executable) & 0xC0u64 == 0xC0u64
            && leaf_desc_user_spec(pa, writable, executable) & 0x20_0000_0000_0000u64 != 0
            && (leaf_desc_user_spec(pa, writable, executable) & 0x40_0000_0000_0000u64 != 0) == !executable,
{
    let m = pa & 0x0000_FFFF_FFFF_F000u64;
    let b = 0x1u64 | 0x2u64 | 0x400u64 | m | 0x8u64 | 0x300u64;
    let w = b | 0x40u64 | 0x40_0000_0000_0000u64 | 0x20_0000_0000_0000u64;
    assert(w & 0x20_0000_0000_0000u64 != 0 && w & 0x40_0000_0000_0000u64 != 0 && w & 1u64 != 0
        && w & 0x0000_FFFF_FFFF_F000u64 == m && w & 0xC0u64 == 0x40u64)
        by (bit_vector)
        requires
            m == pa & 0x0000_FFFF_FFFF_F000u64,
            b == 0x1u64 | 0x2u64 | 0x400u64 | m | 0x8u64 | 0x300u64,
            w == b | 0x40u64 | 0x40_0000_0000_0000u64 | 0x20_0000_0000_0000u64;
    let x: u64 = if executable { 0u64 } else { 0x40_0000_0000_0000u64 };
    let ro = b | 0xC0u64 | 0x20_0000_0000_0000u64 | x;
    assert(ro & 0x80u64 != 0 && ro & 1u64 != 0 && ro & 0x0000_FFFF_FFFF_F000u64 == m && ro & 0xC0u64 == 0xC0u64
        && ro & 0x20_0000_0000_0000u64 != 0 && (ro & 0x40_0000_0000_0000u64 != 0) == (x != 0))
        by (bit_vector)
        requires
            m == pa & 0x0000_FFFF_FFFF_F000u64,
            b == 0x1u64 | 0x2u64 | 0x400u64 | m | 0x8u64 | 0x300u64,
            ro == b | 0xC0u64 | 0x20_0000_0000_0000u64 | x,
            x == 0u64 || x == 0x40_0000_0000_0000u64;
}

/// Access a user page's leaf grants, read from its bits: a writable page is
/// read-write at EL0 (AP[2:1] = 0b01) and never executable (UXN and PXN set);
/// a read-only page has AP[2:1] = 0b11, is never executable by the kernel
/// (PXN set) and is executable at EL0 exactly when asked (UXN clear). The leaf
/// is valid and points at the page's frame.
pub proof fn law_user_leaf_permissions(pa: u64, writable: bool, executable: bool)
    ensures
        leaf_desc_user_spec(pa, writable, executable) & 1u64 != 0,
        leaf_desc_user_spec(pa, writable, executable) & 0x0000_FFFF_FFFF_F000u64 == pa & 0x0000_FFFF_FFFF_F000u64,
        writable ==> leaf_desc_user_spec(pa, writable, executable) & 0xC0u64 == 0x40u64,
        !writable ==> leaf_desc_user_spec(pa, writable, executable) & 0xC0u64 == 0xC0u64,
        leaf_desc_user_spec(pa, writable, executable) & 0x20_0000_0000_0000u64 != 0,
        (leaf_desc_user_spec(pa, writable, executable) & 0x40_0000_0000_0000u64 != 0) == (writable || !executable),
{
    lemma_leaf_desc_user_props(pa, writable, executable);
}

/// What `map_user_page` installs: after a successful call the page's leaf is
/// read-write at EL0 and never executable for a data page, and read-only,
/// EL0-executable and never kernel-executable for a code page.
pub proof fn law_map_user_page_access(before: AddressSpace, after: AddressSpace, va: u64, pa: u64, writable: bool)
    requires
        va < USER_VA_END && va % 4096 == 0 && pa % 4096 == 0,
        map_outcome(before, after, false, va, leaf_desc_user_spec(pa, writable, !writable), Ok::<(), MmuError>(())),
    ensures
        after.mapping(false, va) matches Some(d) && d & 1u64 != 0
            && (writable ==> d & 0xC0u64 == 0x40u64 && d & 0x40_0000_0000_0000u64 != 0 && d & 0x20_0000_0000_0000u64 != 0)
            && (!writable ==> d & 0xC0u64 == 0xC0u64 && d & 0x40_0000_0000_0000u64 == 0 && d & 0x20_0000_0000_0000u64 != 0),
{
    lemma_leaf_desc_user_props(pa, writable, !writable);
}

/// Address a range page `pa` is mapped at: itself in the low half, `linear + pa`
/// in the high half.
pub open spec fn range_target(high: bool, linear: u64, pa: u64) -> u64 {
    if high { (linear + pa) as u64 } else { pa }
}

/// Page `pa` is one of the 4 KiB pages of `[start, end)`.
pub open spec fn range_page(pa: u64, start: u64, end: u64) -> bool {
    start <= pa < end && pa % 4096 == 0
}

/// Every page of `[start, end)` is mapped in both halves with the leaf its
/// permissions give.
pub open spec fn range_mapped(s: AddressSpace, linear: u64, start: u64, end: u64, writable: bool, executable: bool,
    device: bool) -> bool {
    forall|pa: u64| #[trigger] range_page(pa, start, end) ==>
        s.mapping(false, pa) == Some(leaf_desc_spec(pa, writable, executable, device))
        && s.mapping(true, (linear + pa) as u64) == Some(leaf_desc_spec(pa, writable, executable, device))
}

/// Two page-aligned addresses less than 2^48 apart with the same low twelve
/// bits select the same slots only when they are equal.
proof fn lemma_same_page_distinct(x: u64, y: u64)
    requires
        x % 4096 == y % 4096,
        x >= y ==> x - y < 0x1_0000_0000_0000,
        y >= x ==> y - x < 0x1_0000_0000_0000,
        same_page(x, y),
    ensures
        x == y,
{
    assert(va_index(x, 0) == ((x >> 39u64) & 0x1FFu64) as int);
    assert(va_index(x, 1) == ((x >> 30u64) & 0x1FFu64) as int);
    assert(va_index(x, 2) == ((x >> 21u64) & 0x1FFu64) as int);
    assert(va_index(x, 3) == ((x >> 12u64) & 0x1FFu64) as int);
    assert(va_index(y, 0) == ((y >> 39u64) & 0x1FFu64) as int);
    assert(va_index(y, 1) == ((y >> 30u64) & 0x1FFu64) as int);
    assert(va_index(y, 2) == ((y >> 21u64) & 0x1FFu64) as int);
    assert(va_index(y, 3) == ((y >> 12u64) & 0x1FFu64) as int);
    assert(x == y) by (bit_vector)
        requires
            x % 4096 == y % 4096,
            x >= y ==> x - y < 0x1_0000_0000_0000,
            y >= x ==> y - x < 0x1_0000_0000_0000,
            (x >> 39u64) & 0x1FFu64 == (y >> 39u64) & 0x1FFu64,
            (x >> 30u64) & 0x1FFu64 == (y >> 30u64) & 0x1FFu64,
            (x >> 21u64) & 0x1FFu64 == (y >> 21u64) & 0x1FFu64,
            (x >> 12u64) & 0x1FFu64 == (y >> 12u64) & 0x1FFu64,
    ;
}

/// The range pages below `cur` keep their slots from `sa` to `sb`.
pub open spec fn range_kept(sa: AddressSpace, sb: AddressSpace, linear: u64, start: u64, cur: u64) -> bool {
    forall|q: u64| #[trigger] range_page(q, start, cur) ==>
        sb.mapping(false, q) == sa.mapping(false, q) && sb.mapping(true, (linear + q) as u64) == sa.mapping(true, (linear + q) as u64)
}

/// Mapping a page at or past `cur` (at itself in the low half, or at
/// `linear` plus itself in the high half) leaves the range pages below `cur`
/// alone.
proof fn lemma_map_keeps(sa: AddressSpace, sb: AddressSpace, high: bool, pa: u64, leaf: u64, linear: u64, start: u64, cur: u64)
    requires
        map_outcome(sa, sb, high, range_target(high, linear, pa), leaf, Ok(())),
        linear % 4096 == 0,
        pa % 4096 == 0,
        cur <= pa,
        pa + 4096 <= 0x1_0000_0000_0000,
        linear + pa + 4096 <= u64::MAX,
    ensures
        range_kept(sa, sb, linear, start, cur),
{
    assert forall|q: u64| #[trigger] range_page(q, start, cur) implies
        sb.mapping(false, q) == sa.mapping(false, q) && sb.mapping(true, (linear + q) as u64) == sa.mapping(true, (linear + q) as u64) by {
        if same_page(range_target(high, linear, pa), range_target(high, linear, q)) {
            lemma_same_page_distinct(range_target(high, linear, pa), range_target(high, linear, q));
        }
        assert(sb.mapping(high, range_target(high, linear, q)) == sa.mapping(high, range_target(high, linear, q)));
        assert(sb.mapping(!high, range_target(!high, linear, q)) == sa.mapping(!high, range_target(!high, linear, q)));
    }
}

/// What the two mappings of one range page establish about that page.
proof fn lemma_step_page(s1: AddressSpace, s2: AddressSpace, s3: AddressSpace, pa: u64, hp: u64, leaf: u64)
    requires
        map_outcome(s1, s2, false, pa, leaf, Ok(())),
        map_outcome(s2, s3, true, hp, leaf, Ok(())),
    ensures
        s3.mapping(false, pa) == Some(leaf),
        s3.mapping(true, hp) == Some(leaf),
        s1.mapping(false, pa) is None,
        s1.mapping(true, hp) is None,
{
    assert(same_page(pa, pa));
    assert(same_page(hp, hp));
    assert(s3.mapping(false, pa) == s2.mapping(false, pa));
    assert(s2.mapping(true, hp) == s1.mapping(true, hp));
}

/// A page not mapped after the earlier pages were was not mapped before them.
proof fn lemma_step_fresh(s0: AddressSpace, s1: AddressSpace, linear: u64, start: u64, pa: u64)
    requires
        linear % 4096 == 0,
        pa % 4096 == 0,
        start <= pa,
        pa + 4096 <= 0x1_0000_0000_0000,
        linear + pa + 4096 <= u64::MAX,
        forall|h: bool, v: u64| #[trigger] s1.mapping(h, v) != s0.mapping(h, v)
            ==> exists|q: u64| range_page(q, start, pa) && #[trigger] same_page(range_target(h, linear, q), v),
        s1.mapping(false, pa) is None,
        s1.mapping(true, (linear + pa) as u64) is None,
    ensures
        s0.mapping(false, pa) is None,
        s0.mapping(true, (linear + pa) as u64) is None,
{
    let hp = (linear + pa) as u64;
    if s1.mapping(false, pa) != s0.mapping(false, pa) {
        let w = choose|w: u64| range_page(w, start, pa) && #[trigger] same_page(range_target(false, linear, w), pa);
        lemma_same_page_distinct(w, pa);
    }
    if s1.mapping(true, hp) != s0.mapping(true, hp) {
        let w = choose|w: u64| range_page(w, start, pa) && #[trigger] same_page(range_target(true, linear, w), hp);
        lemma_same_page_distinct((linear + w) as u64, hp);
    }
}

/// The range facts for one more page, from the facts for the earlier pages
/// and for the new one.
proof fn lemma_step_assemble(s0: AddressSpace, s1: AddressSpace, s2: AddressSpace, s3: AddressSpace, linear: u64,
    start: u64, pa: u64, writable: bool, executable: bool, device: bool)
    requires
        range_mapped(s1, linear, start, pa, writable, executable, device),
        forall|q: u64| #[trigger] range_page(q, start, pa) ==>
            s0.mapping(false, q) is None && s0.mapping(true, (linear + q) as u64) is None,
        range_kept(s1, s2, linear, start, pa),
        range_kept(s2, s3, linear, start, pa),
        s3.mapping(false, pa) == Some(leaf_desc_spec(pa, writable, executable, device)),
        s3.mapping(true, (linear + pa) as u64) == Some(leaf_desc_spec(pa, writable, executable, device)),
        s0.mapping(false, pa) is None,
        s0.mapping(true, (linear + pa) as u64) is None,
        pa % 4096 == 0,
        start <= pa,
        pa + 4096 <= u64::MAX,
    ensures
        range_mapped(s3, linear, start, (pa + 4096) as u64, writable, executable, device),
        forall|q: u64| #[trigger] range_page(q, start, (pa + 4096) as u64) ==>
            s0.mapping(false, q) is None && s0.mapping(true, (linear + q) as u64) is None,
{
    assert forall|q: u64| #[trigger] range_page(q, start, (pa + 4096) as u64) implies
        s3.mapping(false, q) == Some(leaf_desc_spec(q, writable, executable, device))
        && s3.mapping(true, (linear + q) as u64) == Some(leaf_desc_spec(q, writable, executable, device))
        && s0.mapping(false, q) is None && s0.mapping(true, (linear + q) as u64) is None by {
        if q < pa {
            assert(range_page(q, start, pa));
        } else {
            assert(q == pa);
        }
    }
}

/// One page of `map_range`: after mapping `pa` in both halves the range
/// invariant covers one more page.
proof fn lemma_range_step(s0: AddressSpace, s1: AddressSpace, s2: AddressSpace, s3: AddressSpace, linear: u64,
    start: u64, pa: u64, writable: bool, executable: bool, device: bool)
    requires
        !(writable && executable),
        linear % 4096 == 0,
        pa % 4096 == 0,
        start % 4096 == 0,
        start <= pa,
        pa + 4096 <= 0x1_0000_0000_0000,
        linear + pa + 4096 <= u64::MAX,
        range_mapped(s1, linear, start, pa, writable, executable, device),
        forall|q: u64| #[trigger] range_page(q, start, pa) ==>
            s0.mapping(false, q) is None && s0.mapping(true, (linear + q) as u64) is None,
        forall|h: bool, v: u64| #[trigger] s1.mapping(h, v) != s0.mapping(h, v)
            ==> exists|q: u64| range_page(q, start, pa) && #[trigger] same_page(range_target(h, linear, q), v),
        map_outcome(s1, s2, false, pa, leaf_desc_spec(pa, writable, executable, device), Ok(())),
        map_outcome(s2, s3, true, (linear + pa) as u64, leaf_desc_spec(pa, writable, executable, device), Ok(())),
    ensures
        range_mapped(s3, linear, start, (pa + 4096) as u64, writable, executable, device),
        forall|q: u64| #[trigger] range_page(q, start, (pa + 4096) as u64) ==>
            s0.mapping(false, q) is None && s0.mapping(true, (linear + q) as u64) is None,
{
    let leaf = leaf_desc_spec(pa, writable, executable, device);
    let hp = (linear + pa) as u64;
    assert(range_target(false, linear, pa) == pa);
    assert(range_target(true, linear, pa) == hp);
    lemma_map_keeps(s1, s2, false, pa, leaf, linear, start, pa);
    lemma_map_keeps(s2, s3, true, pa, leaf, linear, start, pa);
    lemma_step_page(s1, s2, s3, pa, hp, leaf);
    lemma_step_fresh(s0, s1, linear, start, pa);
    lemma_step_assemble(s0, s1, s2, s3, linear, start, pa, writable, executable, device);
}

/// The witness part of one `map_range` step: every changed slot lies on a
/// page of the range mapped so far.
proof fn lemma_range_step_changes(s0: AddressSpace, s1: AddressSpace, s2: AddressSpace, s3: AddressSpace, linear: u64,
    start: u64, pa: u64, writable: bool, executable: bool, device: bool)
    requires
        !(writable && executable),
        linear % 4096 == 0,
        pa % 4096 == 0,
        start % 4096 == 0,
        start <= pa,
        pa + 4096 <= 0x1_0000_0000_0000,
        linear + pa + 4096 <= u64::MAX,
        range_mapped(s1, linear, start, pa, writable, executable, device),
        forall|q: u64| #[trigger] range_page(q, start, pa) ==>
            s0.mapping(false, q) is None && s0.mapping(true, (linear + q) as u64) is None,
        forall|h: bool, v: u64| #[trigger] s1.mapping(h, v) != s0.mapping(h, v)
            ==> exists|q: u64| range_page(q, start, pa) && #[trigger] same_page(range_target(h, linear, q), v),
        map_outcome(s1, s2, false, pa, leaf_desc_spec(pa, writable, executable, device), Ok(())),
        map_outcome(s2, s3, true, (linear + pa) as u64, leaf_desc_spec(pa, writable, executable, device), Ok(())),
    ensures
        forall|h: bool, v: u64| #[trigger] s3.mapping(h, v) != s0.mapping(h, v)
            ==> exists|q: u64| range_page(q, start, (pa + 4096) as u64) && #[trigger] same_page(range_target(h, linear, q), v),
{
    let hp = (linear + pa) as u64;
    assert forall|h: bool, v: u64| #[trigger] s3.mapping(h, v) != s0.mapping(h, v) implies
        exists|q: u64| range_page(q, start, (pa + 4096) as u64) && #[trigger] same_page(range_target(h, linear, q), v) by {
        if s1.mapping(h, v) != s0.mapping(h, v) {
            let w = choose|w: u64| range_page(w, start, pa) && #[trigger] same_page(range_target(h, linear, w), v);
            assert(range_page(w, start, (pa + 4096) as u64));
        } else {
            assert(range_page(pa, start, (pa + 4096) as u64));
            if h {
                assert(s2.mapping(h, v) == s1.mapping(h, v));
                assert(same_page(range_target(h, linear, pa), v));
            } else {
                assert(s3.mapping(h, v) == s2.mapping(h, v));
                assert(same_page(range_target(h, linear, pa), v));
            }
        }
    }
}

/// A page of the range not reached yet still has the mappings it had before
/// the range was started.
proof fn lemma_unreached_page_kept(s0: AddressSpace, s: AddressSpace, linear: u64, start: u64, pa: u64, end: u64)
    requires
        start <= pa < end,
        end <= 0x1_0000_0000_0000,
        pa % 4096 == 0,
        start % 4096 == 0,
        linear % 4096 == 0,
        linear + end <= u64::MAX,
        forall|h: bool, v: u64| #[trigger] s.mapping(h, v) != s0.mapping(h, v)
            ==> exists|q: u64| range_page(q, start, pa) && #[trigger] same_page(range_target(h, linear, q), v),
    ensures
        s.mapping(false, pa) == s0.mapping(false, pa),
        s.mapping(true, (linear + pa) as u64) == s0.mapping(true, (linear + pa) as u64),
{
    if s.mapping(false, pa) != s0.mapping(false, pa) {
        let q = choose|q: u64| range_page(q, start, pa) && #[trigger] same_page(range_target(false, linear, q), pa);
        lemma_same_page_distinct(q, pa);
    }
    let hp = (linear + pa) as u64;
    if s.mapping(true, hp) != s0.mapping(true, hp) {
        let q = choose|q: u64| range_page(q, start, pa) && #[trigger] same_page(range_target(true, linear, q), hp);
        let hq = (linear + q) as u64;
        assert(hq % 4096 == 0 && hp % 4096 == 0);
        lemma_same_page_distinct(hq, hp);
    }
}

impl AddressSpace {
    /// Maps every page of `[pa_start, pa_end)`, widened to page bounds, twice:
    /// at its own address in the low half and at `linear + pa` in the high
    /// half, with the same permissions. Stops at the first page that fails.
    pub fn map_range(&mut self, linear: u64, pa_start: u64, pa_end: u64, writable: bool, executable: bool,
        device: bool) -> (r: Result<(), MmuError>)
        requires
            old(self).wf(),
            linear % 4096 == 0,
            pa_end <= 0xFFFF_FFFF_F000,
            linear + pa_end + 4096 <= u64::MAX,
        ensures
            final(self).wf(),
            final(self).base() == old(self).base(),
            ({
                let start = (pa_start - pa_start % 4096) as u64;
                let end = (pa_end + 4095 - (pa_end + 4095) % 4096) as u64;
                &&& start >= end ==> r is Ok && *final(self) == *old(self)
                &&& start < end && writable && executable ==> r == Err::<(), MmuError>(MmuError::WxPolicyViolation)
                    && *final(self) == *old(self)
                &&& r is Err ==> r == Err::<(), MmuError>(MmuError::WxPolicyViolation)
                    || r == Err::<(), MmuError>(MmuError::AlreadyMapped)
                    || r == Err::<(), MmuError>(MmuError::TableExhausted)
                &&& !(writable && executable) ==> r != Err::<(), MmuError>(MmuError::WxPolicyViolation)
                &&& r == Err::<(), MmuError>(MmuError::AlreadyMapped) ==> exists|pa: u64| #[trigger] range_page(pa, start, end)
                    && (old(self).mapping(false, pa) is Some || old(self).mapping(true, (linear + pa) as u64) is Some)
                &&& r is Ok ==> range_mapped(*final(self), linear, start, end, writable, executable, device)
                &&& r is Ok ==> forall|pa: u64| #[trigger] range_page(pa, start, end) ==>
                    old(self).mapping(false, pa) is None && old(self).mapping(true, (linear + pa) as u64) is None
                &&& r is Ok ==> forall|h: bool, v: u64| #[trigger] final(self).mapping(h, v) != old(self).mapping(h, v)
                    ==> exists|pa: u64| range_page(pa, start, end) && #[trigger] same_page(range_target(h, linear, pa), v)
            }),
    {
        let start = pa_start - pa_start % 4096;
        let end = (pa_end + 4095) - (pa_end + 4095) % 4096;
        let mut pa = start;
        let ghost s0 = *self;
        while pa < end
            invariant
                self.wf(),
                self.base() == s0.base(),
                s0 == *old(self),
                start == pa_start - pa_start % 4096,
                end == (pa_end + 4095) - (pa_end + 4095) % 4096,
                end <= 0x1_0000_0000_0000,
                linear % 4096 == 0,
                linear + end <= u64::MAX,
                start <= pa,
                start <= end ==> pa <= end,
                writable && executable ==> pa == start,
                start >= end ==> pa == start,
                pa % 4096 == 0,
                start % 4096 == 0,
                pa < end ==> pa + 4096 <= end,
                pa == start ==> *self == s0,
                range_mapped(*self, linear, start, pa, writable, executable, device),
                forall|q: u64| #[trigger] range_page(q, start, pa) ==>
                    s0.mapping(false, q) is None && s0.mapping(true, (linear + q) as u64) is None,
                forall|h: bool, v: u64| #[trigger] self.mapping(h, v) != s0.mapping(h, v)
                    ==> exists|q: u64| range_page(q, start, pa) && #[trigger] same_page(range_target(h, linear, q), v),
            decreases end - pa,
        {
            let ghost s1 = *self;
            let r1 = self.map_leaf(false, pa, pa, writable, executable, device);
            if r1.is_err() {
                proof {
                    lemma_unreached_page_kept(s0, s1, linear, start, pa, end);
                    if r1 == Err::<(), MmuError>(MmuError::AlreadyMapped) {
                        let st = (pa_start - pa_start % 4096) as u64;
                        let en = (pa_end + 4095 - (pa_end + 4095) % 4096) as u64;
                        assert(range_page(pa, st, en) && old(self).mapping(false, pa) is Some);
                    }
                }
                return r1;
            }
            let ghost s2 = *self;
            let r2 = self.map_leaf(true, linear + pa, pa, writable, executable, device);
            if r2.is_err() {
                proof {
                    lemma_unreached_page_kept(s0, s1, linear, start, pa, end);
                    assert(s2.mapping(true, (linear + pa) as u64) == s1.mapping(true, (linear + pa) as u64));
                    if r2 == Err::<(), MmuError>(MmuError::AlreadyMapped) {
                        let st = (pa_start - pa_start % 4096) as u64;
                        let en = (pa_end + 4095 - (pa_end + 4095) % 4096) as u64;
                        assert(range_page(pa, st, en) && old(self).mapping(true, (linear + pa) as u64) is Some);
                    }
                }
                return r2;
            }
            proof {
                lemma_range_step(s0, s1, s2, *self, linear, start, pa, writable, executable, device);
                lemma_range_step_changes(s0, s1, s2, *self, linear, start, pa, writable, executable, device);
            }
            pa = pa + 4096;
        }
        assert(start < end ==> pa == end);
        Ok(())
    }
}


/// Size of the GIC distributor register block.
pub const GICD_MMIO_SIZE: u64 = 0x1_0000;
/// Size of the GIC redistributor frames of one core.
pub const GICR_MMIO_SIZE: u64 = 0x2_0000;
/// Size of the virtio-mmio transport window.
pub const VIRTIO_MMIO_SIZE: u64 = 0x4000;

/// `x` rounded down to a page.
pub open spec fn page_down(x: u64) -> u64 {
    (x - x % 4096) as u64
}

/// `x` rounded up to a page.
pub open spec fn page_up(x: u64) -> u64 {
    (x + 4095 - (x + 4095) % 4096) as u64
}

/// Base of the high-half linear map: `KERNEL_VMA_BASE` plus the KASLR
/// offset rounded down to a page, modulo 2^64.
pub open spec fn stage1_linear(kaslr_offset: u64) -> u64 {
    let sum = KERNEL_VMA_BASE + page_down(kaslr_offset);
    if sum > u64::MAX { (sum - 0x1_0000_0000_0000_0000) as u64 } else { sum as u64 }
}

/// A range mapped before a later `map_range` call that succeeded is still
/// mapped after it: the later call only filled slots that were empty.
proof fn lemma_range_persists(sa: AddressSpace, sb: AddressSpace, linear: u64, a1: u64, b1: u64, w1: bool, x1: bool,
    d1: bool, a2: u64, b2: u64)
    requires
        range_mapped(sa, linear, a1, b1, w1, x1, d1),
        linear % 4096 == 0,
        b1 <= 0x1_0000_0000_0000,
        b2 <= 0x1_0000_0000_0000,
        linear + b1 <= u64::MAX,
        linear + b2 <= u64::MAX,
        forall|pa: u64| #[trigger] range_page(pa, a2, b2) ==>
            sa.mapping(false, pa) is None && sa.mapping(true, (linear + pa) as u64) is None,
        forall|h: bool, v: u64| #[trigger] sb.mapping(h, v) != sa.mapping(h, v)
            ==> exists|pa: u64| range_page(pa, a2, b2) && #[trigger] same_page(range_target(h, linear, pa), v),
    ensures
        range_mapped(sb, linear, a1, b1, w1, x1, d1),
{
    assert forall|q: u64| #[trigger] range_page(q, a1, b1) implies
        sb.mapping(false, q) == Some(leaf_desc_spec(q, w1, x1, d1))
        && sb.mapping(true, (linear + q) as u64) == Some(leaf_desc_spec(q, w1, x1, d1)) by {
        if sb.mapping(false, q) != sa.mapping(false, q) {
            let p = choose|p: u64| range_page(p, a2, b2) && #[trigger] same_page(range_target(false, linear, p), q);
            lemma_same_page_distinct(p, q);
        }
        if sb.mapping(true, (linear + q) as u64) != sa.mapping(true, (linear + q) as u64) {
            let p = choose|p: u64| range_page(p, a2, b2)
                && #[trigger] same_page(range_target(true, linear, p), (linear + q) as u64);
            lemma_same_page_distinct((linear + p) as u64, (linear + q) as u64);
        }
    }
}

impl AddressSpace {
    /// The kernel's stage-1 map, identity in the low half and at the linear
    /// base in the high half: text read-only executable, rodata read-only,
    /// data and bss writable, never executable; the UART page, the GIC
    /// distributor and redistributor and the virtio-mmio window as writable
    /// device memory. Stops at the first range that fails.
    #[verifier::spinoff_prover]
    #[verifier::rlimit(80)]
    pub fn build_stage1_map(&mut self, kaslr_offset: u64, uart_phys: u64, text: u64, rodata: u64, data: u64,
        kernel_end: u64) -> (r: Result<(), MmuError>)
        requires
            old(self).wf(),
            rodata <= 0xFFFF_FFFF_F000,
            data <= 0xFFFF_FFFF_F000,
            kernel_end <= 0xFFFF_FFFF_F000,
            page_down(uart_phys) + 4096 <= 0xFFFF_FFFF_F000,
            stage1_linear(kaslr_offset) + 0x1_0000_0000_0000 <= u64::MAX,
        ensures
            final(self).wf(),
            final(self).base() == old(self).base(),
            r is Err ==> r == Err::<(), MmuError>(MmuError::AlreadyMapped) || r == Err::<(), MmuError>(MmuError::TableExhausted),
            r is Ok ==> {
                let lin = stage1_linear(kaslr_offset);
                let u = page_down(uart_phys);
                &&& range_mapped(*final(self), lin, page_down(text), page_up(rodata), false, true, false)
                &&& range_mapped(*final(self), lin, page_down(rodata), page_up(data), false, false, false)
                &&& range_mapped(*final(self), lin, page_down(data), page_up(kernel_end), true, false, false)
                &&& range_mapped(*final(self), lin, u, (u + 4096) as u64, true, false, true)
                &&& range_mapped(*final(self), lin, GICD_PHYS, (GICD_PHYS + GICD_MMIO_SIZE) as u64, true, false, true)
                &&& range_mapped(*final(self), lin, GICR_PHYS, (GICR_PHYS + GICR_MMIO_SIZE) as u64, true, false, true)
                &&& range_mapped(*final(self), lin, VIRTIO_MMIO_PHYS, (VIRTIO_MMIO_PHYS + VIRTIO_MMIO_SIZE) as u64, true, false, true)
            },
    {
        let linear = KERNEL_VMA_BASE.wrapping_add(kaslr_offset - kaslr_offset % 4096);
        proof {
            let pd = page_down(kaslr_offset);
            assert(linear == stage1_linear(kaslr_offset));
            assert(linear % 4096 == 0) by (nonlinear_arith)
                requires
                    pd % 4096 == 0,
                    KERNEL_VMA_BASE % 4096 == 0,
                    linear == (if KERNEL_VMA_BASE + pd > u64::MAX { KERNEL_VMA_BASE + pd - 0x1_0000_0000_0000_0000 }
                        else { KERNEL_VMA_BASE + pd });
        }
        let uart = uart_phys - uart_phys % 4096;
        let ghost s0 = *self;
        self.map_range(linear, text, rodata, false, true, false)?;
        let ghost s1 = *self;
        self.map_range(linear, rodata, data, false, false, false)?;
        let ghost s2 = *self;
        proof {
            lemma_range_persists(s1, s2, linear, page_down(text), page_up(rodata), false, true, false, page_down(rodata), page_up(data));
        }
        self.map_range(linear, data, kernel_end, true, false, false)?;
        let ghost s3 = *self;
        proof {
            lemma_range_persists(s2, s3, linear, page_down(text), page_up(rodata), false, true, false, page_down(data), page_up(kernel_end));
            lemma_range_persists(s2, s3, linear, page_down(rodata), page_up(data), false, false, false, page_down(data), page_up(kernel_end));
        }
        self.map_range(linear, uart, uart + 4096, true, false, true)?;
        let ghost s4 = *self;
        proof {
            assert(page_down(uart) == uart && page_up((uart + 4096) as u64) == uart + 4096);
            lemma_range_persists(s3, s4, linear, page_down(text), page_up(rodata), false, true, false, uart, (uart + 4096) as u64);
            lemma_range_persists(s3, s4, linear, page_down(rodata), page_up(data), false, false, false, uart, (uart + 4096) as u64);
            lemma_range_persists(s3, s4, linear, page_down(data), page_up(kernel_end), true, false, false, uart, (uart + 4096) as u64);
        }
        self.map_range(linear, GICD_PHYS, GICD_PHYS + GICD_MMIO_SIZE, true, false, true)?;
        let ghost s5 = *self;
        proof {
            let (a, b) = (GICD_PHYS, (GICD_PHYS + GICD_MMIO_SIZE) as u64);
            assert(page_down(a) == a && page_up(b) == b);
            lemma_range_persists(s4, s5, linear, page_down(text), page_up(rodata), false, true, false, a, b);
            lemma_range_persists(s4, s5, linear, page_down(rodata), page_up(data), false, false, false, a, b);
            lemma_range_persists(s4, s5, linear, page_down(data), page_up(kernel_end), true, false, false, a, b);
            lemma_range_persists(s4, s5, linear, uart, (uart + 4096) as u64, true, false, true, a, b);
        }
        self.map_range(linear, GICR_PHYS, GICR_PHYS + GICR_MMIO_SIZE, true, false, true)?;
        let ghost s6 = *self;
        proof {
            let (a, b) = (GICR_PHYS, (GICR_PHYS + GICR_MMIO_SIZE) as u64);
            assert(page_down(a) == a && page_up(b) == b);
            lemma_range_persists(s5, s6, linear, page_down(text), page_up(rodata), false, true, false, a, b);
            lemma_range_persists(s5, s6, linear, page_down(rodata), page_up(data), false, false, false, a, b);
            lemma_range_persists(s5, s6, linear, page_down(data), page_up(kernel_end), true, false, false, a, b);
            lemma_range_persists(s5, s6, linear, uart, (uart + 4096) as u64, true, false, true, a, b);
            lemma_range_persists(s5, s6, linear, GICD_PHYS, (GICD_PHYS + GICD_MMIO_SIZE) as u64, true, false, true, a, b);
        }
        self.map_range(linear, VIRTIO_MMIO_PHYS, VIRTIO_MMIO_PHYS + VIRTIO_MMIO_SIZE, true, false, true)?;
        proof {
            let (a, b) = (VIRTIO_MMIO_PHYS, (VIRTIO_MMIO_PHYS + VIRTIO_MMIO_SIZE) as u64);
            assert(page_down(a) == a && page_up(b) == b);
            lemma_range_persists(s6, *self, linear, page_down(text), page_up(rodata), false, true, false, a, b);
            lemma_range_persists(s6, *self, linear, page_down(rodata), page_up(data), false, false, false, a, b);
            lemma_range_persists(s6, *self, linear, page_down(data), page_up(kernel_end), true, false, false, a, b);
            lemma_range_persists(s6, *self, linear, uart, (uart + 4096) as u64, true, false, true, a, b);
            lemma_range_persists(s6, *self, linear, GICD_PHYS, (GICD_PHYS + GICD_MMIO_SIZE) as u64, true, false, true, a, b);
            lemma_range_persists(s6, *self, linear, GICR_PHYS, (GICR_PHYS + GICR_MMIO_SIZE) as u64, true, false, true, a, b);
        }
        Ok(())
    }
}


/// MAIR attribute index 1 encoding: Device-nGnRE.
pub const MAIR_ATTR1_DEVICE_NGNRE: u64 = 0x04;

/// Verdict of the post-enable translation check on the PAR_EL1 value the
/// UART probe left: a set fault bit is `SelfTestFault`, an attribute byte
/// other than Device-nGnRE is `SelfTestAttr`.
pub fn self_test(par: u64) -> (r: Result<(), MmuError>)
    ensures
        par % 2 == 1 ==> r == Err::<(), MmuError>(MmuError::SelfTestFault),
        par % 2 == 0 && par / 0x100_0000_0000_0000 != MAIR_ATTR1_DEVICE_NGNRE ==> r == Err::<(), MmuError>(MmuError::SelfTestAttr),
        par % 2 == 0 && par / 0x100_0000_0000_0000 == MAIR_ATTR1_DEVICE_NGNRE ==> r is Ok,
{
    assert(par & 1 == par % 2 && (par >> 56) & 0xFF == par / 0x100_0000_0000_0000) by (bit_vector);
    if par & 1 != 0 {
        return Err(MmuError::SelfTestFault);
    }
    if (par >> 56) & 0xFF != MAIR_ATTR1_DEVICE_NGNRE {
        return Err(MmuError::SelfTestAttr);
    }
    Ok(())
}

} // verus!

//! ELF64 static-executable checks for the user process loader.
//!
//! Accepted: little-endian ELF64, version 1, x86-64, ET_EXEC or ET_DYN, 56-octet
//! program headers, at most eight of them, all inside the file. Each PT_LOAD
//! needs filesz <= memsz, a power-of-two alignment of at least a page, file
//! bytes inside the file, and a page-aligned user address range. PT_INTERP and
//! PT_DYNAMIC are refused; other header types are skipped.
use vstd::prelude::*;
use crate::hsm_registry::{le_value, pow256};
use crate::mmu::{is_user_va, USER_VA_END};

verus! {

/// Most program headers accepted.
pub const MAX_PROGRAM_HEADERS: usize = 8;
/// PT_LOAD segment type.
pub const PT_LOAD: u32 = 1;
/// Dynamic-linking segment type.
pub const PT_DYNAMIC: u32 = 2;
/// Interpreter segment type.
pub const PT_INTERP: u32 = 3;
/// Executable segment flag.
pub const PF_X: u32 = 1;
/// Writable segment flag.
pub const PF_W: u32 = 2;
/// Readable segment flag.
pub const PF_R: u32 = 4;
/// ELF header size.
pub const ELF_HEADER_SIZE: usize = 64;
/// Program header size.
pub const PHDR_SIZE: u64 = 56;

/// Loader refusals.
#[derive(Debug, PartialEq, Eq, Structural)]
pub enum ElfError {
    Truncated,
    BadMagic,
    UnsupportedFormat,
    UnsupportedTarget,
    BadPhentSize,
    TooManyHeaders,
    PhdrOutOfBounds,
    SegmentOutOfBounds,
    BadSegmentLayout,
    BadVirtualAddress,
    DynamicLinkingRejected,
}

/// One accepted PT_LOAD segment.
#[derive(Clone, Copy, Debug)]
pub struct ProgramHeader {
    pub p_type: u32,
    pub p_flags: u32,
    pub p_offset: u64,
    pub p_vaddr: u64,
    pub p_filesz: u64,
    pub p_memsz: u64,
    pub p_align: u64,
}

impl ProgramHeader {
    /// All-zero header.
    pub fn zeroed() -> (r: Self)
        ensures
            r.p_type == 0 && r.p_flags == 0 && r.p_offset == 0 && r.p_vaddr == 0,
            r.p_filesz == 0 && r.p_memsz == 0 && r.p_align == 0,
    {
        ProgramHeader { p_type: 0, p_flags: 0, p_offset: 0, p_vaddr: 0, p_filesz: 0, p_memsz: 0, p_align: 0 }
    }

    /// Whether the segment is executable (PF_X).
    pub fn is_executable(&self) -> (r: bool)
        ensures
            r == (self.p_flags & PF_X != 0),
    {
        self.p_flags & PF_X != 0
    }

    /// Whether the segment is writable (PF_W).
    pub fn is_writable(&self) -> (r: bool)
        ensures
            r == (self.p_flags & PF_W != 0),
    {
        self.p_flags & PF_W != 0
    }
}

/// The accepted PT_LOAD segments, in file order.
pub struct ProgramHeaderArray {
    pub headers: [ProgramHeader; MAX_PROGRAM_HEADERS],
    pub len: usize,
}

/// A checked image: entry point, load segments, and the file itself.
pub struct Elf64Image<'a> {
    pub entry: u64,
    pub loads: ProgramHeaderArray,
    pub raw: &'a [u8],
}

/// Little-endian unsigned value of `n` octets at `off`.
pub open spec fn le(d: Seq<u8>, off: int, n: nat) -> int {
    le_value(d, off, n)
}

/// Program header number `i` of the table at `phoff`.
pub open spec fn phdr_at(d: Seq<u8>, phoff: int, i: int) -> ProgramHeader {
    let o = phoff + 56 * i;
    ProgramHeader {
        p_type: le(d, o, 4) as u32,
        p_flags: le(d, o + 4, 4) as u32,
        p_offset: le(d, o + 8, 8) as u64,
        p_vaddr: le(d, o + 16, 8) as u64,
        p_filesz: le(d, o + 32, 8) as u64,
        p_memsz: le(d, o + 40, 8) as u64,
        p_align: le(d, o + 48, 8) as u64,
    }
}

/// The first check a PT_LOAD segment fails, in the loader's order.
pub open spec fn load_error(ph: ProgramHeader, file_len: int) -> Option<ElfError> {
    if ph.p_filesz > ph.p_memsz {
        Some(ElfError::BadSegmentLayout)
    } else if ph.p_align < 4096 || ph.p_align & ((ph.p_align - 1) as u64) != 0 {
        Some(ElfError::BadSegmentLayout)
    } else if ph.p_offset + ph.p_filesz > u64::MAX || ph.p_offset + ph.p_filesz > file_len {
        Some(ElfError::SegmentOutOfBounds)
    } else if !(ph.p_vaddr < USER_VA_END && ph.p_vaddr % 4096 == 0) {
        Some(ElfError::BadVirtualAddress)
    } else if ph.p_vaddr + ph.p_memsz > u64::MAX || ph.p_vaddr + ph.p_memsz > 0x0000_8000_0000_0000 {
        Some(ElfError::BadVirtualAddress)
    } else {
        None
    }
}

/// Scans program headers `i..n`: refuses dynamic linking, skips non-load
/// headers, checks and collects load segments.
pub open spec fn scan(d: Seq<u8>, phoff: int, i: int, n: int) -> Result<Seq<ProgramHeader>, ElfError>
    decreases n - i,
{
    if i >= n {
        Ok(Seq::empty())
    } else {
        let ph = phdr_at(d, phoff, i);
        if ph.p_type == PT_INTERP || ph.p_type == PT_DYNAMIC {
            Err(ElfError::DynamicLinkingRejected)
        } else if ph.p_type != PT_LOAD {
            scan(d, phoff, i + 1, n)
        } else {
            match load_error(ph, d.len() as int) {
                Some(e) => Err(e),
                None => match scan(d, phoff, i + 1, n) {
                    Ok(rest) => Ok(seq![ph] + rest),
                    Err(e) => Err(e),
                },
            }
        }
    }
}

/// What the loader makes of a file: the entry point and load segments, or the
/// first refusal.
pub open spec fn parse_spec(d: Seq<u8>) -> Result<(u64, Seq<ProgramHeader>), ElfError> {
    if d.len() < 64 {
        Err(ElfError::Truncated)
    } else if !(d[0] == 0x7F && d[1] == 0x45 && d[2] == 0x4C && d[3] == 0x46) {
        Err(ElfError::BadMagic)
    } else if d[4] != 2 || d[5] != 1 || d[6] != 1 {
        Err(ElfError::UnsupportedFormat)
    } else if le(d, 18, 2) != 62 || le(d, 20, 4) != 1 {
        Err(ElfError::UnsupportedTarget)
    } else if le(d, 16, 2) != 2 && le(d, 16, 2) != 3 {
        Err(ElfError::UnsupportedTarget)
    } else if le(d, 54, 2) != 56 {
        Err(ElfError::BadPhentSize)
    } else if le(d, 56, 2) > MAX_PROGRAM_HEADERS {
        Err(ElfError::TooManyHeaders)
    } else if le(d, 32, 8) + 56 * le(d, 56, 2) > d.len() {
        Err(ElfError::PhdrOutOfBounds)
    } else {
        finish_spec(d, scan(d, le(d, 32, 8), 0, le(d, 56, 2)))
    }
}

/// Final check: the entry point's page must be a user address.
pub open spec fn finish_spec(d: Seq<u8>, scanned: Result<Seq<ProgramHeader>, ElfError>) -> Result<(u64, Seq<ProgramHeader>), ElfError> {
    match scanned {
        Err(e) => Err(e),
        Ok(loads) => {
            let entry = le(d, 24, 8) as u64;
            let page = entry - entry % 4096;
            if !(page < USER_VA_END) {
                Err(ElfError::BadVirtualAddress)
            } else {
                Ok((entry, loads))
            }
        },
    }
}

proof fn lemma_scan_refuses_dynamic(d: Seq<u8>, phoff: int, i: int, n: int, k: int)
    requires
        i <= k < n,
        phdr_at(d, phoff, k).p_type == 2 || phdr_at(d, phoff, k).p_type == 3,
    ensures
        scan(d, phoff, i, n) is Err,
    decreases n - i,
{
    if i < k {
        lemma_scan_refuses_dynamic(d, phoff, i + 1, n, k);
    }
}

/// Static linking is enforced: an image with a dynamic-section (type 2) or
/// interpreter (type 3) program header among its declared headers is never
/// accepted, whatever else it holds.
pub proof fn law_dynamic_images_rejected(d: Seq<u8>, k: int)
    requires
        0 <= k < le(d, 56, 2),
        phdr_at(d, le(d, 32, 8), k).p_type == 2 || phdr_at(d, le(d, 32, 8), k).p_type == 3,
    ensures
        parse_spec(d) is Err,
{
    lemma_scan_refuses_dynamic(d, le(d, 32, 8), 0, le(d, 56, 2), k);
}

proof fn lemma_pow256_step(n: nat)
    ensures
        pow256(n + 1) == 256 * pow256(n),
        pow256(n) >= 1,
    decreases n,
{
    if n > 0 {
        lemma_pow256_step((n - 1) as nat);
    }
}

proof fn lemma_le_bound(d: Seq<u8>, off: int, n: nat)
    requires
        0 <= off,
        off + n <= d.len(),
    ensures
        0 <= le_value(d, off, n) < pow256(n),
    decreases n,
{
    if n > 0 {
        lemma_le_bound(d, off + 1, (n - 1) as nat);
        lemma_pow256_step((n - 1) as nat);
        let v = le_value(d, off + 1, (n - 1) as nat);
        assert(d[off] + 256 * v < 256 * pow256((n - 1) as nat)) by (nonlinear_arith)
            requires d[off] < 256, 0 <= v < pow256((n - 1) as nat);
    }
}

proof fn lemma_pow256_vals()
    ensures
        pow256(2) == 0x10000,
        pow256(4) == 0x1_0000_0000,
        pow256(8) == 0x1_0000_0000_0000_0000,
{
    reveal_with_fuel(pow256, 9);
}

/// Little-endian value of `n` (at most 8) octets of `d` at `off`.
fn read_le(d: &[u8], off: usize, n: usize) -> (r: u64)
    requires
        n <= 8,
        off + n <= d@.len(),
    ensures
        r == le_value(d@, off as int, n as nat),
{
    let dl = d.len();
    let mut v: u64 = 0;
    let mut k: usize = n;
    while k > 0
        invariant
            k <= n,
            n <= 8,
            dl == d@.len(),
            off + n <= d@.len(),
            v == le_value(d@, off + k, (n - k) as nat),
        decreases k,
    {
        proof {
            lemma_le_bound(d@, off + k - 1, (n - k + 1) as nat);
            lemma_pow256_vals();
            lemma_pow256_mono((n - k + 1) as nat, 8);
            assert(d@[off + k - 1] + 256 * v == le_value(d@, off + k - 1, (n - k + 1) as nat));
            assert(v * 256 <= le_value(d@, off + k - 1, (n - k + 1) as nat));
        }
        v = v * 256 + d[off + k - 1] as u64;
        k = k - 1;
    }
    v
}

proof fn lemma_pow256_mono(a: nat, b: nat)
    requires
        a <= b,
    ensures
        pow256(a) <= pow256(b),
    decreases b - a,
{
    if a < b {
        lemma_pow256_step(a);
        lemma_pow256_mono(a + 1, b);
    }
}

fn read_phdr(d: &[u8], phoff: u64, i: u64) -> (r: ProgramHeader)
    requires
        phoff + 56 * (i + 1) <= d@.len(),
    ensures
        r == phdr_at(d@, phoff as int, i as int),
{
    let dl = d.len();
    assert(phoff + 56 * i + 56 <= dl);
    let o = (phoff + 56 * i) as usize;
    ProgramHeader {
        p_type: read_le(d, o, 4) as u32,
        p_flags: read_le(d, o + 4, 4) as u32,
        p_offset: read_le(d, o + 8, 8),
        p_vaddr: read_le(d, o + 16, 8),
        p_filesz: read_le(d, o + 32, 8),
        p_memsz: read_le(d, o + 40, 8),
        p_align: read_le(d, o + 48, 8),
    }
}

/// The loader's checks applied to a load segment, in order.
fn check_load(ph: &ProgramHeader, file_len: usize) -> (r: Option<ElfError>)
    ensures
        r == load_error(*ph, file_len as int),
{
    if ph.p_filesz > ph.p_memsz {
        return Some(ElfError::BadSegmentLayout);
    }
    if ph.p_align < 4096 || ph.p_align & (ph.p_align - 1) != 0 {
        return Some(ElfError::BadSegmentLayout);
    }
    if ph.p_offset > u64::MAX - ph.p_filesz || ph.p_offset + ph.p_filesz > file_len as u64 {
        return Some(ElfError::SegmentOutOfBounds);
    }
    if !is_user_va(ph.p_vaddr) {
        return Some(ElfError::BadVirtualAddress);
    }
    if ph.p_vaddr > u64::MAX - ph.p_memsz || ph.p_vaddr + ph.p_memsz > 0x0000_8000_0000_0000 {
        return Some(ElfError::BadVirtualAddress);
    }
    None
}

/// Checks an ELF64 static executable and returns its entry point and load
/// segments, exactly as `parse_spec` says.
pub fn parse(data: &[u8]) -> (r: Result<Elf64Image<'_>, ElfError>)
    ensures
        match parse_spec(data@) {
            Ok((entry, loads)) => r matches Ok(img) && img.entry == entry && img.loads.len == loads.len()
                && img.loads.headers@.subrange(0, img.loads.len as int) == loads && img.raw@ == data@,
            Err(e) => r == Err::<Elf64Image<'_>, ElfError>(e),
        },
{
    if data.len() < ELF_HEADER_SIZE {
        return Err(ElfError::Truncated);
    }
    if !(data[0] == 0x7F && data[1] == 0x45 && data[2] == 0x4C && data[3] == 0x46) {
        return Err(ElfError::BadMagic);
    }
    if data[4] != 2 || data[5] != 1 || data[6] != 1 {
        return Err(ElfError::UnsupportedFormat);
    }
    let e_type = read_le(data, 16, 2);
    let e_machine = read_le(data, 18, 2);
    let e_version = read_le(data, 20, 4);
    let e_entry = read_le(data, 24, 8);
    let e_phoff = read_le(data, 32, 8);
    let e_phentsize = read_le(data, 54, 2);
    let e_phnum = read_le(data, 56, 2);
    if e_machine != 62 || e_version != 1 {
        return Err(ElfError::UnsupportedTarget);
    }
    if e_type != 2 && e_type != 3 {
        return Err(ElfError::UnsupportedTarget);
    }
    if e_phentsize != 56 {
        return Err(ElfError::BadPhentSize);
    }
    if e_phnum > MAX_PROGRAM_HEADERS as u64 {
        return Err(ElfError::TooManyHeaders);
    }
    let phsize = e_phnum * PHDR_SIZE;
    if e_phoff > u64::MAX - phsize || e_phoff + phsize > data.len() as u64 {
        return Err(ElfError::PhdrOutOfBounds);
    }
    let ghost d = data@;
    let ghost n = e_phnum as int;
    let ghost phoff = e_phoff as int;
    let mut loads = ProgramHeaderArray { headers: [ProgramHeader::zeroed(); MAX_PROGRAM_HEADERS], len: 0 };
    let mut i: u64 = 0;
    while i < e_phnum
        invariant
            i <= e_phnum,
            e_phnum <= MAX_PROGRAM_HEADERS,
            e_phoff + 56 * e_phnum <= data@.len(),
            d == data@,
            n == e_phnum,
            phoff == e_phoff,
            loads.len <= i,
            parse_spec(d) == finish_spec(d, scan(d, phoff, 0, n)),
            e_entry == le(d, 24, 8),
            scan(d, phoff, 0, n) == match scan(d, phoff, i as int, n) {
                Ok(rest) => Ok(loads.headers@.subrange(0, loads.len as int) + rest),
                Err(e) => Err::<Seq<ProgramHeader>, ElfError>(e),
            },
        decreases e_phnum - i,
    {
        let ph = read_phdr(data, e_phoff, i);
        let ghost acc = loads.headers@.subrange(0, loads.len as int);
        if ph.p_type == PT_INTERP || ph.p_type == PT_DYNAMIC {
            proof {
                assert(scan(d, phoff, i as int, n) == Err::<Seq<ProgramHeader>, ElfError>(ElfError::DynamicLinkingRejected));
            }
            return Err(ElfError::DynamicLinkingRejected);
        }
        if ph.p_type == PT_LOAD {
            match check_load(&ph, data.len()) {
                Some(e) => {
                    proof {
                        assert(scan(d, phoff, i as int, n) == Err::<Seq<ProgramHeader>, ElfError>(e));
                    }
                    return Err(e);
                },
                None => {},
            }
            let k = loads.len;
            loads.headers[k] = ph;
            loads.len = k + 1;
            proof {
                assert(loads.headers@.subrange(0, loads.len as int) =~= acc + seq![ph]);
                match scan(d, phoff, i as int + 1, n) {
                    Ok(rest) => { assert(acc + (seq![ph] + rest) =~= acc + seq![ph] + rest); },
                    Err(e) => {},
                }
            }
        }
        i = i + 1;
    }
    proof {
        assert(loads.headers@.subrange(0, loads.len as int) + Seq::<ProgramHeader>::empty()
            =~= loads.headers@.subrange(0, loads.len as int));
    }
    let mask: u64 = 0xFFFF_FFFF_FFFF_F000;
    let page = e_entry & mask;
    proof {
        assert(page == e_entry - e_entry % 4096) by (bit_vector)
            requires page == e_entry & mask, mask == 0xFFFF_FFFF_FFFF_F000u64;
    }
    if !(page < USER_VA_END) {
        return Err(ElfError::BadVirtualAddress);
    }
    Ok(Elf64Image { entry: e_entry, loads, raw: data })
}

} // verus!

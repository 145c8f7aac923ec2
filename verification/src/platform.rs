//! CPU facts the kernel decides on: feature bits from CPUID, the timer
//! frequency chain (CPUID 0x15, then 0x16, then RTC calibration), descriptor
//! encodings, boot console lines, and the jitter entropy source's decisions.
use vstd::prelude::*;
use crate::memory_map::MemoryMap;

verus! {

/// CPU features the kernel uses.
#[derive(Clone, Copy, Debug, PartialEq, Eq, Structural)]
pub struct CpuFeatures {
    pub sse: bool,
    pub sse2: bool,
    pub xsave: bool,
    pub avx: bool,
    pub avx2: bool,
    pub aes_ni: bool,
    pub rdrand: bool,
    pub rdseed: bool,
    pub sha_ni: bool,
    pub smep: bool,
    pub smap: bool,
    pub umip: bool,
}

/// Bit `n` of `x`.
pub open spec fn bit(x: u32, n: u32) -> bool {
    (x >> n) & 1 != 0
}

impl CpuFeatures {
    /// Decodes the features from CPUID leaf 1 (ECX, EDX) and leaf 7 subleaf 0
    /// (EBX, ECX).
    pub fn detect(ecx1: u32, edx1: u32, ebx7: u32, ecx7: u32) -> (r: Self)
        ensures
            r.sse == bit(edx1, 25),
            r.sse2 == bit(edx1, 26),
            r.aes_ni == bit(ecx1, 25),
            r.xsave == bit(ecx1, 26),
            r.avx == bit(ecx1, 28),
            r.rdrand == bit(ecx1, 30),
            r.avx2 == bit(ebx7, 5),
            r.smep == bit(ebx7, 7),
            r.rdseed == bit(ebx7, 18),
            r.smap == bit(ebx7, 20),
            r.sha_ni == bit(ebx7, 29),
            r.umip == bit(ecx7, 2),
    {
        CpuFeatures {
            sse: (edx1 >> 25) & 1 != 0,
            sse2: (edx1 >> 26) & 1 != 0,
            xsave: (ecx1 >> 26) & 1 != 0,
            avx: (ecx1 >> 28) & 1 != 0,
            avx2: (ebx7 >> 5) & 1 != 0,
            aes_ni: (ecx1 >> 25) & 1 != 0,
            rdrand: (ecx1 >> 30) & 1 != 0,
            rdseed: (ebx7 >> 18) & 1 != 0,
            sha_ni: (ebx7 >> 29) & 1 != 0,
            smep: (ebx7 >> 7) & 1 != 0,
            smap: (ebx7 >> 20) & 1 != 0,
            umip: (ecx7 >> 2) & 1 != 0,
        }
    }
}

/// CR0.MP: WAIT honours TS.
pub const CR0_MP: u64 = 0x2;
/// CR0.EM: x87/SSE emulation (must be off).
pub const CR0_EM: u64 = 0x4;
/// CR0.TS: task switched (lazy FPU save, unused).
pub const CR0_TS: u64 = 0x8;
/// CR0.NE: native x87 error reporting.
pub const CR0_NE: u64 = 0x20;
/// CR0.WP: ring 0 honours read-only pages.
pub const CR0_WP: u64 = 0x1_0000;
/// CR4.OSFXSR: FXSAVE/SSE enabled.
pub const CR4_OSFXSR: u64 = 0x200;
/// CR4.OSXMMEXCPT: SSE exceptions raised as #XM.
pub const CR4_OSXMMEXCPT: u64 = 0x400;
/// CR4.UMIP: user-mode instruction prevention.
pub const CR4_UMIP: u64 = 0x800;
/// CR4.OSXSAVE: XSAVE and XSETBV enabled.
pub const CR4_OSXSAVE: u64 = 0x4_0000;
/// CR4.SMEP: supervisor-mode execution prevention.
pub const CR4_SMEP: u64 = 0x10_0000;
/// CR4.SMAP: supervisor-mode access prevention.
pub const CR4_SMAP: u64 = 0x20_0000;
/// XCR0 x87 state.
pub const XCR0_X87: u64 = 0x1;
/// XCR0 SSE state.
pub const XCR0_SSE: u64 = 0x2;
/// XCR0 AVX state.
pub const XCR0_AVX: u64 = 0x4;
/// IA32_EFER.SCE: SYSCALL/SYSRET enabled.
pub const EFER_SCE: u64 = 0x1;

/// IA32_EFER no-execute enable: execute-never bits in page tables need it.
pub const EFER_NXE: u64 = 0x800;

/// Why the boot has to stop.
#[derive(Clone, Copy, Debug, PartialEq, Eq, Structural)]
pub enum BootFault {
    /// EFER.NXE is clear, so execute-never page tables would fault.
    NoExecuteDisabled,
    /// No timer frequency could be found.
    NoTimer,
    /// The air-gap self check failed.
    AirGapSelfCheck,
    /// A draw for the boot challenge failed.
    NoEntropy,
}

/// The boot's go/no-go decision on what bring-up found, in the order the
/// bring-up checks: EFER.NXE, the timer, the air-gap self check, then the four
/// draws for the boot challenge, which are handed back when all succeeded.
pub fn boot_decision(efer: u64, timer: Option<(u64, TimerKind)>, gap_ok: bool, draws: [Option<u64>; 4])
    -> (r: Result<[u64; 4], BootFault>)
    ensures
        efer & EFER_NXE == 0 ==> r == Err::<[u64; 4], BootFault>(BootFault::NoExecuteDisabled),
        efer & EFER_NXE != 0 && timer is None ==> r == Err::<[u64; 4], BootFault>(BootFault::NoTimer),
        efer & EFER_NXE != 0 && timer is Some && !gap_ok ==> r == Err::<[u64; 4], BootFault>(BootFault::AirGapSelfCheck),
        efer & EFER_NXE != 0 && timer is Some && gap_ok ==> {
            &&& (exists|i: int| 0 <= i < 4 && draws[i] is None) ==> r == Err::<[u64; 4], BootFault>(BootFault::NoEntropy)
            &&& (forall|i: int| 0 <= i < 4 ==> draws[i] is Some) ==> (r matches Ok(t)
                && forall|i: int| 0 <= i < 4 ==> Some(#[trigger] t[i]) == draws[i])
        },
{
    if efer & EFER_NXE == 0 {
        return Err(BootFault::NoExecuteDisabled);
    }
    if timer.is_none() {
        return Err(BootFault::NoTimer);
    }
    if !gap_ok {
        return Err(BootFault::AirGapSelfCheck);
    }
    let mut t = [0u64; 4];
    let mut i: usize = 0;
    while i < 4
        invariant
            i <= 4,
            efer & EFER_NXE != 0,
            timer is Some,
            gap_ok,
            forall|j: int| 0 <= j < i ==> (#[trigger] draws[j]) is Some && Some(t@[j]) == draws[j],
        decreases 4 - i,
    {
        let d = draws[i];
        if d.is_none() {
            return Err(BootFault::NoEntropy);
        }
        t[i] = d.unwrap();
        i = i + 1;
    }
    assert forall|j: int| 0 <= j < 4 implies Some(#[trigger] t[j]) == draws[j] by {
        assert(draws[j] is Some);
    }
    Ok(t)
}

/// Control register values that switch on x87, SSE and, where supported,
/// AVX: CR0 with emulation and task-switched cleared and MP, NE set; CR4 with
/// OSFXSR, OSXMMEXCPT and (with XSAVE) OSXSAVE set; XCR0 with x87, SSE and
/// (with AVX) AVX state, only when XSAVE is there.
pub fn simd_fpu_registers(cr0: u64, cr4: u64, feats: CpuFeatures) -> (r: (u64, u64, Option<u64>))
    ensures
        r.0 == (cr0 & !(CR0_EM | CR0_TS)) | CR0_MP | CR0_NE,
        r.1 == (cr4 | CR4_OSFXSR | CR4_OSXMMEXCPT) | (if feats.xsave { CR4_OSXSAVE } else { 0 }),
        feats.xsave ==> r.2 == Some(XCR0_X87 | XCR0_SSE | (if feats.avx { XCR0_AVX } else { 0 })),
        !feats.xsave ==> r.2 is None,
{
    let new_cr0 = (cr0 & !(CR0_EM | CR0_TS)) | CR0_MP | CR0_NE;
    let new_cr4 = (cr4 | CR4_OSFXSR | CR4_OSXMMEXCPT) | (if feats.xsave { CR4_OSXSAVE } else { 0 });
    let xcr0 = if feats.xsave {
        Some(XCR0_X87 | XCR0_SSE | (if feats.avx { XCR0_AVX } else { 0 }))
    } else {
        None
    };
    (new_cr0, new_cr4, xcr0)
}

/// Register values that switch on the isolation bits: CR0.WP always; CR4
/// SMEP, SMAP and UMIP where the CPU has them; EFER.SCE for SYSCALL.
pub fn security_registers(cr0: u64, cr4: u64, efer: u64, feats: CpuFeatures) -> (r: (u64, u64, u64))
    ensures
        r.0 == cr0 | CR0_WP,
        r.1 == cr4 | (if feats.smep { CR4_SMEP } else { 0 }) | (if feats.smap { CR4_SMAP } else { 0 })
            | (if feats.umip { CR4_UMIP } else { 0 }),
        r.2 == efer | EFER_SCE,
{
    (cr0 | CR0_WP, cr4 | (if feats.smep { CR4_SMEP } else { 0 }) | (if feats.smap { CR4_SMAP } else { 0 })
        | (if feats.umip { CR4_UMIP } else { 0 }), efer | EFER_SCE)
}

/// Where the timer frequency came from.
#[derive(Clone, Copy, Debug, PartialEq, Eq, Structural)]
pub enum TimerKind {
    InvariantTsc,
    JitterCalibration,
}

/// Timer frequency from CPUID leaf 0x15 (EAX, EBX, ECX), leaf 0x16 (EAX) and,
/// failing both, the RTC calibration result. A source that yields a zero
/// frequency counts as absent, so a returned frequency is never zero.
pub open spec fn timer_frequency_spec(eax15: u32, ebx15: u32, ecx15: u32, eax16: u32, calibration: Result<u64, ()>)
    -> Option<(u64, TimerKind)> {
    let crystal = if eax15 != 0 && ebx15 != 0 && ecx15 != 0 { (ecx15 as int) * (ebx15 as int) / (eax15 as int) } else { 0 };
    if crystal != 0 {
        Some((crystal as u64, TimerKind::InvariantTsc))
    } else if eax16 & 0xFFFF != 0 {
        Some((((eax16 & 0xFFFF) as int * 1_000_000) as u64, TimerKind::InvariantTsc))
    } else {
        match calibration {
            Ok(hz) => if hz != 0 { Some((hz, TimerKind::JitterCalibration)) } else { None },
            Err(()) => None,
        }
    }
}

/// The frequency chain on the given register values: crystal ratio, then base
/// frequency in MHz, then the calibration.
pub fn timer_frequency_x86_uncached(eax15: u32, ebx15: u32, ecx15: u32, eax16: u32, calibration: Result<u64, ()>)
    -> (r: Option<(u64, TimerKind)>)
    ensures
        r == timer_frequency_spec(eax15, ebx15, ecx15, eax16, calibration),
        r matches Some((hz, _)) ==> hz != 0,
{
    if eax15 != 0 && ebx15 != 0 && ecx15 != 0 {
        proof {
            assert((ecx15 as int) * (ebx15 as int) <= u64::MAX) by (nonlinear_arith)
                requires ecx15 <= 0xFFFF_FFFFu32, ebx15 <= 0xFFFF_FFFFu32;
        }
        let prod: u64 = (ecx15 as u64) * (ebx15 as u64);
        let hz = prod / (eax15 as u64);
        if hz != 0 {
            return Some((hz, TimerKind::InvariantTsc));
        }
    }
    if (eax16 & 0xFFFF) != 0 {
        proof {
            assert(eax16 & 0xFFFF <= 0xFFFF) by (bit_vector);
        }
        return Some((((eax16 & 0xFFFF) as u64) * 1_000_000, TimerKind::InvariantTsc));
    }
    match calibration {
        Ok(hz) => if hz != 0 { Some((hz, TimerKind::JitterCalibration)) } else { None },
        Err(()) => None,
    }
}

/// Boot-wide cache of the timer frequency: computed once, then reused.
pub struct TimerCache {
    pub value: Option<Option<(u64, TimerKind)>>,
}

impl TimerCache {
    /// Nothing computed yet.
    pub fn new() -> (r: Self)
        ensures
            r.value is None,
    {
        TimerCache { value: None }
    }
}

/// The timer frequency: the cached answer when there is one, otherwise the
/// chain on the given values, which is then cached.
pub fn timer_frequency(cache: &mut TimerCache, eax15: u32, ebx15: u32, ecx15: u32, eax16: u32,
    calibration: Result<u64, ()>) -> (r: Option<(u64, TimerKind)>)
    ensures
        old(cache).value matches Some(v) ==> r == v && final(cache).value == old(cache).value,
        old(cache).value is None ==> r == timer_frequency_spec(eax15, ebx15, ecx15, eax16, calibration)
            && final(cache).value == Some(r),
{
    match cache.value {
        Some(v) => v,
        None => {
            let v = timer_frequency_x86_uncached(eax15, ebx15, ecx15, eax16, calibration);
            cache.value = Some(v);
            v
        },
    }
}

/// RTC calibration: cycles between two falling edges of the update-in-progress
/// flag; a missed edge or zero cycles fails.
pub fn calibrate_tsc_via_rtc(t0: Option<u64>, t1: Option<u64>) -> (r: Result<u64, ()>)
    ensures
        (t0 is None || t1 is None) ==> r == Err::<u64, ()>(()),
        t0 matches Some(a) ==> (t1 matches Some(b) ==> ({
            let ticks = if b >= a { (b - a) as u64 } else { (b + 0x1_0000_0000_0000_0000 - a) as u64 };
            &&& ticks == 0 ==> r == Err::<u64, ()>(())
            &&& ticks != 0 ==> r == Ok::<u64, ()>(ticks)
        })),
{
    let a = match t0 {
        Some(t) => t,
        None => return Err(()),
    };
    let b = match t1 {
        Some(t) => t,
        None => return Err(()),
    };
    let ticks = b.wrapping_sub(a);
    if ticks == 0 {
        return Err(());
    }
    Ok(ticks)
}

/// Iterations the edge wait polls before giving up.
pub const CALIBRATE_LOOP_ITERS: usize = 8_000_000;

/// One poll of the update-in-progress flag: `(seen_high, edge)`: the flag is
/// remembered once seen set, and a clear flag after that is the falling edge.
pub fn uip_step(seen_high: bool, status_a: u8) -> (r: (bool, bool))
    ensures
        status_a & 0x80 != 0 ==> r == (true, false),
        status_a & 0x80 == 0 ==> r == (seen_high, seen_high),
{
    if status_a & 0x80 != 0 {
        (true, false)
    } else {
        (seen_high, seen_high)
    }
}

/// Decimal digits of `v`, most significant first.
pub open spec fn dec_digits(v: nat) -> Seq<u8>
    decreases v,
{
    if v < 10 { seq![(48 + v) as u8] } else { dec_digits(v / 10).push((48 + v % 10) as u8) }
}

proof fn lemma_dec_len(v: nat)
    ensures
        1 <= dec_digits(v).len(),
        v < 10 ==> dec_digits(v).len() == 1,
        dec_digits(v).last() == (48 + v % 10) as u8,
    decreases v,
{
    if v >= 10 {
        lemma_dec_len(v / 10);
    }
}

/// 10 to the power `n`.
pub open spec fn pow10(n: nat) -> nat
    decreases n,
{
    if n == 0 { 1 } else { 10 * pow10((n - 1) as nat) }
}

proof fn lemma_dec_len_pow(v: nat)
    ensures
        dec_digits(v).len() >= 1,
        v < pow10((dec_digits(v).len() - 1) as nat) * 10,
        dec_digits(v).len() > 1 ==> v >= pow10((dec_digits(v).len() - 1) as nat),
    decreases v,
{
    if v >= 10 {
        lemma_dec_len_pow(v / 10);
        let n = dec_digits(v / 10).len();
        assert(pow10(n as nat) == 10 * pow10((n - 1) as nat));
        assert(v < pow10(n as nat) * 10) by (nonlinear_arith)
            requires v / 10 < pow10((n - 1) as nat) * 10, pow10(n as nat) == 10 * pow10((n - 1) as nat), v >= 10;
        assert(v >= pow10(n as nat)) by (nonlinear_arith)
            requires (n > 1 ==> v / 10 >= pow10((n - 1) as nat)), (n == 1 ==> pow10((n - 1) as nat) == 1),
                pow10(n as nat) == 10 * pow10((n - 1) as nat), v >= 10, n >= 1;
    } else {
        reveal_with_fuel(pow10, 2);
    }
}

proof fn lemma_pow10_20()
    ensures
        pow10(20) == 100_000_000_000_000_000_000,
{
    reveal_with_fuel(pow10, 21);
}

proof fn lemma_pow10_mono(a: nat, b: nat)
    requires
        a <= b,
    ensures
        pow10(a) <= pow10(b),
    decreases b - a,
{
    if a < b {
        lemma_pow10_mono(a, (b - 1) as nat);
    }
}

proof fn lemma_u64_digits(v: u64)
    ensures
        1 <= dec_digits(v as nat).len() <= 20,
{
    lemma_dec_len_pow(v as nat);
    let n = dec_digits(v as nat).len();
    if n > 20 {
        lemma_pow10_20();
        lemma_pow10_mono(20, (n - 1) as nat);
        assert(v >= pow10((n - 1) as nat));
    }
}

/// Writes the decimal digits of `v` into `out` from `at` on, as many as fit,
/// and returns the position after the last one written.
pub fn fmt_dec(out: &mut [u8], at: usize, v: u64) -> (r: usize)
    ensures
        ({
            let d = dec_digits(v as nat);
            let k: int = if at >= old(out)@.len() { 0 } else if d.len() <= old(out)@.len() - at { d.len() as int }
                else { old(out)@.len() - at };
            &&& r == at + k
            &&& final(out)@.len() == old(out)@.len()
            &&& forall|j: int| 0 <= j < k ==> #[trigger] final(out)@[at + j] == d[j]
            &&& forall|j: int| 0 <= j < old(out)@.len() && !(at <= j < at + k) ==> #[trigger] final(out)@[j] == old(out)@[j]
        }),
{
    let ghost d = dec_digits(v as nat);
    proof {
        lemma_u64_digits(v);
    }
    let mut tmp = [0u8; 20];
    let mut i: usize = 0;
    let mut n = v;
    if n == 0 {
        if at < out.len() {
            out[at] = 48;
            return at + 1;
        }
        return at;
    }
    while n > 0
        invariant
            i <= 20,
            n > 0 ==> dec_digits(n as nat).len() + i == d.len(),
            n == 0 ==> i == d.len(),
            d == dec_digits(v as nat),
            d.len() <= 20,
            forall|q: int| 0 <= q < i ==> #[trigger] tmp@[q] == d[d.len() - 1 - q],
            n > 0 ==> dec_digits(n as nat) == d.subrange(0, d.len() - i),
        decreases n,
    {
        proof {
            lemma_dec_len(n as nat);
            assert(d[d.len() - 1 - i] == dec_digits(n as nat).last());
            if n >= 10 {
                assert(dec_digits(n as nat) == dec_digits((n / 10) as nat).push((48 + n % 10) as u8));
                assert(dec_digits((n / 10) as nat) =~= d.subrange(0, d.len() - i - 1));
            }
        }
        tmp[i] = 48 + (n % 10) as u8;
        n = n / 10;
        i = i + 1;
    }
    let mut pos = at;
    let ghost start = at;
    let ghost k: int = if at >= out@.len() { 0 } else if d.len() <= out@.len() - at { d.len() as int } else { out@.len() - at };
    let mut w: usize = 0;
    while w < i
        invariant
            w <= i,
            i == d.len(),
            i <= 20,
            pos == start + (if w <= k { w as int } else { k }),
            start == at,
            k == (if at >= old(out)@.len() { 0 } else if d.len() <= old(out)@.len() - at { d.len() as int } else { old(out)@.len() - at }),
            out@.len() == old(out)@.len(),
            forall|q: int| 0 <= q < i ==> #[trigger] tmp@[q] == d[d.len() - 1 - q],
            forall|j: int| 0 <= j < (if w <= k { w as int } else { k }) ==> #[trigger] out@[at + j] == d[j],
            forall|j: int| 0 <= j < out@.len() && !(at <= j < at + (if w <= k { w as int } else { k })) ==> #[trigger] out@[j] == old(out)@[j],
        decreases i - w,
    {
        if pos < out.len() {
            out[pos] = tmp[i - 1 - w];
            pos = pos + 1;
        }
        w = w + 1;
    }
    pos
}

/// `s` cut to at most `cap` bytes.
pub open spec fn fit(s: Seq<u8>, cap: nat) -> Seq<u8> {
    if s.len() <= cap { s } else { s.take(cap as int) }
}

/// `n` is `o` with as much of `src` as fits written from `at` on, ending at `r`.
pub open spec fn wrote(o: Seq<u8>, n: Seq<u8>, at: int, src: Seq<u8>, r: int) -> bool {
    let k = r - at;
    &&& n.len() == o.len()
    &&& k == (if src.len() <= o.len() - at { src.len() as int } else { o.len() - at })
    &&& forall|j: int| 0 <= j < k ==> #[trigger] n[at + j] == src[j]
    &&& forall|j: int| 0 <= j < o.len() && !(at <= j < at + k) ==> #[trigger] n[j] == o[j]
}

/// Writing `src` after a prefix that holds `fit(acc)` leaves `fit(acc + src)`.
proof fn lemma_fit_append(o: Seq<u8>, n: Seq<u8>, acc: Seq<u8>, src: Seq<u8>, at: int, r: int)
    requires
        0 <= at <= o.len(),
        at == (if acc.len() <= o.len() { acc.len() as int } else { o.len() as int }),
        o.take(at) == fit(acc, o.len()),
        wrote(o, n, at, src, r),
    ensures
        n.take(r) == fit(acc + src, n.len()),
        r == (if acc.len() + src.len() <= n.len() { (acc.len() + src.len()) as int } else { n.len() as int }),
{
    if acc.len() >= o.len() {
        assert(n.take(r) =~= o.take(at));
        assert((acc + src).take(o.len() as int) =~= acc.take(o.len() as int));
    } else {
        assert(o.take(at) =~= acc);
        assert forall|j: int| 0 <= j < r implies #[trigger] n[j] == (acc + src)[j] by {
            if j < at {
                assert(o.take(at)[j] == o[j]);
            } else {
                assert(n[at + (j - at)] == src[j - at]);
            }
        }
        if acc.len() + src.len() <= o.len() {
            assert(n.take(r) =~= acc + src);
        } else {
            assert(n.take(r) =~= (acc + src).take(o.len() as int));
        }
    }
}

/// Copies as much of `src` as fits into `out` from `at` on and returns the
/// position after the last byte written.
fn put_bytes(out: &mut [u8], at: usize, src: &[u8]) -> (r: usize)
    requires
        at <= old(out)@.len(),
    ensures
        wrote(old(out)@, final(out)@, at as int, src@, r as int),
{
    let mut pos = at;
    let mut i: usize = 0;
    while i < src.len()
        invariant
            at <= pos <= out@.len(),
            i <= src@.len(),
            out@.len() == old(out)@.len(),
            pos - at == (if i <= old(out)@.len() - at { i as int } else { old(out)@.len() - at }),
            forall|j: int| 0 <= j < pos - at ==> #[trigger] out@[at + j] == src@[j],
            forall|j: int| 0 <= j < out@.len() && !(at <= j < pos) ==> #[trigger] out@[j] == old(out)@[j],
        decreases src@.len() - i,
    {
        if pos < out.len() {
            out[pos] = src[i];
            pos = pos + 1;
        }
        i = i + 1;
    }
    pos
}

/// Boot line prefix for an invariant TSC.
pub open spec fn invariant_tsc_prefix() -> Seq<u8> {
    seq![91u8, 105, 115, 111, 45, 108, 105, 103, 104, 116, 45, 107, 48, 93, 32, 116, 105, 109, 101, 114, 58, 32,
        105, 110, 118, 97, 114, 105, 97, 110, 116, 95, 116, 115, 99, 61, 116, 114, 117, 101, 32, 102, 114, 101,
        113, 61]
}

/// Boot line prefix for a calibrated timer.
pub open spec fn jitter_calibration_prefix() -> Seq<u8> {
    seq![91u8, 105, 115, 111, 45, 108, 105, 103, 104, 116, 45, 107, 48, 93, 32, 116, 105, 109, 101, 114, 58, 32,
        106, 105, 116, 116, 101, 114, 95, 99, 97, 108, 105, 98, 114, 97, 116, 105, 111, 110, 32, 102, 114, 101,
        113, 61]
}

/// The timer line: prefix by kind, the frequency in decimal, then " hz".
pub open spec fn timer_line(hz: u64, kind: TimerKind) -> Seq<u8> {
    (match kind {
        TimerKind::InvariantTsc => invariant_tsc_prefix(),
        TimerKind::JitterCalibration => jitter_calibration_prefix(),
    }) + dec_digits(hz as nat) + seq![32u8, 104, 122]
}

/// Writes the timer line into `buf` (cut to its size) and returns its length.
pub fn format_timer_line(buf: &mut [u8; 64], hz: u64, kind: TimerKind) -> (r: usize)
    ensures
        r == (if timer_line(hz, kind).len() <= 64 { timer_line(hz, kind).len() as int } else { 64 }),
        final(buf)@.take(r as int) == fit(timer_line(hz, kind), 64),
{
    let prefix: [u8; 46] = match kind {
        TimerKind::InvariantTsc => [91u8, 105, 115, 111, 45, 108, 105, 103, 104, 116, 45, 107, 48, 93, 32, 116,
            105, 109, 101, 114, 58, 32, 105, 110, 118, 97, 114, 105, 97, 110, 116, 95, 116, 115, 99, 61, 116, 114,
            117, 101, 32, 102, 114, 101, 113, 61],
        TimerKind::JitterCalibration => [91u8, 105, 115, 111, 45, 108, 105, 103, 104, 116, 45, 107, 48, 93, 32,
            116, 105, 109, 101, 114, 58, 32, 106, 105, 116, 116, 101, 114, 95, 99, 97, 108, 105, 98, 114, 97, 116,
            105, 111, 110, 32, 102, 114, 101, 113, 61],
    };
    let ghost p = match kind {
        TimerKind::InvariantTsc => invariant_tsc_prefix(),
        TimerKind::JitterCalibration => jitter_calibration_prefix(),
    };
    assert(prefix@ =~= p);
    let suffix: [u8; 3] = [32u8, 104, 122];
    assert(suffix@ =~= seq![32u8, 104, 122]);
    let ghost b0 = buf@;
    let at = put_bytes(buf, 0, &prefix);
    proof {
        assert(b0.take(0) =~= fit(Seq::<u8>::empty(), 64));
        lemma_fit_append(b0, buf@, Seq::<u8>::empty(), p, 0, at as int);
        assert(Seq::<u8>::empty() + p =~= p);
    }
    let ghost b1 = buf@;
    let at2 = fmt_dec(buf, at, hz);
    proof {
        lemma_fit_append(b1, buf@, p, dec_digits(hz as nat), at as int, at2 as int);
    }
    let ghost b2 = buf@;
    let at3 = put_bytes(buf, at2, &suffix);
    proof {
        lemma_fit_append(b2, buf@, p + dec_digits(hz as nat), seq![32u8, 104, 122], at2 as int, at3 as int);
    }
    at3
}

/// Prefix of the entropy sources line.
pub open spec fn sources_prefix() -> Seq<u8> {
    seq![91u8, 105, 115, 111, 45, 108, 105, 103, 104, 116, 45, 107, 48, 93, 32, 69, 78, 84, 82, 79, 80, 89, 95, 83,
        79, 85, 82, 67, 69, 83, 95, 65, 86, 65, 73, 76, 65, 66, 76, 69, 61]
}

/// Writes the line announcing `n` live entropy sources and returns its length.
pub fn format_sources_line(buf: &mut [u8; 64], n: u8) -> (r: usize)
    ensures
        r == sources_prefix().len() + dec_digits(n as nat).len(),
        final(buf)@.take(r as int) == sources_prefix() + dec_digits(n as nat),
{
    let prefix: [u8; 41] = [91u8, 105, 115, 111, 45, 108, 105, 103, 104, 116, 45, 107, 48, 93, 32, 69, 78, 84, 82,
        79, 80, 89, 95, 83, 79, 85, 82, 67, 69, 83, 95, 65, 86, 65, 73, 76, 65, 66, 76, 69, 61];
    assert(prefix@ =~= sources_prefix());
    let ghost b0 = buf@;
    let at = put_bytes(buf, 0, &prefix);
    proof {
        assert(b0.take(0) =~= fit(Seq::<u8>::empty(), 64));
        lemma_fit_append(b0, buf@, Seq::<u8>::empty(), sources_prefix(), 0, at as int);
        assert(Seq::<u8>::empty() + sources_prefix() =~= sources_prefix());
        lemma_u8_digits(n);
    }
    let ghost b1 = buf@;
    let at2 = fmt_dec(buf, at, n as u64);
    proof {
        lemma_fit_append(b1, buf@, sources_prefix(), dec_digits(n as nat), at as int, at2 as int);
    }
    at2
}

proof fn lemma_u8_digits(n: u8)
    ensures
        dec_digits(n as nat).len() <= 3,
{
    lemma_dec_len_pow(n as nat);
    let k = dec_digits(n as nat).len();
    if k > 3 {
        reveal_with_fuel(pow10, 4);
        lemma_pow10_mono(3, (k - 1) as nat);
    }
}

/// Lower-case hex digit of a nibble.
pub open spec fn hex_digit(n: int) -> u8 {
    if n < 10 { (48 + n) as u8 } else { (87 + n) as u8 }
}

/// Two lower-case hex digits per byte, high nibble first.
pub open spec fn hex_of(s: Seq<u8>) -> Seq<u8> {
    Seq::new(2 * s.len(), |i: int| if i % 2 == 0 { hex_digit((s[i / 2] / 16) as int) } else { hex_digit((s[i / 2] % 16) as int) })
}

/// Prefix of a jitter sample dump line.
pub open spec fn jitter_dump_prefix() -> Seq<u8> {
    seq![91, 105, 115, 111, 45, 108, 105, 103, 104, 116, 45, 107, 48, 93, 32, 74, 73, 84, 84, 69, 82, 95, 68, 85, 77, 80, 91]
}

/// Bytes of data that fit on one dump line after its 31-byte head.
pub const JITTER_DUMP_MAX_BYTES: usize = 284;

/// A dump line: prefix, the line number in two decimal digits, "]=", then
/// the samples in hex, as many as fit in 600 bytes.
pub open spec fn jitter_dump_line(data: Seq<u8>, line_idx: u8) -> Seq<u8> {
    let p = if data.len() <= JITTER_DUMP_MAX_BYTES { data.len() as int } else { JITTER_DUMP_MAX_BYTES as int };
    jitter_dump_prefix() + seq![(48 + line_idx / 10) as u8, (48 + line_idx % 10) as u8, 93u8, 61u8]
        + hex_of(data.take(p))
}

/// Writes one jitter dump line into `buf` and returns its length.
pub fn format_jitter_dump_line(buf: &mut [u8; 600], data: &[u8], line_idx: u8) -> (r: usize)
    ensures
        r == jitter_dump_line(data@, line_idx).len(),
        final(buf)@.take(r as int) == jitter_dump_line(data@, line_idx),
{
    let prefix: [u8; 27] = [91, 105, 115, 111, 45, 108, 105, 103, 104, 116, 45, 107, 48, 93, 32, 74, 73, 84, 84, 69, 82, 95, 68, 85, 77, 80, 91];
    assert(prefix@ =~= jitter_dump_prefix());
    let head: [u8; 4] = [48 + line_idx / 10, 48 + line_idx % 10, 93, 61];
    let ghost h = jitter_dump_prefix() + head@;
    let ghost b0 = buf@;
    let at = put_bytes(buf, 0, &prefix);
    proof {
        assert(b0.take(0) =~= fit(Seq::<u8>::empty(), 600));
        lemma_fit_append(b0, buf@, Seq::<u8>::empty(), jitter_dump_prefix(), 0, at as int);
        assert(Seq::<u8>::empty() + jitter_dump_prefix() =~= jitter_dump_prefix());
    }
    let ghost b1 = buf@;
    let at = put_bytes(buf, at, &head);
    proof {
        lemma_fit_append(b1, buf@, jitter_dump_prefix(), head@, 27, at as int);
        assert(at == 31);
    }
    let hex: [u8; 16] = [48u8, 49, 50, 51, 52, 53, 54, 55, 56, 57, 97, 98, 99, 100, 101, 102];
    assert(hex@ =~= Seq::new(16, |n: int| hex_digit(n)));
    let ghost b2 = buf@;
    let mut at: usize = 31;
    let mut i: usize = 0;
    while i < data.len()
        invariant
            i <= data@.len(),
            at == 31 + 2 * (if i <= JITTER_DUMP_MAX_BYTES { i as int } else { JITTER_DUMP_MAX_BYTES as int }),
            buf@.len() == 600,
            b2.len() == 600,
            b2.take(31) == h,
            hex@ == Seq::new(16, |n: int| hex_digit(n)),
            forall|j: int| 0 <= j < 31 ==> #[trigger] buf@[j] == b2[j],
            forall|k: int| 0 <= k < at - 31 ==> #[trigger] buf@[31 + k] == hex_of(data@.take(
                if i <= JITTER_DUMP_MAX_BYTES { i as int } else { JITTER_DUMP_MAX_BYTES as int }))[k],
        decreases data@.len() - i,
    {
        let ghost m_old: int = if i <= JITTER_DUMP_MAX_BYTES { i as int } else { JITTER_DUMP_MAX_BYTES as int };
        if at + 1 < 600 {
            let b = data[i];
            buf[at] = hex[(b / 16) as usize];
            buf[at + 1] = hex[(b % 16) as usize];
            proof {
                let m = m_old + 1;
                assert(m_old == i);
                assert forall|k: int| 0 <= k < 2 * m implies #[trigger] buf@[31 + k] == hex_of(data@.take(m))[k] by {
                    if k < 2 * m_old {
                        assert(hex_of(data@.take(m))[k] == hex_of(data@.take(m_old))[k]);
                    }
                }
            }
            at = at + 2;
        } else {
            proof {
                assert(data@.take(m_old) =~= data@.take(if i + 1 <= JITTER_DUMP_MAX_BYTES { (i + 1) as int } else { JITTER_DUMP_MAX_BYTES as int }));
            }
        }
        i = i + 1;
    }
    proof {
        let p: int = if data@.len() <= JITTER_DUMP_MAX_BYTES { data@.len() as int } else { JITTER_DUMP_MAX_BYTES as int };
        assert(head@ =~= seq![(48 + line_idx / 10) as u8, (48 + line_idx % 10) as u8, 93u8, 61u8]);
        assert forall|j: int| 0 <= j < at implies #[trigger] buf@.take(at as int)[j] == jitter_dump_line(data@, line_idx)[j] by {
            if j < 31 {
                assert(b2.take(31)[j] == b2[j]);
            } else {
                assert(buf@[31 + (j - 31)] == hex_of(data@.take(p))[j - 31]);
            }
        }
        assert(buf@.take(at as int) =~= jitter_dump_line(data@, line_idx));
    }
    at
}

/// Firmware-neutral boot information filled once by the boot adapter.
pub struct BootInfo {
    pub memory_map: MemoryMap,
    pub kaslr_offset: u64,
    pub command_line: [u8; 128],
    pub command_line_len: usize,
    pub rsdp_ptr: u64,
    pub dtb_ptr: u64,
    pub framebuffer: u64,
}

impl BootInfo {
    /// Nothing provided: empty memory map, every field zero.
    pub fn empty() -> (r: Self)
        ensures
            r.memory_map.wf(),
            r.memory_map@ == Seq::<crate::memory_map::MemoryRegion>::empty(),
            r.kaslr_offset == 0,
            r.command_line@ == Seq::new(128, |i: int| 0u8),
            r.command_line_len == 0,
            r.rsdp_ptr == 0,
            r.dtb_ptr == 0,
            r.framebuffer == 0,
    {
        let r = BootInfo {
            memory_map: MemoryMap::empty(),
            kaslr_offset: 0,
            command_line: [0u8; 128],
            command_line_len: 0,
            rsdp_ptr: 0,
            dtb_ptr: 0,
            framebuffer: 0,
        };
        assert(r.command_line@ =~= Seq::new(128, |i: int| 0u8));
        r
    }
}

/// What the CPU pushes on an interrupt or exception.
#[derive(Clone, Copy, Debug, PartialEq, Eq, Structural)]
pub struct InterruptStackFrame {
    pub instruction_pointer: u64,
    pub code_segment: u64,
    pub cpu_flags: u64,
    pub stack_pointer: u64,
    pub stack_segment: u64,
}

/// Pages in the DMA pool handed to the virtio device.
pub const DMA_POOL_PAGES: usize = 4;
/// Size of one DMA page.
pub const DMA_PAGE_SIZE: usize = 4096;

/// Outcome of a pool reservation from position `next`: the first page
/// reserved, if any, and the new position.
pub open spec fn dma_alloc_spec(next: usize, pages: usize) -> (Option<usize>, usize) {
    if pages == 0 || next + pages > DMA_POOL_PAGES { (None, next) } else { (Some(next), (next + pages) as usize) }
}

/// Two reservations in a row never share a page, and both lie inside the
/// pool.
pub proof fn law_dma_reservations_disjoint(next: usize, p1: usize, p2: usize)
    requires
        next <= DMA_POOL_PAGES,
    ensures
        ({
            let (a, n1) = dma_alloc_spec(next, p1);
            let (b, n2) = dma_alloc_spec(n1, p2);
            (a is Some && b is Some) ==> a->0 + p1 <= b->0 && b->0 + p2 <= DMA_POOL_PAGES && n2 <= DMA_POOL_PAGES
        }),
{
}

/// The virtio DMA pool: pages are handed out in order and never returned.
pub struct KernelHal {
    pub next: usize,
}

impl KernelHal {
    /// The next page never lies past the pool.
    pub open spec fn wf(&self) -> bool {
        self.next <= DMA_POOL_PAGES
    }

    /// A pool with every page free.
    pub fn new() -> (r: Self)
        ensures
            r.wf(),
            r.next == 0,
    {
        KernelHal { next: 0 }
    }

    /// Reserves `pages` contiguous pages and returns the index of the first;
    /// `None` for zero pages or when the pool has fewer left.
    pub fn dma_alloc(&mut self, pages: usize) -> (r: Option<usize>)
        requires
            old(self).wf(),
        ensures
            final(self).wf(),
            (r, final(self).next) == dma_alloc_spec(old(self).next, pages),
            (pages == 0 || old(self).next + pages > DMA_POOL_PAGES) ==> r is None && final(self).next == old(self).next,
            (pages != 0 && old(self).next + pages <= DMA_POOL_PAGES) ==> r == Some(old(self).next)
                && final(self).next == old(self).next + pages,
    {
        let next = self.next;
        if pages == 0 || pages > DMA_POOL_PAGES - next {
            return None;
        }
        self.next = next + pages;
        Some(next)
    }

    /// Physical address of a kernel address: higher-half addresses lose the
    /// linear-map base, others are identity mapped.
    pub fn virt_to_phys(vaddr: u64) -> (r: u64)
        ensures
            vaddr >= crate::mmu::KERNEL_VMA_BASE ==> r == vaddr - crate::mmu::KERNEL_VMA_BASE,
            vaddr < crate::mmu::KERNEL_VMA_BASE ==> r == vaddr,
    {
        if vaddr >= crate::mmu::KERNEL_VMA_BASE { vaddr - crate::mmu::KERNEL_VMA_BASE } else { vaddr }
    }
}

/// PAN is implemented: ID_AA64MMFR1_EL1 field [23:20] is non-zero.
pub fn pan_supported(mmfr1: u64) -> (r: bool)
    ensures
        r == ((mmfr1 / 0x10_0000) % 16 != 0),
{
    (mmfr1 / 0x10_0000) % 16 != 0
}

/// FEAT_RNG is implemented: ID_AA64ISAR0_EL1 field [63:60] is non-zero.
pub fn feat_rng_supported(isar0: u64) -> (r: bool)
    ensures
        r == (isar0 / 0x1000_0000_0000_0000 != 0),
{
    isar0 / 0x1000_0000_0000_0000 != 0
}

/// `0x` followed by the eight lower-case hex digits of `val`, most
/// significant first.
pub open spec fn hex_u32_spec(val: u32) -> Seq<u8> {
    seq![48u8, 120u8] + Seq::new(8, |i: int| hex_digit(((val as int) / pow16(7 - i)) % 16))
}

/// 16 to the power `n`.
pub open spec fn pow16(n: int) -> int
    decreases n,
{
    if n <= 0 { 1 } else { 16 * pow16(n - 1) }
}

/// The ten bytes that print `val` in hex.
pub fn hex_u32(val: u32) -> (r: [u8; 10])
    ensures
        r@ == hex_u32_spec(val),
{
    let hex: [u8; 16] = [48u8, 49, 50, 51, 52, 53, 54, 55, 56, 57, 97, 98, 99, 100, 101, 102];
    assert(hex@ =~= Seq::new(16, |n: int| hex_digit(n)));
    let mut buf = [0u8; 10];
    buf[0] = 48;
    buf[1] = 120;
    let mut i: usize = 0;
    let mut div: u32 = 0x1000_0000;
    proof {
        reveal_with_fuel(pow16, 8);
    }
    while i < 8
        invariant
            i <= 8,
            buf@.len() == 10,
            buf@[0] == 48u8 && buf@[1] == 120u8,
            hex@ == Seq::new(16, |n: int| hex_digit(n)),
            div == pow16(7 - i),
            forall|j: int| 0 <= j < i ==> #[trigger] buf@[2 + j] == hex_digit(((val as int) / pow16(7 - j)) % 16),
        decreases 8 - i,
    {
        proof {
            reveal_with_fuel(pow16, 8);
        }
        let nibble = (val / div) % 16;
        buf[2 + i] = hex[nibble as usize];
        if i < 7 {
            div = div / 16;
        }
        i = i + 1;
    }
    assert forall|j: int| 0 <= j < 10 implies #[trigger] buf@[j] == hex_u32_spec(val)[j] by {
        if j >= 2 {
            assert(buf@[2 + (j - 2)] == hex_digit(((val as int) / pow16(7 - (j - 2))) % 16));
        }
    }
    assert(buf@ =~= hex_u32_spec(val));
    buf
}

/// Fills `buf` eight bytes at a time with the little-endian bytes of the
/// hardware random words, in order, the last chunk cut to fit; a word that
/// could not be had (`None`), or too few words, ends the fill with
/// `SourceUnavailable`, the chunks before it written.
pub fn fill_le_words(buf: &mut [u8], words: &[Option<u64>]) -> (r: Result<(), crate::health::EntropyError>)
    ensures
        final(buf)@.len() == old(buf)@.len(),
        ({
            let n = old(buf)@.len();
            let chunks = (n + 7) / 8;
            let good = first_missing(words@, chunks as int);
            &&& (good == chunks) == (r is Ok)
            &&& r is Err ==> r == Err::<(), crate::health::EntropyError>(crate::health::EntropyError::SourceUnavailable)
            &&& forall|j: int| 0 <= j < n && j < 8 * good ==> #[trigger] final(buf)@[j] == word_byte(words@[j / 8]->Some_0, j % 8)
            &&& forall|j: int| 0 <= j < n && j >= 8 * good ==> #[trigger] final(buf)@[j] == old(buf)@[j]
        }),
{
    let n = buf.len();
    let mut offset: usize = 0;
    let mut k: usize = 0;
    while offset < n
        invariant
            n == buf@.len(),
            buf@.len() == old(buf)@.len(),
            offset == (if 8 * k <= n { 8 * k } else { n as int }),
            offset < n ==> k < (n + 7) / 8,
            k <= (n + 7) / 8,
            offset >= n ==> k == (n + 7) / 8,
            first_missing(words@, k as int) == k,
            forall|j: int| 0 <= j < n && j < offset ==> #[trigger] buf@[j] == word_byte(words@[j / 8]->Some_0, j % 8),
            forall|j: int| 0 <= j < n && j >= offset ==> #[trigger] buf@[j] == old(buf)@[j],
        decreases n + 8 - offset,
    {
        if k >= words.len() {
            proof { lemma_first_missing_stop(words@, k as int, ((n + 7) / 8) as int); }
            return Err(crate::health::EntropyError::SourceUnavailable);
        }
        let v = match words[k] {
            Some(v) => v,
            None => {
                proof { lemma_first_missing_stop(words@, k as int, ((n + 7) / 8) as int); }
                return Err(crate::health::EntropyError::SourceUnavailable);
            },
        };
        let chunk = if n - offset < 8 { n - offset } else { 8 };
        let mut c: usize = 0;
        while c < chunk
            invariant
                c <= chunk <= 8,
                offset + chunk <= n,
                n == buf@.len(),
                offset == 8 * k,
                words@[k as int] == Some(v),
                forall|j: int| 0 <= j < n && j < offset ==> #[trigger] buf@[j] == word_byte(words@[j / 8]->Some_0, j % 8),
                forall|j: int| offset <= j < offset + c ==> #[trigger] buf@[j] == word_byte(v, j - offset),
                forall|j: int| 0 <= j < n && j >= offset + c ==> #[trigger] buf@[j] == old(buf)@[j],
            decreases chunk - c,
        {
            buf[offset + c] = ((v >> (8 * c) as u64) & 0xFF) as u8;
            c = c + 1;
        }
        proof {
            lemma_first_missing_step(words@, k as int);
            assert forall|j: int| 0 <= j < n && j < offset + chunk implies #[trigger] buf@[j] == word_byte(words@[j / 8]->Some_0, j % 8) by {
                if j >= offset {
                    assert(j / 8 == k && j % 8 == j - offset);
                }
            }
        }
        offset = offset + chunk;
        k = k + 1;
    }
    proof { lemma_first_missing_stop(words@, k as int, k as int); }
    Ok(())
}

/// Byte `i` (little-endian) of `v`.
pub open spec fn word_byte(v: u64, i: int) -> u8 {
    ((v >> ((8 * i) as u64)) & 0xFF) as u8
}

proof fn lemma_first_missing_step(words: Seq<Option<u64>>, k: int)
    requires
        0 <= k,
        first_missing(words, k) == k,
        k < words.len(),
        words[k] is Some,
    ensures
        first_missing(words, k + 1) == k + 1,
{
}

proof fn lemma_first_missing_stop(words: Seq<Option<u64>>, k: int, limit: int)
    requires
        0 <= k <= limit,
        first_missing(words, k) == k,
        k < limit ==> (k >= words.len() || words[k] is None),
    ensures
        first_missing(words, limit) == k,
    decreases limit - k,
{
    if k < limit {
        lemma_first_missing_stop(words, k, limit - 1);
    }
}

/// Number of leading words present, up to `limit`.
pub open spec fn first_missing(words: Seq<Option<u64>>, limit: int) -> int
    decreases limit,
{
    if limit <= 0 { 0 }
    else if first_missing(words, limit - 1) == limit - 1 && limit - 1 < words.len() && words[limit - 1] is Some { limit }
    else { first_missing(words, limit - 1) }
}

} // verus!

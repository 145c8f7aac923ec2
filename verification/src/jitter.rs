//! Decisions of the CPU time jitter entropy source: the memory fold that
//! produces timing noise, von Neumann debiasing of timing differences into
//! bits, and the boot self-test that disables the source for good when fewer
//! than half of its samples pass the health tests.
use vstd::prelude::*;
use crate::health::{health_next, HealthVerdict, StreamHealth};

verus! {

/// Size of the fold pool.
pub const POOL_SIZE: usize = 2048;
/// Timing samples spent on at most one output byte.
pub const SAMPLES_PER_BYTE: usize = 64;
/// Samples taken by the boot self-test.
pub const BOOT_SELF_TEST_SAMPLES: usize = 16384;

/// `std::hint::black_box`: hands its argument back unchanged while keeping the
/// optimiser from seeing through it.
#[verifier::external_body]
fn jitter_black_box(v: u64) -> (r: u64)
    ensures
        r == v,
{
    std::hint::black_box(v)
}

/// Multiplier applied to pool byte `idx`: the low byte of
/// `0x9E3779B1 * (idx + 1)` taken modulo 2^32.
pub open spec fn fold_factor(idx: int) -> int {
    ((0x9E37_79B1 * (idx + 1)) % 0x1_0000_0000) % 256
}

/// Sum of the bytes of `s`.
pub open spec fn byte_sum(s: Seq<u8>) -> int
    decreases s.len(),
{
    if s.len() == 0 { 0 } else { byte_sum(s.drop_last()) + s.last() }
}

proof fn lemma_byte_sum_bound(s: Seq<u8>)
    ensures
        0 <= byte_sum(s) <= 255 * s.len(),
    decreases s.len(),
{
    if s.len() > 0 {
        lemma_byte_sum_bound(s.drop_last());
    }
}

fn fold_multiplier(idx: usize) -> (f: u8)
    requires
        idx < POOL_SIZE,
    ensures
        f == fold_factor(idx as int),
{
    let w = 0x9E37_79B1u32.wrapping_mul(idx as u32 + 1);
    assert(w as u8 == w % 256) by (bit_vector);
    w as u8
}

/// One pass over the pool: every byte is multiplied (mod 256) by its
/// `fold_factor`, and the sum of the new bytes is returned.
pub fn jitter_fold_step(pool: &mut [u8; 2048]) -> (r: u64)
    ensures
        final(pool)@.len() == POOL_SIZE,
        forall|i: int| 0 <= i < POOL_SIZE ==> #[trigger] final(pool)@[i] == (old(pool)@[i] * fold_factor(i)) % 256,
        r == byte_sum(final(pool)@),
{
    let mut acc: u64 = 0;
    let mut idx: usize = 0;
    while idx < POOL_SIZE
        invariant
            idx <= POOL_SIZE,
            pool@.len() == POOL_SIZE,
            forall|i: int| 0 <= i < idx ==> #[trigger] pool@[i] == (old(pool)@[i] * fold_factor(i)) % 256,
            forall|i: int| idx <= i < POOL_SIZE ==> #[trigger] pool@[i] == old(pool)@[i],
            acc == byte_sum(pool@.take(idx as int)),
            acc <= 255 * idx,
        decreases POOL_SIZE - idx,
    {
        let f = fold_multiplier(idx);
        let v = pool[idx].wrapping_mul(f);
        let kept = jitter_black_box(v as u64) as u8;
        let ghost before = pool@;
        pool[idx] = kept;
        proof {
            assert(pool@.take(idx as int + 1).drop_last() =~= before.take(idx as int));
        }
        acc = acc + v as u64;
        idx = idx + 1;
    }
    proof {
        assert(pool@.take(POOL_SIZE as int) =~= pool@);
    }
    jitter_black_box(acc)
}

/// `a - b` modulo 2^64.
pub open spec fn sub_wrap(a: u64, b: u64) -> u64 {
    if a >= b { (a - b) as u64 } else { (a + 0x1_0000_0000_0000_0000 - b) as u64 }
}

/// Von Neumann debiasing of two successive timing differences: their low
/// bits 0 then 1 give 0, 1 then 0 give 1, equal bits give nothing.
pub open spec fn debias_spec(t0: u64, t1: u64, t2: u64) -> Option<u8> {
    let a = sub_wrap(t1, t0) % 2;
    let b = sub_wrap(t2, t1) % 2;
    if a == 0 && b == 1 { Some(0u8) } else if a == 1 && b == 0 { Some(1u8) } else { None }
}

/// The debiased bit from three counter readings, if any.
pub fn debias_bit(t0: u64, t1: u64, t2: u64) -> (r: Option<u8>)
    ensures
        r == debias_spec(t0, t1, t2),
{
    let da = t1.wrapping_sub(t0);
    let db = t2.wrapping_sub(t1);
    let delta_a = da as u8 & 1;
    let delta_b = db as u8 & 1;
    assert(da as u8 & 1 == da % 2 && db as u8 & 1 == db % 2) by (bit_vector);
    if delta_a == 0 && delta_b == 1 {
        Some(0u8)
    } else if delta_a == 1 && delta_b == 0 {
        Some(1u8)
    } else {
        None
    }
}

/// The byte assembled from the readings `s`, most significant bit first,
/// continuing from `acc` with `count` bits; `None` when they run out first.
pub open spec fn collect_spec(acc: u8, count: nat, s: Seq<(u64, u64, u64)>) -> Option<u8>
    decreases s.len(),
{
    if s.len() == 0 {
        None
    } else {
        match debias_spec(s[0].0, s[0].1, s[0].2) {
            Some(bit) => {
                let acc2 = (acc << 1u8) | bit;
                if count + 1 == 8 { Some(acc2) } else { collect_spec(acc2, count + 1, s.drop_first()) }
            },
            None => collect_spec(acc, count, s.drop_first()),
        }
    }
}

/// One output byte from the counter readings of up to `SAMPLES_PER_BYTE`
/// samples (readings before the first fold, between the folds and after the
/// second); `None` when the source is disabled or eight bits were not found.
pub fn jitter_collect_byte(disabled: bool, samples: &[(u64, u64, u64)]) -> (r: Option<u8>)
    ensures
        disabled ==> r is None,
        !disabled ==> r == collect_spec(0, 0, samples@.take(
            if samples@.len() <= SAMPLES_PER_BYTE { samples@.len() as int } else { SAMPLES_PER_BYTE as int })),
{
    if disabled {
        return None;
    }
    let ghost n: int = if samples@.len() <= SAMPLES_PER_BYTE { samples@.len() as int } else { SAMPLES_PER_BYTE as int };
    let ghost whole = samples@.take(n);
    let mut accumulator: u8 = 0;
    let mut bit_count: u8 = 0;
    let mut i: usize = 0;
    assert(whole.skip(0) =~= whole);
    while i < samples.len() && i < SAMPLES_PER_BYTE
        invariant
            !disabled,
            0 <= n <= samples@.len(),
            n == (if samples@.len() <= SAMPLES_PER_BYTE { samples@.len() as int } else { SAMPLES_PER_BYTE as int }),
            whole == samples@.take(n),
            i <= n,
            bit_count < 8,
            collect_spec(0, 0, whole) == collect_spec(accumulator, bit_count as nat, whole.skip(i as int)),
        decreases n - i,
    {
        let (t0, t1, t2) = samples[i];
        let bit = debias_bit(t0, t1, t2);
        proof {
            assert(whole.skip(i as int)[0] == samples@[i as int]);
            assert(whole.skip(i as int).drop_first() =~= whole.skip(i as int + 1));
        }
        match bit {
            Some(b) => {
                accumulator = (accumulator << 1u8) | b;
                bit_count = bit_count + 1;
                if bit_count == 8 {
                    return Some(accumulator);
                }
            },
            None => {},
        }
        i = i + 1;
    }
    proof {
        assert(whole.skip(i as int).len() == 0);
    }
    None
}

/// Failing verdicts the health tests give on `s`, starting from state `st`.
pub open spec fn health_failures(st: StreamHealth, s: Seq<u8>) -> nat
    decreases s.len(),
{
    if s.len() == 0 {
        0
    } else {
        let (n, v) = health_next(st, s[0]);
        (if v == HealthVerdict::Fail { 1nat } else { 0nat }) + health_failures(n, s.drop_first())
    }
}

/// The boot self-test verdict on the raw timing samples: the source stays
/// usable only when at least half of them pass the health tests of a fresh
/// evaluator.
pub fn jitter_boot_self_test(samples: &[u8]) -> (r: bool)
    requires
        samples@.len() == BOOT_SELF_TEST_SAMPLES,
    ensures
        r == ((BOOT_SELF_TEST_SAMPLES - health_failures(StreamHealth::fresh(), samples@)) * 2
            >= BOOT_SELF_TEST_SAMPLES),
{
    let mut health = StreamHealth::new();
    let mut fail_count: usize = 0;
    let mut i: usize = 0;
    assert(samples@.skip(0) =~= samples@);
    while i < BOOT_SELF_TEST_SAMPLES
        invariant
            i <= BOOT_SELF_TEST_SAMPLES,
            samples@.len() == BOOT_SELF_TEST_SAMPLES,
            health.wf(),
            fail_count <= i,
            fail_count + health_failures(health, samples@.skip(i as int))
                == health_failures(StreamHealth::fresh(), samples@),
        decreases BOOT_SELF_TEST_SAMPLES - i,
    {
        let sample = samples[i];
        let ghost before = health;
        let verdict = health.check(sample);
        proof {
            assert(samples@.skip(i as int)[0] == sample);
            assert(samples@.skip(i as int).drop_first() =~= samples@.skip(i as int + 1));
        }
        if verdict == HealthVerdict::Fail {
            fail_count = fail_count + 1;
        }
        i = i + 1;
    }
    proof {
        assert(samples@.skip(BOOT_SELF_TEST_SAMPLES as int).len() == 0);
    }
    let pass_count = BOOT_SELF_TEST_SAMPLES - fail_count;
    !(pass_count * 2 < BOOT_SELF_TEST_SAMPLES)
}

} // verus!

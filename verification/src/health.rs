//! Entropy source health testing (NIST SP 800-90B 4.4.1 repetition count test
//! and 4.4.2 adaptive proportion test) and the sentinel-checked collection core.
use vstd::prelude::*;
use crate::capability::ct_eq_u8;

verus! {

/// alpha = 2^-20.
pub const ALPHA_EXP: u32 = 20;
/// Adaptive proportion test window.
pub const APT_WINDOW: usize = 1024;
/// Repetition count cutoff: 1 + ceil(20 / 0.5).
pub const RCT_CUTOFF: u32 = 41;
/// Adaptive proportion cutoff for W = 1024, H = 0.5.
pub const APT_CUTOFF: u32 = 793;
/// Consecutive passing samples that re-admit a disabled source.
pub const REENTRY_THRESHOLD: u32 = 16;

/// Verdict for one sample.
#[derive(Debug, Clone, Copy, PartialEq, Eq, Structural)]
pub enum HealthVerdict {
    Pass,
    Fail,
    NeedMoreData,
}

/// Entropy collection errors.
#[derive(Clone, Copy, Debug, PartialEq, Eq, Structural)]
pub enum EntropyError {
    QuorumFailed,
    SourceUnavailable,
    HealthTestFailed,
}

/// `x + 1`, saturating at `u32::MAX`.
pub open spec fn sat_inc(x: u32) -> u32 {
    if x == u32::MAX { x } else { (x + 1) as u32 }
}

/// The state after one sample and the verdict on it: the repetition count
/// test first (a run reaching `RCT_CUTOFF` fails and disables), then the
/// adaptive proportion window, which fails and disables when it closes with
/// its first value seen `APT_CUTOFF` times or more; a disabled source is
/// re-admitted after `REENTRY_THRESHOLD` passing samples in a row.
pub open spec fn health_next(o: StreamHealth, sample: u8) -> (StreamHealth, HealthVerdict) {
    let run = if sample == o.rct_last { sat_inc(o.rct_count) } else { 1u32 };
    let cp = sat_inc(o.consecutive_pass);
    let obs = if o.apt_filled == 0 { 1u32 } else if sample == o.apt_initial {
        sat_inc(o.apt_observed_count)
    } else {
        o.apt_observed_count
    };
    let init = if o.apt_filled == 0 { sample } else { o.apt_initial };
    let dis = o.disabled && cp < REENTRY_THRESHOLD;
    if sample == o.rct_last && run >= RCT_CUTOFF {
        (StreamHealth { rct_last: o.rct_last, rct_count: run, apt_observed_count: o.apt_observed_count,
            apt_initial: o.apt_initial, apt_filled: o.apt_filled, consecutive_pass: 0, disabled: true },
            HealthVerdict::Fail)
    } else if o.apt_filled + 1 < APT_WINDOW {
        (StreamHealth { rct_last: sample, rct_count: run, apt_observed_count: obs, apt_initial: init,
            apt_filled: (o.apt_filled + 1) as usize, consecutive_pass: cp, disabled: dis }, HealthVerdict::NeedMoreData)
    } else if obs >= APT_CUTOFF {
        (StreamHealth { rct_last: sample, rct_count: run, apt_observed_count: 0, apt_initial: init,
            apt_filled: 0, consecutive_pass: 0, disabled: true }, HealthVerdict::Fail)
    } else {
        (StreamHealth { rct_last: sample, rct_count: run, apt_observed_count: 0, apt_initial: init,
            apt_filled: 0, consecutive_pass: cp, disabled: dis }, HealthVerdict::Pass)
    }
}

/// The state after feeding `samples` one by one.
pub open spec fn health_run(o: StreamHealth, samples: Seq<u8>) -> StreamHealth
    decreases samples.len(),
{
    if samples.len() == 0 {
        o
    } else {
        health_next(health_run(o, samples.drop_last()), samples.last()).0
    }
}

/// How many of `samples` equal `v`.
pub open spec fn count_eq(samples: Seq<u8>, v: u8) -> nat
    decreases samples.len(),
{
    if samples.len() == 0 {
        0
    } else {
        count_eq(samples.drop_last(), v) + if samples.last() == v { 1nat } else { 0nat }
    }
}

/// Within one adaptive proportion window opened afresh, and while no run of
/// repeated samples trips the repetition test, the window has taken every
/// sample, its reference value is the first one, and its count is exactly the
/// number of samples equal to that first value.
pub proof fn law_apt_window_counts_first_value(o: StreamHealth, samples: Seq<u8>)
    requires
        o.apt_filled == 0,
        0 < samples.len() < APT_WINDOW,
        samples[0] != o.rct_last,
        forall|i: int| 0 < i < samples.len() ==> #[trigger] samples[i] != samples[i - 1],
    ensures
        health_run(o, samples).apt_filled == samples.len(),
        health_run(o, samples).apt_initial == samples[0],
        health_run(o, samples).apt_observed_count == count_eq(samples, samples[0]),
        health_run(o, samples).rct_last == samples.last(),
        health_run(o, samples).rct_count == 1,
    decreases samples.len(),
{
    let p = samples.drop_last();
    if p.len() == 0 {
        assert(health_run(o, p) == o);
        assert(count_eq(p, samples[0]) == 0);
    } else {
        assert forall|i: int| 0 < i < p.len() implies #[trigger] p[i] != p[i - 1] by {
            assert(p[i] == samples[i] && p[i - 1] == samples[i - 1]);
        }
        law_apt_window_counts_first_value(o, p);
        lemma_count_eq_bound(p, samples[0]);
        assert(samples.last() == samples[samples.len() - 1]);
        assert(p.last() == samples[samples.len() - 2]);
    }
}

proof fn lemma_count_eq_bound(samples: Seq<u8>, v: u8)
    ensures
        count_eq(samples, v) <= samples.len(),
    decreases samples.len(),
{
    if samples.len() > 0 {
        lemma_count_eq_bound(samples.drop_last(), v);
    }
}

/// RCT and APT state of one entropy source.
pub struct StreamHealth {
    pub rct_last: u8,
    pub rct_count: u32,
    pub apt_observed_count: u32,
    pub apt_initial: u8,
    pub apt_filled: usize,
    pub consecutive_pass: u32,
    pub disabled: bool,
}

impl StreamHealth {
    /// The APT window position is always inside the window.
    pub open spec fn wf(&self) -> bool {
        self.apt_filled < APT_WINDOW
    }

    /// The evaluator before any sample.
    pub open spec fn fresh() -> StreamHealth {
        StreamHealth { rct_last: 0, rct_count: 0, apt_observed_count: 0, apt_initial: 0, apt_filled: 0,
            consecutive_pass: 0, disabled: false }
    }

    /// Fresh evaluator: no sample seen, not disabled.
    pub fn new() -> (r: Self)
        ensures
            r == Self::fresh(),
            r.wf(),
            r.rct_last == 0 && r.rct_count == 0,
            r.apt_observed_count == 0 && r.apt_initial == 0 && r.apt_filled == 0,
            r.consecutive_pass == 0,
            !r.disabled,
    {
        StreamHealth {
            rct_last: 0,
            rct_count: 0,
            apt_observed_count: 0,
            apt_initial: 0,
            apt_filled: 0,
            consecutive_pass: 0,
            disabled: false,
        }
    }

    /// Whether the source is currently excluded from the quorum.
    pub fn is_disabled(&self) -> (r: bool)
        ensures
            r == self.disabled,
    {
        self.disabled
    }

    /// Feeds one sample to both tests.
    ///
    /// A run of `RCT_CUTOFF` identical samples fails and disables the source. Otherwise
    /// the sample counts toward re-admission (`REENTRY_THRESHOLD` passes in a row) and
    /// toward the APT window: the first `APT_WINDOW - 1` samples of a window need more
    /// data, and the last one closes the window, failing (and disabling) when the
    /// window's first value occurred `APT_CUTOFF` times or more.
    pub fn check(&mut self, sample: u8) -> (r: HealthVerdict)
        requires
            old(self).wf(),
        ensures
            final(self).wf(),
            (*final(self), r) == health_next(*old(self), sample),
            ({
                let o = *old(self);
                let n = *final(self);
                let run = if sample == o.rct_last { sat_inc(o.rct_count) } else { 1u32 };
                let cp = sat_inc(o.consecutive_pass);
                let obs = if o.apt_filled == 0 { 1u32 } else if sample == o.apt_initial {
                    sat_inc(o.apt_observed_count)
                } else {
                    o.apt_observed_count
                };
                &&& n.rct_count == run
                &&& n.rct_last == if sample == o.rct_last { o.rct_last } else { sample }
                &&& if sample == o.rct_last && run >= RCT_CUTOFF {
                    &&& r == HealthVerdict::Fail
                    &&& n.disabled
                    &&& n.consecutive_pass == 0
                    &&& n.apt_filled == o.apt_filled
                    &&& n.apt_observed_count == o.apt_observed_count
                    &&& n.apt_initial == o.apt_initial
                } else if o.apt_filled + 1 < APT_WINDOW {
                    &&& r == HealthVerdict::NeedMoreData
                    &&& n.consecutive_pass == cp
                    &&& n.disabled == (o.disabled && cp < REENTRY_THRESHOLD)
                    &&& n.apt_filled == o.apt_filled + 1
                    &&& n.apt_observed_count == obs
                    &&& n.apt_initial == if o.apt_filled == 0 { sample } else { o.apt_initial }
                } else if obs >= APT_CUTOFF {
                    &&& r == HealthVerdict::Fail
                    &&& n.disabled
                    &&& n.consecutive_pass == 0
                    &&& n.apt_filled == 0
                    &&& n.apt_observed_count == 0
                    &&& n.apt_initial == if o.apt_filled == 0 { sample } else { o.apt_initial }
                } else {
                    &&& r == HealthVerdict::Pass
                    &&& n.consecutive_pass == cp
                    &&& n.disabled == (o.disabled && cp < REENTRY_THRESHOLD)
                    &&& n.apt_filled == 0
                    &&& n.apt_observed_count == 0
                    &&& n.apt_initial == if o.apt_filled == 0 { sample } else { o.apt_initial }
                }
            }),
    {
        if sample == self.rct_last {
            self.rct_count = self.rct_count.saturating_add(1);
            if self.rct_count >= RCT_CUTOFF {
                self.disabled = true;
                self.consecutive_pass = 0;
                return HealthVerdict::Fail;
            }
        } else {
            self.rct_count = 1;
            self.rct_last = sample;
        }
        self.consecutive_pass = self.consecutive_pass.saturating_add(1);
        if self.disabled && self.consecutive_pass >= REENTRY_THRESHOLD {
            self.disabled = false;
        }
        if self.apt_filled < APT_WINDOW {
            if self.apt_filled == 0 {
                self.apt_initial = sample;
                self.apt_observed_count = 1;
            } else if sample == self.apt_initial {
                self.apt_observed_count = self.apt_observed_count.saturating_add(1);
            }
            self.apt_filled = self.apt_filled + 1;
            if self.apt_filled < APT_WINDOW {
                return HealthVerdict::NeedMoreData;
            }
            let observed = self.apt_observed_count;
            self.apt_filled = 0;
            self.apt_observed_count = 0;
            if observed >= APT_CUTOFF {
                self.disabled = true;
                self.consecutive_pass = 0;
                return HealthVerdict::Fail;
            }
        }
        HealthVerdict::Pass
    }
}

/// Pre-fill value of the collection scratch buffer.
pub const SENTINEL: u8 = 0xFE;
/// Scratch buffer length.
pub const VIRTIO_SCRATCH_LEN: usize = 32;

/// 1 when `a` and `b` hold the same bytes, else 0; every byte pair is compared.
pub fn ct_eq_bytes(a: &[u8], b: &[u8]) -> (r: u8)
    ensures
        r == if a@ == b@ { 1u8 } else { 0u8 },
{
    let mut eq: u8 = if a.len() == b.len() { 1 } else { 0 };
    let n = if a.len() < b.len() { a.len() } else { b.len() };
    let mut i: usize = 0;
    assert(a@.subrange(0, 0) =~= b@.subrange(0, 0));
    while i < n
        invariant
            i <= n,
            n == if a@.len() < b@.len() { a@.len() } else { b@.len() },
            eq == if a@.len() == b@.len() && a@.subrange(0, i as int) == b@.subrange(0, i as int) { 1u8 } else { 0u8 },
        decreases n - i,
    {
        let e = ct_eq_u8(a[i], b[i]);
        proof {
            assert(eq <= 1 && e <= 1 ==> ((eq & e) == 1 <==> (eq == 1 && e == 1)) && (eq & e) <= 1) by (bit_vector);
            assert(a@.subrange(0, i as int + 1) == a@.subrange(0, i as int).push(a@[i as int]));
            assert(b@.subrange(0, i as int + 1) == b@.subrange(0, i as int).push(b@[i as int]));
            if a@.subrange(0, i as int + 1) == b@.subrange(0, i as int + 1) {
                assert(a@.subrange(0, i as int + 1)[i as int] == b@.subrange(0, i as int + 1)[i as int]);
                assert(a@.subrange(0, i as int) == a@.subrange(0, i as int + 1).drop_last());
                assert(b@.subrange(0, i as int) == b@.subrange(0, i as int + 1).drop_last());
            }
        }
        eq = eq & e;
        i = i + 1;
    }
    proof {
        if a@.len() == b@.len() {
            assert(a@.subrange(0, n as int) == a@);
            assert(b@.subrange(0, n as int) == b@);
        }
    }
    eq
}

/// Fills the scratch buffer with `SENTINEL` before a device request.
pub fn sentinel_prefill(scratch: &mut [u8; VIRTIO_SCRATCH_LEN])
    ensures
        forall|i: int| 0 <= i < VIRTIO_SCRATCH_LEN ==> #[trigger] final(scratch)@[i] == SENTINEL,
{
    let mut i: usize = 0;
    while i < VIRTIO_SCRATCH_LEN
        invariant
            i <= VIRTIO_SCRATCH_LEN,
            scratch@.len() == VIRTIO_SCRATCH_LEN,
            forall|j: int| 0 <= j < i ==> #[trigger] scratch@[j] == SENTINEL,
        decreases VIRTIO_SCRATCH_LEN - i,
    {
        scratch[i] = SENTINEL;
        i = i + 1;
    }
}

/// `zeroize::Zeroize::zeroize` on a byte slice: every octet is overwritten with
/// zero by volatile writes the compiler does not remove. The crate asserts that
/// the length fits in `isize`, which the `requires` carries.
#[verifier::external_body]
pub(crate) fn secure_zero(buf: &mut [u8])
    requires
        old(buf)@.len() <= isize::MAX,
    ensures
        final(buf)@ == Seq::new(old(buf)@.len(), |i: int| 0u8),
{
    zeroize::Zeroize::zeroize(buf)
}

/// `zeroize::Zeroize::zeroize` on a `u64`: a volatile write of zero.
#[verifier::external_body]
pub(crate) fn secure_zero_u64(v: &mut u64)
    ensures
        *final(v) == 0,
{
    zeroize::Zeroize::zeroize(v)
}

/// Overwrites every byte with zero, with writes the compiler keeps.
pub fn zeroize_bytes(buf: &mut [u8])
    requires
        old(buf)@.len() <= isize::MAX,
    ensures
        final(buf)@.len() == old(buf)@.len(),
        forall|i: int| 0 <= i < final(buf)@.len() ==> #[trigger] final(buf)@[i] == 0,
{
    secure_zero(buf);
}

/// Finishes a sentinel-checked collection. The scratch buffer was pre-filled with
/// `SENTINEL` (`sentinel_prefill`) and then handed to the entropy request, whose
/// outcome is `request`. A failed or empty request, or a buffer the request left
/// entirely at the sentinel, yields `SourceUnavailable`; otherwise the first
/// `min(n, 32, buf.len())` bytes go to `buf`. The scratch buffer is zeroed on every path.
pub fn sentinel_collect_with<E>(
    scratch: &mut [u8; VIRTIO_SCRATCH_LEN],
    buf: &mut [u8],
    request: Result<usize, E>,
) -> (r: Result<usize, EntropyError>)
    ensures
        forall|i: int| 0 <= i < VIRTIO_SCRATCH_LEN ==> #[trigger] final(scratch)@[i] == 0,
        final(buf)@.len() == old(buf)@.len(),
        match request {
            Ok(n) => n > 0 && old(scratch)@ != Seq::new(VIRTIO_SCRATCH_LEN as nat, |i: int| SENTINEL),
            Err(_) => false,
        } <==> r is Ok,
        r is Err ==> r == Err::<usize, EntropyError>(EntropyError::SourceUnavailable) && final(buf)@ == old(buf)@,
        r matches Ok(take) ==> {
            &&& request matches Ok(n)
            &&& take == if n < VIRTIO_SCRATCH_LEN { if n < old(buf)@.len() { n as int } else { old(buf)@.len() as int } }
                else if VIRTIO_SCRATCH_LEN < old(buf)@.len() { VIRTIO_SCRATCH_LEN as int } else { old(buf)@.len() as int }
            &&& final(buf)@ == old(scratch)@.subrange(0, take as int) + old(buf)@.subrange(take as int, old(buf)@.len() as int)
        },
{
    let n = match request {
        Ok(n) => n,
        Err(_) => {
            zeroize_bytes(scratch);
            return Err(EntropyError::SourceUnavailable);
        }
    };
    if n == 0 {
        zeroize_bytes(scratch);
        return Err(EntropyError::SourceUnavailable);
    }
    let still_sentinel = [SENTINEL; VIRTIO_SCRATCH_LEN];
    assert(still_sentinel@ == Seq::new(VIRTIO_SCRATCH_LEN as nat, |i: int| SENTINEL));
    if ct_eq_bytes(scratch, &still_sentinel) == 1 {
        zeroize_bytes(scratch);
        return Err(EntropyError::SourceUnavailable);
    }
    let m = if n < VIRTIO_SCRATCH_LEN { n } else { VIRTIO_SCRATCH_LEN };
    let take = if m < buf.len() { m } else { buf.len() };
    let ghost b0 = buf@;
    let mut i: usize = 0;
    while i < take
        invariant
            i <= take,
            take <= VIRTIO_SCRATCH_LEN,
            take <= buf@.len(),
            buf@.len() == b0.len(),
            scratch@ == old(scratch)@,
            forall|j: int| 0 <= j < i ==> #[trigger] buf@[j] == scratch@[j],
            forall|j: int| i <= j < buf@.len() ==> #[trigger] buf@[j] == b0[j],
        decreases take - i,
    {
        buf[i] = scratch[i];
        i = i + 1;
    }
    assert(buf@ == old(scratch)@.subrange(0, take as int) + b0.subrange(take as int, b0.len() as int));
    zeroize_bytes(scratch);
    Ok(take)
}

} // verus!

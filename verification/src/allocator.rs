//! Bitmap physical frame allocator.
//!
//! One bit per 4 KiB frame: 1 = used or reserved, 0 = free. Every frame starts
//! reserved; usable regions of the memory map are released by
//! `init_from_memory_map`. Allocation scans 64-bit words from a hint word and
//! always hands out the lowest free frame.
use vstd::prelude::*;
use vstd::set_lib::*;
use crate::memory_map::{MemoryKind, MemoryMap, MemoryRegion};

verus! {

broadcast use vstd::set::group_set_axioms;

/// Largest physical address covered by the bitmap (4 GiB).
pub const MAX_PHYS_ADDR: u64 = 0x1_0000_0000;
/// Size of one physical frame.
pub const FRAME_SIZE: u64 = 4096;
/// Number of frames the bitmap covers.
pub const MAX_FRAMES: usize = 1048576;
/// Number of 64-bit bitmap words.
pub const BITMAP_WORDS: usize = 16384;

/// A 4 KiB aligned physical frame address.
#[derive(Clone, Copy, Debug, PartialEq, Eq, Structural, PartialOrd, Ord)]
pub struct PhysFrame(u64);

impl View for PhysFrame {
    type V = u64;

    closed spec fn view(&self) -> u64 {
        self.0
    }
}

impl PhysFrame {
    /// Frame at `addr`, or `None` when `addr` is not 4 KiB aligned.
    pub fn from_addr(addr: u64) -> (r: Option<Self>)
        ensures
            addr % 4096 == 0 <==> r is Some,
            r matches Some(f) ==> f@ == addr,
    {
        proof {
            lemma_low_bits_mask(addr);
        }
        if addr & (FRAME_SIZE - 1) != 0 {
            None
        } else {
            Some(PhysFrame(addr))
        }
    }

    /// Physical address of the frame.
    pub fn addr(self) -> (r: u64)
        ensures
            r == self@,
    {
        self.0
    }

    /// Frame index (address / frame size).
    fn index(self) -> (r: u64)
        ensures
            r == self@ / 4096,
    {
        self.0 / FRAME_SIZE
    }
}

/// Allocator errors.
#[derive(Debug, PartialEq, Eq, Structural)]
pub enum AllocError {
    /// No free frame is left.
    OutOfMemory,
    /// The frame lies beyond the bitmap.
    InvalidFrame,
    /// The frame is already free.
    DoubleFree,
}

/// Bit `b` of word `w`.
pub open spec fn bit_of(w: u64, b: int) -> u64 {
    (w >> (b as u64)) & 1u64
}

/// Frame `i` is free in bitmap `bm`.
pub open spec fn frame_free(bm: Seq<u64>, i: int) -> bool {
    bit_of(bm[i / 64], i % 64) == 0
}

/// Frames released by freeing the byte range `[base, base + length)`: only frames
/// that lie wholly inside the range, and only those the bitmap covers.
pub open spec fn released_frames(base: u64, length: u64) -> Set<int> {
    Set::new(|i: int| (base + 4095) / 4096 <= i < (base + length) / 4096 && 0 <= i < MAX_FRAMES)
}

/// Frames reserved by `[base, base + length)`: every frame the range touches.
pub open spec fn reserved_frames(base: u64, length: u64) -> Set<int> {
    Set::new(|i: int| base / 4096 <= i < (base + length + 4095) / 4096 && 0 <= i < MAX_FRAMES)
}

/// Frames released by all usable regions of `s`.
pub open spec fn usable_released(s: Seq<MemoryRegion>) -> Set<int>
    decreases s.len(),
{
    if s.len() == 0 {
        Set::empty()
    } else if s.last().kind == MemoryKind::Usable {
        usable_released(s.drop_last()).union(released_frames(s.last().base, s.last().length))
    } else {
        usable_released(s.drop_last())
    }
}

/// Bitmap frame allocator over 4 GiB of physical memory.
pub struct BitmapFrameAllocator {
    bitmap: Vec<u64>,
    free_count: usize,
    next_free_word: usize,
}

impl BitmapFrameAllocator {
    /// Indices of the free frames.
    pub closed spec fn free_frames(&self) -> Set<int> {
        Set::new(|i: int| 0 <= i < MAX_FRAMES && frame_free(self.bitmap@, i))
    }

    /// Internal consistency: the counter matches the bitmap and every word
    /// below the scan hint is fully used.
    pub closed spec fn wf(&self) -> bool {
        &&& self.bitmap@.len() == BITMAP_WORDS
        &&& self.free_count == self.free_frames().len()
        &&& self.next_free_word <= BITMAP_WORDS
        &&& forall|w: int| 0 <= w < self.next_free_word ==> #[trigger] self.bitmap@[w] == u64::MAX
    }

    proof fn lemma_free_frames_bounded(&self)
        ensures
            self.free_frames().finite(),
            self.free_frames().len() <= MAX_FRAMES,
            self.free_frames().subset_of(set_int_range(0, MAX_FRAMES as int)),
    {
        lemma_int_range(0, MAX_FRAMES as int);
        lemma_len_subset(self.free_frames(), set_int_range(0, MAX_FRAMES as int));
    }

    /// Every frame reserved; nothing can be allocated until regions are released.
    pub fn new() -> (r: Self)
        ensures
            r.wf(),
            r.free_frames() == Set::<int>::empty(),
    {
        let bitmap = vec![u64::MAX; BITMAP_WORDS];
        let r = BitmapFrameAllocator { bitmap, free_count: 0, next_free_word: 0 };
        assert forall|w: int| 0 <= w < BITMAP_WORDS implies r.bitmap@[w] == u64::MAX by {
            assert(cloned(u64::MAX, r.bitmap@[w]));
        }
        assert(r.free_frames() =~= Set::<int>::empty()) by {
            assert forall|i: int| 0 <= i < MAX_FRAMES implies !frame_free(r.bitmap@, i) by {
                assert(r.bitmap@[i / 64] == u64::MAX);
                lemma_max_bits((i % 64) as u64);
            }
        }
        r
    }

    fn is_free(&self, frame_idx: usize) -> (r: bool)
        requires
            self.wf(),
            frame_idx < MAX_FRAMES,
        ensures
            r == self.free_frames().contains(frame_idx as int),
    {
        let word = frame_idx / 64;
        let bit = frame_idx % 64;
        (self.bitmap[word] >> bit) & 1 == 0
    }

    fn mark_used(&mut self, frame_idx: usize)
        requires
            old(self).bitmap@.len() == BITMAP_WORDS,
            frame_idx < MAX_FRAMES,
        ensures
            final(self).bitmap@.len() == BITMAP_WORDS,
            final(self).free_frames() == old(self).free_frames().remove(frame_idx as int),
            final(self).free_count == old(self).free_count,
            final(self).next_free_word == old(self).next_free_word,
            forall|w: int| 0 <= w < BITMAP_WORDS && w != frame_idx / 64
                ==> #[trigger] final(self).bitmap@[w] == old(self).bitmap@[w],
    {
        let word = frame_idx / 64;
        let bit = frame_idx % 64;
        let w = self.bitmap[word];
        self.bitmap[word] = w | (1u64 << bit);
        proof {
            let nw = w | (1u64 << bit);
            assert forall|i: int| 0 <= i < MAX_FRAMES implies
                frame_free(self.bitmap@, i) == (frame_free(old(self).bitmap@, i) && i != frame_idx) by {
                if i / 64 == word as int {
                    lemma_bit_set(w, bit as u64, (i % 64) as u64);
                }
            }
            assert(self.free_frames() =~= old(self).free_frames().remove(frame_idx as int));
        }
    }

    fn mark_free(&mut self, frame_idx: usize)
        requires
            old(self).bitmap@.len() == BITMAP_WORDS,
            frame_idx < MAX_FRAMES,
        ensures
            final(self).bitmap@.len() == BITMAP_WORDS,
            final(self).free_frames() == old(self).free_frames().insert(frame_idx as int),
            final(self).free_count == old(self).free_count,
            final(self).next_free_word == old(self).next_free_word,
            forall|w: int| 0 <= w < BITMAP_WORDS && w != frame_idx / 64
                ==> #[trigger] final(self).bitmap@[w] == old(self).bitmap@[w],
    {
        let word = frame_idx / 64;
        let bit = frame_idx % 64;
        let w = self.bitmap[word];
        self.bitmap[word] = w & !(1u64 << bit);
        proof {
            assert forall|i: int| 0 <= i < MAX_FRAMES implies
                frame_free(self.bitmap@, i) == (frame_free(old(self).bitmap@, i) || i == frame_idx) by {
                if i / 64 == word as int {
                    lemma_bit_clear(w, bit as u64, (i % 64) as u64);
                }
            }
            assert(self.free_frames() =~= old(self).free_frames().insert(frame_idx as int));
        }
    }

    /// Releases every frame wholly inside `[base, base + length)` that the bitmap covers.
    fn mark_range_free(&mut self, base: u64, length: u64)
        requires
            old(self).wf(),
            base + length <= u64::MAX,
            base + 4096 <= u64::MAX,
        ensures
            final(self).wf(),
            final(self).free_frames() == old(self).free_frames().union(released_frames(base, length)),
    {
        let aligned_base = (base + FRAME_SIZE - 1) & !(FRAME_SIZE - 1);
        let aligned_end = (base + length) & !(FRAME_SIZE - 1);
        proof {
            lemma_round_down((base + 4095) as u64);
            lemma_round_down((base + length) as u64);
        }
        if aligned_end <= aligned_base {
            assert(released_frames(base, length) =~= Set::<int>::empty());
            assert(self.free_frames().union(released_frames(base, length)) =~= self.free_frames());
            return;
        }
        let start64 = aligned_base / FRAME_SIZE;
        let e64 = aligned_end / FRAME_SIZE;
        if start64 >= MAX_FRAMES as u64 {
            assert(released_frames(base, length) =~= Set::<int>::empty());
            assert(self.free_frames().union(released_frames(base, length)) =~= self.free_frames());
            return;
        }
        let start_idx = start64 as usize;
        let end_idx = if e64 < MAX_FRAMES as u64 { e64 as usize } else { MAX_FRAMES };
        let start_word = start_idx / 64;
        if start_word < self.next_free_word {
            self.next_free_word = start_word;
        }
        let ghost old_free = self.free_frames();
        let mut frame_idx = start_idx;
        while frame_idx < end_idx
            invariant
                self.wf(),
                start_idx <= frame_idx,
                frame_idx <= end_idx || frame_idx == start_idx,
                end_idx <= MAX_FRAMES,
                self.next_free_word <= start_idx / 64,
                self.free_frames() == old_free.union(
                    Set::new(|i: int| start_idx <= i < frame_idx)),
            decreases end_idx - frame_idx,
        {
            if !self.is_free(frame_idx) {
                proof {
                    self.lemma_free_frames_bounded();
                    lemma_int_range(0, MAX_FRAMES as int);
                    assert(self.free_frames().subset_of(
                        set_int_range(0, MAX_FRAMES as int).remove(frame_idx as int)));
                    lemma_len_subset(self.free_frames(),
                        set_int_range(0, MAX_FRAMES as int).remove(frame_idx as int));
                }
                let ghost pre = self.bitmap@;
                self.mark_free(frame_idx);
                self.free_count = self.free_count + 1;
                proof {
                    assert forall|w: int| 0 <= w < self.next_free_word implies
                        #[trigger] self.bitmap@[w] == u64::MAX by {
                        assert(w != frame_idx / 64);
                        assert(pre[w] == u64::MAX);
                    }
                }
            }
            frame_idx = frame_idx + 1;
            assert(self.free_frames() =~= old_free.union(
                Set::new(|i: int| start_idx <= i < frame_idx)));
        }
        assert(released_frames(base, length) =~= Set::new(|i: int| start_idx <= i < frame_idx));
    }

    /// Releases the usable regions of `map`; every other frame keeps its state.
    pub fn init_from_memory_map(&mut self, map: &MemoryMap)
        requires
            old(self).wf(),
            forall|i: int| 0 <= i < map@.len() && (#[trigger] map@[i]).kind == MemoryKind::Usable
                ==> map@[i].base + map@[i].length <= u64::MAX && map@[i].base + 4096 <= u64::MAX,
        ensures
            final(self).wf(),
            final(self).free_frames() == old(self).free_frames().union(usable_released(map@)),
    {
        let regions = map.regions();
        let n = regions.len();
        for k in 0..n
            invariant
                self.wf(),
                regions@ == map@,
                n == map@.len(),
                forall|i: int| 0 <= i < map@.len() && (#[trigger] map@[i]).kind == MemoryKind::Usable
                    ==> map@[i].base + map@[i].length <= u64::MAX && map@[i].base + 4096 <= u64::MAX,
                self.free_frames() == old(self).free_frames().union(
                    usable_released(map@.subrange(0, k as int))),
        {
            let r = regions[k];
            proof {
                assert(map@.subrange(0, k as int + 1).drop_last() == map@.subrange(0, k as int));
            }
            if r.kind == MemoryKind::Usable {
                self.mark_range_free(r.base, r.length);
            }
            assert(self.free_frames() =~= old(self).free_frames().union(
                usable_released(map@.subrange(0, k as int + 1))));
        }
        assert(map@.subrange(0, n as int) == map@);
    }

    /// Reserves every frame that `[base, base + length)` touches.
    pub fn mark_range_used(&mut self, base: u64, length: u64)
        requires
            old(self).wf(),
            base + length <= u64::MAX,
        ensures
            final(self).wf(),
            final(self).free_frames() == old(self).free_frames().difference(reserved_frames(base, length)),
    {
        let start64 = base / FRAME_SIZE;
        let end_byte = base + length;
        let q = end_byte / FRAME_SIZE;
        let up = if end_byte % FRAME_SIZE != 0 { q + 1 } else { q };
        assert(up == (base + length + 4095) / 4096);
        if start64 >= MAX_FRAMES as u64 {
            assert(reserved_frames(base, length) =~= Set::<int>::empty());
            assert(self.free_frames().difference(reserved_frames(base, length)) =~= self.free_frames());
            return;
        }
        let start_idx = start64 as usize;
        let end_idx = if up < MAX_FRAMES as u64 { up as usize } else { MAX_FRAMES };
        let ghost old_free = self.free_frames();
        let mut frame_idx = start_idx;
        while frame_idx < end_idx
            invariant
                self.wf(),
                start_idx <= frame_idx,
                frame_idx <= end_idx || frame_idx == start_idx,
                end_idx <= MAX_FRAMES,
                self.free_frames() == old_free.difference(
                    Set::new(|i: int| start_idx <= i < frame_idx)),
            decreases end_idx - frame_idx,
        {
            if self.is_free(frame_idx) {
                let ghost pre = self.bitmap@;
                proof {
                    self.lemma_free_frames_bounded();
                }
                self.mark_used(frame_idx);
                self.free_count = self.free_count.saturating_sub(1);
                proof {
                    assert forall|w: int| 0 <= w < self.next_free_word implies
                        #[trigger] self.bitmap@[w] == u64::MAX by {
                        if w == frame_idx / 64 {
                            assert(pre[w] == u64::MAX);
                            lemma_max_bits((frame_idx % 64) as u64);
                            assert(false);
                        }
                    }
                }
            }
            frame_idx = frame_idx + 1;
            assert(self.free_frames() =~= old_free.difference(
                Set::new(|i: int| start_idx <= i < frame_idx)));
        }
        assert(reserved_frames(base, length) =~= Set::new(|i: int| start_idx <= i < frame_idx));
        assert(self.free_frames() =~= old_free.difference(reserved_frames(base, length)));
    }

    /// Allocates the lowest free frame, or `None` when no frame is free.
    pub fn allocate(&mut self) -> (r: Option<PhysFrame>)
        requires
            old(self).wf(),
        ensures
            final(self).wf(),
            r is None <==> old(self).free_frames() == Set::<int>::empty(),
            r is None ==> final(self).free_frames() == old(self).free_frames(),
            r matches Some(f) ==> {
                &&& f@ % 4096 == 0
                &&& old(self).free_frames().contains((f@ as int / 4096))
                &&& forall|j: int| old(self).free_frames().contains(j) ==> (f@ as int / 4096) <= j
                &&& final(self).free_frames() == old(self).free_frames().remove((f@ as int / 4096))
            },
    {
        let mut word_idx = self.next_free_word;
        while word_idx < BITMAP_WORDS
            invariant
                self.wf(),
                *self == *old(self),
                self.next_free_word <= word_idx <= BITMAP_WORDS,
                forall|w: int| 0 <= w < word_idx ==> #[trigger] self.bitmap@[w] == u64::MAX,
            decreases BITMAP_WORDS - word_idx,
        {
            let word = self.bitmap[word_idx];
            if word == u64::MAX {
                word_idx = word_idx + 1;
                continue;
            }
            let bit = word.trailing_ones() as usize;
            proof {
                lemma_trailing_ones(word);
            }
            let frame_idx = word_idx * 64 + bit;
            let ghost old_free = self.free_frames();
            proof {
                assert(frame_idx / 64 == word_idx && frame_idx % 64 == bit);
                assert(old_free.contains(frame_idx as int));
                assert forall|j: int| old_free.contains(j) implies frame_idx <= j by {
                    if j / 64 < word_idx {
                        assert(self.bitmap@[j / 64] == u64::MAX);
                        lemma_max_bits((j % 64) as u64);
                    } else if j / 64 == word_idx && j % 64 < bit {
                        assert(bit_of(word, j % 64) == 1);
                    }
                }
                self.lemma_free_frames_bounded();
            }
            self.mark_used(frame_idx);
            self.free_count = self.free_count - 1;
            self.next_free_word = word_idx;
            proof {
                assert forall|w: int| 0 <= w < self.next_free_word implies
                    #[trigger] self.bitmap@[w] == u64::MAX by {
                    assert(w != frame_idx / 64);
                    assert(old(self).bitmap@[w] == u64::MAX);
                }
            }
            return Some(PhysFrame(frame_idx as u64 * FRAME_SIZE));
        }
        proof {
            assert(self.free_frames() =~= Set::<int>::empty()) by {
                assert forall|i: int| 0 <= i < MAX_FRAMES implies !frame_free(self.bitmap@, i) by {
                    assert(self.bitmap@[i / 64] == u64::MAX);
                    lemma_max_bits((i % 64) as u64);
                }
            }
        }
        None
    }

    /// Releases `frame` after erasing it: `mem` is the frame's 4 KiB of memory,
    /// zeroed (with writes the compiler keeps) exactly when the release succeeds;
    /// the outcome is that of `dealloc`.
    pub fn dealloc_scrubbed(&mut self, frame: PhysFrame, mem: &mut [u8; 4096]) -> (r: Result<(), AllocError>)
        requires
            old(self).wf(),
        ensures
            final(self).wf(),
            (frame@ as int / 4096) >= MAX_FRAMES ==> r == Err::<(), AllocError>(AllocError::InvalidFrame),
            (frame@ as int / 4096) < MAX_FRAMES && old(self).free_frames().contains((frame@ as int / 4096))
                ==> r == Err::<(), AllocError>(AllocError::DoubleFree),
            r is Err ==> final(self).free_frames() == old(self).free_frames() && final(mem)@ == old(mem)@,
            r is Ok <==> (frame@ as int / 4096) < MAX_FRAMES && !old(self).free_frames().contains((frame@ as int / 4096)),
            r is Ok ==> final(self).free_frames() == old(self).free_frames().insert((frame@ as int / 4096))
                && final(mem)@ == Seq::new(4096, |i: int| 0u8),
    {
        let idx64 = frame.index();
        if idx64 >= MAX_FRAMES as u64 || self.is_free(idx64 as usize) {
            return self.dealloc(frame);
        }
        scrub_frame(mem);
        self.dealloc(frame)
    }

    /// Returns `frame` to the free pool.
    pub fn dealloc(&mut self, frame: PhysFrame) -> (r: Result<(), AllocError>)
        requires
            old(self).wf(),
        ensures
            final(self).wf(),
            (frame@ as int / 4096) >= MAX_FRAMES ==> r == Err::<(), AllocError>(AllocError::InvalidFrame),
            (frame@ as int / 4096) < MAX_FRAMES && old(self).free_frames().contains((frame@ as int / 4096))
                ==> r == Err::<(), AllocError>(AllocError::DoubleFree),
            r is Err ==> final(self).free_frames() == old(self).free_frames(),
            r is Ok <==> (frame@ as int / 4096) < MAX_FRAMES && !old(self).free_frames().contains((frame@ as int / 4096)),
            r is Ok ==> final(self).free_frames() == old(self).free_frames().insert((frame@ as int / 4096)),
    {
        let idx64 = frame.index();
        if idx64 >= MAX_FRAMES as u64 {
            return Err(AllocError::InvalidFrame);
        }
        let idx = idx64 as usize;
        if self.is_free(idx) {
            return Err(AllocError::DoubleFree);
        }
        proof {
            self.lemma_free_frames_bounded();
            lemma_int_range(0, MAX_FRAMES as int);
            lemma_len_subset(self.free_frames(),
                set_int_range(0, MAX_FRAMES as int).remove(idx as int));
        }
        self.mark_free(idx);
        self.free_count = self.free_count + 1;
        let word_idx = idx / 64;
        if word_idx < self.next_free_word {
            self.next_free_word = word_idx;
        }
        proof {
            assert forall|w: int| 0 <= w < self.next_free_word implies
                #[trigger] self.bitmap@[w] == u64::MAX by {
                assert(w != idx / 64);
                assert(old(self).bitmap@[w] == u64::MAX);
            }
        }
        Ok(())
    }

    /// Number of free frames.
    pub fn free_count(&self) -> (r: usize)
        requires
            self.wf(),
        ensures
            r == self.free_frames().len(),
    {
        self.free_count
    }

    /// Free memory in bytes.
    pub fn free_bytes(&self) -> (r: u64)
        requires
            self.wf(),
        ensures
            r == self.free_frames().len() * 4096,
    {
        proof {
            self.lemma_free_frames_bounded();
        }
        self.free_count as u64 * FRAME_SIZE
    }
}

proof fn lemma_low_bits_mask(x: u64)
    ensures
        (x & 4095u64 == 0) <==> x % 4096 == 0,
{
    assert((x & 4095u64 == 0) <==> x % 4096 == 0) by (bit_vector);
}

proof fn lemma_round_down(x: u64)
    ensures
        (x & !4095u64) / 4096 == x / 4096,
        (x & !4095u64) % 4096 == 0,
        (x & !4095u64) <= x,
{
    assert((x & !4095u64) / 4096 == x / 4096 && (x & !4095u64) % 4096 == 0 && (x & !4095u64) <= x) by (bit_vector);
}

proof fn lemma_max_bits(c: u64)
    requires
        c < 64,
    ensures
        (u64::MAX >> c) & 1u64 == 1u64,
{
    assert(c < 64 ==> (0xffff_ffff_ffff_ffffu64 >> c) & 1u64 == 1u64) by (bit_vector);
}

proof fn lemma_bit_set(w: u64, b: u64, c: u64)
    requires
        b < 64,
        c < 64,
    ensures
        ((w | (1u64 << b)) >> c) & 1u64 == if c == b { 1u64 } else { (w >> c) & 1u64 },
{
    assert(b < 64 && c < 64 ==> ((w | (1u64 << b)) >> c) & 1u64 == if c == b { 1u64 } else { (w >> c) & 1u64 })
        by (bit_vector);
}

proof fn lemma_bit_clear(w: u64, b: u64, c: u64)
    requires
        b < 64,
        c < 64,
    ensures
        ((w & !(1u64 << b)) >> c) & 1u64 == if c == b { 0u64 } else { (w >> c) & 1u64 },
{
    assert(b < 64 && c < 64 ==> ((w & !(1u64 << b)) >> c) & 1u64 == if c == b { 0u64 } else { (w >> c) & 1u64 })
        by (bit_vector);
}

/// Releasing the frame an allocation handed out succeeds and gives back the
/// free set as it was before the allocation.
pub proof fn law_dealloc_undoes_allocate(a: BitmapFrameAllocator, idx: int)
    requires
        a.wf(),
        a.free_frames().contains(idx),
    ensures
        idx < MAX_FRAMES,
        !a.free_frames().remove(idx).contains(idx),
        a.free_frames().remove(idx).insert(idx) == a.free_frames(),
{
    assert(a.free_frames().remove(idx).insert(idx) =~= a.free_frames());
}

/// Erases a frame's 4 KiB of memory, with writes the compiler keeps. A frame
/// is erased when it is handed out by `allocate` and before it goes back to the
/// pool (`dealloc_scrubbed`), so no data survives from one owner to the next.
pub fn scrub_frame(mem: &mut [u8; 4096])
    ensures
        final(mem)@ == Seq::new(4096, |i: int| 0u8),
{
    crate::health::secure_zero(mem);
}

proof fn lemma_trailing_ones(w: u64)
    requires
        w != u64::MAX,
    ensures
        w.trailing_ones() < 64,
        (w >> (w.trailing_ones() as u64)) & 1u64 == 0,
        forall|j: u64| j < w.trailing_ones() ==> #[trigger] ((w >> j) & 1u64) == 1u64,
{
    let nw = !w;
    assert(nw != 0) by (bit_vector)
        requires nw == !w, w != 0xffff_ffff_ffff_ffffu64;
    vstd::std_specs::bits::axiom_u64_trailing_zeros(nw);
    let t = vstd::std_specs::bits::u64_trailing_zeros(nw) as u64;
    assert((nw >> t) & 1u64 == 1u64);
    assert((w >> t) & 1u64 == 0) by (bit_vector)
        requires nw == !w, (nw >> t) & 1u64 == 1u64;
    assert forall|j: u64| j < t implies #[trigger] ((w >> j) & 1u64) == 1u64 by {
        assert((nw >> j) & 1u64 == 0u64);
        assert((w >> j) & 1u64 == 1u64) by (bit_vector)
            requires nw == !w, (nw >> j) & 1u64 == 0u64, j < 64;
    }
}

} // verus!

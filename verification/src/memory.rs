//! Physical-frame allocator: a bitmap over a fixed range of frames
//! (one bit per frame, 0 = free, 1 = used) together with a cached
//! free-frame count.

use vstd::prelude::*;

verus! {

/// Size in bytes of one physical frame.
pub const FRAME_SIZE: usize = 4096;

/// A physical frame address (aligned to `FRAME_SIZE`).
#[derive(Clone, Copy, Debug, PartialEq, Eq, Structural)]
pub struct PhysFrame(pub usize);

impl PhysFrame {
    pub fn start_address(&self) -> (r: usize)
        ensures
            r == self.0,
    {
        self.0
    }
}

/// True when bit `i` of `byte` is set.
pub open spec fn nth_bit(byte: u8, i: u8) -> bool {
    (byte >> i) & 1u8 == 1u8
}

/// True when frame `i` of the packed bitmap `bm` is marked used.
pub open spec fn bm_used(bm: Seq<u8>, i: int) -> bool {
    nth_bit(bm[i / 8], (i % 8) as u8)
}

/// Number of used frames with index in `[lo, hi)`.
pub open spec fn used_in(bm: Seq<u8>, lo: int, hi: int) -> nat
    decreases hi - lo,
{
    if hi <= lo {
        0
    } else {
        used_in(bm, lo, hi - 1) + if bm_used(bm, hi - 1) { 1nat } else { 0nat }
    }
}

/// Bitmap-backed allocator over the frame range
/// `[base_frame, base_frame + total_frames)`.
pub struct PhysicalMemoryManager {
    bitmap: Vec<u8>,
    base_frame: usize,
    total_frames: usize,
    free_frames: usize,
}

impl PhysicalMemoryManager {
    /// First managed frame number.
    pub closed spec fn spec_base(self) -> int {
        self.base_frame as int
    }

    /// Number of managed frames.
    pub closed spec fn spec_total(self) -> int {
        self.total_frames as int
    }

    /// Cached count of free frames.
    pub closed spec fn spec_free(self) -> int {
        self.free_frames as int
    }

    /// Whether managed frame `i` (relative to `base_frame`) is used.
    pub closed spec fn used(self, i: int) -> bool {
        bm_used(self.bitmap@, i)
    }

    /// Number of set bits among the managed frames.
    pub closed spec fn bits_set(self) -> nat {
        used_in(self.bitmap@, 0, self.spec_total())
    }

    /// Start address of managed frame `i`.
    pub open spec fn frame_addr(self, i: int) -> int {
        (self.spec_base() + i) * FRAME_SIZE
    }

    /// Whether `addr` lies inside a managed frame.
    pub open spec fn addr_in_range(self, addr: int) -> bool {
        self.spec_base() <= addr / (FRAME_SIZE as int) < self.spec_base() + self.spec_total()
    }

    /// Index (relative to `base_frame`) of the frame containing `addr`.
    pub open spec fn addr_index(self, addr: int) -> int {
        addr / (FRAME_SIZE as int) - self.spec_base()
    }

    /// The allocator invariant: the bitmap covers every managed frame
    /// and the cached free count equals the number of clear bits.
    pub closed spec fn wf(self) -> bool {
        &&& self.total_frames <= self.bitmap@.len() * 8
        &&& self.free_frames + self.bits_set() == self.total_frames
        &&& (self.base_frame + self.total_frames) * (FRAME_SIZE as int) <= usize::MAX as int
    }

    /// The managed range and its bounds are unchanged between `pre` and `post`.
    pub open spec fn same_range(pre: Self, post: Self) -> bool {
        &&& post.spec_base() == pre.spec_base()
        &&& post.spec_total() == pre.spec_total()
    }

    /// `post` is `pre` with frame `i` flipped from free to used.
    pub open spec fn mark_used_at(pre: Self, post: Self, i: int) -> bool {
        &&& Self::same_range(pre, post)
        &&& 0 <= i < pre.spec_total()
        &&& !pre.used(i)
        &&& post.used(i)
        &&& forall|j: int| 0 <= j < pre.spec_total() && j != i ==> post.used(j) == pre.used(j)
        &&& post.spec_free() == pre.spec_free() - 1
    }

    /// `post` is `pre` with frame `i` flipped from used to free.
    pub open spec fn mark_free_at(pre: Self, post: Self, i: int) -> bool {
        &&& Self::same_range(pre, post)
        &&& 0 <= i < pre.spec_total()
        &&& pre.used(i)
        &&& !post.used(i)
        &&& forall|j: int| 0 <= j < pre.spec_total() && j != i ==> post.used(j) == pre.used(j)
        &&& post.spec_free() == pre.spec_free() + 1
    }

    /// An allocator that manages nothing; `init` gives it its range.
    pub fn new_uninit() -> (r: Self)
        ensures
            r.wf(),
            r.spec_total() == 0,
            r.spec_free() == 0,
    {
        Self { bitmap: Vec::new(), base_frame: 0, total_frames: 0, free_frames: 0 }
    }

    /// Point the allocator at the frame range
    /// `[base_frame, base_frame + total_frames)`, all frames free.
    ///
    /// `bitmap_len` is the size in bytes of the bitmap storage and must
    /// hold one bit per frame; the address bound keeps every frame
    /// address representable.
    pub fn init(&mut self, bitmap_len: usize, base_frame: usize, total_frames: usize)
        requires
            total_frames <= bitmap_len * 8,
            (base_frame + total_frames) * (FRAME_SIZE as int) <= usize::MAX as int,
        ensures
            final(self).wf(),
            final(self).spec_base() == base_frame,
            final(self).spec_total() == total_frames,
            final(self).spec_free() == total_frames,
            forall|i: int| 0 <= i < total_frames ==> !final(self).used(i),
    {
        let mut bm: Vec<u8> = Vec::new();
        while bm.len() < bitmap_len
            invariant
                bm@.len() <= bitmap_len,
                forall|k: int| 0 <= k < bm@.len() ==> bm@[k] == 0u8,
            decreases bitmap_len - bm@.len(),
        {
            bm.push(0u8);
        }
        self.bitmap = bm;
        self.base_frame = base_frame;
        self.total_frames = total_frames;
        self.free_frames = total_frames;
        proof {
            assert forall|i: int| 0 <= i < total_frames implies !bm_used(self.bitmap@, i) by {
                lemma_frame_byte_in_bounds(self.bitmap@.len() as int, total_frames as int, i);
                lemma_zero_byte_clear((i % 8) as u8);
            }
            lemma_all_clear_count_zero(self.bitmap@, 0, total_frames as int);
        }
    }

    /// Read-only counter: the number of managed frames.
    pub fn total_frames(&self) -> (r: usize)
        ensures
            r == self.spec_total(),
    {
        self.total_frames
    }

    /// Read-only counter: the number of currently free frames.
    pub fn free_frames(&self) -> (r: usize)
        ensures
            r == self.spec_free(),
    {
        self.free_frames
    }

    /// Whether the frame containing `phys_addr` is marked used;
    /// addresses outside the managed range read as not used.
    pub fn is_used(&self, phys_addr: usize) -> (r: bool)
        requires
            self.wf(),
        ensures
            r == (self.addr_in_range(phys_addr as int) && self.used(
                self.addr_index(phys_addr as int),
            )),
    {
        let frame = phys_addr / FRAME_SIZE;
        if frame < self.base_frame || frame >= self.base_frame + self.total_frames {
            return false;
        }
        let idx = frame - self.base_frame;
        proof {
            lemma_frame_byte_in_bounds(self.bitmap@.len() as int, self.total_frames as int, idx as int);
        }
        let byte = idx / 8;
        let bit = (idx % 8) as u8;
        let cur = self.bitmap[byte];
        (cur >> bit) & 1u8 == 1u8
    }

    /// Mark the frame containing `phys_addr` used. A no-op returning
    /// `false` when the address is out of range or the frame is
    /// already used; otherwise sets its bit, decrements the free
    /// count, and returns `true`.
    pub fn mark_used(&mut self, phys_addr: usize) -> (r: bool)
        requires
            old(self).wf(),
        ensures
            final(self).wf(),
            r == (old(self).addr_in_range(phys_addr as int) && !old(self).used(
                old(self).addr_index(phys_addr as int),
            )),
            r ==> Self::mark_used_at(
                *old(self),
                *final(self),
                old(self).addr_index(phys_addr as int),
            ),
            !r ==> *final(self) == *old(self),
    {
        let frame = phys_addr / FRAME_SIZE;
        proof {
            lemma_range_sum_fits(self.base_frame as int, self.total_frames as int);
        }
        if frame < self.base_frame || frame >= self.base_frame + self.total_frames {
            return false;
        }
        let idx = frame - self.base_frame;
        if self.is_used(phys_addr) {
            return false;
        }
        self.set_frame(idx);
        true
    }

    /// Mark the frame containing `phys_addr` free. A no-op returning
    /// `false` when the address is out of range or the frame is
    /// already free; otherwise clears its bit, increments the free
    /// count, and returns `true`.
    pub fn mark_free(&mut self, phys_addr: usize) -> (r: bool)
        requires
            old(self).wf(),
        ensures
            final(self).wf(),
            r == (old(self).addr_in_range(phys_addr as int) && old(self).used(
                old(self).addr_index(phys_addr as int),
            )),
            r ==> Self::mark_free_at(
                *old(self),
                *final(self),
                old(self).addr_index(phys_addr as int),
            ),
            !r ==> *final(self) == *old(self),
    {
        let frame = phys_addr / FRAME_SIZE;
        proof {
            lemma_range_sum_fits(self.base_frame as int, self.total_frames as int);
        }
        if frame < self.base_frame || frame >= self.base_frame + self.total_frames {
            return false;
        }
        let idx = frame - self.base_frame;
        if !self.is_used(phys_addr) {
            return false;
        }
        self.clear_frame(idx);
        true
    }

    /// Alias for `mark_free`.
    pub fn free_frame(&mut self, addr: usize) -> (r: bool)
        requires
            old(self).wf(),
        ensures
            final(self).wf(),
            r == (old(self).addr_in_range(addr as int) && old(self).used(
                old(self).addr_index(addr as int),
            )),
            r ==> Self::mark_free_at(*old(self), *final(self), old(self).addr_index(addr as int)),
            !r ==> *final(self) == *old(self),
    {
        self.mark_free(addr)
    }

    /// All frames in `[s, s + n)` are free.
    pub open spec fn run_clear(self, s: int, n: int) -> bool {
        forall|j: int| s <= j < s + n ==> !self.used(j)
    }

    /// `post` is `pre` with its lowest clear frame `i` allocated, and
    /// `f` is that frame's address.
    pub open spec fn alloc_frame_at(pre: Self, post: Self, f: PhysFrame, i: int) -> bool {
        &&& Self::mark_used_at(pre, post, i)
        &&& forall|j: int| 0 <= j < i ==> pre.used(j)
        &&& f.0 == pre.frame_addr(i)
    }

    /// `post` is `pre` with the lowest clear run of `n` frames,
    /// starting at frame `s`, allocated; `f` is the run's first
    /// address.
    pub open spec fn alloc_run_at(pre: Self, post: Self, f: PhysFrame, s: int, n: int) -> bool {
        &&& Self::same_range(pre, post)
        &&& 0 <= s
        &&& s + n <= pre.spec_total()
        &&& pre.run_clear(s, n)
        &&& forall|k: int| s <= k < s + n ==> post.used(k)
        &&& forall|j: int|
            0 <= j < pre.spec_total() && !(s <= j < s + n) ==> post.used(j) == pre.used(j)
        &&& post.spec_free() == pre.spec_free() - n
        &&& f.0 == pre.frame_addr(s)
        &&& forall|t: int| 0 <= t < s ==> !pre.run_clear(t, n)
    }

    /// `post` is `pre` with the used run of `n` frames starting at
    /// frame `s` released.
    pub open spec fn free_run_at(pre: Self, post: Self, s: int, n: int) -> bool {
        &&& Self::same_range(pre, post)
        &&& 0 <= s
        &&& s + n <= pre.spec_total()
        &&& forall|k: int| s <= k < s + n ==> pre.used(k)
        &&& forall|k: int| s <= k < s + n ==> !post.used(k)
        &&& forall|j: int|
            0 <= j < pre.spec_total() && !(s <= j < s + n) ==> post.used(j) == pre.used(j)
        &&& post.spec_free() == pre.spec_free() + n
    }

    /// Release the `count` used frames starting at the frame-aligned
    /// address `addr`: clear their bits and raise the free count by
    /// `count`.
    pub fn free_contiguous(&mut self, addr: usize, count: usize)
        requires
            old(self).wf(),
            count >= 1,
            0 <= old(self).addr_index(addr as int),
            old(self).addr_index(addr as int) + count <= old(self).spec_total(),
            addr == old(self).frame_addr(old(self).addr_index(addr as int)),
            forall|k: int|
                old(self).addr_index(addr as int) <= k < old(self).addr_index(addr as int)
                    + count ==> old(self).used(k),
        ensures
            final(self).wf(),
            Self::free_run_at(
                *old(self),
                *final(self),
                old(self).addr_index(addr as int),
                count as int,
            ),
    {
        let frame = addr / FRAME_SIZE;
        let s = frame - self.base_frame;
        let ghost s0 = old(self).addr_index(addr as int);
        assert(s == s0);
        let mut k: usize = 0;
        while k < count
            invariant
                self.wf(),
                Self::same_range(*old(self), *self),
                k <= count,
                s == s0,
                0 <= s0,
                s0 + count <= self.spec_total(),
                forall|t: int| s0 <= t < s0 + k ==> !self.used(t),
                forall|t: int| s0 + k <= t < s0 + count ==> self.used(t),
                forall|j: int|
                    0 <= j < self.spec_total() && !(s0 <= j < s0 + k) ==> self.used(j) == old(
                        self,
                    ).used(j),
                self.spec_free() == old(self).spec_free() + k,
            decreases count - k,
        {
            self.clear_frame(s + k);
            k = k + 1;
        }
    }

    /// Allocate the lowest-numbered free frame: set its bit, decrement
    /// the free count and return its address. Returns `None` exactly
    /// when every managed frame is used.
    pub fn alloc_frame(&mut self) -> (r: Option<PhysFrame>)
        requires
            old(self).wf(),
        ensures
            final(self).wf(),
            Self::same_range(*old(self), *final(self)),
            r is Some <==> old(self).spec_free() > 0,
            match r {
                Some(f) => Self::alloc_frame_at(
                    *old(self),
                    *final(self),
                    f,
                    old(self).addr_index(f.0 as int),
                ),
                None => {
                    &&& *final(self) == *old(self)
                    &&& old(self).spec_free() == 0
                    &&& forall|j: int| 0 <= j < old(self).spec_total() ==> old(self).used(j)
                },
            },
    {
        let mut k: usize = 0;
        while k < self.total_frames
            invariant
                self.wf(),
                *self == *old(self),
                k <= self.spec_total(),
                forall|j: int| 0 <= j < k ==> self.used(j),
            decreases self.spec_total() - k,
        {
            if !self.used_idx(k) {
                proof {
                    lemma_range_sum_fits(self.base_frame as int, self.total_frames as int);
                }
                let addr = (self.base_frame + k) * FRAME_SIZE;
                self.set_frame(k);
                proof {
                    lemma_frame_addr_index(old(self).spec_base(), k as int);
                }
                return Some(PhysFrame(addr));
            }
            k = k + 1;
        }
        proof {
            assert forall|j: int| 0 <= j < self.total_frames implies bm_used(self.bitmap@, j) by {
                assert(self.used(j));
            };
            lemma_all_used_count(self.bitmap@, 0, self.total_frames as int);
        }
        None
    }

    /// Allocate the lowest-addressed contiguous run of `count` free
    /// frames: set their bits, lower the free count by `count` and
    /// return the run's first address. Returns `None` exactly when no
    /// such run exists, leaving the allocator unchanged.
    pub fn alloc_contiguous(&mut self, count: usize) -> (r: Option<PhysFrame>)
        requires
            old(self).wf(),
            count >= 1,
        ensures
            final(self).wf(),
            Self::same_range(*old(self), *final(self)),
            match r {
                Some(f) => Self::alloc_run_at(
                    *old(self),
                    *final(self),
                    f,
                    old(self).addr_index(f.0 as int),
                    count as int,
                ),
                None => {
                    &&& *final(self) == *old(self)
                    &&& forall|s: int|
                        0 <= s && s + count <= old(self).spec_total() ==> !old(self).run_clear(
                            s,
                            count as int,
                        )
                },
            },
    {
        if count > self.total_frames {
            return None;
        }
        proof {
            lemma_range_sum_fits(self.base_frame as int, self.total_frames as int);
        }
        let mut start: usize = 0;
        while start + count <= self.total_frames
            invariant
                self.wf(),
                *self == *old(self),
                count >= 1,
                count <= self.spec_total(),
                start <= self.spec_total(),
                forall|t: int| 0 <= t < start ==> !self.run_clear(t, count as int),
            decreases self.spec_total() - start,
        {
            match self.first_used_in(start, start + count) {
                None => {
                    let addr = (self.base_frame + start) * FRAME_SIZE;
                    self.set_run(start, count);
                    proof {
                        lemma_frame_addr_index(old(self).spec_base(), start as int);
                    }
                    return Some(PhysFrame(addr));
                },
                Some(u) => {
                    proof {
                        assert forall|t: int| 0 <= t < u + 1 implies !self.run_clear(
                            t,
                            count as int,
                        ) by {
                            if t >= start {
                                assert(t <= u < t + count && self.used(u as int));
                            }
                        };
                    }
                    start = u + 1;
                },
            }
        }
        None
    }

    /// Lowest used frame index in `[lo, hi)`, if any.
    fn first_used_in(&self, lo: usize, hi: usize) -> (r: Option<usize>)
        requires
            self.wf(),
            lo <= hi <= self.spec_total(),
        ensures
            match r {
                Some(u) => {
                    &&& lo <= u < hi
                    &&& self.used(u as int)
                    &&& forall|j: int| lo <= j < u ==> !self.used(j)
                },
                None => forall|j: int| lo <= j < hi ==> !self.used(j),
            },
    {
        let mut k: usize = lo;
        while k < hi
            invariant
                self.wf(),
                lo <= k <= hi <= self.spec_total(),
                forall|j: int| lo <= j < k ==> !self.used(j),
            decreases hi - k,
        {
            if self.used_idx(k) {
                return Some(k);
            }
            k = k + 1;
        }
        None
    }

    /// Read the bit of managed frame `idx`.
    fn used_idx(&self, idx: usize) -> (r: bool)
        requires
            self.wf(),
            idx < self.spec_total(),
        ensures
            r == self.used(idx as int),
    {
        proof {
            lemma_frame_byte_in_bounds(self.bitmap@.len() as int, self.total_frames as int, idx as int);
        }
        let byte = idx / 8;
        let bit = (idx % 8) as u8;
        (self.bitmap[byte] >> bit) & 1u8 == 1u8
    }

    /// Set the bits of the clear run `[s, s + n)` and lower the free
    /// count by `n`.
    fn set_run(&mut self, s: usize, n: usize)
        requires
            old(self).wf(),
            s + n <= old(self).spec_total(),
            old(self).run_clear(s as int, n as int),
        ensures
            final(self).wf(),
            Self::same_range(*old(self), *final(self)),
            forall|k: int| s <= k < s + n ==> final(self).used(k),
            forall|j: int|
                0 <= j < old(self).spec_total() && !(s <= j < s + n) ==> final(self).used(j)
                    == old(self).used(j),
            final(self).spec_free() == old(self).spec_free() - n,
    {
        let mut k: usize = 0;
        while k < n
            invariant
                self.wf(),
                Self::same_range(*old(self), *self),
                k <= n,
                s + n <= self.spec_total(),
                forall|t: int| s <= t < s + k ==> self.used(t),
                forall|t: int| s + k <= t < s + n ==> !self.used(t),
                forall|j: int|
                    0 <= j < self.spec_total() && !(s <= j < s + k) ==> self.used(j) == old(
                        self,
                    ).used(j),
                self.spec_free() == old(self).spec_free() - k,
            decreases n - k,
        {
            self.set_frame(s + k);
            k = k + 1;
        }
    }

    /// Set the bit of managed frame `idx`, known free, and decrement
    /// the free count.
    fn set_frame(&mut self, idx: usize)
        requires
            old(self).wf(),
            idx < old(self).spec_total(),
            !old(self).used(idx as int),
        ensures
            final(self).wf(),
            Self::mark_used_at(*old(self), *final(self), idx as int),
    {
        proof {
            lemma_frame_byte_in_bounds(self.bitmap@.len() as int, self.total_frames as int, idx as int);
        }
        let byte = idx / 8;
        let bit = (idx % 8) as u8;
        let old_b = self.bitmap[byte];
        let new_b = old_b | (1u8 << bit);
        self.bitmap.set(byte, new_b);
        proof {
            let pre = old(self).bitmap@;
            let post = self.bitmap@;
            let i = idx as int;
            lemma_bit_or(old_b, bit, bit);
            assert forall|j: int| 0 <= j < old(self).spec_total() && j != i implies bm_used(
                post,
                j,
            ) == bm_used(pre, j) by {
                if j / 8 == i / 8 {
                    if j % 8 == i % 8 {
                        lemma_div_mod_unique(j, i);
                    }
                    lemma_bit_or(old_b, bit, (j % 8) as u8);
                } else {
                    assert(post[j / 8] == pre[j / 8]);
                }
            };
            // the free count stays in step with the flipped bit
            lemma_count_flip_up(pre, post, 0, old(self).spec_total(), i);
            lemma_count_clear_bound(pre, 0, old(self).spec_total(), i);
        }
        self.free_frames = self.free_frames - 1;
    }

    /// Clear the bit of managed frame `idx`, known used, and increment
    /// the free count.
    fn clear_frame(&mut self, idx: usize)
        requires
            old(self).wf(),
            idx < old(self).spec_total(),
            old(self).used(idx as int),
        ensures
            final(self).wf(),
            Self::mark_free_at(*old(self), *final(self), idx as int),
    {
        proof {
            lemma_frame_byte_in_bounds(self.bitmap@.len() as int, self.total_frames as int, idx as int);
        }
        let byte = idx / 8;
        let bit = (idx % 8) as u8;
        let old_b = self.bitmap[byte];
        let new_b = old_b & !(1u8 << bit);
        self.bitmap.set(byte, new_b);
        proof {
            let pre = old(self).bitmap@;
            let post = self.bitmap@;
            let i = idx as int;
            lemma_bit_clear(old_b, bit, bit);
            assert forall|j: int| 0 <= j < old(self).spec_total() && j != i implies bm_used(
                post,
                j,
            ) == bm_used(pre, j) by {
                if j / 8 == i / 8 {
                    if j % 8 == i % 8 {
                        lemma_div_mod_unique(j, i);
                    }
                    lemma_bit_clear(old_b, bit, (j % 8) as u8);
                } else {
                    assert(post[j / 8] == pre[j / 8]);
                }
            };
            lemma_count_flip_down(pre, post, 0, old(self).spec_total(), i);
        }
        self.free_frames = self.free_frames + 1;
    }
}

/// The cached free count plus the number of set bits always equals
/// the number of managed frames.
pub proof fn lemma_free_plus_bits_set(pm: PhysicalMemoryManager)
    requires
        pm.wf(),
    ensures
        pm.spec_free() + pm.bits_set() == pm.spec_total(),
{
}

/// Basic bounds of a well-formed allocator: the managed range is
/// non-negative, the free count never exceeds the frame count, and
/// the top of the managed range fits in the address space.
pub proof fn lemma_range_bounds(pm: PhysicalMemoryManager)
    requires
        pm.wf(),
    ensures
        0 <= pm.spec_base(),
        0 <= pm.spec_total(),
        0 <= pm.spec_free() <= pm.spec_total(),
        (pm.spec_base() + pm.spec_total()) * (FRAME_SIZE as int) <= usize::MAX as int,
{
}

/// Two consecutive successful allocations return strictly increasing
/// (hence pairwise distinct) in-range frame addresses.
pub proof fn lemma_alloc_monotonic(
    s0: PhysicalMemoryManager,
    s1: PhysicalMemoryManager,
    s2: PhysicalMemoryManager,
    f1: PhysFrame,
    f2: PhysFrame,
    i1: int,
    i2: int,
)
    requires
        PhysicalMemoryManager::alloc_frame_at(s0, s1, f1, i1),
        PhysicalMemoryManager::alloc_frame_at(s1, s2, f2, i2),
    ensures
        i1 < i2,
        f1.0 < f2.0,
        s0.frame_addr(0) <= f1.0 < s0.frame_addr(s0.spec_total()),
        s0.frame_addr(0) <= f2.0 < s0.frame_addr(s0.spec_total()),
{
    assert(s1.used(i1));
    if i2 < i1 {
        assert(s0.used(i2));
        assert(s1.used(i2));
    }
}

/// Allocating a frame, freeing it, and allocating again with nothing
/// else changed in between returns the same frame: the round trip of
/// the lowest-address-first policy.
pub proof fn lemma_alloc_free_alloc(
    s0: PhysicalMemoryManager,
    s1: PhysicalMemoryManager,
    s2: PhysicalMemoryManager,
    s3: PhysicalMemoryManager,
    f1: PhysFrame,
    f2: PhysFrame,
    i1: int,
    i2: int,
)
    requires
        PhysicalMemoryManager::alloc_frame_at(s0, s1, f1, i1),
        PhysicalMemoryManager::mark_free_at(s1, s2, i1),
        PhysicalMemoryManager::alloc_frame_at(s2, s3, f2, i2),
    ensures
        i2 == i1,
        f2 == f1,
{
    assert forall|j: int| 0 <= j < i1 implies s2.used(j) by {
        assert(s0.used(j));
        assert(s1.used(j));
    };
    assert(!s2.used(i1));
    if i2 > i1 {
        assert(s2.used(i1));
    }
}

/// A clear run of `n` frames means at least `n` frames are free.
pub proof fn lemma_run_clear_free(pm: PhysicalMemoryManager, s: int, n: int)
    requires
        pm.wf(),
        0 <= s,
        0 <= n,
        s + n <= pm.spec_total(),
        pm.run_clear(s, n),
    ensures
        pm.spec_free() >= n,
{
    let bm = pm.bitmap@;
    let total = pm.spec_total();
    lemma_count_split(bm, 0, s, total);
    lemma_count_split(bm, s, s + n, total);
    assert forall|j: int| s <= j < s + n implies !bm_used(bm, j) by {
        assert(!pm.used(j));
    };
    lemma_all_clear_count_zero(bm, s, s + n);
    lemma_count_bound(bm, 0, s);
    lemma_count_bound(bm, s + n, total);
}

/// Releasing a run straight after allocating it restores the
/// allocator exactly: the same free count and the same bit for every
/// managed frame.
pub proof fn lemma_alloc_then_free_run(
    pm0: PhysicalMemoryManager,
    pm1: PhysicalMemoryManager,
    pm2: PhysicalMemoryManager,
    f: PhysFrame,
    s: int,
    n: int,
)
    requires
        PhysicalMemoryManager::alloc_run_at(pm0, pm1, f, s, n),
        PhysicalMemoryManager::free_run_at(pm1, pm2, s, n),
    ensures
        PhysicalMemoryManager::same_range(pm0, pm2),
        pm2.spec_free() == pm0.spec_free(),
        forall|j: int| 0 <= j < pm0.spec_total() ==> pm2.used(j) == pm0.used(j),
{
}

/// Counting over an all-used range gives the range's width.
proof fn lemma_all_used_count(bm: Seq<u8>, lo: int, hi: int)
    requires
        lo <= hi,
        forall|j: int| lo <= j < hi ==> bm_used(bm, j),
    ensures
        used_in(bm, lo, hi) == hi - lo,
    decreases hi - lo,
{
    if hi > lo {
        lemma_all_used_count(bm, lo, hi - 1);
    }
}

/// The used count is additive over adjacent ranges.
proof fn lemma_count_split(bm: Seq<u8>, lo: int, mid: int, hi: int)
    requires
        lo <= mid <= hi,
    ensures
        used_in(bm, lo, hi) == used_in(bm, lo, mid) + used_in(bm, mid, hi),
    decreases hi - mid,
{
    if hi > mid {
        lemma_count_split(bm, lo, mid, hi - 1);
    }
}

/// A frame's address, divided back by the frame size, gives the frame.
proof fn lemma_frame_addr_index(base: int, i: int)
    requires
        base >= 0,
        i >= 0,
    ensures
        ((base + i) * (FRAME_SIZE as int)) / (FRAME_SIZE as int) == base + i,
{
    vstd::arithmetic::div_mod::lemma_div_by_multiple(base + i, FRAME_SIZE as int);
}

/// A zero byte has no bit set.
proof fn lemma_zero_byte_clear(k: u8)
    by (bit_vector)
    ensures
        !nth_bit(0u8, k),
{
}

/// Setting bit `k` sets it and leaves every other bit alone.
proof fn lemma_bit_or(b: u8, k: u8, j: u8)
    by (bit_vector)
    requires
        k < 8,
        j < 8,
    ensures
        nth_bit(b | (1u8 << k), k),
        j != k ==> nth_bit(b | (1u8 << k), j) == nth_bit(b, j),
{
}

/// Clearing bit `k` clears it and leaves every other bit alone.
proof fn lemma_bit_clear(b: u8, k: u8, j: u8)
    by (bit_vector)
    requires
        k < 8,
        j < 8,
    ensures
        !nth_bit(b & !(1u8 << k), k),
        j != k ==> nth_bit(b & !(1u8 << k), j) == nth_bit(b, j),
{
}

/// Two frame indices with equal byte and bit position are equal.
proof fn lemma_div_mod_unique(j: int, i: int)
    requires
        j >= 0,
        i >= 0,
        j / 8 == i / 8,
        j % 8 == i % 8,
    ensures
        j == i,
{
    assert(j == 8 * (j / 8) + j % 8);
    assert(i == 8 * (i / 8) + i % 8);
}

/// A frame index below `total` reads a byte inside the bitmap.
proof fn lemma_frame_byte_in_bounds(len: int, total: int, idx: int)
    requires
        total <= len * 8,
        0 <= idx < total,
    ensures
        0 <= idx / 8 < len,
        idx % 8 < 8,
{
    assert(idx == 8 * (idx / 8) + idx % 8);
}

/// A managed range whose top address fits in `usize` has
/// `base + total` itself fit in `usize`.
proof fn lemma_range_sum_fits(base: int, total: int)
    requires
        base >= 0,
        total >= 0,
        (base + total) * (FRAME_SIZE as int) <= usize::MAX as int,
    ensures
        base + total <= usize::MAX as int,
{
    assert((base + total) * (FRAME_SIZE as int) == (base + total) * 4096);
}

/// Counting over an all-clear range gives zero.
proof fn lemma_all_clear_count_zero(bm: Seq<u8>, lo: int, hi: int)
    requires
        forall|j: int| lo <= j < hi ==> !bm_used(bm, j),
    ensures
        used_in(bm, lo, hi) == 0,
    decreases hi - lo,
{
    if hi > lo {
        lemma_all_clear_count_zero(bm, lo, hi - 1);
    }
}

/// The used count over `[lo, hi)` never exceeds the range's width.
proof fn lemma_count_bound(bm: Seq<u8>, lo: int, hi: int)
    requires
        lo <= hi,
    ensures
        used_in(bm, lo, hi) <= hi - lo,
    decreases hi - lo,
{
    if hi > lo {
        lemma_count_bound(bm, lo, hi - 1);
    }
}

/// A range containing a clear bit has a used count below its width.
proof fn lemma_count_clear_bound(bm: Seq<u8>, lo: int, hi: int, i: int)
    requires
        lo <= i < hi,
        !bm_used(bm, i),
    ensures
        used_in(bm, lo, hi) < hi - lo,
    decreases hi - lo,
{
    if i == hi - 1 {
        lemma_count_bound(bm, lo, hi - 1);
    } else {
        lemma_count_clear_bound(bm, lo, hi - 1, i);
    }
}

/// Flipping frame `i` from clear to set raises the count by one.
proof fn lemma_count_flip_up(pre: Seq<u8>, post: Seq<u8>, lo: int, hi: int, i: int)
    requires
        lo <= i < hi,
        !bm_used(pre, i),
        bm_used(post, i),
        forall|j: int| lo <= j < hi && j != i ==> bm_used(post, j) == bm_used(pre, j),
    ensures
        used_in(post, lo, hi) == used_in(pre, lo, hi) + 1,
    decreases hi - lo,
{
    if i == hi - 1 {
        lemma_count_agree(pre, post, lo, hi - 1);
    } else {
        lemma_count_flip_up(pre, post, lo, hi - 1, i);
    }
}

/// Flipping frame `i` from set to clear lowers the count by one.
proof fn lemma_count_flip_down(pre: Seq<u8>, post: Seq<u8>, lo: int, hi: int, i: int)
    requires
        lo <= i < hi,
        bm_used(pre, i),
        !bm_used(post, i),
        forall|j: int| lo <= j < hi && j != i ==> bm_used(post, j) == bm_used(pre, j),
    ensures
        used_in(post, lo, hi) + 1 == used_in(pre, lo, hi),
    decreases hi - lo,
{
    if i == hi - 1 {
        lemma_count_agree(pre, post, lo, hi - 1);
    } else {
        lemma_count_flip_down(pre, post, lo, hi - 1, i);
    }
}

/// Bitmaps that agree bit for bit over a range have equal counts there.
proof fn lemma_count_agree(a: Seq<u8>, b: Seq<u8>, lo: int, hi: int)
    requires
        forall|j: int| lo <= j < hi ==> bm_used(a, j) == bm_used(b, j),
    ensures
        used_in(a, lo, hi) == used_in(b, lo, hi),
    decreases hi - lo,
{
    if hi > lo {
        lemma_count_agree(a, b, lo, hi - 1);
    }
}

} // verus!

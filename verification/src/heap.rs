//! Bump allocator for the kernel heap: hands out aligned blocks from
//! a fixed byte range and never frees.

use vstd::prelude::*;

verus! {

/// Heap state: the fixed range `[heap_start, heap_end)` and the next
/// free byte.
pub struct BumpAllocator {
    heap_start: usize,
    heap_end: usize,
    next: usize,
}

/// `n` rounded up to the next multiple of `align`.
pub open spec fn round_up(n: int, align: int) -> int
    recommends
        align >= 1,
{
    ((n + align - 1) / align) * align
}

impl BumpAllocator {
    /// First byte of the heap.
    pub closed spec fn spec_start(self) -> int {
        self.heap_start as int
    }

    /// First byte past the heap.
    pub closed spec fn spec_end(self) -> int {
        self.heap_end as int
    }

    /// Next free byte; everything below it is handed out.
    pub closed spec fn spec_next(self) -> int {
        self.next as int
    }

    /// The bump pointer stays inside the heap range.
    pub open spec fn wf(self) -> bool {
        self.spec_start() <= self.spec_next() <= self.spec_end()
    }

    /// Carve `size` bytes aligned to `align` off the bump pointer and
    /// return the block's address. Returns `None`, changing nothing,
    /// exactly when the aligned block would not end inside the heap.
    pub fn allocate(&mut self, size: usize, align: usize) -> (r: Option<usize>)
        requires
            old(self).wf(),
            align >= 1,
        ensures
            final(self).wf(),
            final(self).spec_start() == old(self).spec_start(),
            final(self).spec_end() == old(self).spec_end(),
            match r {
                Some(p) => {
                    &&& p == round_up(old(self).spec_next(), align as int)
                    &&& (p as int) % (align as int) == 0
                    &&& old(self).spec_next() <= p
                    &&& p + size <= old(self).spec_end()
                    &&& final(self).spec_next() == p + size
                },
                None => {
                    &&& *final(self) == *old(self)
                    &&& round_up(old(self).spec_next(), align as int) + size > old(self).spec_end()
                },
            },
    {
        proof {
            lemma_round_up_props(self.next as int, align as int);
        }
        let rem = self.next % align;
        let pad = if rem == 0 {
            0
        } else {
            align - rem
        };
        if pad > usize::MAX - self.next {
            return None;
        }
        let alloc_start = self.next + pad;
        if alloc_start > self.heap_end || size > self.heap_end - alloc_start {
            return None;
        }
        self.next = alloc_start + size;
        Some(alloc_start)
    }

    /// The bump allocator cannot free: deallocation is a no-op.
    pub fn deallocate(&mut self, _ptr: usize, _size: usize, _align: usize)
        ensures
            *final(self) == *old(self),
    {
    }
}

/// Give the allocator its heap range, with every byte free.
pub fn init_heap(start: usize, size: usize) -> (r: BumpAllocator)
    requires
        start + size <= usize::MAX,
    ensures
        r.wf(),
        r.spec_start() == start,
        r.spec_end() == start + size,
        r.spec_next() == start,
{
    BumpAllocator { heap_start: start, heap_end: start + size, next: start }
}

/// Rounding up lands on the next multiple of `align` at or above `n`:
/// it equals `n` plus the pad to the next alignment boundary.
proof fn lemma_round_up_props(n: int, align: int)
    requires
        n >= 0,
        align >= 1,
    ensures
        round_up(n, align) == n + (if n % align == 0 {
            0int
        } else {
            align - n % align
        }),
        round_up(n, align) % align == 0,
        n <= round_up(n, align),
{
    let q = n / align;
    let r = n % align;
    vstd::arithmetic::div_mod::lemma_fundamental_div_mod(n, align);
    assert(round_up(n, align) == ((n + align - 1) / align) * align);
    if r == 0 {
        assert(n + align - 1 == align * q + (align - 1));
        vstd::arithmetic::div_mod::lemma_div_multiples_vanish_fancy(q, align - 1, align);
        assert((n + align - 1) / align == q);
        vstd::arithmetic::div_mod::lemma_mod_multiples_basic(q, align);
        assert(q * align == n) by (nonlinear_arith)
            requires n == align * q;
        assert(round_up(n, align) == n);
    } else {
        vstd::arithmetic::mul::lemma_mul_is_distributive_add(align, q, 1);
        assert(n + align - 1 == align * (q + 1) + (r - 1));
        vstd::arithmetic::div_mod::lemma_div_multiples_vanish_fancy(q + 1, r - 1, align);
        assert((n + align - 1) / align == q + 1);
        vstd::arithmetic::div_mod::lemma_mod_multiples_basic(q + 1, align);
        assert((q + 1) * align == n + (align - r)) by (nonlinear_arith)
            requires n == align * q + r;
        assert(round_up(n, align) == n + (align - r));
    }
}

} // verus!

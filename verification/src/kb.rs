//! Keyboard-side state: the scancode ring buffer that the interrupt
//! handler fills and blocking readers drain, plus the small xorshift
//! generator the shell's utility commands draw from. Reading the
//! hardware port and decoding scancodes into keys happen outside this
//! crate; only raw bytes pass through here.

use vstd::prelude::*;

verus! {

/// One xorshift step over the generator state.
pub open spec fn xorshift_step(x: u64) -> u64 {
    let a = x ^ (x << 13u64);
    let b = a ^ (a >> 7u64);
    b ^ (b << 17u64)
}

/// A xorshift pseudo-random generator; its whole state is one word.
pub struct XorShift64 {
    state: u64,
}

impl XorShift64 {
    /// The generator state.
    pub closed spec fn spec_state(self) -> u64 {
        self.state
    }

    /// A generator starting from `seed`.
    pub fn new(seed: u64) -> (r: Self)
        ensures
            r.spec_state() == seed,
    {
        Self { state: seed }
    }

    /// Advance the state by one xorshift step and return it.
    pub fn next_u64(&mut self) -> (r: u64)
        ensures
            r == xorshift_step(old(self).spec_state()),
            final(self).spec_state() == r,
    {
        let mut x = self.state;
        x = x ^ (x << 13u64);
        x = x ^ (x >> 7u64);
        x = x ^ (x << 17u64);
        self.state = x;
        x
    }

    /// The low byte of the next value.
    pub fn next_u8(&mut self) -> (r: u8)
        ensures
            r == (xorshift_step(old(self).spec_state()) & 0xffu64) as u8,
            final(self).spec_state() == xorshift_step(old(self).spec_state()),
    {
        let v = self.next_u64();
        proof {
            assert(v & 0xffu64 < 256) by (bit_vector);
        }
        (v & 0xffu64) as u8
    }

    /// A draw in `[low, high]`, both ends included.
    pub fn next_range_u8(&mut self, low: u8, high: u8) -> (r: u8)
        requires
            low <= high,
            high - low < 255,
        ensures
            low <= r <= high,
            r == low + ((xorshift_step(old(self).spec_state()) & 0xffu64) as u8 % (high - low
                + 1) as u8),
            final(self).spec_state() == xorshift_step(old(self).spec_state()),
    {
        let v = self.next_u8();
        low + (v % (high - low + 1))
    }
}

/// Capacity of the scancode ring buffer; one slot stays unused to
/// tell a full buffer from an empty one.
pub const BUF_SIZE: usize = 1024;

/// Ring buffer of raw scancodes: pushed at `head` by the interrupt
/// handler, popped at `tail` by readers.
pub struct ScancodeQueue {
    buf: Vec<u8>,
    head: usize,
    tail: usize,
}

impl ScancodeQueue {
    /// The buffered scancodes, oldest first.
    pub closed spec fn pending(self) -> Seq<u8> {
        Seq::new(
            ((((self.head + BUF_SIZE) - self.tail) as int) % (BUF_SIZE as int)) as nat,
            |i: int| self.buf@[(self.tail + i) % (BUF_SIZE as int)],
        )
    }

    /// The queue invariant: full storage, cursors in range.
    pub closed spec fn wf(self) -> bool {
        &&& self.buf@.len() == BUF_SIZE
        &&& self.head < BUF_SIZE
        &&& self.tail < BUF_SIZE
    }

    /// An empty queue.
    pub fn new() -> (r: Self)
        ensures
            r.wf(),
            r.pending() == Seq::<u8>::empty(),
    {
        let mut buf: Vec<u8> = Vec::new();
        while buf.len() < BUF_SIZE
            invariant
                buf@.len() <= BUF_SIZE,
            decreases BUF_SIZE - buf@.len(),
        {
            buf.push(0u8);
        }
        let r = Self { buf, head: 0, tail: 0 };
        proof {
            assert(r.pending() =~= Seq::<u8>::empty());
        }
        r
    }

    /// How many scancodes are buffered.
    pub open spec fn len(self) -> nat {
        self.pending().len()
    }

    /// Append one scancode at the head; a full queue drops it.
    pub fn push(&mut self, sc: u8)
        requires
            old(self).wf(),
        ensures
            final(self).wf(),
            old(self).len() == BUF_SIZE - 1 ==> final(self).pending() == old(self).pending(),
            old(self).len() < BUF_SIZE - 1 ==> final(self).pending() == old(self).pending().push(
                sc,
            ),
    {
        proof {
            lemma_ring_len(self.head as int, self.tail as int);
        }
        let next = (self.head + 1) % BUF_SIZE;
        if next != self.tail {
            self.buf.set(self.head, sc);
            self.head = next;
            proof {
                lemma_ring_len(self.head as int, self.tail as int);
                lemma_push_pending(*old(self), *self, sc);
            }
        } else {
            proof {
                // `next == tail` is exactly the full queue
                lemma_wrap(old(self).head as int + 1);
            }
        }
    }

    /// Remove and return the oldest scancode, if any.
    pub fn pop(&mut self) -> (r: Option<u8>)
        requires
            old(self).wf(),
        ensures
            final(self).wf(),
            match r {
                Some(sc) => {
                    &&& old(self).len() > 0
                    &&& sc == old(self).pending()[0]
                    &&& final(self).pending() == old(self).pending().drop_first()
                },
                None => {
                    &&& old(self).len() == 0
                    &&& *final(self) == *old(self)
                },
            },
    {
        proof {
            lemma_ring_len(self.head as int, self.tail as int);
        }
        if self.tail == self.head {
            return None;
        }
        let sc = self.buf[self.tail];
        self.tail = (self.tail + 1) % BUF_SIZE;
        proof {
            lemma_ring_len(self.head as int, self.tail as int);
            lemma_pop_pending(*old(self), *self);
            assert(sc == old(self).pending()[0]) by {
                lemma_wrap(old(self).tail as int);
            };
        }
        Some(sc)
    }
}

/// Keyboard front half: the queue the interrupt handler pushes into.
pub struct Kb {
    queue: ScancodeQueue,
}

impl Kb {
    /// The buffered scancodes, oldest first.
    pub closed spec fn pending(self) -> Seq<u8> {
        self.queue.pending()
    }

    pub closed spec fn wf(self) -> bool {
        self.queue.wf()
    }

    /// Keyboard state with an empty queue; interrupt and port wiring
    /// happen elsewhere.
    pub fn init() -> (r: Self)
        ensures
            r.wf(),
            r.pending() == Seq::<u8>::empty(),
    {
        Self { queue: ScancodeQueue::new() }
    }

    /// Called by the keyboard interrupt handler with the byte it read:
    /// queue it (dropping it when the queue is full) and return.
    pub fn push_scancode(&mut self, sc: u8)
        requires
            old(self).wf(),
        ensures
            final(self).wf(),
            old(self).pending().len() == BUF_SIZE - 1 ==> final(self).pending() == old(
                self,
            ).pending(),
            old(self).pending().len() < BUF_SIZE - 1 ==> final(self).pending() == old(
                self,
            ).pending().push(sc),
    {
        self.queue.push(sc);
    }

    /// One poll of a blocking read: the oldest scancode, if any. A
    /// reader that gets `None` waits for the next interrupt and polls
    /// again.
    pub fn pop_scancode(&mut self) -> (r: Option<u8>)
        requires
            old(self).wf(),
        ensures
            final(self).wf(),
            match r {
                Some(sc) => {
                    &&& old(self).pending().len() > 0
                    &&& sc == old(self).pending()[0]
                    &&& final(self).pending() == old(self).pending().drop_first()
                },
                None => {
                    &&& old(self).pending().len() == 0
                    &&& *final(self) == *old(self)
                },
            },
    {
        self.queue.pop()
    }
}

/// `x % BUF_SIZE` for `x` below twice the capacity: plain value or
/// one wrap.
proof fn lemma_wrap(x: int)
    requires
        0 <= x < 2 * (BUF_SIZE as int),
    ensures
        x % (BUF_SIZE as int) == if x < BUF_SIZE {
            x
        } else {
            x - BUF_SIZE
        },
{
    let n = BUF_SIZE as int;
    if x < n {
        vstd::arithmetic::div_mod::lemma_small_mod(x as nat, BUF_SIZE as nat);
    } else {
        vstd::arithmetic::div_mod::lemma_mod_sub_multiples_vanish(x, n);
        vstd::arithmetic::div_mod::lemma_small_mod((x - n) as nat, BUF_SIZE as nat);
    }
}

/// The buffered count, written without the modulus.
proof fn lemma_ring_len(head: int, tail: int)
    requires
        0 <= head < BUF_SIZE,
        0 <= tail < BUF_SIZE,
    ensures
        ((head + BUF_SIZE) - tail) % (BUF_SIZE as int) == if tail <= head {
            head - tail
        } else {
            (head + BUF_SIZE) - tail
        },
        ((head + BUF_SIZE) - tail) % (BUF_SIZE as int) < BUF_SIZE,
{
    lemma_wrap((head + BUF_SIZE) - tail);
}

/// After a non-full push, the pending sequence grew by the new byte.
proof fn lemma_push_pending(pre: ScancodeQueue, post: ScancodeQueue, sc: u8)
    requires
        pre.wf(),
        post.wf(),
        post.buf@ == pre.buf@.update(pre.head as int, sc),
        post.head as int == (pre.head + 1) % (BUF_SIZE as int),
        post.tail == pre.tail,
        (pre.head + 1) % (BUF_SIZE as int) != pre.tail,
    ensures
        post.pending() == pre.pending().push(sc),
{
    let n = BUF_SIZE as int;
    let head = pre.head as int;
    let tail = pre.tail as int;
    lemma_wrap(head + 1);
    lemma_ring_len(head, tail);
    lemma_ring_len(post.head as int, tail);
    let plen = pre.pending().len() as int;
    assert(post.pending().len() == plen + 1);
    assert forall|i: int| 0 <= i < plen + 1 implies post.pending()[i] == pre.pending().push(sc)[i]
        by {
        lemma_wrap(tail + i);
        if i < plen {
            assert((tail + i) % n != head);
        } else {
            assert((tail + i) % n == head);
        }
    };
    assert(post.pending() =~= pre.pending().push(sc));
}

/// After a pop, the pending sequence lost its first byte.
proof fn lemma_pop_pending(pre: ScancodeQueue, post: ScancodeQueue)
    requires
        pre.wf(),
        post.wf(),
        post.buf@ == pre.buf@,
        post.head == pre.head,
        post.tail as int == (pre.tail + 1) % (BUF_SIZE as int),
        pre.tail != pre.head,
    ensures
        post.pending() == pre.pending().drop_first(),
{
    let n = BUF_SIZE as int;
    let head = pre.head as int;
    let tail = pre.tail as int;
    lemma_wrap(tail + 1);
    lemma_ring_len(head, tail);
    lemma_ring_len(head, post.tail as int);
    let plen = pre.pending().len() as int;
    assert(post.pending().len() == plen - 1);
    assert forall|i: int| 0 <= i < plen - 1 implies post.pending()[i] == pre.pending().drop_first()[i]
        by {
        lemma_wrap(tail + 1 + i);
        if tail + 1 + i < n {
            lemma_wrap(tail + 1 + i);
        } else {
            vstd::arithmetic::div_mod::lemma_mod_sub_multiples_vanish(tail + 1 + i, n);
            lemma_wrap(tail + 1 + i - n);
        }
        assert((post.tail as int + i) % n == (tail + (i + 1)) % n);
    };
    assert(post.pending() =~= pre.pending().drop_first());
}

} // verus!

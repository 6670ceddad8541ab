//! Task control blocks and the stack-priming half of the context
//! primitive.
//!
//! The switch primitive itself is a short architecture-specific
//! register save/restore sequence that lives outside this crate; what
//! is verified here is its calling convention: `prepare_stack` lays
//! out, word for word, exactly the stack image whose words the restore
//! sequence pops, ending with the return address. The two form one
//! unit — changing the set of saved registers in one requires changing
//! the other.

use vstd::prelude::*;

verus! {

/// Number of words the restore sequence pops from a primed stack:
/// five callee-saved registers, the frame pointer, and the return
/// address.
pub const CONTEXT_WORDS: usize = 7;

/// Bytes per stack word.
pub const WORD_BYTES: usize = 8;

/// Smallest stack for which priming stays inside the stack range:
/// the primed words plus the worst-case loss to 16-byte alignment.
pub const MIN_STACK_BYTES: usize = 71;

/// Saved machine context of one thread of control: the stack pointer
/// it resumes from, and the words the restore sequence will pop from
/// that address upward.
#[derive(Clone, Copy, Debug)]
pub struct Context {
    pub sp: usize,
    pub words: [usize; 7],
}

/// Scheduling state of one task slot.
#[derive(Clone, Copy, Debug, PartialEq, Eq, Structural)]
pub enum TaskState {
    /// Eligible to run.
    Ready,
    /// Currently executing; at most one task store-wide.
    Running,
    /// Terminal; the slot is free for reuse.
    Finished,
}

/// One task control block. A live task owns the frame range
/// `[stack_base, stack_base + stack_size)`.
#[derive(Clone, Copy, Debug)]
pub struct Task {
    /// Monotonic, never reused.
    pub id: u64,
    /// Where the task resumes, meaningful only to the switch
    /// primitive.
    pub context: Context,
    /// First byte of the task's stack.
    pub stack_base: usize,
    /// Stack length in bytes, a multiple of the frame size.
    pub stack_size: usize,
    pub state: TaskState,
}

/// The stack top aligned down to 16 bytes.
pub open spec fn aligned_top(top: int) -> int {
    top - top % 16
}

/// Prime a fresh stack so that the first switch into it lands at
/// `entry`: below the 16-byte-aligned stack top sit, highest address
/// first, the return address (`entry`), a zero frame-pointer sentinel,
/// and five zeroed callee-saved registers. The returned context's
/// `sp` points at the lowest primed word; `words` holds the primed
/// words from that address upward, in exactly the order the switch
/// primitive's restore sequence pops them.
pub fn prepare_stack(entry: usize, stack_base: usize, stack_size: usize) -> (ctx: Context)
    requires
        stack_base + stack_size <= usize::MAX,
        stack_size >= MIN_STACK_BYTES,
    ensures
        ctx.sp + CONTEXT_WORDS * WORD_BYTES == aligned_top(stack_base + stack_size),
        stack_base <= ctx.sp,
        ctx.words.len() == CONTEXT_WORDS,
        forall|i: int| 0 <= i < CONTEXT_WORDS - 1 ==> ctx.words[i] == 0,
        ctx.words[CONTEXT_WORDS - 1] == entry,
{
    let top = stack_base + stack_size;
    let aligned = top - top % 16;
    let sp = aligned - 56;
    Context { sp, words: [0, 0, 0, 0, 0, 0, entry] }
}

} // verus!

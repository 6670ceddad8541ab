//! Round-robin cooperative scheduler over a fixed-capacity task store.
//!
//! Control only ever transfers at explicit yield points or at
//! checkpoints that act on the deferred-reschedule flag set by the
//! timer; the decision functions here pick the slot to switch to and
//! keep the bookkeeping, while the machine-level switch is performed
//! by the caller. A task that never yields nor reaches a checkpoint
//! starves its peers: that is the cooperative contract, a caller
//! obligation, not a fault of the scheduler.

use vstd::prelude::*;

use crate::memory::FRAME_SIZE;
use crate::memory::PhysFrame;
use crate::memory::PhysicalMemoryManager;
use crate::memory::lemma_run_clear_free;
use crate::task::Task;
use crate::task::TaskState;
use crate::task::prepare_stack;

verus! {

/// Capacity of the task table.
pub const MAX_TASKS: usize = 64;

/// The task store plus the scheduler's running state: the current
/// slot, the tick counter advanced by the timer, and the sticky
/// deferred-reschedule flag.
pub struct Scheduler {
    tasks: Vec<Task>,
    current: Option<usize>,
    next_id: u64,
    ticks: u64,
    need_resched: bool,
}

/// `t` with its state replaced.
pub open spec fn with_state(t: Task, st: TaskState) -> Task {
    Task { state: st, ..t }
}

/// Index of the first frame of `t`'s stack, relative to the
/// allocator's base.
pub open spec fn task_frame_lo(t: Task, pm: PhysicalMemoryManager) -> int {
    pm.addr_index(t.stack_base as int)
}

/// Number of frames in `t`'s stack.
pub open spec fn task_frame_count(t: Task) -> int {
    t.stack_size as int / (FRAME_SIZE as int)
}

/// A live task's stack covers whole managed frames, all marked used.
pub open spec fn task_owns_frames(t: Task, pm: PhysicalMemoryManager) -> bool {
    let lo = task_frame_lo(t, pm);
    let n = task_frame_count(t);
    &&& n >= 1
    &&& 0 <= lo
    &&& lo + n <= pm.spec_total()
    &&& t.stack_base as int == pm.frame_addr(lo)
    &&& t.stack_size as int == n * (FRAME_SIZE as int)
    &&& forall|k: int| lo <= k < lo + n ==> pm.used(k)
}

/// The stacks of `a` and `b` share no frame.
pub open spec fn stacks_disjoint(a: Task, b: Task, pm: PhysicalMemoryManager) -> bool {
    ||| task_frame_lo(a, pm) + task_frame_count(a) <= task_frame_lo(b, pm)
    ||| task_frame_lo(b, pm) + task_frame_count(b) <= task_frame_lo(a, pm)
}

/// Every live (non-Finished) task owns its stack frames, and live
/// tasks' stacks are pairwise disjoint: each frame bit set for a stack
/// belongs to exactly one live task.
pub open spec fn stacks_wf(s: Scheduler, pm: PhysicalMemoryManager) -> bool {
    &&& forall|i: int|
        0 <= i < s.task_count() && !((#[trigger] s.spec_tasks()[i]).state is Finished)
            ==> task_owns_frames(s.spec_tasks()[i], pm)
    &&& forall|i: int, j: int|
        #![trigger s.spec_tasks()[i], s.spec_tasks()[j]]
        0 <= i < s.task_count() && 0 <= j < s.task_count() && i != j && !(s.spec_tasks()[i].state
            is Finished) && !(s.spec_tasks()[j].state is Finished) ==> stacks_disjoint(
            s.spec_tasks()[i],
            s.spec_tasks()[j],
            pm,
        )
}

/// First Ready slot in `[lo, hi)`.
pub open spec fn first_ready_in(tasks: Seq<Task>, lo: int, hi: int) -> Option<int>
    decreases hi - lo,
{
    if lo >= hi || lo < 0 {
        None
    } else if tasks[lo].state is Ready {
        Some(lo)
    } else {
        first_ready_in(tasks, lo + 1, hi)
    }
}

/// First Ready slot in round-robin scan order starting at `start`:
/// `start, start + 1, …` wrapping around to the slots below `start`.
pub open spec fn next_ready(tasks: Seq<Task>, start: int) -> Option<int> {
    match first_ready_in(tasks, start, tasks.len() as int) {
        Some(i) => Some(i),
        None => first_ready_in(tasks, 0, start),
    }
}

/// Where a scheduling decision starts scanning: just after the
/// current slot, or at slot zero when nothing is current.
pub open spec fn scan_start(s: Scheduler) -> int {
    match s.spec_current() {
        Some(c) => c as int + 1,
        None => 0,
    }
}

/// A spawn of `pages` stack frames cannot fail: the id space has
/// room, a task slot is reclaimable (or the table has room), and a
/// contiguous run of `pages` frames is clear.
pub open spec fn can_spawn(s: Scheduler, pm: PhysicalMemoryManager, pages: int) -> bool {
    &&& s.spec_next_id() < u64::MAX
    &&& (s.task_count() < MAX_TASKS || exists|k: int|
        0 <= k < s.task_count() && (#[trigger] s.spec_tasks()[k]).state is Finished)
    &&& exists|t: int| 0 <= t && t + pages <= pm.spec_total() && #[trigger] pm.run_clear(t, pages)
}

/// The bookkeeping of switching away from running task `c` into Ready
/// task `j`: `c` is put back to Ready, `j` becomes Running and
/// current, and nothing else changes.
pub open spec fn switch_to(pre: Scheduler, post: Scheduler, c: int, j: int) -> bool {
    &&& 0 <= c < pre.task_count()
    &&& 0 <= j < pre.task_count()
    &&& c != j
    &&& pre.spec_tasks()[j].state is Ready
    &&& post.spec_tasks().len() == pre.spec_tasks().len()
    &&& post.spec_tasks()[c] == with_state(pre.spec_tasks()[c], TaskState::Ready)
    &&& post.spec_tasks()[j] == with_state(pre.spec_tasks()[j], TaskState::Running)
    &&& forall|k: int|
        0 <= k < pre.task_count() && k != c && k != j ==> post.spec_tasks()[k]
            == pre.spec_tasks()[k]
    &&& post.spec_current() == Some(j as usize)
    &&& post.spec_next_id() == pre.spec_next_id()
    &&& post.spec_ticks() == pre.spec_ticks()
}

/// The bookkeeping of the very first switch: Ready task `j` becomes
/// Running and current, with no previous context to put back.
pub open spec fn start_running(pre: Scheduler, post: Scheduler, j: int) -> bool {
    &&& 0 <= j < pre.task_count()
    &&& pre.spec_tasks()[j].state is Ready
    &&& post.spec_tasks().len() == pre.spec_tasks().len()
    &&& post.spec_tasks()[j] == with_state(pre.spec_tasks()[j], TaskState::Running)
    &&& forall|k: int|
        0 <= k < pre.task_count() && k != j ==> post.spec_tasks()[k] == pre.spec_tasks()[k]
    &&& post.spec_current() == Some(j as usize)
    &&& post.spec_next_id() == pre.spec_next_id()
    &&& post.spec_ticks() == pre.spec_ticks()
}

impl Scheduler {
    /// The task table.
    pub closed spec fn spec_tasks(self) -> Seq<Task> {
        self.tasks@
    }

    /// The slot presently executing, `None` before the first switch.
    pub closed spec fn spec_current(self) -> Option<usize> {
        self.current
    }

    /// The next task id to hand out.
    pub closed spec fn spec_next_id(self) -> int {
        self.next_id as int
    }

    /// The tick counter, the kernel's only time base.
    pub closed spec fn spec_ticks(self) -> u64 {
        self.ticks
    }

    /// The sticky deferred-reschedule flag.
    pub closed spec fn spec_need_resched(self) -> bool {
        self.need_resched
    }

    /// Number of slots in the table.
    pub open spec fn task_count(self) -> int {
        self.spec_tasks().len() as int
    }

    /// The scheduler invariant: the table fits its capacity, the
    /// current slot (when any) is the one and only Running task, and
    /// task ids are pairwise distinct and below the id counter.
    pub open spec fn wf(self) -> bool {
        &&& self.spec_tasks().len() <= MAX_TASKS
        &&& match self.spec_current() {
            Some(c) => {
                &&& (c as int) < self.task_count()
                &&& self.spec_tasks()[c as int].state is Running
                &&& forall|j: int|
                    0 <= j < self.task_count() && j != c ==> !((#[trigger] self.spec_tasks()[j]).state
                        is Running)
            },
            None => forall|j: int|
                0 <= j < self.task_count() ==> !((#[trigger] self.spec_tasks()[j]).state
                    is Running),
        }
        &&& forall|j: int|
            0 <= j < self.task_count() ==> (#[trigger] self.spec_tasks()[j]).id
                < self.spec_next_id()
        &&& forall|i: int, j: int|
            #![trigger self.spec_tasks()[i], self.spec_tasks()[j]]
            0 <= i < j < self.task_count() ==> self.spec_tasks()[i].id != self.spec_tasks()[j].id
    }

    /// An empty scheduler: no tasks, nothing current, tick zero.
    pub fn new() -> (r: Self)
        ensures
            r.wf(),
            r.task_count() == 0,
            r.spec_current() is None,
            r.spec_next_id() == 1,
            r.spec_ticks() == 0,
            !r.spec_need_resched(),
    {
        Self { tasks: Vec::new(), current: None, next_id: 1, ticks: 0, need_resched: false }
    }

    /// Append a Ready task to the table in a fresh slot, giving it the
    /// next unused id. Fails, changing nothing, when the table is full
    /// or the id space is exhausted.
    pub fn add_task(&mut self, task: Task) -> (r: Option<usize>)
        requires
            old(self).wf(),
            task.state is Ready,
        ensures
            final(self).wf(),
            final(self).spec_current() == old(self).spec_current(),
            final(self).spec_ticks() == old(self).spec_ticks(),
            final(self).spec_need_resched() == old(self).spec_need_resched(),
            match r {
                Some(slot) => {
                    &&& slot as int == old(self).task_count()
                    &&& final(self).task_count() == old(self).task_count() + 1
                    &&& final(self).spec_tasks()[slot as int] == Task {
                        id: old(self).spec_next_id() as u64,
                        ..task
                    }
                    &&& forall|k: int|
                        0 <= k < old(self).task_count() ==> final(self).spec_tasks()[k] == old(
                            self,
                        ).spec_tasks()[k]
                    &&& final(self).spec_next_id() == old(self).spec_next_id() + 1
                },
                None => {
                    &&& *final(self) == *old(self)
                    &&& (old(self).task_count() == MAX_TASKS || old(self).spec_next_id()
                        == u64::MAX)
                },
            },
    {
        if self.tasks.len() >= MAX_TASKS || self.next_id == u64::MAX {
            return None;
        }
        let slot = self.tasks.len();
        let mut t = task;
        t.id = self.next_id;
        self.tasks.push(t);
        self.next_id = self.next_id + 1;
        Some(slot)
    }

    /// The task presently executing, if any.
    pub fn current_task(&self) -> (r: Option<&Task>)
        requires
            self.wf(),
        ensures
            match r {
                Some(t) => {
                    &&& self.spec_current() is Some
                    &&& *t == self.spec_tasks()[self.spec_current()->0 as int]
                },
                None => self.spec_current() is None,
            },
    {
        match self.current {
            Some(c) => Some(&self.tasks[c]),
            None => None,
        }
    }

    /// The slot presently executing, if any.
    pub fn current_index(&self) -> (r: Option<usize>)
        ensures
            r == self.spec_current(),
    {
        self.current
    }

    /// The stack range recorded for the task in `slot`.
    pub fn task_stack(&self, slot: usize) -> (r: (usize, usize))
        requires
            (slot as int) < self.task_count(),
        ensures
            r.0 == self.spec_tasks()[slot as int].stack_base,
            r.1 == self.spec_tasks()[slot as int].stack_size,
    {
        (self.tasks[slot].stack_base, self.tasks[slot].stack_size)
    }

    /// The tick counter.
    pub fn ticks(&self) -> (r: u64)
        ensures
            r == self.spec_ticks(),
    {
        self.ticks
    }

    /// The timer source's whole contract with the scheduler: advance
    /// the tick counter (saturating at the top of its range) and set
    /// the sticky reschedule flag. It must never switch contexts
    /// itself: the switch happens later, at a checkpoint.
    pub fn tick(&mut self)
        ensures
            final(self).spec_ticks() == if old(self).spec_ticks() < u64::MAX {
                (old(self).spec_ticks() + 1) as u64
            } else {
                old(self).spec_ticks()
            },
            final(self).spec_need_resched(),
            final(self).spec_tasks() == old(self).spec_tasks(),
            final(self).spec_current() == old(self).spec_current(),
            final(self).spec_next_id() == old(self).spec_next_id(),
    {
        if self.ticks < u64::MAX {
            self.ticks = self.ticks + 1;
        }
        self.need_resched = true;
    }

    /// First Ready slot in `[lo, hi)`, scanning upward.
    fn first_ready_range(&self, lo: usize, hi: usize) -> (r: Option<usize>)
        requires
            hi <= self.spec_tasks().len(),
        ensures
            match r {
                Some(u) => first_ready_in(self.spec_tasks(), lo as int, hi as int) == Some(
                    u as int,
                ),
                None => first_ready_in(self.spec_tasks(), lo as int, hi as int) is None,
            },
    {
        let mut k = lo;
        while k < hi
            invariant
                lo <= k,
                hi <= self.spec_tasks().len(),
                first_ready_in(self.spec_tasks(), lo as int, hi as int) == first_ready_in(
                    self.spec_tasks(),
                    k as int,
                    hi as int,
                ),
            decreases hi - k,
        {
            if self.tasks[k].state == TaskState::Ready {
                return Some(k);
            }
            k = k + 1;
        }
        None
    }

    /// First Ready slot in round-robin order starting at `start`.
    fn find_next(&self, start: usize) -> (r: Option<usize>)
        requires
            start <= self.spec_tasks().len(),
        ensures
            match r {
                Some(u) => {
                    &&& next_ready(self.spec_tasks(), start as int) == Some(u as int)
                    &&& 0 <= u < self.spec_tasks().len()
                    &&& self.spec_tasks()[u as int].state is Ready
                },
                None => next_ready(self.spec_tasks(), start as int) is None,
            },
    {
        let n = self.tasks.len();
        let r = match self.first_ready_range(start, n) {
            Some(u) => Some(u),
            None => self.first_ready_range(0, start),
        };
        proof {
            if let Some(u) = r {
                lemma_first_ready_props(self.spec_tasks(), start as int, n as int);
                lemma_first_ready_props(self.spec_tasks(), 0, start as int);
            }
        }
        r
    }

    /// Voluntarily relinquish the processor: pick the first Ready task
    /// after the calling (current) one in round-robin order, put the
    /// caller back to Ready, mark the chosen task Running, and return
    /// its slot for the caller to switch into. When no other task is
    /// Ready, nothing changes and the caller keeps running.
    pub fn task_yield(&mut self) -> (r: Option<usize>)
        requires
            old(self).wf(),
            old(self).spec_current() is Some,
        ensures
            final(self).wf(),
            final(self).spec_need_resched() == old(self).spec_need_resched(),
            old(self).spec_current() matches Some(c) ==> match r {
                Some(j) => {
                    &&& next_ready(old(self).spec_tasks(), c as int + 1) == Some(j as int)
                    &&& switch_to(*old(self), *final(self), c as int, j as int)
                },
                None => {
                    &&& next_ready(old(self).spec_tasks(), c as int + 1) is None
                    &&& *final(self) == *old(self)
                },
            },
    {
        let c = match self.current {
            Some(c) => c,
            None => {
                return None;
            },
        };
        match self.find_next(c + 1) {
            Some(j) => {
                let mut tc = self.tasks[c];
                tc.state = TaskState::Ready;
                self.tasks.set(c, tc);
                let mut tj = self.tasks[j];
                tj.state = TaskState::Running;
                self.tasks.set(j, tj);
                self.current = Some(j);
                Some(j)
            },
            None => None,
        }
    }

    /// One decision of the dispatch loop: find the first Ready task
    /// after the current slot (from slot zero when nothing is
    /// current), mark it Running — putting a previously Running task
    /// back to Ready — and return the slot to switch into. Returns
    /// `None`, changing nothing, when no task is Ready: an empty ready
    /// set is not an error, the loop idles.
    pub fn schedule(&mut self) -> (r: Option<usize>)
        requires
            old(self).wf(),
        ensures
            final(self).wf(),
            final(self).spec_need_resched() == old(self).spec_need_resched(),
            match r {
                Some(j) => {
                    &&& next_ready(old(self).spec_tasks(), scan_start(*old(self))) == Some(
                        j as int,
                    )
                    &&& match old(self).spec_current() {
                        Some(c) => switch_to(*old(self), *final(self), c as int, j as int),
                        None => start_running(*old(self), *final(self), j as int),
                    }
                },
                None => {
                    &&& next_ready(old(self).spec_tasks(), scan_start(*old(self))) is None
                    &&& *final(self) == *old(self)
                },
            },
    {
        let start = match self.current {
            Some(c) => c + 1,
            None => 0,
        };
        match self.find_next(start) {
            Some(j) => {
                if let Some(c) = self.current {
                    let mut tc = self.tasks[c];
                    tc.state = TaskState::Ready;
                    self.tasks.set(c, tc);
                }
                let mut tj = self.tasks[j];
                tj.state = TaskState::Running;
                self.tasks.set(j, tj);
                self.current = Some(j);
                Some(j)
            },
            None => None,
        }
    }

    /// Some slot whose task is Finished, hence free for reuse.
    fn find_finished_slot(&self) -> (r: Option<usize>)
        ensures
            match r {
                Some(s) => s < self.spec_tasks().len() && self.spec_tasks()[s as int].state
                    is Finished,
                None => forall|k: int|
                    0 <= k < self.spec_tasks().len() ==> !((#[trigger] self.spec_tasks()[k]).state
                        is Finished),
            },
    {
        let mut k: usize = 0;
        while k < self.tasks.len()
            invariant
                k <= self.spec_tasks().len(),
                forall|j: int|
                    0 <= j < k ==> !((#[trigger] self.spec_tasks()[j]).state is Finished),
            decreases self.spec_tasks().len() - k,
        {
            if self.tasks[k].state == TaskState::Finished {
                return Some(k);
            }
            k = k + 1;
        }
        None
    }

    /// Create a task: find a free slot (a Finished one, else a fresh
    /// slot while the table has room), allocate a contiguous run of
    /// `pages` stack frames, prime the stack so the first switch into
    /// the task lands at `entry`, and record the slot Ready.
    ///
    /// Every failure — table full, id space exhausted, no contiguous
    /// run of `pages` free frames — is reported as `None` with nothing
    /// changed: a failed spawn never leaks frames, and asking for more
    /// pages than there are free frames always fails.
    pub fn spawn(&mut self, pm: &mut PhysicalMemoryManager, entry: usize, pages: usize) -> (r:
        Option<usize>)
        requires
            old(self).wf(),
            old(pm).wf(),
            stacks_wf(*old(self), *old(pm)),
            pages >= 1,
        ensures
            final(self).wf(),
            final(pm).wf(),
            stacks_wf(*final(self), *final(pm)),
            PhysicalMemoryManager::same_range(*old(pm), *final(pm)),
            final(self).spec_current() == old(self).spec_current(),
            final(self).spec_ticks() == old(self).spec_ticks(),
            final(self).spec_need_resched() == old(self).spec_need_resched(),
            pages > old(pm).spec_free() ==> r is None,
            can_spawn(*old(self), *old(pm), pages as int) ==> r is Some,
            match r {
                Some(slot) => {
                    let t = final(self).spec_tasks()[slot as int];
                    &&& (slot as int) < final(self).task_count()
                    &&& ((slot as int) < old(self).task_count() && old(self).spec_tasks()[slot as int].state
                        is Finished && final(self).task_count() == old(self).task_count()) || (
                    slot as int == old(self).task_count() && final(self).task_count() == old(
                        self,
                    ).task_count() + 1)
                    &&& forall|k: int|
                        0 <= k < old(self).task_count() && k != slot ==> final(self).spec_tasks()[k]
                            == old(self).spec_tasks()[k]
                    &&& t.state is Ready
                    &&& t.id == old(self).spec_next_id()
                    &&& final(self).spec_next_id() == old(self).spec_next_id() + 1
                    &&& t.stack_size == pages * (FRAME_SIZE as int)
                    &&& task_owns_frames(t, *final(pm))
                    &&& task_frame_count(t) == pages
                    &&& PhysicalMemoryManager::alloc_run_at(
                        *old(pm),
                        *final(pm),
                        PhysFrame(t.stack_base),
                        task_frame_lo(t, *old(pm)),
                        pages as int,
                    )
                    &&& final(pm).spec_free() == old(pm).spec_free() - pages
                },
                None => {
                    &&& *final(self) == *old(self)
                    &&& *final(pm) == *old(pm)
                },
            },
    {
        if self.next_id == u64::MAX {
            return None;
        }
        let n = self.tasks.len();
        let slot = match self.find_finished_slot() {
            Some(s) => s,
            None => n,
        };
        if slot == n && n == MAX_TASKS {
            return None;
        }
        let f = match pm.alloc_contiguous(pages) {
            Some(f) => f,
            None => {
                return None;
            },
        };
        let stack_base = f.start_address();
        let ghost s = old(pm).addr_index(stack_base as int);
        proof {
            // the run fits under the allocator's top address, so the
            // stack's size and end fit in `usize`
            assert(0 <= s && s + pages <= old(pm).spec_total());
            assert(stack_base as int == old(pm).frame_addr(s));
            lemma_run_clear_free(*old(pm), s, pages as int);
            crate::memory::lemma_range_bounds(*old(pm));
            let b = old(pm).spec_base();
            let tot = old(pm).spec_total();
            let fs = FRAME_SIZE as int;
            vstd::arithmetic::mul::lemma_mul_inequality(pages as int, b + tot, fs);
            vstd::arithmetic::mul::lemma_mul_is_distributive_add_other_way(fs, b + s, pages as int);
            vstd::arithmetic::mul::lemma_mul_inequality(b + s + pages, b + tot, fs);
            assert((b + tot) * fs <= usize::MAX as int);
            assert(stack_base + pages * fs == (b + s + pages) * fs);
            assert(stack_base + pages * fs <= usize::MAX as int);
        }
        let stack_size = pages * FRAME_SIZE;
        let ctx = prepare_stack(entry, stack_base, stack_size);
        let t = Task {
            id: self.next_id,
            context: ctx,
            stack_base,
            stack_size,
            state: TaskState::Ready,
        };
        if slot == n {
            self.tasks.push(t);
        } else {
            self.tasks.set(slot, t);
        }
        self.next_id = self.next_id + 1;
        proof {
            vstd::arithmetic::div_mod::lemma_div_by_multiple(pages as int, FRAME_SIZE as int);
            assert(task_frame_count(t) == pages);
            assert(task_frame_lo(t, *pm) == s);
            assert(task_owns_frames(t, *pm));
            let pre_s = *old(self);
            let pre_pm = *old(pm);
            assert forall|k: int|
                0 <= k < self.task_count() && k != slot && !((#[trigger] self.spec_tasks()[k]).state
                    is Finished) implies task_owns_frames(self.spec_tasks()[k], *pm)
                && stacks_disjoint(t, self.spec_tasks()[k], *pm) by {
                let u = self.spec_tasks()[k];
                assert(u == pre_s.spec_tasks()[k]);
                assert(task_owns_frames(u, pre_pm));
                lemma_used_run_disjoint(
                    pre_pm,
                    task_frame_lo(u, pre_pm),
                    task_frame_count(u),
                    s,
                    pages as int,
                );
                assert forall|x: int|
                    task_frame_lo(u, *pm) <= x < task_frame_lo(u, *pm) + task_frame_count(
                        u,
                    ) implies pm.used(x) by {
                    assert(pre_pm.used(x));
                };
            };
            assert(stacks_wf(*self, *pm));
        }
        Some(slot)
    }

    /// Terminate the task in `slot`: mark it Finished — making the
    /// slot reusable, and clearing the current slot when the task
    /// terminates itself — and return its whole stack frame range to
    /// the allocator. The caller guarantees the task is live and is
    /// not left executing past this call.
    pub fn task_exit(&mut self, pm: &mut PhysicalMemoryManager, slot: usize)
        requires
            old(self).wf(),
            old(pm).wf(),
            stacks_wf(*old(self), *old(pm)),
            (slot as int) < old(self).task_count(),
            !(old(self).spec_tasks()[slot as int].state is Finished),
        ensures
            final(self).wf(),
            final(pm).wf(),
            stacks_wf(*final(self), *final(pm)),
            PhysicalMemoryManager::same_range(*old(pm), *final(pm)),
            final(self).task_count() == old(self).task_count(),
            final(self).spec_tasks()[slot as int] == with_state(
                old(self).spec_tasks()[slot as int],
                TaskState::Finished,
            ),
            forall|k: int|
                0 <= k < old(self).task_count() && k != slot ==> final(self).spec_tasks()[k] == old(
                    self,
                ).spec_tasks()[k],
            final(self).spec_current() == if old(self).spec_current() == Some(slot) {
                None::<usize>
            } else {
                old(self).spec_current()
            },
            final(self).spec_ticks() == old(self).spec_ticks(),
            final(self).spec_need_resched() == old(self).spec_need_resched(),
            final(self).spec_next_id() == old(self).spec_next_id(),
            PhysicalMemoryManager::free_run_at(
                *old(pm),
                *final(pm),
                task_frame_lo(old(self).spec_tasks()[slot as int], *old(pm)),
                task_frame_count(old(self).spec_tasks()[slot as int]),
            ),
            final(pm).spec_free() == old(pm).spec_free() + task_frame_count(
                old(self).spec_tasks()[slot as int],
            ),
    {
        let t = self.tasks[slot];
        let mut tt = t;
        tt.state = TaskState::Finished;
        self.tasks.set(slot, tt);
        if let Some(c) = self.current {
            if c == slot {
                self.current = None;
            }
        }
        proof {
            assert(task_owns_frames(t, *pm));
            vstd::arithmetic::div_mod::lemma_div_by_multiple(task_frame_count(t), FRAME_SIZE as int);
        }
        let pages = t.stack_size / FRAME_SIZE;
        pm.free_contiguous(t.stack_base, pages);
        proof {
            let pre_s = *old(self);
            let pre_pm = *old(pm);
            let lo = task_frame_lo(t, pre_pm);
            let cnt = task_frame_count(t);
            assert forall|k: int|
                0 <= k < self.task_count() && !((#[trigger] self.spec_tasks()[k]).state
                    is Finished) implies task_owns_frames(self.spec_tasks()[k], *pm) by {
                let u = self.spec_tasks()[k];
                assert(k != slot);
                assert(u == pre_s.spec_tasks()[k]);
                assert(task_owns_frames(u, pre_pm));
                assert(stacks_disjoint(u, t, pre_pm));
                assert forall|x: int|
                    task_frame_lo(u, *pm) <= x < task_frame_lo(u, *pm) + task_frame_count(
                        u,
                    ) implies pm.used(x) by {
                    assert(pre_pm.used(x));
                    assert(!(lo <= x < lo + cnt));
                };
            };
            assert(stacks_wf(*self, *pm));
        }
    }

    /// The safe checkpoint, called from ordinary task code at bounded
    /// intervals: test and clear the deferred-reschedule flag, and
    /// when it was set perform one scheduling decision. Stack
    /// switching never happens inside interrupt context; it happens
    /// here, through the slot this returns.
    pub fn check_and_schedule(&mut self) -> (r: Option<usize>)
        requires
            old(self).wf(),
        ensures
            final(self).wf(),
            !final(self).spec_need_resched(),
            !old(self).spec_need_resched() ==> r is None && *final(self) == *old(self),
            old(self).spec_need_resched() ==> match r {
                Some(j) => {
                    &&& next_ready(old(self).spec_tasks(), scan_start(*old(self))) == Some(
                        j as int,
                    )
                    &&& match old(self).spec_current() {
                        Some(c) => switch_to(*old(self), *final(self), c as int, j as int),
                        None => start_running(*old(self), *final(self), j as int),
                    }
                },
                None => {
                    &&& next_ready(old(self).spec_tasks(), scan_start(*old(self))) is None
                    &&& final(self).spec_tasks() == old(self).spec_tasks()
                    &&& final(self).spec_current() == old(self).spec_current()
                    &&& final(self).spec_ticks() == old(self).spec_ticks()
                    &&& final(self).spec_next_id() == old(self).spec_next_id()
                },
            },
    {
        if !self.need_resched {
            return None;
        }
        self.need_resched = false;
        self.schedule()
    }
}

/// Stack ownership only reads a task's stack fields and liveness, so
/// transitions that merely move tasks between Ready and Running — or
/// end tasks — keep it.
pub proof fn lemma_stacks_wf_states(s0: Scheduler, s1: Scheduler, pm: PhysicalMemoryManager)
    requires
        stacks_wf(s0, pm),
        s1.task_count() == s0.task_count(),
        forall|k: int|
            0 <= k < s0.task_count() ==> {
                let t0 = #[trigger] s0.spec_tasks()[k];
                let t1 = s1.spec_tasks()[k];
                t1.stack_base == t0.stack_base && t1.stack_size == t0.stack_size && (!(t1.state
                    is Finished) ==> !(t0.state is Finished))
            },
    ensures
        stacks_wf(s1, pm),
{
    assert forall|i: int|
        0 <= i < s1.task_count() && !((#[trigger] s1.spec_tasks()[i]).state
            is Finished) implies task_owns_frames(s1.spec_tasks()[i], pm) by {
        assert(task_owns_frames(s0.spec_tasks()[i], pm));
    };
    assert forall|i: int, j: int|
        #![trigger s1.spec_tasks()[i], s1.spec_tasks()[j]]
        0 <= i < s1.task_count() && 0 <= j < s1.task_count() && i != j && !(s1.spec_tasks()[i].state
            is Finished) && !(s1.spec_tasks()[j].state is Finished) implies stacks_disjoint(
        s1.spec_tasks()[i],
        s1.spec_tasks()[j],
        pm,
    ) by {
        assert(stacks_disjoint(s0.spec_tasks()[i], s0.spec_tasks()[j], pm));
    };
}

/// A range of used frames and a range of free frames cannot overlap.
proof fn lemma_used_run_disjoint(
    pm: PhysicalMemoryManager,
    a: int,
    na: int,
    s: int,
    n: int,
)
    requires
        na >= 1,
        n >= 1,
        forall|k: int| a <= k < a + na ==> pm.used(k),
        forall|k: int| s <= k < s + n ==> !pm.used(k),
    ensures
        a + na <= s || s + n <= a,
{
    if a + na > s && s + n > a {
        let w = if a >= s {
            a
        } else {
            s
        };
        assert(pm.used(w));
        assert(!pm.used(w));
    }
}

/// Whatever `first_ready_in` returns is a Ready slot preceded only by
/// non-Ready slots; `None` means the whole range has none.
proof fn lemma_first_ready_props(tasks: Seq<Task>, lo: int, hi: int)
    requires
        0 <= lo,
    ensures
        match first_ready_in(tasks, lo, hi) {
            Some(u) => {
                &&& lo <= u < hi
                &&& tasks[u].state is Ready
                &&& forall|j: int| lo <= j < u ==> !((#[trigger] tasks[j]).state is Ready)
            },
            None => forall|j: int| lo <= j < hi ==> !((#[trigger] tasks[j]).state is Ready),
        },
    decreases hi - lo,
{
    if lo < hi && !(tasks[lo].state is Ready) {
        lemma_first_ready_props(tasks, lo + 1, hi);
    }
}

/// A Ready slot preceded only by non-Ready slots is what the scan
/// finds.
proof fn lemma_first_ready_hit(tasks: Seq<Task>, lo: int, hi: int, d: int)
    requires
        0 <= lo <= d < hi,
        tasks[d].state is Ready,
        forall|j: int| lo <= j < d ==> !((#[trigger] tasks[j]).state is Ready),
    ensures
        first_ready_in(tasks, lo, hi) == Some(d),
    decreases d - lo,
{
    if lo < d {
        lemma_first_ready_hit(tasks, lo + 1, hi, d);
    }
}

/// A range with no Ready slot yields no hit.
proof fn lemma_first_ready_none(tasks: Seq<Task>, lo: int, hi: int)
    requires
        0 <= lo,
        forall|j: int| lo <= j < hi ==> !((#[trigger] tasks[j]).state is Ready),
    ensures
        first_ready_in(tasks, lo, hi) is None,
    decreases hi - lo,
{
    if lo < hi {
        lemma_first_ready_none(tasks, lo + 1, hi);
    }
}

/// With exactly two runnable tasks — `i` Running, `j` Ready, every
/// other slot not Ready — the round-robin scan after `i` selects `j`:
/// the other of the pair always runs next.
pub proof fn lemma_two_tasks_alternate(tasks: Seq<Task>, i: int, j: int)
    requires
        0 <= i < tasks.len(),
        0 <= j < tasks.len(),
        i != j,
        tasks[i].state is Running,
        tasks[j].state is Ready,
        forall|k: int|
            0 <= k < tasks.len() && k != i && k != j ==> !((#[trigger] tasks[k]).state is Ready),
    ensures
        next_ready(tasks, i + 1) == Some(j),
{
    let n = tasks.len() as int;
    if j > i {
        lemma_first_ready_hit(tasks, i + 1, n, j);
    } else {
        lemma_first_ready_none(tasks, i + 1, n);
        lemma_first_ready_hit(tasks, 0, i + 1, j);
    }
}

/// A task that exits returns exactly the frames it was given: after
/// the spawn that allocated the task's stack run and the later exit
/// that released it, the allocator's free count — and every frame
/// bit — is back at its pre-spawn value.
pub proof fn lemma_spawn_exit_refund(
    pm0: PhysicalMemoryManager,
    pm1: PhysicalMemoryManager,
    pm2: PhysicalMemoryManager,
    t: Task,
    pages: int,
)
    requires
        PhysicalMemoryManager::alloc_run_at(
            pm0,
            pm1,
            PhysFrame(t.stack_base),
            task_frame_lo(t, pm0),
            pages,
        ),
        task_frame_count(t) == pages,
        PhysicalMemoryManager::free_run_at(
            pm1,
            pm2,
            task_frame_lo(t, pm1),
            task_frame_count(t),
        ),
    ensures
        PhysicalMemoryManager::same_range(pm0, pm2),
        pm2.spec_free() == pm0.spec_free(),
        forall|j: int| 0 <= j < pm0.spec_total() ==> pm2.used(j) == pm0.used(j),
{
    assert(task_frame_lo(t, pm1) == task_frame_lo(t, pm0));
    crate::memory::lemma_alloc_then_free_run(
        pm0,
        pm1,
        pm2,
        PhysFrame(t.stack_base),
        task_frame_lo(t, pm0),
        pages,
    );
}

/// Two tasks that alternately yield take strict turns: the switch
/// away from `i` lands on `j`, and the next yield switches straight
/// back to `i` — each executes once before the other repeats.
pub proof fn lemma_yield_round_trip(pre: Scheduler, mid: Scheduler, i: int, j: int)
    requires
        pre.wf(),
        0 <= i < pre.task_count(),
        0 <= j < pre.task_count(),
        i != j,
        pre.spec_current() == Some(i as usize),
        pre.spec_tasks()[j].state is Ready,
        forall|k: int|
            0 <= k < pre.task_count() && k != i && k != j ==> !((#[trigger] pre.spec_tasks()[k]).state
                is Ready),
        switch_to(pre, mid, i, j),
    ensures
        next_ready(pre.spec_tasks(), i + 1) == Some(j),
        next_ready(mid.spec_tasks(), j + 1) == Some(i),
{
    assert(pre.spec_tasks()[i as int].state is Running);
    lemma_two_tasks_alternate(pre.spec_tasks(), i, j);
    assert forall|k: int|
        0 <= k < mid.spec_tasks().len() && k != j && k != i implies !((#[trigger] mid.spec_tasks()[k]).state
        is Ready) by {
        assert(mid.spec_tasks()[k] == pre.spec_tasks()[k]);
    };
    lemma_two_tasks_alternate(mid.spec_tasks(), j, i);
}

} // verus!

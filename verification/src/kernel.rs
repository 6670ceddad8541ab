//! The kernel context: one value owning every subsystem, built by the
//! boot sequence and passed around explicitly — no free-standing
//! global singletons — together with the invariant the subsystems
//! keep between them.

use vstd::prelude::*;

use crate::fs::FileStore;
use crate::fs::fs_init;
use crate::memory::FRAME_SIZE;
use crate::memory::PhysicalMemoryManager;
use crate::process::ProcessTable;
use crate::process::is_due;
use crate::process::proc_with_state;
use crate::process::procs_link;
use crate::process::ProcState;
use crate::process::lemma_procs_link_states;
use crate::process::wake_sleepers;
use crate::scheduler::Scheduler;
use crate::scheduler::lemma_stacks_wf_states;
use crate::scheduler::next_ready;
use crate::scheduler::scan_start;
use crate::scheduler::stacks_wf;
use crate::scheduler::start_running;
use crate::scheduler::switch_to;

verus! {

/// Everything the kernel owns: the frame allocator, the task store
/// and scheduler, the process table, the demo file store, the fixed
/// boot-registered table of spawnable entry points (tasks name an
/// entry by index, never by raw address), and the console sink whose
/// bytes the console writer drains.
pub struct Kernel {
    pub pmm: PhysicalMemoryManager,
    pub sched: Scheduler,
    pub table: ProcessTable,
    pub fs: FileStore,
    pub entries: Vec<usize>,
    pub console: Vec<u8>,
}

impl Kernel {
    /// The whole-kernel invariant: each subsystem's own invariant,
    /// every live task owning its disjoint stack frames, and live
    /// processes one-to-one with live task slots.
    pub open spec fn wf(self) -> bool {
        &&& self.pmm.wf()
        &&& self.sched.wf()
        &&& self.table.wf()
        &&& stacks_wf(self.sched, self.pmm)
        &&& procs_link(self.table, self.sched)
        &&& self.fs.wf()
    }

    /// Boot-time construction: an allocator over the frame range
    /// `[base_frame, base_frame + total_frames)` with every frame
    /// free, empty task and process tables, the demo file store, and
    /// the given entry-point table.
    pub fn new(base_frame: usize, total_frames: usize, entries: Vec<usize>) -> (r: Self)
        requires
            (base_frame + total_frames) * (FRAME_SIZE as int) <= usize::MAX as int,
        ensures
            r.wf(),
            r.pmm.spec_base() == base_frame,
            r.pmm.spec_total() == total_frames,
            r.pmm.spec_free() == total_frames,
            forall|i: int| 0 <= i < total_frames ==> !r.pmm.used(i),
            r.sched.task_count() == 0,
            r.sched.spec_current() is None,
            r.sched.spec_ticks() == 0,
            !r.sched.spec_need_resched(),
            r.table.next_pid == 1,
            forall|i: int|
                0 <= i < r.table.procs@.len() ==> (#[trigger] r.table.procs@[i]).state is Zombie,
            r.entries == entries,
            r.console@ == Seq::<u8>::empty(),
            r.fs.wf(),
    {
        proof {
            if total_frames >= 1 {
                vstd::arithmetic::mul::lemma_mul_inequality(
                    total_frames as int,
                    base_frame + total_frames,
                    FRAME_SIZE as int,
                );
                assert(total_frames * (FRAME_SIZE as int) >= total_frames + 7);
            }
        }
        let bitmap_len = (total_frames + 7) / 8;
        proof {
            vstd::arithmetic::div_mod::lemma_fundamental_div_mod(total_frames + 7, 8);
        }
        let mut pmm = PhysicalMemoryManager::new_uninit();
        pmm.init(bitmap_len, base_frame, total_frames);
        let sched = Scheduler::new();
        let table = ProcessTable::new();
        let fs = fs_init();
        Self { pmm, sched, table, fs, entries, console: Vec::new() }
    }

    /// The timer source's whole effect, safe inside interrupt
    /// context: advance the tick counter, set the sticky reschedule
    /// flag, acknowledge nothing else and switch nothing. The switch
    /// happens later, at a checkpoint.
    pub fn tick(&mut self)
        requires
            old(self).wf(),
        ensures
            final(self).wf(),
            final(self).sched.spec_ticks() == (if old(self).sched.spec_ticks() < u64::MAX {
                (old(self).sched.spec_ticks() + 1) as u64
            } else {
                old(self).sched.spec_ticks()
            }),
            final(self).sched.spec_need_resched(),
            final(self).sched.spec_tasks() == old(self).sched.spec_tasks(),
            final(self).sched.spec_current() == old(self).sched.spec_current(),
            final(self).sched.spec_next_id() == old(self).sched.spec_next_id(),
            final(self).pmm == old(self).pmm,
            final(self).table == old(self).table,
            final(self).fs == old(self).fs,
            final(self).entries == old(self).entries,
            final(self).console == old(self).console,
    {
        self.sched.tick();
        proof {
            lemma_stacks_wf_states(old(self).sched, self.sched, self.pmm);
            lemma_procs_link_states(old(self).table, self.table, old(self).sched, self.sched);
        }
    }

    /// The scheduling checkpoint, reached from ordinary task code at
    /// bounded intervals — never from an interrupt handler: wake the
    /// sleepers whose tick has arrived, then test and clear the
    /// deferred-reschedule flag, performing one scheduling decision
    /// when it was set. The caller switches into the returned slot.
    pub fn checkpoint(&mut self) -> (r: Option<usize>)
        requires
            old(self).wf(),
        ensures
            final(self).wf(),
            final(self).pmm == old(self).pmm,
            final(self).fs == old(self).fs,
            final(self).entries == old(self).entries,
            final(self).console == old(self).console,
            final(self).table.next_pid == old(self).table.next_pid,
            final(self).table.procs@.len() == old(self).table.procs@.len(),
            forall|i: int|
                0 <= i < old(self).table.procs@.len() ==> final(self).table.procs@[i] == (if is_due(
                    (#[trigger] old(self).table.procs@[i]),
                    old(self).sched.spec_ticks(),
                ) {
                    proc_with_state(old(self).table.procs@[i], ProcState::Runnable)
                } else {
                    old(self).table.procs@[i]
                }),
            !final(self).sched.spec_need_resched(),
            final(self).sched.spec_ticks() == old(self).sched.spec_ticks(),
            final(self).sched.spec_next_id() == old(self).sched.spec_next_id(),
            !old(self).sched.spec_need_resched() ==> r is None && final(self).sched == old(
                self,
            ).sched,
            old(self).sched.spec_need_resched() ==> match r {
                Some(j) => {
                    &&& next_ready(old(self).sched.spec_tasks(), scan_start(old(self).sched))
                        == Some(j as int)
                    &&& match old(self).sched.spec_current() {
                        Some(c) => switch_to(old(self).sched, final(self).sched, c as int, j as int),
                        None => start_running(old(self).sched, final(self).sched, j as int),
                    }
                },
                None => {
                    &&& next_ready(old(self).sched.spec_tasks(), scan_start(old(self).sched))
                        is None
                    &&& final(self).sched.spec_tasks() == old(self).sched.spec_tasks()
                    &&& final(self).sched.spec_current() == old(self).sched.spec_current()
                },
            },
    {
        let now = self.sched.ticks();
        wake_sleepers(&mut self.table, now);
        proof {
            lemma_procs_link_states(old(self).table, self.table, old(self).sched, old(self).sched);
        }
        let r = self.sched.check_and_schedule();
        proof {
            let s0 = old(self).sched;
            let s1 = self.sched;
            assert forall|k: int| 0 <= k < s0.task_count() implies {
                let t0 = #[trigger] s0.spec_tasks()[k];
                let t1 = s1.spec_tasks()[k];
                t1.stack_base == t0.stack_base && t1.stack_size == t0.stack_size && (!(t1.state
                    is Finished) ==> !(t0.state is Finished))
            } by {};
            lemma_stacks_wf_states(s0, s1, self.pmm);
            lemma_procs_link_states(self.table, self.table, s0, s1);
        }
        r
    }
}

} // verus!

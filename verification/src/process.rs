//! PID-addressed process layer over the task store: richer states
//! (sleep with a wake tick, Zombie), parent bookkeeping, and teardown
//! that returns a task's frames. Processes and tasks are one-to-one
//! while the process is alive.

use vstd::prelude::*;

use crate::memory::FRAME_SIZE;
use crate::memory::PhysicalMemoryManager;
use crate::scheduler::Scheduler;
use crate::scheduler::can_spawn;
use crate::scheduler::stacks_wf;
use crate::scheduler::task_frame_count;
use crate::scheduler::task_frame_lo;
use crate::scheduler::task_owns_frames;
use crate::scheduler::with_state;
use crate::task::TaskState;

verus! {

/// Process identifier: a stable external name for a task slot, which
/// may outlive slot reuse of the underlying task.
pub type Pid = u32;

/// Capacity of the process table.
pub const MAX_PROCS: usize = 64;

/// Largest pid ever handed out, chosen so a pid always fits the
/// signed syscall return word.
pub const MAX_PID: u32 = 0x7fff_ffff;

/// Scheduling state of one process.
#[derive(Clone, Copy, Debug, PartialEq, Eq, Structural)]
pub enum ProcState {
    Runnable,
    Running,
    /// Asleep until the enclosed wake tick has arrived.
    Sleeping(u64),
    /// Exited; the table entry is free for reuse.
    Zombie,
}

/// One process-table entry, mapping a task slot to a pid and meta.
#[derive(Clone, Copy, Debug)]
pub struct Process {
    /// Monotonic, never reused while the table lives.
    pub pid: Pid,
    /// Index of the underlying task slot.
    pub slot: usize,
    pub state: ProcState,
    pub stack_base: usize,
    pub stack_size: usize,
    pub parent: Option<Pid>,
    pub name: [u8; 16],
}

/// `p` with its state replaced.
pub open spec fn proc_with_state(p: Process, st: ProcState) -> Process {
    Process { state: st, ..p }
}

/// The wake tick of a sleep for `ms` ticks started now: saturating,
/// so a huge delay never wraps into the past.
pub open spec fn wake_tick(now: u64, ms: u64) -> u64 {
    if now + ms <= u64::MAX {
        (now + ms) as u64
    } else {
        u64::MAX
    }
}

/// Whether `wake_sleepers` at tick `now` would promote `p`.
pub open spec fn is_due(p: Process, now: u64) -> bool {
    p.state matches ProcState::Sleeping(until) && now >= until
}

/// An unused table entry: every field zeroed and the state Zombie,
/// which marks the entry free for reuse.
pub open spec fn empty_process(p: Process) -> bool {
    &&& p.pid == 0
    &&& p.slot == 0
    &&& p.state is Zombie
    &&& p.stack_base == 0
    &&& p.stack_size == 0
    &&& p.parent is None
    &&& forall|i: int| 0 <= i < 16 ==> p.name[i] == 0
}

impl Process {
    /// An unused table entry: a Zombie with pid zero.
    pub fn empty() -> (r: Self)
        ensures
            empty_process(r),
    {
        Self {
            pid: 0,
            slot: 0,
            state: ProcState::Zombie,
            stack_base: 0,
            stack_size: 0,
            parent: None,
            name: [0u8; 16],
        }
    }
}

/// Fixed table of process entries; an entry is free for reuse exactly
/// when its state is Zombie.
pub struct ProcessTable {
    pub procs: Vec<Process>,
    pub next_pid: u32,
}

impl ProcessTable {
    /// Entry `i` exists and names a live (non-Zombie) process.
    pub open spec fn live(self, i: int) -> bool {
        0 <= i < self.procs@.len() && !(self.procs@[i].state is Zombie)
    }

    /// The table invariant: fixed capacity, pids of live processes
    /// pairwise distinct, at least one and below the monotonic pid
    /// counter, which stays within the signed-return pid range.
    pub open spec fn wf(self) -> bool {
        &&& self.procs@.len() == MAX_PROCS
        &&& 1 <= self.next_pid <= MAX_PID
        &&& forall|i: int|
            self.live(i) ==> 1 <= (#[trigger] self.procs@[i]).pid < self.next_pid
        &&& forall|i: int, j: int|
            #![trigger self.procs@[i], self.procs@[j]]
            self.live(i) && self.live(j) && i != j ==> self.procs@[i].pid != self.procs@[j].pid
    }

    /// A table of empty entries, with pid numbering starting at one.
    pub fn new() -> (r: Self)
        ensures
            r.wf(),
            r.next_pid == 1,
            r.procs@.len() == MAX_PROCS,
            forall|i: int| 0 <= i < MAX_PROCS ==> empty_process(#[trigger] r.procs@[i]),
    {
        let mut procs: Vec<Process> = Vec::new();
        while procs.len() < MAX_PROCS
            invariant
                procs@.len() <= MAX_PROCS,
                forall|i: int| 0 <= i < procs@.len() ==> empty_process(#[trigger] procs@[i]),
            decreases MAX_PROCS - procs@.len(),
        {
            procs.push(Process::empty());
        }
        Self { procs, next_pid: 1 }
    }

    /// First reclaimable (Zombie) entry, if any: the least-indexed
    /// one.
    pub fn alloc_slot(&self) -> (r: Option<usize>)
        ensures
            match r {
                Some(s) => {
                    &&& (s as int) < self.procs@.len()
                    &&& self.procs@[s as int].state is Zombie
                    &&& forall|j: int|
                        0 <= j < s ==> !((#[trigger] self.procs@[j]).state is Zombie)
                },
                None => forall|i: int|
                    0 <= i < self.procs@.len() ==> !((#[trigger] self.procs@[i]).state is Zombie),
            },
    {
        let mut i: usize = 0;
        while i < self.procs.len()
            invariant
                i <= self.procs@.len(),
                forall|j: int| 0 <= j < i ==> !((#[trigger] self.procs@[j]).state is Zombie),
            decreases self.procs@.len() - i,
        {
            if self.procs[i].state == ProcState::Zombie {
                return Some(i);
            }
            i = i + 1;
        }
        None
    }

    /// Hand out the next pid and advance the counter.
    pub fn alloc_pid(&mut self) -> (r: Pid)
        requires
            old(self).wf(),
            old(self).next_pid < MAX_PID,
        ensures
            final(self).wf(),
            r == old(self).next_pid,
            final(self).next_pid == old(self).next_pid + 1,
            final(self).procs == old(self).procs,
    {
        let pid = self.next_pid;
        self.next_pid = self.next_pid + 1;
        pid
    }
}

/// Live processes map one-to-one onto live task slots: each live
/// process names a task slot that exists, is not Finished, and whose
/// stack the process records; distinct live processes use distinct
/// slots.
pub open spec fn procs_link(t: ProcessTable, s: Scheduler) -> bool {
    &&& forall|i: int|
        t.live(i) ==> {
            let p = #[trigger] t.procs@[i];
            &&& (p.slot as int) < s.task_count()
            &&& !(s.spec_tasks()[p.slot as int].state is Finished)
            &&& p.stack_base == s.spec_tasks()[p.slot as int].stack_base
            &&& p.stack_size == s.spec_tasks()[p.slot as int].stack_size
        }
    &&& forall|i: int, j: int|
        #![trigger t.procs@[i], t.procs@[j]]
        t.live(i) && t.live(j) && i != j ==> t.procs@[i].slot != t.procs@[j].slot
}

/// A process spawn cannot fail: the task can be created, a pid is
/// left, and a process-table entry is reclaimable.
pub open spec fn can_spawn_process(
    s: Scheduler,
    pm: PhysicalMemoryManager,
    t: ProcessTable,
    pages: int,
) -> bool {
    &&& can_spawn(s, pm, pages)
    &&& t.next_pid < MAX_PID
    &&& exists|i: int| 0 <= i < t.procs@.len() && (#[trigger] t.procs@[i]).state is Zombie
}

/// The outcome of a successful process spawn: table entry `i`,
/// previously a Zombie, now records pid `pid` over the freshly
/// created Ready task in scheduler slot `slot`; nothing else in the
/// table changed, and no task outside `slot` changed.
pub open spec fn spawned_into(
    t0: ProcessTable,
    t1: ProcessTable,
    s0: Scheduler,
    s1: Scheduler,
    pm1: PhysicalMemoryManager,
    i: int,
    slot: int,
    pid: Pid,
    pages: int,
    parent: Option<Pid>,
) -> bool {
    let p = t1.procs@[i];
    let task = s1.spec_tasks()[slot];
    &&& 0 <= i < t0.procs@.len()
    &&& t0.procs@[i].state is Zombie
    &&& t1.procs@.len() == t0.procs@.len()
    &&& forall|k: int| 0 <= k < t0.procs@.len() && k != i ==> t1.procs@[k] == t0.procs@[k]
    &&& p.pid == pid
    &&& p.state is Runnable
    &&& p.slot == slot
    &&& p.parent == parent
    &&& p.stack_base == task.stack_base
    &&& p.stack_size == task.stack_size
    &&& p.stack_size == pages * (FRAME_SIZE as int)
    &&& 0 <= slot < s1.task_count()
    &&& task.state is Ready
    &&& task.id == s0.spec_next_id()
    &&& task_owns_frames(task, pm1)
    &&& s0.task_count() <= s1.task_count() <= s0.task_count() + 1
    &&& forall|k: int|
        0 <= k < s0.task_count() && k != slot ==> s1.spec_tasks()[k] == s0.spec_tasks()[k]
}

/// A successful spawn's overall shape: some reclaimed table entry
/// and some task slot as in `spawned_into`.
pub open spec fn spawned_some(
    t0: ProcessTable,
    t1: ProcessTable,
    s0: Scheduler,
    s1: Scheduler,
    pm1: PhysicalMemoryManager,
    pid: Pid,
    pages: int,
    parent: Option<Pid>,
) -> bool {
    exists|i: int, slot: int|
        #[trigger] spawned_into(t0, t1, s0, s1, pm1, i, slot, pid, pages, parent)
}

/// Spawn a new process: create the task (stack frames, primed
/// context, Ready slot), then record it under a fresh pid in a
/// reclaimed process-table entry. On process-table or pid exhaustion
/// the just-created task is torn down again, so a partial failure
/// leaks nothing. Every failure is `None` with the free count — and
/// every live task and process — left as they were.
pub fn spawn(
    sched: &mut Scheduler,
    pm: &mut PhysicalMemoryManager,
    table: &mut ProcessTable,
    entry: usize,
    pages: usize,
    parent: Option<Pid>,
) -> (r: Option<Pid>)
    requires
        old(sched).wf(),
        old(pm).wf(),
        old(table).wf(),
        stacks_wf(*old(sched), *old(pm)),
        procs_link(*old(table), *old(sched)),
        pages >= 1,
    ensures
        final(sched).wf(),
        final(pm).wf(),
        final(table).wf(),
        stacks_wf(*final(sched), *final(pm)),
        procs_link(*final(table), *final(sched)),
        PhysicalMemoryManager::same_range(*old(pm), *final(pm)),
        final(sched).spec_current() == old(sched).spec_current(),
        final(sched).spec_ticks() == old(sched).spec_ticks(),
        pages > old(pm).spec_free() ==> r is None,
        can_spawn_process(*old(sched), *old(pm), *old(table), pages as int) ==> r is Some,
        match r {
            Some(pid) => {
                &&& pid == old(table).next_pid
                &&& final(table).next_pid == old(table).next_pid + 1
                &&& final(pm).spec_free() == old(pm).spec_free() - pages
                &&& spawned_some(
                    *old(table),
                    *final(table),
                    *old(sched),
                    *final(sched),
                    *final(pm),
                    pid,
                    pages as int,
                    parent,
                )
            },
            None => {
                &&& *final(table) == *old(table)
                &&& final(pm).spec_free() == old(pm).spec_free()
                &&& forall|k: int|
                    0 <= k < old(pm).spec_total() ==> final(pm).used(k) == old(pm).used(k)
                &&& final(sched).task_count() >= old(sched).task_count()
                &&& forall|k: int|
                    0 <= k < old(sched).task_count() && !((#[trigger] old(sched).spec_tasks()[k]).state
                        is Finished) ==> final(sched).spec_tasks()[k] == old(sched).spec_tasks()[k]
            },
        },
{
    let slot = match sched.spawn(pm, entry, pages) {
        Some(slot) => slot,
        None => {
            return None;
        },
    };
    if table.next_pid == MAX_PID {
        // no pid left: tear the task down again, leaking nothing
        sched.task_exit(pm, slot);
        return None;
    }
    let pt_slot = match table.alloc_slot() {
        Some(i) => i,
        None => {
            // no process slot available: tear the task down again
            sched.task_exit(pm, slot);
            return None;
        },
    };
    let pid = table.alloc_pid();
    let (task_stack_base, task_stack_size) = sched.task_stack(slot);
    let p = Process {
        pid,
        slot,
        state: ProcState::Runnable,
        stack_base: task_stack_base,
        stack_size: task_stack_size,
        parent,
        name: [0u8; 16],
    };
    table.procs.set(pt_slot, p);
    proof {
        assert(spawned_into(
            *old(table),
            *table,
            *old(sched),
            *sched,
            *pm,
            pt_slot as int,
            slot as int,
            pid,
            pages as int,
            parent,
        ));
    }
    Some(pid)
}

/// The pid of the process mapped onto the presently executing task
/// slot, if any.
pub fn current_pid(sched: &Scheduler, table: &ProcessTable) -> (r: Option<Pid>)
    ensures
        match sched.spec_current() {
            None => r is None,
            Some(c) => match r {
                Some(pid) => exists|i: int|
                    #![trigger table.procs@[i]]
                    table.live(i) && table.procs@[i].slot == c && table.procs@[i].pid == pid,
                None => forall|i: int|
                    table.live(i) ==> (#[trigger] table.procs@[i]).slot != c,
            },
        },
{
    let cur = match sched.current_index() {
        Some(c) => c,
        None => {
            return None;
        },
    };
    let mut i: usize = 0;
    while i < table.procs.len()
        invariant
            i <= table.procs@.len(),
            forall|j: int|
                0 <= j < i && table.live(j) ==> (#[trigger] table.procs@[j]).slot != cur,
        decreases table.procs@.len() - i,
    {
        let p = table.procs[i];
        if p.slot == cur && !(p.state == ProcState::Zombie) {
            proof {
                assert(table.live(i as int) && table.procs@[i as int].slot == cur
                    && table.procs@[i as int].pid == p.pid);
            }
            return Some(p.pid);
        }
        i = i + 1;
    }
    None
}

/// The task slot of the live process named `pid`, if any.
pub fn pid_to_slot(table: &ProcessTable, pid: Pid) -> (r: Option<usize>)
    ensures
        match r {
            Some(s) => exists|i: int|
                #![trigger table.procs@[i]]
                table.live(i) && table.procs@[i].pid == pid && table.procs@[i].slot == s,
            None => forall|i: int|
                table.live(i) ==> (#[trigger] table.procs@[i]).pid != pid,
        },
{
    let mut i: usize = 0;
    while i < table.procs.len()
        invariant
            i <= table.procs@.len(),
            forall|j: int|
                0 <= j < i && table.live(j) ==> (#[trigger] table.procs@[j]).pid != pid,
        decreases table.procs@.len() - i,
    {
        let p = table.procs[i];
        if p.pid == pid && !(p.state == ProcState::Zombie) {
            return Some(p.slot);
        }
        i = i + 1;
    }
    None
}

/// The outcome of exiting process-table entry `i`: the entry is now a
/// Zombie, its task slot is Finished with the current slot cleared if
/// it was executing, the task's whole stack frame range went back to
/// the allocator, and nothing else changed.
pub open spec fn process_exited(
    t0: ProcessTable,
    t1: ProcessTable,
    s0: Scheduler,
    s1: Scheduler,
    pm0: PhysicalMemoryManager,
    pm1: PhysicalMemoryManager,
    i: int,
) -> bool {
    let p = t0.procs@[i];
    let slot = p.slot as int;
    &&& 0 <= i < t0.procs@.len()
    &&& t1.procs@.len() == t0.procs@.len()
    &&& t1.procs@[i] == proc_with_state(p, ProcState::Zombie)
    &&& forall|k: int| 0 <= k < t0.procs@.len() && k != i ==> t1.procs@[k] == t0.procs@[k]
    &&& 0 <= slot < s0.task_count()
    &&& s1.task_count() == s0.task_count()
    &&& s1.spec_tasks()[slot] == with_state(s0.spec_tasks()[slot], TaskState::Finished)
    &&& forall|k: int| 0 <= k < s0.task_count() && k != slot ==> s1.spec_tasks()[k] == s0.spec_tasks()[k]
    &&& s1.spec_current() == if s0.spec_current() == Some(p.slot) {
        None::<usize>
    } else {
        s0.spec_current()
    }
    &&& PhysicalMemoryManager::free_run_at(
        pm0,
        pm1,
        task_frame_lo(s0.spec_tasks()[slot], pm0),
        task_frame_count(s0.spec_tasks()[slot]),
    )
    &&& pm1.spec_free() == pm0.spec_free() + (p.stack_size as int) / (FRAME_SIZE as int)
}

/// Mark the live process named `pid` as exited — Zombie entry,
/// Finished task, stack frames returned — and report whether such a
/// process existed. An unknown or already-dead pid is a no-op
/// returning `false`.
pub fn exit_self(
    sched: &mut Scheduler,
    pm: &mut PhysicalMemoryManager,
    table: &mut ProcessTable,
    pid: Pid,
) -> (r: bool)
    requires
        old(sched).wf(),
        old(pm).wf(),
        old(table).wf(),
        stacks_wf(*old(sched), *old(pm)),
        procs_link(*old(table), *old(sched)),
    ensures
        final(sched).wf(),
        final(pm).wf(),
        final(table).wf(),
        stacks_wf(*final(sched), *final(pm)),
        procs_link(*final(table), *final(sched)),
        PhysicalMemoryManager::same_range(*old(pm), *final(pm)),
        final(sched).spec_ticks() == old(sched).spec_ticks(),
        final(table).next_pid == old(table).next_pid,
        r == exists|i: int|
            #![trigger old(table).procs@[i]]
            old(table).live(i) && old(table).procs@[i].pid == pid,
        r ==> exists|i: int|
            old(table).live(i) && (#[trigger] old(table).procs@[i]).pid == pid && process_exited(
                *old(table),
                *final(table),
                *old(sched),
                *final(sched),
                *old(pm),
                *final(pm),
                i,
            ),
        !r ==> *final(sched) == *old(sched) && *final(pm) == *old(pm) && *final(table) == *old(
            table,
        ),
{
    let mut i: usize = 0;
    while i < table.procs.len()
        invariant
            i <= table.procs@.len(),
            forall|j: int|
                0 <= j < i && table.live(j) ==> (#[trigger] table.procs@[j]).pid != pid,
            *sched == *old(sched),
            *pm == *old(pm),
            *table == *old(table),
        decreases table.procs@.len() - i,
    {
        let p = table.procs[i];
        if p.pid == pid && !(p.state == ProcState::Zombie) {
            proof {
                assert(old(table).live(i as int));
                assert(old(table).procs@[i as int] == p);
                assert((p.slot as int) < sched.task_count());
                assert(!(sched.spec_tasks()[p.slot as int].state is Finished));
            }
            let mut q = p;
            q.state = ProcState::Zombie;
            table.procs.set(i, q);
            sched.task_exit(pm, p.slot);
            proof {
                assert(process_exited(
                    *old(table),
                    *table,
                    *old(sched),
                    *sched,
                    *old(pm),
                    *pm,
                    i as int,
                ));
            }
            return true;
        }
        i = i + 1;
    }
    false
}

/// Put the live process named `pid` to sleep: its state becomes
/// `Sleeping(now + ms)` (saturating at the top of the tick range).
/// The caller must yield right afterward, or it keeps running until
/// its next yield; nothing here switches. An unknown or dead pid is
/// ignored.
pub fn sleep_ms(table: &mut ProcessTable, pid: Pid, now: u64, ms: u64)
    requires
        old(table).wf(),
    ensures
        final(table).wf(),
        final(table).next_pid == old(table).next_pid,
        final(table).procs@.len() == old(table).procs@.len(),
        forall|i: int|
            0 <= i < old(table).procs@.len() && !(old(table).live(i)
                && (#[trigger] old(table).procs@[i]).pid == pid)
                ==> final(table).procs@[i] == old(table).procs@[i],
        forall|i: int|
            old(table).live(i) && (#[trigger] old(table).procs@[i]).pid == pid
                ==> final(table).procs@[i] == proc_with_state(
                old(table).procs@[i],
                ProcState::Sleeping(wake_tick(now, ms)),
            ),
{
    let wake: u64 = if now <= u64::MAX - ms {
        now + ms
    } else {
        u64::MAX
    };
    let mut i: usize = 0;
    while i < table.procs.len()
        invariant
            i <= table.procs@.len(),
            *table == *old(table),
            forall|j: int|
                0 <= j < i && table.live(j) ==> (#[trigger] table.procs@[j]).pid != pid,
        decreases table.procs@.len() - i,
    {
        let p = table.procs[i];
        if p.pid == pid && !(p.state == ProcState::Zombie) {
            proof {
                // pid uniqueness among the live: `i` is the only match
                assert forall|j: int|
                    old(table).live(j) && (#[trigger] old(table).procs@[j]).pid
                        == pid implies j == i as int by {
                    if j != i as int {
                        assert(old(table).procs@[j].pid != old(table).procs@[i as int].pid);
                    }
                };
            }
            let mut q = p;
            q.state = ProcState::Sleeping(wake);
            table.procs.set(i, q);
            return ;
        }
        i = i + 1;
    }
}

/// Promote every Sleeping process whose wake tick has arrived to
/// Runnable — not Running; the scheduler still has to pick it.
/// Invoked at every scheduling checkpoint; performs no switching
/// itself.
pub fn wake_sleepers(table: &mut ProcessTable, now: u64)
    requires
        old(table).wf(),
    ensures
        final(table).wf(),
        final(table).next_pid == old(table).next_pid,
        final(table).procs@.len() == old(table).procs@.len(),
        forall|i: int|
            0 <= i < old(table).procs@.len() ==> final(table).procs@[i] == (if is_due(
                (#[trigger] old(table).procs@[i]),
                now,
            ) {
                proc_with_state(old(table).procs@[i], ProcState::Runnable)
            } else {
                old(table).procs@[i]
            }),
{
    let mut i: usize = 0;
    while i < table.procs.len()
        invariant
            i <= table.procs@.len(),
            table.procs@.len() == old(table).procs@.len(),
            table.next_pid == old(table).next_pid,
            table.wf(),
            forall|j: int|
                i <= j < old(table).procs@.len() ==> table.procs@[j] == old(table).procs@[j],
            forall|j: int|
                0 <= j < i ==> table.procs@[j] == (if is_due(
                    (#[trigger] old(table).procs@[j]),
                    now,
                ) {
                    proc_with_state(old(table).procs@[j], ProcState::Runnable)
                } else {
                    old(table).procs@[j]
                }),
        decreases table.procs@.len() - i,
    {
        let p = table.procs[i];
        if let ProcState::Sleeping(until) = p.state {
            if now >= until {
                let mut q = p;
                q.state = ProcState::Runnable;
                table.procs.set(i, q);
            }
        }
        i = i + 1;
    }
}

/// The process–task link only reads each live process's slot and
/// stack and each task's stack and liveness, so process-state changes
/// that keep processes alive, paired with task transitions that keep
/// live tasks live, preserve it.
pub proof fn lemma_procs_link_states(
    t0: ProcessTable,
    t1: ProcessTable,
    s0: Scheduler,
    s1: Scheduler,
)
    requires
        procs_link(t0, s0),
        t1.procs@.len() == t0.procs@.len(),
        forall|i: int|
            0 <= i < t0.procs@.len() ==> {
                let p0 = #[trigger] t0.procs@[i];
                let p1 = t1.procs@[i];
                p1.slot == p0.slot && p1.stack_base == p0.stack_base && p1.stack_size
                    == p0.stack_size && (!(p1.state is Zombie) ==> !(p0.state is Zombie))
            },
        s1.task_count() == s0.task_count(),
        forall|k: int|
            0 <= k < s0.task_count() ==> {
                let u0 = #[trigger] s0.spec_tasks()[k];
                let u1 = s1.spec_tasks()[k];
                u1.stack_base == u0.stack_base && u1.stack_size == u0.stack_size && (!(u0.state
                    is Finished) ==> !(u1.state is Finished))
            },
    ensures
        procs_link(t1, s1),
{
    assert forall|i: int| t1.live(i) implies {
        let p = #[trigger] t1.procs@[i];
        &&& (p.slot as int) < s1.task_count()
        &&& !(s1.spec_tasks()[p.slot as int].state is Finished)
        &&& p.stack_base == s1.spec_tasks()[p.slot as int].stack_base
        &&& p.stack_size == s1.spec_tasks()[p.slot as int].stack_size
    } by {
        assert(t0.live(i));
        assert(t0.procs@[i].slot == t1.procs@[i].slot);
        let sl = t0.procs@[i].slot as int;
        assert(!(s0.spec_tasks()[sl].state is Finished));
        assert(s0.spec_tasks()[sl] == s0.spec_tasks()[sl]);
    };
    assert forall|i: int, j: int|
        #![trigger t1.procs@[i], t1.procs@[j]]
        t1.live(i) && t1.live(j) && i != j implies t1.procs@[i].slot != t1.procs@[j].slot by {
        assert(t0.live(i) && t0.live(j));
        assert(t0.procs@[i].slot != t0.procs@[j].slot);
    };
}

/// A process put to sleep at tick `t` for `ms` ticks stays Sleeping
/// under `wake_sleepers` at every tick before `t + ms`, and becomes
/// Runnable — not Running — once `wake_sleepers` runs at any tick at
/// or past `t + ms`.
pub proof fn lemma_sleep_until_wake(p: Process, t: u64, ms: u64, later: u64)
    requires
        p.state == ProcState::Sleeping(wake_tick(t, ms)),
        t + ms <= u64::MAX,
    ensures
        later < t + ms ==> !is_due(p, later),
        later < t + ms ==> (if is_due(p, later) {
            proc_with_state(p, ProcState::Runnable)
        } else {
            p
        }).state == ProcState::Sleeping(wake_tick(t, ms)),
        later >= t + ms ==> is_due(p, later),
        later >= t + ms ==> (if is_due(p, later) {
            proc_with_state(p, ProcState::Runnable)
        } else {
            p
        }).state is Runnable,
{
}

} // verus!

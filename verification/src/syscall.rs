//! Table-driven syscall dispatcher: a numbered operation set over the
//! kernel context. Each call carries up to three word arguments plus
//! the caller's byte buffer, and returns a signed word — non-negative
//! for success, negative for an error — together with any bytes
//! produced and, for calls that relinquish the processor, the slot to
//! switch into.

use vstd::prelude::*;

use crate::fs::find_file;
use crate::fs::list_files_syscall;
use crate::fs::listing;
use crate::fs::read_file_syscall;
use crate::kernel::Kernel;
use crate::process::Pid;
use crate::process::MAX_PID;
use crate::process::can_spawn_process;
use crate::process::exit_self;
use crate::process::current_pid;
use crate::process::lemma_procs_link_states;
use crate::process::proc_with_state;
use crate::process::process_exited;
use crate::process::sleep_ms;
use crate::process::spawned_some;
use crate::process::wake_tick;
use crate::process::ProcState;
use crate::scheduler::lemma_stacks_wf_states;
use crate::scheduler::next_ready;
use crate::scheduler::switch_to;

verus! {

/// Write bytes to a descriptor.
pub const SYS_WRITE: usize = 0;

/// Exit the process named by the first argument.
pub const SYS_EXIT: usize = 1;

/// List the file store's names into the caller's buffer.
pub const SYS_LIST_FILES: usize = 2;

/// Read a file by name.
pub const SYS_READ_FILE: usize = 3;

/// The calling process's pid.
pub const SYS_GETPID: usize = 4;

/// Spawn a process from a registered entry point.
pub const SYS_SPAWN: usize = 5;

/// Voluntarily relinquish the processor.
pub const SYS_YIELD: usize = 6;

/// Sleep the calling process for a number of ticks.
pub const SYS_SLEEP_MS: usize = 7;

/// Reserved sentinel for unknown syscall numbers.
pub const ERR_NOSYS: isize = -1;

/// The descriptor is not writable; only descriptor 1 is.
pub const ERR_BADF: isize = -2;

/// No live process matches (or no process is calling).
pub const ERR_NOPROC: isize = -3;

/// Resource exhaustion: frames, task slots, process slots or ids.
pub const ERR_NOMEM: isize = -4;

/// The entry-point handle or page count is not acceptable.
pub const ERR_BADENTRY: isize = -5;

/// What a syscall hands back: the signed result word, the slot the
/// caller must switch into when the call gave up the processor, and
/// any bytes the call produced.
pub struct SysResult {
    pub val: isize,
    pub switch_to: Option<usize>,
    pub out: Vec<u8>,
}

/// `par` is the pid of the process mapped onto the current slot (or
/// nothing, when no slot is current or no live process maps onto it).
pub open spec fn names_current_pid(k: Kernel, par: Option<Pid>) -> bool {
    match k.sched.spec_current() {
        None => par is None,
        Some(c) => match par {
            Some(p) => exists|i: int|
                #![trigger k.table.procs@[i]]
                k.table.live(i) && k.table.procs@[i].slot == c && k.table.procs@[i].pid == p,
            None => forall|i: int| k.table.live(i) ==> (#[trigger] k.table.procs@[i]).slot != c,
        },
    }
}

/// Every part of the kernel is as it was, except possibly the console.
pub open spec fn state_unchanged(pre: Kernel, post: Kernel) -> bool {
    &&& post.pmm == pre.pmm
    &&& post.sched == pre.sched
    &&& post.table == pre.table
    &&& post.fs == pre.fs
    &&& post.entries == pre.entries
}

/// The write service: descriptor 1 appends the bytes to the console
/// sink and returns their count; every other descriptor fails with
/// `ERR_BADF` and produces no console output.
pub open spec fn write_op(pre: Kernel, post: Kernel, fd: int, data: Seq<u8>, r: SysResult) -> bool {
    &&& state_unchanged(pre, post)
    &&& r.switch_to is None
    &&& r.out@.len() == 0
    &&& fd == 1 ==> r.val == data.len() && post.console@ == pre.console@ + data
    &&& fd != 1 ==> r.val == ERR_BADF && post.console == pre.console
}

/// The exit service: the live process named by the argument becomes a
/// Zombie, its task Finished, its frames free; an unknown or dead pid
/// fails with `ERR_NOPROC` and changes nothing. The caller must reach
/// a scheduling decision next: a finished task cannot be resumed.
pub open spec fn exit_op(pre: Kernel, post: Kernel, pid: int, r: SysResult) -> bool {
    &&& post.fs == pre.fs && post.entries == pre.entries && post.console == pre.console
    &&& r.switch_to is None
    &&& r.out@.len() == 0
    &&& (r.val == 0 <==> exists|i: int|
        #![trigger pre.table.procs@[i]]
        pre.table.live(i) && pre.table.procs@[i].pid == pid)
    &&& r.val == 0 ==> exists|i: int|
        pre.table.live(i) && (#[trigger] pre.table.procs@[i]).pid == pid && process_exited(
            pre.table,
            post.table,
            pre.sched,
            post.sched,
            pre.pmm,
            post.pmm,
            i,
        )
    &&& r.val != 0 ==> r.val == ERR_NOPROC && state_unchanged(pre, post)
}

/// The listing service: the newline-separated file names, cut to the
/// caller's buffer size, and their count.
pub open spec fn list_op(pre: Kernel, post: Kernel, limit: int, r: SysResult) -> bool {
    &&& state_unchanged(pre, post) && post.console == pre.console
    &&& r.switch_to is None
    &&& r.out@ == listing(pre.fs.spec_names()).take(
        if limit <= listing(pre.fs.spec_names()).len() {
            limit
        } else {
            listing(pre.fs.spec_names()).len() as int
        },
    )
    &&& r.val == r.out@.len()
}

/// The read service: the named file's bytes and their count, or zero
/// bytes and a zero result when no file has that name.
pub open spec fn read_op(pre: Kernel, post: Kernel, name: Seq<u8>, r: SysResult) -> bool {
    &&& state_unchanged(pre, post) && post.console == pre.console
    &&& r.switch_to is None
    &&& match find_file(pre.fs.spec_names(), name) {
        Some(i) => r.out@ == pre.fs.spec_contents()[i] && r.val == r.out@.len(),
        None => r.out@.len() == 0 && r.val == 0,
    }
}

/// The getpid service: the calling process's pid, or `ERR_NOPROC`
/// when no live process is mapped onto the current slot.
pub open spec fn getpid_op(pre: Kernel, post: Kernel, r: SysResult) -> bool {
    &&& state_unchanged(pre, post) && post.console == pre.console
    &&& r.switch_to is None
    &&& r.out@.len() == 0
    &&& r.val >= 0 ==> 1 <= r.val <= MAX_PID && names_current_pid(pre, Some(r.val as Pid))
    &&& r.val < 0 ==> r.val == ERR_NOPROC && names_current_pid(pre, None::<Pid>)
}

/// The spawn service: a validated entry-point handle and a page
/// count give a new Ready process child of the caller, and its pid
/// comes back. A handle outside the registered table or a zero page
/// count fails with `ERR_BADENTRY`; exhaustion — and in particular
/// asking for more pages than there are free frames — fails with
/// `ERR_NOMEM`. No failure leaks a frame, a task slot or a pid.
pub open spec fn spawn_op(pre: Kernel, post: Kernel, handle: int, pages: int, r: SysResult) -> bool {
    &&& post.fs == pre.fs && post.entries == pre.entries && post.console == pre.console
    &&& r.switch_to is None
    &&& r.out@.len() == 0
    &&& (handle >= pre.entries@.len() || pages < 1) ==> r.val == ERR_BADENTRY && state_unchanged(
        pre,
        post,
    )
    &&& handle < pre.entries@.len() && pages >= 1 ==> {
        &&& pages > pre.pmm.spec_free() ==> r.val == ERR_NOMEM
        &&& can_spawn_process(pre.sched, pre.pmm, pre.table, pages) ==> r.val >= 0
        &&& r.val >= 0 ==> {
            &&& r.val == pre.table.next_pid
            &&& post.table.next_pid == pre.table.next_pid + 1
            &&& post.pmm.spec_free() == pre.pmm.spec_free() - pages
            &&& exists|par: Option<Pid>|
                #[trigger] names_current_pid(pre, par) && spawned_some(
                    pre.table,
                    post.table,
                    pre.sched,
                    post.sched,
                    post.pmm,
                    (r.val as Pid),
                    pages,
                    par,
                )
        }
        &&& r.val < 0 ==> {
            &&& r.val == ERR_NOMEM
            &&& post.table == pre.table
            &&& post.pmm.spec_free() == pre.pmm.spec_free()
            &&& forall|x: int|
                0 <= x < pre.pmm.spec_total() ==> post.pmm.used(x) == pre.pmm.used(x)
            &&& forall|x: int|
                0 <= x < pre.sched.task_count() && !((#[trigger] pre.sched.spec_tasks()[x]).state
                    is Finished) ==> post.sched.spec_tasks()[x] == pre.sched.spec_tasks()[x]
            &&& post.sched.spec_current() == pre.sched.spec_current()
        }
    }
}

/// The yield service: one round-robin step away from the caller, as
/// `Scheduler::task_yield` decides it; `ERR_NOPROC` when no task is
/// current.
pub open spec fn yield_op(pre: Kernel, post: Kernel, r: SysResult) -> bool {
    &&& post.pmm == pre.pmm && post.table == pre.table && post.fs == pre.fs && post.entries
        == pre.entries && post.console == pre.console
    &&& r.out@.len() == 0
    &&& pre.sched.spec_current() is None ==> r.val == ERR_NOPROC && r.switch_to is None
        && post.sched == pre.sched
    &&& pre.sched.spec_current() matches Some(c) ==> {
        &&& r.val == 0
        &&& match r.switch_to {
            Some(j) => {
                &&& next_ready(pre.sched.spec_tasks(), c as int + 1) == Some(j as int)
                &&& switch_to(pre.sched, post.sched, c as int, j as int)
            },
            None => {
                &&& next_ready(pre.sched.spec_tasks(), c as int + 1) is None
                &&& post.sched == pre.sched
            },
        }
    }
}

/// The sleep service: the calling process goes Sleeping until the
/// current tick plus the argument; `ERR_NOPROC` when no live process
/// is calling. The caller is expected to yield next.
pub open spec fn sleep_op(pre: Kernel, post: Kernel, ms: u64, r: SysResult) -> bool {
    &&& post.pmm == pre.pmm && post.sched == pre.sched && post.fs == pre.fs && post.entries
        == pre.entries && post.console == pre.console
    &&& r.switch_to is None
    &&& r.out@.len() == 0
    &&& r.val < 0 ==> r.val == ERR_NOPROC && names_current_pid(pre, None::<Pid>) && post.table
        == pre.table
    &&& r.val >= 0 ==> {
        &&& r.val == 0
        &&& exists|pid: Pid|
            {
                &&& #[trigger] names_current_pid(pre, Some(pid))
                &&& post.table.next_pid == pre.table.next_pid
                &&& post.table.procs@.len() == pre.table.procs@.len()
                &&& forall|i: int|
                    pre.table.live(i) && (#[trigger] pre.table.procs@[i]).pid == pid
                        ==> post.table.procs@[i] == proc_with_state(
                        pre.table.procs@[i],
                        ProcState::Sleeping(wake_tick(pre.sched.spec_ticks(), ms)),
                    )
                &&& forall|i: int|
                    0 <= i < pre.table.procs@.len() && !(pre.table.live(i)
                        && (#[trigger] pre.table.procs@[i]).pid == pid) ==> post.table.procs@[i]
                        == pre.table.procs@[i]
            }
    }
}

/// Dispatch one syscall against the kernel: `num` selects the
/// operation, `a1` and `a2` carry its word arguments, `a3` is
/// reserved, and `data` is the caller's byte buffer (what it wrote,
/// or the name it asks for). Unknown numbers return the reserved
/// sentinel and change nothing.
pub fn syscall_handler(k: &mut Kernel, num: usize, a1: usize, a2: usize, a3: usize, data: &[u8])
    -> (r: SysResult)
    requires
        old(k).wf(),
        data@.len() <= isize::MAX,
        num == SYS_LIST_FILES ==> a1 <= isize::MAX,
    ensures
        final(k).wf(),
        num == SYS_WRITE ==> write_op(*old(k), *final(k), a1 as int, data@, r),
        num == SYS_EXIT ==> exit_op(*old(k), *final(k), a1 as int, r),
        num == SYS_LIST_FILES ==> list_op(*old(k), *final(k), a1 as int, r),
        num == SYS_READ_FILE ==> read_op(*old(k), *final(k), data@, r),
        num == SYS_GETPID ==> getpid_op(*old(k), *final(k), r),
        num == SYS_SPAWN ==> spawn_op(*old(k), *final(k), a1 as int, a2 as int, r),
        num == SYS_YIELD ==> yield_op(*old(k), *final(k), r),
        num == SYS_SLEEP_MS ==> sleep_op(*old(k), *final(k), a1 as u64, r),
        num > SYS_SLEEP_MS ==> r.val == ERR_NOSYS && *final(k) == *old(k) && r.switch_to is None
            && r.out@.len() == 0,
{
    if num == SYS_WRITE {
        let val = sys_write(&mut k.console, a1, data);
        SysResult { val, switch_to: None, out: Vec::new() }
    } else if num == SYS_EXIT {
        if a1 > MAX_PID as usize {
            proof {
                assert forall|i: int|
                    old(k).table.live(i) implies (#[trigger] old(k).table.procs@[i]).pid
                    != a1 by {};
            }
            return SysResult { val: ERR_NOPROC, switch_to: None, out: Vec::new() };
        }
        let ok = exit_self(&mut k.sched, &mut k.pmm, &mut k.table, a1 as Pid);
        let val = if ok {
            0
        } else {
            ERR_NOPROC
        };
        SysResult { val, switch_to: None, out: Vec::new() }
    } else if num == SYS_LIST_FILES {
        let out = list_files_syscall(&k.fs, a1);
        let val = out.len() as isize;
        SysResult { val, switch_to: None, out }
    } else if num == SYS_READ_FILE {
        match read_file_syscall(&k.fs, data) {
            Some(out) => {
                let ghost i = find_file(k.fs.spec_names(), data@)->0;
                proof {
                    crate::fs::lemma_find_file_in_range(k.fs.spec_names(), data@);
                    assert(k.fs.spec_contents()[i].len() <= isize::MAX);
                }
                let val = out.len() as isize;
                SysResult { val, switch_to: None, out }
            },
            None => SysResult { val: 0, switch_to: None, out: Vec::new() },
        }
    } else if num == SYS_GETPID {
        let val = sys_getpid(&k.sched, &k.table);
        SysResult { val, switch_to: None, out: Vec::new() }
    } else if num == SYS_SPAWN {
        sys_spawn(k, a1, a2)
    } else if num == SYS_YIELD {
        if k.sched.current_index().is_none() {
            return SysResult { val: ERR_NOPROC, switch_to: None, out: Vec::new() };
        }
        let target = k.sched.task_yield();
        proof {
            lemma_stacks_wf_states(old(k).sched, k.sched, k.pmm);
            lemma_procs_link_states(old(k).table, k.table, old(k).sched, k.sched);
        }
        SysResult { val: 0, switch_to: target, out: Vec::new() }
    } else if num == SYS_SLEEP_MS {
        let pid = match current_pid(&k.sched, &k.table) {
            Some(pid) => pid,
            None => {
                return SysResult { val: ERR_NOPROC, switch_to: None, out: Vec::new() };
            },
        };
        let now = k.sched.ticks();
        sleep_ms(&mut k.table, pid, now, a1 as u64);
        proof {
            lemma_procs_link_states(old(k).table, k.table, old(k).sched, k.sched);
            assert(names_current_pid(*old(k), Some(pid)));
        }
        SysResult { val: 0, switch_to: None, out: Vec::new() }
    } else {
        SysResult { val: ERR_NOSYS, switch_to: None, out: Vec::new() }
    }
}

/// The spawn service behind `SYS_SPAWN`: validate the entry handle
/// and page count, then create the process as a child of the caller.
#[verifier::rlimit(50)]
fn sys_spawn(k: &mut Kernel, a1: usize, a2: usize) -> (r: SysResult)
    requires
        old(k).wf(),
    ensures
        final(k).wf(),
        spawn_op(*old(k), *final(k), a1 as int, a2 as int, r),
{
    if a1 >= k.entries.len() || a2 == 0 {
        return SysResult { val: ERR_BADENTRY, switch_to: None, out: Vec::new() };
    }
    let parent = current_pid(&k.sched, &k.table);
    let entry = k.entries[a1];
    match crate::process::spawn(&mut k.sched, &mut k.pmm, &mut k.table, entry, a2, parent) {
        Some(pid) => {
            proof {
                assert(names_current_pid(*old(k), parent) && spawned_some(
                    old(k).table,
                    k.table,
                    old(k).sched,
                    k.sched,
                    k.pmm,
                    pid,
                    a2 as int,
                    parent,
                ));
            }
            SysResult { val: pid as isize, switch_to: None, out: Vec::new() }
        },
        None => SysResult { val: ERR_NOMEM, switch_to: None, out: Vec::new() },
    }
}

/// The raw write service: only descriptor 1, the console, accepts
/// bytes; they are appended to the sink verbatim (decoding is the
/// console writer's business) and counted. Any other descriptor
/// fails with `ERR_BADF` and no output appears.
pub fn sys_write(console: &mut Vec<u8>, fd: usize, data: &[u8]) -> (r: isize)
    requires
        data@.len() <= isize::MAX,
    ensures
        fd == 1 ==> r == data@.len() && final(console)@ == old(console)@ + data@,
        fd != 1 ==> r == ERR_BADF && *final(console) == *old(console),
{
    if fd != 1 {
        return ERR_BADF;
    }
    let mut i: usize = 0;
    while i < data.len()
        invariant
            i <= data@.len(),
            console@ == old(console)@ + data@.take(i as int),
        decreases data@.len() - i,
    {
        console.push(data[i]);
        i = i + 1;
    }
    proof {
        assert(data@.take(data@.len() as int) =~= data@);
    }
    data.len() as isize
}

/// The calling process's pid: the pid of the live process mapped onto
/// the current slot, or `ERR_NOPROC` when there is none.
pub fn sys_getpid(sched: &crate::scheduler::Scheduler, table: &crate::process::ProcessTable) -> (r:
    isize)
    requires
        table.wf(),
    ensures
        r >= 0 ==> 1 <= r <= MAX_PID,
        r >= 0 ==> match sched.spec_current() {
            Some(c) => exists|i: int|
                #![trigger table.procs@[i]]
                table.live(i) && table.procs@[i].slot == c && table.procs@[i].pid == r,
            None => false,
        },
        r < 0 ==> r == ERR_NOPROC && match sched.spec_current() {
            Some(c) => forall|i: int| table.live(i) ==> (#[trigger] table.procs@[i]).slot != c,
            None => true,
        },
{
    match current_pid(sched, table) {
        Some(pid) => pid as isize,
        None => ERR_NOPROC,
    }
}

} // verus!

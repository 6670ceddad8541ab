use nexis::kernel::Kernel;
use nexis::memory::PhysicalMemoryManager;
use nexis::process::ProcState;
use nexis::process::ProcessTable;
use nexis::process::current_pid;
use nexis::process::exit_self;
use nexis::process::pid_to_slot;
use nexis::process::sleep_ms;
use nexis::process::spawn;
use nexis::process::wake_sleepers;
use nexis::scheduler::Scheduler;
use nexis::syscall::ERR_BADENTRY;
use nexis::syscall::ERR_BADF;
use nexis::syscall::ERR_NOMEM;
use nexis::syscall::ERR_NOPROC;
use nexis::syscall::ERR_NOSYS;
use nexis::syscall::SYS_EXIT;
use nexis::syscall::SYS_GETPID;
use nexis::syscall::SYS_LIST_FILES;
use nexis::syscall::SYS_READ_FILE;
use nexis::syscall::SYS_SLEEP_MS;
use nexis::syscall::SYS_SPAWN;
use nexis::syscall::SYS_WRITE;
use nexis::syscall::SYS_YIELD;
use nexis::syscall::syscall_handler;

const FRAME: usize = 4096;

fn pool(frames: usize) -> PhysicalMemoryManager {
    let mut pm = PhysicalMemoryManager::new_uninit();
    pm.init((frames + 7) / 8, 0x100000 / FRAME, frames);
    pm
}

fn kernel(frames: usize) -> Kernel {
    Kernel::new(0x100000 / FRAME, frames, vec![0xaaaa, 0xbbbb])
}

#[test]
fn process_spawn_hands_out_monotonic_pids() {
    let mut pm = pool(16);
    let mut s = Scheduler::new();
    let mut t = ProcessTable::new();
    let p1 = spawn(&mut s, &mut pm, &mut t, 0x1111, 2, None).unwrap();
    let p2 = spawn(&mut s, &mut pm, &mut t, 0x2222, 2, Some(p1)).unwrap();
    assert_eq!(p1, 1);
    assert_eq!(p2, 2);
    assert_eq!(pm.free_frames(), 12);
    let s1 = pid_to_slot(&t, p1).unwrap();
    let s2 = pid_to_slot(&t, p2).unwrap();
    assert_ne!(s1, s2);
    assert!(pid_to_slot(&t, 99).is_none());
}

#[test]
fn process_spawn_failure_keeps_free_count() {
    let mut pm = pool(4);
    let mut s = Scheduler::new();
    let mut t = ProcessTable::new();
    assert!(spawn(&mut s, &mut pm, &mut t, 0x1111, 8, None).is_none());
    assert_eq!(pm.free_frames(), 4);
}

#[test]
fn exit_self_returns_frames_and_reports_unknown_pids() {
    let mut pm = pool(8);
    let mut s = Scheduler::new();
    let mut t = ProcessTable::new();
    let before = pm.free_frames();
    let pid = spawn(&mut s, &mut pm, &mut t, 0x1111, 3, None).unwrap();
    assert_eq!(pm.free_frames(), before - 3);
    assert!(exit_self(&mut s, &mut pm, &mut t, pid));
    assert_eq!(pm.free_frames(), before);
    // a second exit of the same pid is a no-op returning false
    assert!(!exit_self(&mut s, &mut pm, &mut t, pid));
    assert!(!exit_self(&mut s, &mut pm, &mut t, 1234));
    assert_eq!(pm.free_frames(), before);
}

#[test]
fn sleep_then_wake_at_the_right_tick() {
    let mut pm = pool(8);
    let mut s = Scheduler::new();
    let mut t = ProcessTable::new();
    let pid = spawn(&mut s, &mut pm, &mut t, 0x1111, 1, None).unwrap();
    let slot = pid_to_slot(&t, pid).unwrap();
    let entry = t.procs.iter().position(|p| p.pid == pid && p.slot == slot).unwrap();

    // sleep_ms(pid, ms) at tick 5 puts the process in Sleeping(15)
    sleep_ms(&mut t, pid, 5, 10);
    assert_eq!(t.procs[entry].state, ProcState::Sleeping(15));

    // wake_sleepers before tick 15 leaves it Sleeping
    wake_sleepers(&mut t, 14);
    assert_eq!(t.procs[entry].state, ProcState::Sleeping(15));

    // at tick 15 it becomes Runnable — not Running
    wake_sleepers(&mut t, 15);
    assert_eq!(t.procs[entry].state, ProcState::Runnable);
}

#[test]
fn sleep_saturates_at_the_top_of_the_tick_range() {
    let mut pm = pool(8);
    let mut s = Scheduler::new();
    let mut t = ProcessTable::new();
    let pid = spawn(&mut s, &mut pm, &mut t, 0x1111, 1, None).unwrap();
    let entry = t.procs.iter().position(|p| p.pid == pid).unwrap();
    sleep_ms(&mut t, pid, u64::MAX - 1, 10);
    assert_eq!(t.procs[entry].state, ProcState::Sleeping(u64::MAX));
}

#[test]
fn current_pid_follows_the_scheduler() {
    let mut pm = pool(8);
    let mut s = Scheduler::new();
    let mut t = ProcessTable::new();
    assert!(current_pid(&s, &t).is_none());
    let pid = spawn(&mut s, &mut pm, &mut t, 0x1111, 1, None).unwrap();
    // still none: nothing has been scheduled yet
    assert!(current_pid(&s, &t).is_none());
    assert!(s.schedule().is_some());
    assert_eq!(current_pid(&s, &t), Some(pid));
}

#[test]
fn write_to_console_appends_bytes() {
    let mut k = kernel(16);
    let r = syscall_handler(&mut k, SYS_WRITE, 1, 0, 0, b"hi there");
    assert_eq!(r.val, 8);
    assert_eq!(k.console, b"hi there".to_vec());
    let r2 = syscall_handler(&mut k, SYS_WRITE, 1, 0, 0, b"!");
    assert_eq!(r2.val, 1);
    assert_eq!(k.console, b"hi there!".to_vec());
}

#[test]
fn write_to_wrong_descriptor_produces_no_output() {
    let mut k = kernel(16);
    // fd != 1: negative result, no console output
    let r = syscall_handler(&mut k, SYS_WRITE, 0, 0, 0, b"nope");
    assert!(r.val < 0);
    assert_eq!(r.val, ERR_BADF);
    assert!(k.console.is_empty());
    let r2 = syscall_handler(&mut k, SYS_WRITE, 2, 0, 0, b"nope");
    assert!(r2.val < 0);
    assert!(k.console.is_empty());
}

#[test]
fn unknown_syscall_number_returns_the_sentinel() {
    let mut k = kernel(16);
    let r = syscall_handler(&mut k, 99, 1, 2, 3, b"");
    assert_eq!(r.val, ERR_NOSYS);
    assert!(r.out.is_empty());
    assert!(r.switch_to.is_none());
    assert!(k.console.is_empty());
}

#[test]
fn list_files_fills_and_truncates() {
    let mut k = kernel(16);
    let r = syscall_handler(&mut k, SYS_LIST_FILES, 512, 0, 0, b"");
    assert_eq!(r.out, b"readme.txt\nhello.txt\n".to_vec());
    assert_eq!(r.val, 21);
    let r2 = syscall_handler(&mut k, SYS_LIST_FILES, 5, 0, 0, b"");
    assert_eq!(r2.out, b"readm".to_vec());
    assert_eq!(r2.val, 5);
}

#[test]
fn read_file_by_name() {
    let mut k = kernel(16);
    let r = syscall_handler(&mut k, SYS_READ_FILE, 0, 0, 0, b"hello.txt");
    assert_eq!(r.out, b"Hello from Nexis FS layer!\n".to_vec());
    assert_eq!(r.val, 27);
    let miss = syscall_handler(&mut k, SYS_READ_FILE, 0, 0, 0, b"missing.txt");
    assert_eq!(miss.val, 0);
    assert!(miss.out.is_empty());
}

#[test]
fn spawn_syscall_validates_the_handle() {
    let mut k = kernel(16);
    // out-of-table handle
    let r = syscall_handler(&mut k, SYS_SPAWN, 7, 2, 0, b"");
    assert_eq!(r.val, ERR_BADENTRY);
    // zero pages
    let r2 = syscall_handler(&mut k, SYS_SPAWN, 0, 0, 0, b"");
    assert_eq!(r2.val, ERR_BADENTRY);
    // a valid handle spawns pid 1
    let r3 = syscall_handler(&mut k, SYS_SPAWN, 0, 2, 0, b"");
    assert_eq!(r3.val, 1);
    assert_eq!(k.pmm.free_frames(), 14);
    // more pages than free frames
    let r4 = syscall_handler(&mut k, SYS_SPAWN, 1, 15, 0, b"");
    assert_eq!(r4.val, ERR_NOMEM);
    assert_eq!(k.pmm.free_frames(), 14);
}

#[test]
fn getpid_yield_sleep_need_a_calling_process() {
    let mut k = kernel(16);
    assert_eq!(syscall_handler(&mut k, SYS_GETPID, 0, 0, 0, b"").val, ERR_NOPROC);
    assert_eq!(syscall_handler(&mut k, SYS_YIELD, 0, 0, 0, b"").val, ERR_NOPROC);
    assert_eq!(syscall_handler(&mut k, SYS_SLEEP_MS, 5, 0, 0, b"").val, ERR_NOPROC);
}

#[test]
fn getpid_names_the_running_process() {
    let mut k = kernel(16);
    let pid = syscall_handler(&mut k, SYS_SPAWN, 0, 1, 0, b"").val;
    assert_eq!(pid, 1);
    assert!(k.sched.schedule().is_some());
    let r = syscall_handler(&mut k, SYS_GETPID, 0, 0, 0, b"");
    assert_eq!(r.val, pid);
}

#[test]
fn yield_syscall_alternates_two_tasks() {
    let mut k = kernel(16);
    assert_eq!(syscall_handler(&mut k, SYS_SPAWN, 0, 1, 0, b"").val, 1);
    assert_eq!(syscall_handler(&mut k, SYS_SPAWN, 1, 1, 0, b"").val, 2);
    let first = k.sched.schedule().expect("a task is ready");
    let r = syscall_handler(&mut k, SYS_YIELD, 0, 0, 0, b"");
    assert_eq!(r.val, 0);
    let second = r.switch_to.expect("the other task runs next");
    assert_ne!(first, second);
    let back = syscall_handler(&mut k, SYS_YIELD, 0, 0, 0, b"");
    assert_eq!(back.switch_to, Some(first));
}

#[test]
fn sleep_syscall_uses_the_tick_counter() {
    let mut k = kernel(16);
    assert_eq!(syscall_handler(&mut k, SYS_SPAWN, 0, 1, 0, b"").val, 1);
    assert!(k.sched.schedule().is_some());
    k.tick();
    k.tick();
    let r = syscall_handler(&mut k, SYS_SLEEP_MS, 10, 0, 0, b"");
    assert_eq!(r.val, 0);
    let entry = k.table.procs.iter().position(|p| p.pid == 1).unwrap();
    // slept at tick 2 for 10: wake tick 12
    assert_eq!(k.table.procs[entry].state, ProcState::Sleeping(12));
}

#[test]
fn exit_syscall_frees_and_rejects_dead_pids() {
    let mut k = kernel(16);
    assert_eq!(syscall_handler(&mut k, SYS_SPAWN, 0, 3, 0, b"").val, 1);
    assert_eq!(k.pmm.free_frames(), 13);
    assert_eq!(syscall_handler(&mut k, SYS_EXIT, 1, 0, 0, b"").val, 0);
    assert_eq!(k.pmm.free_frames(), 16);
    assert_eq!(syscall_handler(&mut k, SYS_EXIT, 1, 0, 0, b"").val, ERR_NOPROC);
    // a pid beyond the pid space cannot name a process
    assert_eq!(syscall_handler(&mut k, SYS_EXIT, usize::MAX, 0, 0, b"").val, ERR_NOPROC);
}

#[test]
fn kernel_checkpoint_wakes_then_schedules() {
    let mut k = kernel(16);
    assert_eq!(syscall_handler(&mut k, SYS_SPAWN, 0, 1, 0, b"").val, 1);
    let slot = k.sched.schedule().expect("task ready");
    // the process sleeps for 2 ticks and the task yields away
    assert_eq!(syscall_handler(&mut k, SYS_SLEEP_MS, 2, 0, 0, b"").val, 0);
    let entry = k.table.procs.iter().position(|p| p.pid == 1).unwrap();
    assert_eq!(k.table.procs[entry].state, ProcState::Sleeping(2));
    // nothing pending: the checkpoint does nothing
    assert!(k.checkpoint().is_none());
    assert_eq!(k.table.procs[entry].state, ProcState::Sleeping(2));
    // two timer ticks later the checkpoint wakes the process
    k.tick();
    k.tick();
    let r = k.checkpoint();
    assert_eq!(k.table.procs[entry].state, ProcState::Runnable);
    // the running task was the only one; it stays current
    assert_eq!(r, None);
    assert_eq!(k.sched.current_index(), Some(slot));
}

use nexis::memory::PhysicalMemoryManager;
use nexis::scheduler::Scheduler;
use nexis::task::Task;
use nexis::task::TaskState;
use nexis::task::prepare_stack;

const FRAME: usize = 4096;

fn pool(frames: usize) -> PhysicalMemoryManager {
    let mut pm = PhysicalMemoryManager::new_uninit();
    pm.init((frames + 7) / 8, 0x100000 / FRAME, frames);
    pm
}

#[test]
fn prepare_stack_primes_the_switch_frame() {
    let ctx = prepare_stack(0xdead_b000, 0x200000, 8192);
    // the stack top 0x202000 is already 16-byte aligned; seven words
    // sit right below it
    assert_eq!(ctx.sp, 0x202000 - 56);
    assert_eq!(ctx.words.len(), 7);
    for i in 0..6 {
        assert_eq!(ctx.words[i], 0);
    }
    // the last word is what the final `ret` jumps to
    assert_eq!(ctx.words[6], 0xdead_b000);
}

#[test]
fn prepare_stack_aligns_an_odd_top() {
    let ctx = prepare_stack(0x1000, 0x300000, 4095 + 4096);
    let top = 0x300000 + 4095 + 4096;
    let aligned = top - top % 16;
    assert_eq!(ctx.sp + 56, aligned);
    assert!(ctx.sp >= 0x300000);
}

#[test]
fn spawn_allocates_contiguous_stack() {
    let mut pm = pool(16);
    let mut s = Scheduler::new();
    let slot = s.spawn(&mut pm, 0x1111, 4).expect("spawn fits");
    assert_eq!(slot, 0);
    assert_eq!(pm.free_frames(), 12);
    let (base, size) = s.task_stack(slot);
    assert_eq!(base, 0x100000);
    assert_eq!(size, 4 * FRAME);
    // all four stack frames are owned now
    for i in 0..4 {
        assert!(pm.is_used(base + i * FRAME));
    }
}

#[test]
fn spawn_beyond_free_frames_fails_without_leak() {
    let mut pm = pool(8);
    let mut s = Scheduler::new();
    assert!(s.spawn(&mut pm, 0x1111, 4).is_some());
    assert_eq!(pm.free_frames(), 4);
    // more pages than free frames: fails, free count untouched
    assert!(s.spawn(&mut pm, 0x2222, 8).is_none());
    assert_eq!(pm.free_frames(), 4);
}

#[test]
fn third_spawn_from_eight_frames_fails() {
    // two tasks of 4 pages each from a pool of exactly 8 free frames
    let mut pm = pool(8);
    let mut s = Scheduler::new();
    let a = s.spawn(&mut pm, 0x1111, 4).expect("first task fits");
    let b = s.spawn(&mut pm, 0x2222, 4).expect("second task fits");
    assert_eq!(pm.free_frames(), 0);
    let (base_a, size_a) = s.task_stack(a);
    let (base_b, size_b) = s.task_stack(b);

    // a third spawn of 4 pages fails with None
    assert!(s.spawn(&mut pm, 0x3333, 4).is_none());

    // and leaves both existing tasks unaffected
    assert_eq!(pm.free_frames(), 0);
    assert_eq!(s.task_stack(a), (base_a, size_a));
    assert_eq!(s.task_stack(b), (base_b, size_b));
    for i in 0..4 {
        assert!(pm.is_used(base_a + i * FRAME));
        assert!(pm.is_used(base_b + i * FRAME));
    }
}

#[test]
fn exit_returns_exactly_the_frames_given() {
    let mut pm = pool(16);
    let mut s = Scheduler::new();
    let before = pm.free_frames();
    let slot = s.spawn(&mut pm, 0x1111, 4).unwrap();
    assert_eq!(pm.free_frames(), before - 4);
    let (base, _) = s.task_stack(slot);
    s.task_exit(&mut pm, slot);
    // the free count is back at its pre-spawn value
    assert_eq!(pm.free_frames(), before);
    for i in 0..4 {
        assert!(!pm.is_used(base + i * FRAME));
    }
    // the slot is reusable: the next spawn takes it again
    let slot2 = s.spawn(&mut pm, 0x2222, 2).unwrap();
    assert_eq!(slot2, slot);
}

#[test]
fn two_yielding_tasks_alternate() {
    let mut pm = pool(8);
    let mut s = Scheduler::new();
    let a = s.spawn(&mut pm, 0x1111, 2).unwrap();
    let b = s.spawn(&mut pm, 0x2222, 2).unwrap();
    assert!(s.current_index().is_none());

    // the first decision picks the first Ready task
    assert_eq!(s.schedule(), Some(a));
    assert_eq!(s.current_index(), Some(a));

    // with exactly two tasks that alternately yield, each executes
    // before either repeats
    assert_eq!(s.task_yield(), Some(b));
    assert_eq!(s.current_index(), Some(b));
    assert_eq!(s.task_yield(), Some(a));
    assert_eq!(s.current_index(), Some(a));
    assert_eq!(s.task_yield(), Some(b));
    assert_eq!(s.task_yield(), Some(a));
}

#[test]
fn yield_alone_keeps_running() {
    let mut pm = pool(4);
    let mut s = Scheduler::new();
    let a = s.spawn(&mut pm, 0x1111, 1).unwrap();
    assert_eq!(s.schedule(), Some(a));
    // no other Ready task: the caller keeps the processor
    assert_eq!(s.task_yield(), None);
    assert_eq!(s.current_index(), Some(a));
    let t = s.current_task().expect("a task is current");
    assert!(matches!(t.state, TaskState::Running));
}

#[test]
fn schedule_with_no_ready_task_idles() {
    let mut s = Scheduler::new();
    assert!(s.schedule().is_none());
    assert!(s.current_index().is_none());
    assert!(s.current_task().is_none());
}

#[test]
fn exit_of_current_clears_current() {
    let mut pm = pool(4);
    let mut s = Scheduler::new();
    let a = s.spawn(&mut pm, 0x1111, 1).unwrap();
    assert_eq!(s.schedule(), Some(a));
    s.task_exit(&mut pm, a);
    assert!(s.current_index().is_none());
    assert!(s.schedule().is_none());
}

#[test]
fn checkpoint_acts_only_on_the_flag() {
    let mut pm = pool(4);
    let mut s = Scheduler::new();
    let a = s.spawn(&mut pm, 0x1111, 1).unwrap();
    // no reschedule requested: nothing happens
    assert!(s.check_and_schedule().is_none());
    assert!(s.current_index().is_none());
    // the timer requests one; the next checkpoint acts once
    s.tick();
    assert_eq!(s.ticks(), 1);
    assert_eq!(s.check_and_schedule(), Some(a));
    // the flag is consumed
    assert!(s.check_and_schedule().is_none());
    assert_eq!(s.current_index(), Some(a));
}

#[test]
fn add_task_appends_ready_tasks() {
    let mut pm = pool(8);
    let mut s = Scheduler::new();
    let slot = s.spawn(&mut pm, 0x1111, 1).unwrap();
    let (base, size) = s.task_stack(slot);
    s.task_exit(&mut pm, slot);
    let t = Task {
        id: 0,
        context: prepare_stack(0x4444, base, size),
        stack_base: base,
        stack_size: size,
        state: TaskState::Ready,
    };
    let added = s.add_task(t).expect("table has room");
    assert_eq!(added, 1);
    assert_eq!(s.task_stack(added), (base, size));
}

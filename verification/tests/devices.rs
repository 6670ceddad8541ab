use nexis::fs::fs_init;
use nexis::fs::list_files_syscall;
use nexis::fs::read_file_syscall;
use nexis::heap::init_heap;
use nexis::kb::Kb;
use nexis::kb::ScancodeQueue;
use nexis::kb::XorShift64;
use nexis::vga::VgaWriter;
use nexis::vga::vprintln_impl;

#[test]
fn xorshift_step_has_exact_values() {
    let mut rng = XorShift64::new(1);
    // 1 ^= 1<<13; ^= >>7; ^= <<17 gives exactly this word
    assert_eq!(rng.next_u64(), 1082269761);
    assert_eq!(rng.next_u64(), 1152992998833853505);
    let mut rng2 = XorShift64::new(0xabcdef123456789);
    assert_eq!(rng2.next_u64(), 17192850271188233990);
}

#[test]
fn xorshift_low_byte_and_range() {
    let mut rng = XorShift64::new(1);
    assert_eq!(rng.next_u8(), 65);
    let mut rng2 = XorShift64::new(7);
    for _ in 0..50 {
        let v = rng2.next_range_u8(33, 126);
        assert!((33..=126).contains(&v));
    }
    // a one-value range always returns that value
    let mut rng3 = XorShift64::new(9);
    assert_eq!(rng3.next_range_u8(42, 42), 42);
}

#[test]
fn scancode_queue_is_fifo() {
    let mut q = ScancodeQueue::new();
    assert_eq!(q.pop(), None);
    q.push(10);
    q.push(20);
    q.push(30);
    assert_eq!(q.pop(), Some(10));
    assert_eq!(q.pop(), Some(20));
    assert_eq!(q.pop(), Some(30));
    assert_eq!(q.pop(), None);
}

#[test]
fn full_queue_drops_new_scancodes() {
    let mut q = ScancodeQueue::new();
    // capacity is 1024 slots with one kept unused
    for i in 0..1023u32 {
        q.push((i % 251) as u8);
    }
    // this one is dropped
    q.push(0xff);
    for i in 0..1023u32 {
        assert_eq!(q.pop(), Some((i % 251) as u8));
    }
    assert_eq!(q.pop(), None);
}

#[test]
fn keyboard_front_half_queues_scancodes() {
    let mut kb = Kb::init();
    assert_eq!(kb.pop_scancode(), None);
    kb.push_scancode(0x1e);
    kb.push_scancode(0x9e);
    assert_eq!(kb.pop_scancode(), Some(0x1e));
    assert_eq!(kb.pop_scancode(), Some(0x9e));
    assert_eq!(kb.pop_scancode(), None);
}

#[test]
fn writer_places_characters_with_color() {
    let mut w = VgaWriter::new();
    assert_eq!(w.cursor(), (0, 0));
    w.write_str("AB");
    assert_eq!(w.cell(0, 0), (b'A', 0x0f));
    assert_eq!(w.cell(0, 1), (b'B', 0x0f));
    assert_eq!(w.cell(0, 2), (b' ', 0x0f));
    assert_eq!(w.cursor(), (0, 2));
}

#[test]
fn newline_and_carriage_return_move_the_cursor() {
    let mut w = VgaWriter::new();
    w.write_str("hi\n");
    assert_eq!(w.cursor(), (1, 0));
    w.write_str("abc\rX");
    assert_eq!(w.cell(1, 0), (b'X', 0x0f));
    assert_eq!(w.cell(1, 1), (b'b', 0x0f));
    assert_eq!(w.cursor(), (1, 1));
}

#[test]
fn long_lines_wrap() {
    let mut w = VgaWriter::new();
    for _ in 0..80 {
        w.put_char('x');
    }
    assert_eq!(w.cursor(), (0, 80));
    w.put_char('y');
    assert_eq!(w.cursor(), (1, 1));
    assert_eq!(w.cell(1, 0), (b'y', 0x0f));
    assert_eq!(w.cell(0, 79), (b'x', 0x0f));
}

#[test]
fn bottom_line_scrolls_the_screen() {
    let mut w = VgaWriter::new();
    w.write_str("top");
    // step to the bottom row
    for _ in 0..24 {
        w.put_char('\n');
    }
    assert_eq!(w.cursor(), (24, 0));
    w.write_str("bottom");
    // one more newline scrolls: every row moves up one
    w.put_char('\n');
    assert_eq!(w.cursor(), (24, 0));
    assert_eq!(w.cell(23, 0), (b'b', 0x0f));
    assert_eq!(w.cell(23, 5), (b'm', 0x0f));
    // the old top row is gone and the bottom row is blank
    assert_eq!(w.cell(0, 0), (b' ', 0x0f));
    assert_eq!(w.cell(24, 0), (b' ', 0x0f));
}

#[test]
fn clear_screen_blanks_everything() {
    let mut w = VgaWriter::new();
    w.write_str("some text\nmore");
    w.clear_screen();
    assert_eq!(w.cursor(), (0, 0));
    assert_eq!(w.cell(0, 0), (b' ', 0x0f));
    assert_eq!(w.cell(1, 3), (b' ', 0x0f));
}

#[test]
fn vprintln_writes_the_line_and_ends_it() {
    let mut w = VgaWriter::new();
    vprintln_impl(&mut w, "ok");
    assert_eq!(w.cell(0, 0), (b'o', 0x0f));
    assert_eq!(w.cell(0, 1), (b'k', 0x0f));
    assert_eq!(w.cursor(), (1, 0));
}

#[test]
fn demo_store_lists_and_reads() {
    let fs = fs_init();
    assert_eq!(fs.file_count(), 2);
    assert_eq!(list_files_syscall(&fs, 512), b"readme.txt\nhello.txt\n".to_vec());
    assert_eq!(list_files_syscall(&fs, 7), b"readme.".to_vec());
    assert_eq!(list_files_syscall(&fs, 0), Vec::<u8>::new());
    let data = read_file_syscall(&fs, b"readme.txt").unwrap();
    assert_eq!(data, b"This is a demo file system.\n".to_vec());
    assert!(read_file_syscall(&fs, b"absent.txt").is_none());
    assert!(read_file_syscall(&fs, b"").is_none());
}

#[test]
fn bump_allocator_aligns_and_never_frees() {
    let mut h = init_heap(0x1000, 0x1000);
    assert_eq!(h.allocate(16, 8), Some(0x1000));
    assert_eq!(h.allocate(1, 1), Some(0x1010));
    // the next block rounds up to a 64-byte boundary
    assert_eq!(h.allocate(100, 64), Some(0x1040));
    // deallocation is a no-op: the space does not come back
    h.deallocate(0x1000, 16, 8);
    assert_eq!(h.allocate(16, 8), Some(0x10a8));
    // a block past the end fails and changes nothing
    assert_eq!(h.allocate(0x10000, 8), None);
    assert_eq!(h.allocate(8, 8), Some(0x10b8));
}

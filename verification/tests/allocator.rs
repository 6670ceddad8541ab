use nexis::memory::PhysicalMemoryManager;

const FRAME: usize = 4096;

fn pool(base_addr: usize, frames: usize) -> PhysicalMemoryManager {
    let mut pm = PhysicalMemoryManager::new_uninit();
    pm.init((frames + 7) / 8, base_addr / FRAME, frames);
    pm
}

#[test]
fn sixteen_frames_scenario() {
    // init with 16 frames of 4096 bytes at base address 0x100000
    let mut pm = pool(0x100000, 16);
    assert_eq!(pm.total_frames(), 16);
    assert_eq!(pm.free_frames(), 16);

    let mut got = Vec::new();
    for i in 0..16 {
        let f = pm.alloc_frame().expect("a frame should be free");
        assert_eq!(f.start_address(), 0x100000 + i * FRAME);
        got.push(f.start_address());
    }
    // 16 ascending, pairwise distinct addresses
    for w in got.windows(2) {
        assert!(w[0] < w[1]);
    }
    // 17th call: exhausted
    assert!(pm.alloc_frame().is_none());
    assert_eq!(pm.free_frames(), 0);

    // free the 3rd returned address; the next allocation returns it
    let third = got[2];
    assert!(pm.free_frame(third));
    let again = pm.alloc_frame().expect("one frame is free again");
    assert_eq!(again.start_address(), third);
}

#[test]
fn free_untracked_frame_changes_nothing() {
    let mut pm = pool(0x100000, 8);
    // never-allocated frame
    assert!(!pm.mark_free(0x100000));
    assert_eq!(pm.free_frames(), 8);
    // out of range
    assert!(!pm.mark_free(0x0));
    assert!(!pm.mark_free(0x100000 + 8 * FRAME));
    assert_eq!(pm.free_frames(), 8);
    // already free after a round trip
    let f = pm.alloc_frame().unwrap();
    assert!(pm.free_frame(f.start_address()));
    assert!(!pm.free_frame(f.start_address()));
    assert_eq!(pm.free_frames(), 8);
}

#[test]
fn mark_used_tracks_bits_and_count() {
    let mut pm = pool(0x100000, 8);
    assert!(pm.mark_used(0x101000));
    assert!(pm.is_used(0x101000));
    assert!(!pm.mark_used(0x101000));
    assert_eq!(pm.free_frames(), 7);
    // an address inside the frame maps to the same frame
    assert!(pm.is_used(0x101abc));
    assert!(!pm.mark_used(0x101fff));
    // out of range is never used and cannot be marked
    assert!(!pm.is_used(0x0));
    assert!(!pm.mark_used(0x100000 + 8 * FRAME));
    assert_eq!(pm.free_frames(), 7);
}

#[test]
fn alloc_skips_used_frames() {
    let mut pm = pool(0x100000, 4);
    assert!(pm.mark_used(0x100000));
    assert!(pm.mark_used(0x102000));
    // lowest clear frame is number 1
    assert_eq!(pm.alloc_frame().unwrap().start_address(), 0x101000);
    // then number 3
    assert_eq!(pm.alloc_frame().unwrap().start_address(), 0x103000);
    assert!(pm.alloc_frame().is_none());
}

#[test]
fn contiguous_run_is_lowest_and_whole() {
    let mut pm = pool(0x100000, 16);
    // split the free space: frame 2 used
    assert!(pm.mark_used(0x102000));
    // a run of 2 fits below the hole
    let f = pm.alloc_contiguous(2).unwrap();
    assert_eq!(f.start_address(), 0x100000);
    // the next run of 4 must start past the hole
    let g = pm.alloc_contiguous(4).unwrap();
    assert_eq!(g.start_address(), 0x103000);
    assert_eq!(pm.free_frames(), 16 - 1 - 2 - 4);
}

#[test]
fn contiguous_fails_when_fragmented() {
    let mut pm = pool(0x100000, 9);
    // use every second frame: no run of 2 survives
    for i in [1usize, 3, 5, 7] {
        assert!(pm.mark_used(0x100000 + i * FRAME));
    }
    let free_before = pm.free_frames();
    assert!(pm.alloc_contiguous(2).is_none());
    assert_eq!(pm.free_frames(), free_before);
    // single frames still come, lowest first
    assert_eq!(pm.alloc_contiguous(1).unwrap().start_address(), 0x100000);
}

#[test]
fn free_contiguous_returns_the_run() {
    let mut pm = pool(0x100000, 8);
    let f = pm.alloc_contiguous(3).unwrap();
    assert_eq!(pm.free_frames(), 5);
    pm.free_contiguous(f.start_address(), 3);
    assert_eq!(pm.free_frames(), 8);
    // the same run is available again
    assert_eq!(pm.alloc_contiguous(3).unwrap().start_address(), f.start_address());
}

#[test]
fn counters_track_every_operation() {
    let mut pm = pool(0x400000, 12);
    assert_eq!(pm.total_frames(), 12);
    let a = pm.alloc_frame().unwrap();
    let b = pm.alloc_frame().unwrap();
    assert_eq!(pm.free_frames(), 10);
    assert!(pm.free_frame(a.start_address()));
    assert_eq!(pm.free_frames(), 11);
    assert!(pm.free_frame(b.start_address()));
    assert_eq!(pm.free_frames(), 12);
    assert_eq!(pm.total_frames(), 12);
}

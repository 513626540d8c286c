use littleos::boot_alloc;
use littleos::kalloc::bitmap_alloc::{shift_from_last_page, BitmapAllocator, LastPage};
use littleos::kalloc::boot_alloc::BootAllocator;
use littleos::kalloc::fixed_buffer_alloc::FixedSliceAlloc;
use littleos::kalloc::AllocError;
use littleos::utils::bitmap::ConstBitmap;

const PAGE: usize = 4096;

#[test]
fn eight_frame_pool_scenario() {
    // An 8-frame pool: three whole frames, then two sub-page requests
    // squeezed into frame 3's tail.
    let base = 0x10_0000;
    let mut a = BitmapAllocator::new(8, base);

    let r = a.allocate(PAGE * 3, PAGE);
    assert_eq!(r, Ok(base));
    for f in 0..3 {
        assert!(a.frame_allocated(f));
    }
    for f in 3..8 {
        assert!(!a.frame_allocated(f));
    }
    assert_eq!(a.last_page(), None);

    let r = a.allocate(100, 1);
    assert_eq!(r, Ok(base + 3 * PAGE));
    assert!(a.frame_allocated(3));
    assert_eq!(a.last_page(), Some(LastPage { idx: 3, off: 100 }));

    let r = a.allocate(50, 1);
    assert_eq!(r, Ok(base + 3 * PAGE + 100));
    assert_eq!(a.last_page(), Some(LastPage { idx: 3, off: 150 }));
    assert!(!a.frame_allocated(4));
}

#[test]
fn squeeze_uses_first_frame_tail() {
    // After a nearly page-filling allocation, an 8-byte request lands
    // in the first frame's tail, not a fresh frame.
    let mut a = BitmapAllocator::new(8, 0);
    let r1 = a.allocate(PAGE - 8, 8);
    assert_eq!(r1, Ok(0));
    let r2 = a.allocate(8, 8);
    assert_eq!(r2, Ok(PAGE - 8));
    assert!(!a.frame_allocated(1));
    assert_eq!(a.last_page(), None);
}

#[test]
fn deallocate_restores_prior_state() {
    let mut a = BitmapAllocator::new(8, 0);
    let addr = a.allocate(PAGE + 100, 1).unwrap();
    assert_eq!(addr, 0);
    assert!(a.frame_allocated(0));
    assert!(a.frame_allocated(1));
    assert_eq!(a.last_page(), Some(LastPage { idx: 1, off: 100 }));
    assert_eq!(a.deallocate(addr, PAGE + 100, 1), Ok(()));
    for f in 0..8 {
        assert!(!a.frame_allocated(f));
    }
    assert_eq!(a.last_page(), None);
}

#[test]
fn deallocate_restores_after_frame_aligned_alloc() {
    let mut a = BitmapAllocator::new(4, 0);
    let addr = a.allocate(2 * PAGE, PAGE).unwrap();
    assert_eq!(a.deallocate(addr, 2 * PAGE, PAGE), Ok(()));
    for f in 0..4 {
        assert!(!a.frame_allocated(f));
    }
    assert_eq!(a.last_page(), None);
}

#[test]
fn squeezed_deallocate_rolls_tracking_back() {
    let mut a = BitmapAllocator::new(8, 0);
    a.allocate(100, 1).unwrap();
    let second = a.allocate(50, 1).unwrap();
    assert_eq!(second, 100);
    assert_eq!(a.last_page(), Some(LastPage { idx: 0, off: 150 }));
    assert_eq!(a.deallocate(second, 50, 1), Ok(()));
    assert_eq!(a.last_page(), Some(LastPage { idx: 0, off: 100 }));
}

#[test]
fn squeeze_spans_a_frame_boundary() {
    let mut a = BitmapAllocator::new(8, 0);
    a.allocate(100, 1).unwrap();
    // A whole-page request slides back into frame 0's tail and spills
    // into frame 1; frame 2 stays free.
    let r = a.allocate(PAGE, 1).unwrap();
    assert_eq!(r, 100);
    assert!(a.frame_allocated(1));
    assert!(!a.frame_allocated(2));
    assert_eq!(a.last_page(), Some(LastPage { idx: 1, off: 100 }));
    // Freeing it clears frame 1 and rolls the tracking back.
    assert_eq!(a.deallocate(r, PAGE, 1), Ok(()));
    assert!(!a.frame_allocated(1));
    assert!(a.frame_allocated(0));
    assert_eq!(a.last_page(), Some(LastPage { idx: 0, off: 100 }));
}

#[test]
fn alignment_error_takes_precedence() {
    let mut a = BitmapAllocator::new(8, 0);
    assert_eq!(a.allocate(0, 3), Err(AllocError::UnsupportedAlignment));
}

#[test]
fn unsupported_alignment_is_refused() {
    let mut a = BitmapAllocator::new(8, 0);
    assert_eq!(a.allocate(16, 3), Err(AllocError::UnsupportedAlignment));
    assert_eq!(a.allocate(16, 2 * PAGE), Err(AllocError::UnsupportedAlignment));
    assert_eq!(a.allocate(16, 0), Err(AllocError::UnsupportedAlignment));
    assert_eq!(a.deallocate(0, 16, 3), Err(AllocError::UnsupportedAlignment));
}

#[test]
fn zero_size_is_refused() {
    let mut a = BitmapAllocator::new(8, 0);
    assert_eq!(a.allocate(0, 8), Err(AllocError::UnsupportedSize));
    assert_eq!(a.deallocate(0, 0, 8), Err(AllocError::UnsupportedSize));
}

#[test]
fn out_of_memory_when_no_run_fits() {
    let mut a = BitmapAllocator::new(2, 0);
    assert_eq!(a.allocate(3 * PAGE, PAGE), Err(AllocError::OutOfMemory));
    a.allocate(PAGE, PAGE).unwrap();
    assert_eq!(a.allocate(2 * PAGE, PAGE), Err(AllocError::OutOfMemory));
}

#[test]
fn invalid_free_is_reported() {
    let mut a = BitmapAllocator::new(2, PAGE);
    // Below the pool's base.
    assert_eq!(a.deallocate(0, 16, 1), Err(AllocError::InvalidFree));
    // Past the pool's end.
    assert_eq!(a.deallocate(PAGE, 3 * PAGE, 1), Err(AllocError::InvalidFree));
}

#[test]
fn shift_from_last_page_matches_alignment() {
    let last = Some(LastPage { idx: 0, off: PAGE - 8 });
    // The 8-aligned tail begins 8 bytes before the next frame.
    assert_eq!(shift_from_last_page(&last, 1, 8, 0), Some(8));
    // A 16-aligned request cannot reach into the tail.
    assert_eq!(shift_from_last_page(&last, 1, 16, 0), None);
    // Tracking a non-adjacent frame never shifts.
    assert_eq!(shift_from_last_page(&last, 3, 8, 0), None);
    assert_eq!(shift_from_last_page(&None, 1, 8, 0), None);
}

#[test]
fn boot_wrapper_delegates_to_bitmap_allocator() {
    let base = 0x20_0000;
    let mut a = BootAllocator::new(base);
    let r = a.allocate(PAGE, PAGE).unwrap();
    assert_eq!(r, base);
    assert_eq!(a.deallocate(r, PAGE, PAGE), Ok(()));
    assert_eq!(
        littleos::kalloc::boot_alloc::shift_from_last_page(
            &Some(LastPage { idx: 0, off: PAGE - 8 }),
            1,
            8,
            0,
        ),
        Some(8)
    );
}

#[test]
fn simple_boot_allocator_hands_out_frames_in_order() {
    let base = 0x40_0000;
    let mut a = boot_alloc::BootAllocator::new(base);
    assert_eq!(a.allocate(100, 16), Ok(base));
    assert_eq!(a.allocate(PAGE, PAGE), Ok(base + PAGE));
    assert_eq!(a.deallocate(base, 100, 16), Ok(()));
    // The freed frame is reused first.
    assert_eq!(a.allocate(8, 8), Ok(base));
    assert_eq!(
        a.allocate(PAGE + 1, 1),
        Err(AllocError::UnsupportedSize)
    );
    assert_eq!(
        a.allocate(16, 2 * PAGE),
        Err(AllocError::UnsupportedAlignment)
    );
}

#[test]
fn const_bitmap_set_test_clear() {
    let mut b: ConstBitmap<2> = ConstBitmap::new();
    assert!(!b.test(0));
    assert_eq!(b.first_clear_idx(), Some(0));
    b.set(0);
    b.set(63);
    b.set(64);
    assert!(b.test(0));
    assert!(b.test(63));
    assert!(b.test(64));
    assert!(!b.test(1));
    assert_eq!(b.first_clear_idx(), Some(1));
    b.clear(63);
    assert!(!b.test(63));
    assert!(b.test(64));
}

#[test]
fn const_bitmap_first_clear_skips_full_words() {
    let mut b: ConstBitmap<2> = ConstBitmap::new();
    for i in 0..64 {
        b.set(i);
    }
    assert_eq!(b.first_clear_idx(), Some(64));
    for i in 64..128 {
        b.set(i);
    }
    assert_eq!(b.first_clear_idx(), None);
}

#[test]
fn boot_bitmap_word_boundaries() {
    let mut b = boot_alloc::Bitmap::new();
    assert_eq!(b.first_clear_idx(), Some(0));
    b.set(127);
    assert!(b.test(127));
    assert!(!b.test(128));
    b.clear(127);
    assert!(!b.test(127));
}

#[test]
fn fixed_slice_alloc_bumps_aligned() {
    let mut a = FixedSliceAlloc::new(1000, 100);
    let first = a.allocate(10, 8).unwrap();
    assert_eq!(first, 1000);
    let second = a.allocate(10, 8).unwrap();
    assert_eq!(second, 1016);
    assert_eq!(a.allocate(100, 1), Err(AllocError::OutOfMemory));
}

#[test]
fn alloc_error_messages_name_the_failure() {
    assert!(AllocError::OutOfMemory.describe().contains("free frames"));
    assert!(AllocError::InvalidFree.describe().contains("reconciled"));
}

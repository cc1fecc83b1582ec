use kernel_core::frame::{FrameAllocator, MemoryError};

#[test]
fn fresh_allocator_hands_out_consecutive_pages() {
    let mut fa = FrameAllocator::new(0, 8);
    let f0 = fa.allocate().unwrap();
    let f1 = fa.allocate().unwrap();
    assert_eq!(f0.ppn(), 0);
    assert_eq!(f1.ppn(), 1);
    assert_ne!(f0.address(), f1.address());
    assert_eq!(f1.address(), 4096);
}

#[test]
fn allocation_stays_below_the_bound() {
    let mut fa = FrameAllocator::new(3, 6);
    for _ in 0..3 {
        let f = fa.allocate().unwrap();
        assert!(f.ppn() < 6);
        assert!(f.ppn() >= 3);
    }
    assert_eq!(fa.allocate().unwrap_err(), MemoryError::OutOfMemory);
}

#[test]
fn exhaustion_after_exactly_the_range_size() {
    // A range of n pages yields exactly n distinct pages, then fails.
    let mut fa = FrameAllocator::new(10, 15);
    let mut seen = Vec::new();
    for _ in 0..5 {
        let f = fa.allocate().unwrap();
        assert!(!seen.contains(&f.ppn()));
        seen.push(f.ppn());
    }
    assert_eq!(fa.allocate().unwrap_err(), MemoryError::OutOfMemory);
}

#[test]
fn recycling_is_lifo() {
    let mut fa = FrameAllocator::new(0, 16);
    let f0 = fa.allocate().unwrap();
    let f1 = fa.allocate().unwrap();
    let f2 = fa.allocate().unwrap();
    let (p0, p1, p2) = (f0.ppn(), f1.ppn(), f2.ppn());
    fa.release(f0);
    fa.release(f1);
    fa.release(f2);
    // Reallocation returns the released pages in reverse order.
    assert_eq!(fa.allocate().unwrap().ppn(), p2);
    assert_eq!(fa.allocate().unwrap().ppn(), p1);
    assert_eq!(fa.allocate().unwrap().ppn(), p0);
}

#[test]
fn eight_page_end_to_end_scenario() {
    let mut fa = FrameAllocator::new(0, 8);
    // Allocate two frames: distinct, below the bound.
    let f0 = fa.allocate().unwrap();
    let f1 = fa.allocate().unwrap();
    assert_ne!(f0.ppn(), f1.ppn());
    assert!(f0.ppn() < 8 && f1.ppn() < 8);
    let p0 = f0.ppn();
    // Release the first; the next allocation returns it (LIFO).
    fa.release(f0);
    let f2 = fa.allocate().unwrap();
    assert_eq!(f2.ppn(), p0);
    // Six more allocations exhaust the range at 8 distinct pages ever issued.
    let mut issued = vec![f1.ppn(), f2.ppn()];
    for _ in 0..6 {
        let f = fa.allocate().unwrap();
        assert!(f.ppn() < 8);
        assert!(!issued.contains(&f.ppn()));
        issued.push(f.ppn());
    }
    assert_eq!(issued.len(), 8);
    // The ninth allocation, with nothing released, fails.
    assert_eq!(fa.allocate().unwrap_err(), MemoryError::OutOfMemory);
}

#[test]
fn released_page_is_reused_before_the_high_water_mark_moves() {
    let mut fa = FrameAllocator::new(0, 100);
    let f0 = fa.allocate().unwrap();
    let _f1 = fa.allocate().unwrap();
    let p0 = f0.ppn();
    fa.release(f0);
    // Reuse preferred over advancing the high-water mark.
    assert_eq!(fa.allocate().unwrap().ppn(), p0);
    assert_eq!(fa.allocate().unwrap().ppn(), 2);
}

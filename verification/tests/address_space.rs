use kernel_core::frame::MemoryError;
use kernel_core::mapping::{Flags, KernelLayout, MapType, MemorySet, Segment};

fn rw() -> Flags {
    Flags { readable: true, writable: true, executable: false, user: false }
}

fn layout() -> KernelLayout {
    KernelLayout {
        text_start: 0x1000,
        text_end: 0x2000,
        rodata_start: 0x2000,
        rodata_end: 0x3000,
        data_start: 0x3000,
        data_end: 0x4000,
        bss_start: 0x4000,
        bss_end: 0x5000,
        memory_start: 0x5000,
        memory_end: 0x9000,
    }
}

#[test]
fn overlapping_segment_is_rejected_and_nothing_changes() {
    let mut ms = MemorySet::new();
    let a = Segment { map_type: MapType::Linear, start: 0x1000, end: 0x3000, flags: rw() };
    ms.add_segment(a).unwrap();
    let b = Segment { map_type: MapType::Framed, start: 0x2000, end: 0x4000, flags: rw() };
    assert_eq!(ms.add_segment(b).unwrap_err(), MemoryError::Overlap);
    // The existing segments are unchanged.
    assert_eq!(ms.len(), 1);
    assert_eq!(ms.segment(0), a);
}

#[test]
fn adjacent_segments_do_not_overlap() {
    let mut ms = MemorySet::new();
    let a = Segment { map_type: MapType::Linear, start: 0x1000, end: 0x2000, flags: rw() };
    let b = Segment { map_type: MapType::Linear, start: 0x2000, end: 0x3000, flags: rw() };
    ms.add_segment(a).unwrap();
    ms.add_segment(b).unwrap();
    assert_eq!(ms.len(), 2);
}

#[test]
fn kernel_space_has_one_segment_per_role() {
    let ms = MemorySet::new_kernel(layout()).unwrap();
    assert_eq!(ms.len(), 5);
    let text = ms.segment(0);
    assert_eq!(text.start, 0x1000);
    assert_eq!(text.end, 0x2000);
    assert_eq!(text.map_type, MapType::Linear);
    assert!(text.flags.readable && !text.flags.writable && text.flags.executable);
    let rodata = ms.segment(1);
    assert!(rodata.flags.readable && !rodata.flags.writable && !rodata.flags.executable);
    let data = ms.segment(2);
    assert!(data.flags.readable && data.flags.writable && !data.flags.executable);
    let memory = ms.segment(4);
    assert_eq!(memory.start, 0x5000);
    assert_eq!(memory.end, 0x9000);
    assert!(memory.flags.writable);
}

#[test]
fn malformed_kernel_layout_is_rejected() {
    let mut bad = layout();
    bad.rodata_start = 0x1800; // collides with the text section
    assert_eq!(MemorySet::new_kernel(bad).unwrap_err(), MemoryError::Overlap);
}

#[test]
fn allocated_segment_sits_above_every_existing_one() {
    let mut ms = MemorySet::new_kernel(layout()).unwrap();
    let seg = ms.allocate_segment(0x1000, rw()).unwrap();
    assert_eq!(seg.start, 0x9000);
    assert_eq!(seg.end, 0xa000);
    assert_eq!(seg.map_type, MapType::Framed);
    assert_eq!(ms.len(), 6);
}

#[test]
fn backing_frames_one_per_page_all_distinct() {
    let mut fa = kernel_core::frame::FrameAllocator::new(0, 16);
    let seg = Segment { map_type: MapType::Framed, start: 0x2000, end: 0x5000, flags: rw() };
    let frames = kernel_core::mapping::allocate_backing_frames(&mut fa, seg).unwrap();
    // Three pages cover the 0x3000-byte range.
    assert_eq!(frames.len(), 3);
    let mut ppns: Vec<usize> = frames.iter().map(|f| f.ppn()).collect();
    ppns.sort();
    ppns.dedup();
    assert_eq!(ppns.len(), 3);
}

#[test]
fn backing_frames_partial_range_rounds_up() {
    let mut fa = kernel_core::frame::FrameAllocator::new(0, 16);
    let seg = Segment { map_type: MapType::Framed, start: 0x2000, end: 0x2001, flags: rw() };
    let frames = kernel_core::mapping::allocate_backing_frames(&mut fa, seg).unwrap();
    assert_eq!(frames.len(), 1);
}

#[test]
fn failed_backing_allocation_leaks_nothing() {
    // Two pages available, three needed: the attempt fails and the
    // partially taken pages go back, so two singles still succeed.
    let mut fa = kernel_core::frame::FrameAllocator::new(0, 2);
    let seg = Segment { map_type: MapType::Framed, start: 0, end: 0x3000, flags: rw() };
    assert_eq!(
        kernel_core::mapping::allocate_backing_frames(&mut fa, seg).unwrap_err(),
        MemoryError::OutOfMemory
    );
    let f0 = fa.allocate().unwrap();
    let f1 = fa.allocate().unwrap();
    assert_ne!(f0.ppn(), f1.ppn());
    assert_eq!(fa.allocate().unwrap_err(), MemoryError::OutOfMemory);
}

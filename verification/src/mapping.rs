//! Virtual address spaces: ordered collections of segments whose
//! virtual ranges never overlap, and the identity-mapped layout the
//! kernel builds for itself at boot.

use vstd::prelude::*;

verus! {

use crate::config::PAGE_SIZE;
use crate::frame::Frame;
use crate::frame::FrameAllocator;
use crate::frame::MemoryError;

/// Access permissions of one mapped range.
#[derive(Clone, Copy, PartialEq, Eq, Structural, Debug)]
pub struct Flags {
    pub readable: bool,
    pub writable: bool,
    pub executable: bool,
    pub user: bool,
}

/// Backing policy of a segment: identity-mapped onto existing physical
/// addresses, or backed by freshly allocated frames.
#[derive(Clone, Copy, PartialEq, Eq, Structural, Debug)]
pub enum MapType {
    Linear,
    Framed,
}

/// A contiguous virtual address range `[start, end)` mapped with a
/// permission set and a backing policy.
#[derive(Clone, Copy, PartialEq, Eq, Structural, Debug)]
pub struct Segment {
    pub map_type: MapType,
    pub start: usize,
    pub end: usize,
    pub flags: Flags,
}

impl Segment {
    /// A segment covers at least one address.
    pub open spec fn wf(self) -> bool {
        self.start < self.end
    }

    /// Whether two segments' virtual ranges intersect.
    pub open spec fn overlaps(self, other: Segment) -> bool {
        self.start < other.end && other.start < self.end
    }
}

/// Well-formed segment sequence: every segment is nonempty and the
/// virtual ranges are pairwise disjoint.
pub open spec fn segments_wf(segs: Seq<Segment>) -> bool {
    &&& (forall|i: int| 0 <= i < segs.len() ==> (#[trigger] segs[i]).wf())
    &&& (forall|i: int, j: int|
        0 <= i < segs.len() && 0 <= j < segs.len() && i != j ==> !(#[trigger] segs[i]).overlaps(
            #[trigger] segs[j],
        ))
}

/// Highest end address among a sequence of segments; the floor for
/// placing a freshly allocated range.
pub open spec fn max_end(segs: Seq<Segment>) -> usize
    decreases segs.len(),
{
    if segs.len() == 0 {
        0
    } else {
        let rest = max_end(segs.drop_last());
        if segs.last().end > rest {
            segs.last().end
        } else {
            rest
        }
    }
}

proof fn lemma_max_end_bounds(segs: Seq<Segment>)
    ensures
        forall|i: int| 0 <= i < segs.len() ==> (#[trigger] segs[i]).end <= max_end(segs),
    decreases segs.len(),
{
    if segs.len() > 0 {
        lemma_max_end_bounds(segs.drop_last());
        assert forall|i: int| 0 <= i < segs.len() implies (#[trigger] segs[i]).end <= max_end(
            segs,
        ) by {
            if i < segs.len() - 1 {
                assert(segs.drop_last()[i] == segs[i]);
            }
        }
    }
}

/// An address space: an ordered collection of segments with pairwise
/// disjoint virtual ranges.  The page-table structure itself and its
/// activation live at the hardware edge; this type holds the layout
/// that edge installs.
#[derive(Debug)]
pub struct MemorySet {
    segments: Vec<Segment>,
}

impl View for MemorySet {
    type V = Seq<Segment>;

    closed spec fn view(&self) -> Seq<Segment> {
        self.segments@
    }
}

impl MemorySet {
    /// An address space with no segments.
    pub fn new() -> (r: MemorySet)
        ensures
            r@ == Seq::<Segment>::empty(),
            segments_wf(r@),
    {
        let r = MemorySet { segments: Vec::new() };
        proof {
            assert(r@ =~= Seq::<Segment>::empty());
        }
        r
    }

    /// Number of segments.
    pub fn len(&self) -> (r: usize)
        ensures
            r == self@.len(),
    {
        self.segments.len()
    }

    /// The segment at index `i`.
    pub fn segment(&self, i: usize) -> (r: Segment)
        requires
            i < self@.len(),
        ensures
            r == self@[i as int],
    {
        self.segments[i]
    }

    /// Insert a segment, failing with `Overlap` — and leaving the
    /// existing segments untouched — exactly when its virtual range
    /// intersects an existing one.
    pub fn add_segment(&mut self, seg: Segment) -> (r: Result<(), MemoryError>)
        requires
            segments_wf(old(self)@),
            seg.wf(),
        ensures
            segments_wf(final(self)@),
            r is Ok <==> (forall|i: int|
                0 <= i < old(self)@.len() ==> !(#[trigger] old(self)@[i]).overlaps(seg)),
            r is Ok ==> final(self)@ == old(self)@.push(seg),
            r matches Err(e) ==> e == MemoryError::Overlap && final(self)@ == old(self)@,
    {
        let n = self.segments.len();
        let mut idx: usize = 0;
        while idx < n
            invariant
                n == self.segments.len(),
                idx <= n,
                *self == *old(self),
                segments_wf(self.segments@),
                forall|i: int| 0 <= i < idx ==> !(#[trigger] self.segments@[i]).overlaps(seg),
            decreases n - idx,
        {
            let s = self.segments[idx];
            if seg.start < s.end && s.start < seg.end {
                proof {
                    assert((old(self)@[idx as int]).overlaps(seg));
                }
                return Err(MemoryError::Overlap);
            }
            idx = idx + 1;
        }
        self.segments.push(seg);
        proof {
            let segs = final(self)@;
            assert forall|i: int, j: int|
                0 <= i < segs.len() && 0 <= j < segs.len() && i != j implies !(
            #[trigger] segs[i]).overlaps(#[trigger] segs[j]) by {
                if i < segs.len() - 1 && j < segs.len() - 1 {
                    assert(segs[i] == old(self)@[i] && segs[j] == old(self)@[j]);
                }
            }
        }
        Ok(())
    }

    /// Reserve a fresh virtual range of `size` bytes above every
    /// existing segment, mapped `Framed` with the given permissions.
    /// Fails with `OutOfMemory` exactly when no such range fits below
    /// the top of the address space.
    pub fn allocate_segment(&mut self, size: usize, flags: Flags) -> (r: Result<
        Segment,
        MemoryError,
    >)
        requires
            segments_wf(old(self)@),
            size > 0,
        ensures
            segments_wf(final(self)@),
            r is Ok <==> max_end(old(self)@) + size <= usize::MAX,
            r matches Ok(seg) ==> seg == (Segment {
                map_type: MapType::Framed,
                start: max_end(old(self)@),
                end: (max_end(old(self)@) + size) as usize,
                flags,
            }) && final(self)@ == old(self)@.push(seg),
            r is Err ==> final(self)@ == old(self)@,
            r matches Err(e) ==> e == MemoryError::OutOfMemory,
    {
        let base = self.highest_end();
        if size <= usize::MAX - base {
            let seg = Segment { map_type: MapType::Framed, start: base, end: base + size, flags };
            proof {
                lemma_max_end_bounds(self.segments@);
            }
            let added = self.add_segment(seg);
            proof {
                assert(added is Ok);
            }
            Ok(seg)
        } else {
            Err(MemoryError::OutOfMemory)
        }
    }

    /// Highest end address among the current segments.
    fn highest_end(&self) -> (r: usize)
        ensures
            r == max_end(self@),
    {
        let n = self.segments.len();
        let mut idx: usize = 0;
        let mut best: usize = 0;
        while idx < n
            invariant
                n == self.segments.len(),
                idx <= n,
                best == max_end(self.segments@.take(idx as int)),
            decreases n - idx,
        {
            let s = self.segments[idx];
            proof {
                assert(self.segments@.take(idx + 1).drop_last() =~= self.segments@.take(
                    idx as int,
                ));
                assert(self.segments@.take(idx + 1).last() == self.segments@[idx as int]);
            }
            if s.end > best {
                best = s.end;
            }
            idx = idx + 1;
        }
        proof {
            assert(self.segments@.take(n as int) =~= self.segments@);
        }
        best
    }
}

/// Where the kernel's own sections and the free physical memory lie;
/// fixed by the platform and the linker, handed in at boot.
#[derive(Clone, Copy, PartialEq, Eq, Structural, Debug)]
pub struct KernelLayout {
    pub text_start: usize,
    pub text_end: usize,
    pub rodata_start: usize,
    pub rodata_end: usize,
    pub data_start: usize,
    pub data_end: usize,
    pub bss_start: usize,
    pub bss_end: usize,
    pub memory_start: usize,
    pub memory_end: usize,
}

impl KernelLayout {
    /// Every section covers at least one address.
    pub open spec fn wf(self) -> bool {
        &&& self.text_start < self.text_end
        &&& self.rodata_start < self.rodata_end
        &&& self.data_start < self.data_end
        &&& self.bss_start < self.bss_end
        &&& self.memory_start < self.memory_end
    }

    /// The five identity-mapped segments of the kernel's own view:
    /// code read+execute, read-only data read-only, data and bss
    /// read+write, free memory read+write.
    pub open spec fn segments(self) -> Seq<Segment> {
        seq![
            Segment {
                map_type: MapType::Linear,
                start: self.text_start,
                end: self.text_end,
                flags: Flags { readable: true, writable: false, executable: true, user: false },
            },
            Segment {
                map_type: MapType::Linear,
                start: self.rodata_start,
                end: self.rodata_end,
                flags: Flags { readable: true, writable: false, executable: false, user: false },
            },
            Segment {
                map_type: MapType::Linear,
                start: self.data_start,
                end: self.data_end,
                flags: Flags { readable: true, writable: true, executable: false, user: false },
            },
            Segment {
                map_type: MapType::Linear,
                start: self.bss_start,
                end: self.bss_end,
                flags: Flags { readable: true, writable: true, executable: false, user: false },
            },
            Segment {
                map_type: MapType::Linear,
                start: self.memory_start,
                end: self.memory_end,
                flags: Flags { readable: true, writable: true, executable: false, user: false },
            },
        ]
    }
}

impl MemorySet {
    /// Build the kernel's identity-mapped address space from the
    /// platform layout: one segment per semantic role, permissions
    /// matching the role.  Fails with `Overlap` — the kernel layout is
    /// malformed — exactly when two of the layout's ranges intersect.
    pub fn new_kernel(layout: KernelLayout) -> (r: Result<MemorySet, MemoryError>)
        requires
            layout.wf(),
        ensures
            r is Ok <==> segments_wf(layout.segments()),
            r matches Ok(ms) ==> ms@ == layout.segments(),
            r matches Err(e) ==> e == MemoryError::Overlap,
    {
        let mut ms = MemorySet::new();
        let segs: [Segment; 5] = [
            Segment {
                map_type: MapType::Linear,
                start: layout.text_start,
                end: layout.text_end,
                flags: Flags { readable: true, writable: false, executable: true, user: false },
            },
            Segment {
                map_type: MapType::Linear,
                start: layout.rodata_start,
                end: layout.rodata_end,
                flags: Flags { readable: true, writable: false, executable: false, user: false },
            },
            Segment {
                map_type: MapType::Linear,
                start: layout.data_start,
                end: layout.data_end,
                flags: Flags { readable: true, writable: true, executable: false, user: false },
            },
            Segment {
                map_type: MapType::Linear,
                start: layout.bss_start,
                end: layout.bss_end,
                flags: Flags { readable: true, writable: true, executable: false, user: false },
            },
            Segment {
                map_type: MapType::Linear,
                start: layout.memory_start,
                end: layout.memory_end,
                flags: Flags { readable: true, writable: true, executable: false, user: false },
            },
        ];
        let mut k: usize = 0;
        while k < 5
            invariant
                layout.wf(),
                k <= 5,
                segs@ == layout.segments(),
                segments_wf(ms@),
                ms@ == layout.segments().take(k as int),
            decreases 5 - k,
        {
            let seg = segs[k];
            proof {
                assert(seg == layout.segments()[k as int]);
            }
            match ms.add_segment(seg) {
                Ok(()) => {
                    proof {
                        assert(ms@ =~= layout.segments().take(k + 1));
                    }
                },
                Err(e) => {
                    proof {
                        let i = choose|i: int|
                            0 <= i < ms@.len() && (#[trigger] ms@[i]).overlaps(seg);
                        assert(layout.segments()[i].overlaps(layout.segments()[k as int]));
                        assert(!segments_wf(layout.segments()));
                    }
                    return Err(e);
                },
            }
            k = k + 1;
        }
        proof {
            assert(ms@ =~= layout.segments());
        }
        Ok(ms)
    }
}

/// Number of whole pages a segment's virtual range covers.
pub open spec fn page_count(seg: Segment) -> int {
    let span = seg.end - seg.start;
    span / (PAGE_SIZE as int) + if span % (PAGE_SIZE as int) == 0 {
        0int
    } else {
        1int
    }
}

/// Allocate the physical frames that back one framed segment, one per
/// page of its range: all fresh and pairwise distinct.  Whoever owns
/// the segment holds the returned frames and keeps the pages alive
/// for exactly the segment's lifetime.  When the pool runs dry midway
/// the partially taken frames are released again on the way out: on
/// failure, every page the call took is back in the pool and the live
/// set is exactly what it was.  Success is owed exactly when the
/// allocator's remaining capacity covers the range's page count.
pub fn allocate_backing_frames(allocator: &mut FrameAllocator, seg: Segment) -> (r: Result<
    Vec<Frame>,
    MemoryError,
>)
    requires
        old(allocator)@.wf(),
        seg.wf(),
    ensures
        final(allocator)@.wf(),
        final(allocator)@.begin == old(allocator)@.begin,
        final(allocator)@.end == old(allocator)@.end,
        r is Ok <==> page_count(seg) <= old(allocator)@.capacity(),
        r matches Ok(v) ==> {
            &&& v@.len() == page_count(seg)
            &&& (forall|i: int, j: int| 0 <= i < j < v@.len() ==> v@[i]@ != v@[j]@)
            &&& (forall|i: int|
                0 <= i < v@.len() ==> !old(allocator)@.live().contains((#[trigger] v@[i])@))
            &&& (forall|p: usize|
                final(allocator)@.live().contains(p) <==> (old(allocator)@.live().contains(p)
                    || exists|i: int| 0 <= i < v@.len() && (#[trigger] v@[i])@ == p))
        },
        r matches Err(e) ==> e == MemoryError::OutOfMemory && final(allocator)@.live() == old(
            allocator,
        )@.live(),
{
    let span = seg.end - seg.start;
    proof {
        assert(span / PAGE_SIZE <= span) by (nonlinear_arith)
            requires span >= 0,
        ;
    }
    let pages = span / PAGE_SIZE + if span % PAGE_SIZE == 0 {
        0
    } else {
        1
    };
    proof {
        assert(pages == page_count(seg));
    }
    let mut frames: Vec<Frame> = Vec::new();
    while frames.len() < pages
        invariant
            allocator@.wf(),
            allocator@.begin == old(allocator)@.begin,
            allocator@.end == old(allocator)@.end,
            pages == page_count(seg),
            frames@.len() <= pages,
            allocator@.capacity() == old(allocator)@.capacity() - frames@.len(),
            forall|i: int, j: int| 0 <= i < j < frames@.len() ==> frames@[i]@ != frames@[j]@,
            forall|i: int|
                0 <= i < frames@.len() ==> !old(allocator)@.live().contains(
                    (#[trigger] frames@[i])@,
                ),
            forall|p: usize|
                allocator@.live().contains(p) <==> (old(allocator)@.live().contains(p)
                    || exists|i: int| 0 <= i < frames@.len() && (#[trigger] frames@[i])@ == p),
        decreases pages - frames.len(),
    {
        let ghost live0 = allocator@.live();
        let ghost fs0 = frames@;
        match allocator.allocate() {
            Ok(f) => {
                proof {
                    assert(!live0.contains(f@));
                    assert(!old(allocator)@.live().contains(f@));
                }
                frames.push(f);
                proof {
                    assert forall|p: usize| allocator@.live().contains(p) <==> (old(
                        allocator,
                    )@.live().contains(p) || exists|i: int|
                        0 <= i < frames@.len() && (#[trigger] frames@[i])@ == p) by {
                        if allocator@.live().contains(p) && !old(allocator)@.live().contains(p) {
                            if live0.contains(p) {
                                let i = choose|i: int|
                                    0 <= i < fs0.len() && (#[trigger] fs0[i])@ == p;
                                assert(frames@[i]@ == p);
                            } else {
                                assert(frames@[fs0.len() as int]@ == p);
                            }
                        }
                        if exists|i: int|
                            0 <= i < frames@.len() && (#[trigger] frames@[i])@ == p {
                            let i = choose|i: int|
                                0 <= i < frames@.len() && (#[trigger] frames@[i])@ == p;
                            if i < fs0.len() {
                                assert(fs0[i]@ == p);
                            }
                        }
                    }
                }
            },
            Err(_) => {
                while frames.len() > 0
                    invariant
                        allocator@.wf(),
                        allocator@.begin == old(allocator)@.begin,
                        allocator@.end == old(allocator)@.end,
                        forall|i: int, j: int|
                            0 <= i < j < frames@.len() ==> frames@[i]@ != frames@[j]@,
                        forall|i: int|
                            0 <= i < frames@.len() ==> !old(allocator)@.live().contains(
                                (#[trigger] frames@[i])@,
                            ),
                        forall|p: usize|
                            allocator@.live().contains(p) <==> (old(
                                allocator,
                            )@.live().contains(p) || exists|i: int|
                                0 <= i < frames@.len() && (#[trigger] frames@[i])@ == p),
                    decreases frames.len(),
                {
                    let ghost gs0 = frames@;
                    let last = match frames.pop() {
                        Some(last) => last,
                        None => vstd::pervasive::unreached(),
                    };
                    proof {
                        assert(gs0[gs0.len() - 1]@ == last@);
                        assert(allocator@.live().contains(last@));
                    }
                    allocator.release(last);
                    proof {
                        assert forall|p: usize| allocator@.live().contains(p) <==> (old(
                            allocator,
                        )@.live().contains(p) || exists|i: int|
                            0 <= i < frames@.len() && (#[trigger] frames@[i])@ == p) by {
                            if p != last@ {
                                if exists|i: int|
                                    0 <= i < gs0.len() && (#[trigger] gs0[i])@ == p {
                                    let i = choose|i: int|
                                        0 <= i < gs0.len() && (#[trigger] gs0[i])@ == p;
                                    if i < gs0.len() - 1 {
                                        assert(frames@[i]@ == p);
                                    }
                                }
                                if exists|i: int|
                                    0 <= i < frames@.len() && (#[trigger] frames@[i])@ == p {
                                    let i = choose|i: int|
                                        0 <= i < frames@.len() && (#[trigger] frames@[i])@ == p;
                                    assert(gs0[i]@ == p);
                                }
                            } else {
                                assert(!old(allocator)@.live().contains(p));
                                assert forall|i: int|
                                    0 <= i < frames@.len() implies (#[trigger] frames@[i])@
                                    != p by {
                                    assert(gs0[i]@ == frames@[i]@);
                                    assert(gs0[gs0.len() - 1]@ == p);
                                }
                            }
                        }
                    }
                }
                proof {
                    assert(allocator@.live() =~= old(allocator)@.live());
                }
                return Err(MemoryError::OutOfMemory);
            },
        }
    }
    Ok(frames)
}

} // verus!

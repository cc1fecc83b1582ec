//! Physical frame allocator: hands out fixed-size physical pages from a
//! managed range, preferring recycled pages (LIFO) before advancing the
//! high-water mark.

use vstd::prelude::*;

verus! {

use crate::config::PAGE_SIZE;

/// Errors surfaced by the memory subsystem.
#[derive(Clone, Copy, PartialEq, Eq, Structural, Debug)]
pub enum MemoryError {
    /// The recycled pool is empty and the high-water mark has reached
    /// the managed bound.
    OutOfMemory,
    /// A requested virtual range collides with an existing segment.
    Overlap,
}

/// Ownership of exactly one physical page, identified by its page
/// number.  A `Frame` is only ever produced by
/// [`FrameAllocator::allocate`] and consumed by
/// [`FrameAllocator::release`]; holding it by value is holding the
/// page.
#[derive(Debug)]
pub struct Frame {
    ppn: usize,
}

impl View for Frame {
    type V = usize;

    closed spec fn view(&self) -> usize {
        self.ppn
    }
}

impl Frame {
    /// Page number of the owned page.
    pub fn ppn(&self) -> (r: usize)
        ensures
            r == self@,
    {
        self.ppn
    }

    /// Base address of the owned page.
    pub fn address(&self) -> (r: usize)
        requires
            self@ * PAGE_SIZE <= usize::MAX,
        ensures
            r == self@ * PAGE_SIZE,
    {
        self.ppn * PAGE_SIZE
    }
}

/// Mathematical state of the frame allocator: the managed page range
/// `[begin, end)`, the high-water mark `next` (first page never yet
/// issued) and the pool of recycled page numbers.
#[verifier::ext_equal]
pub ghost struct AllocatorModel {
    pub begin: usize,
    pub next: usize,
    pub end: usize,
    pub recycled: Seq<usize>,
}

impl AllocatorModel {
    /// Allocator invariant: the high-water mark stays within the
    /// managed range, page addresses fit in `usize`, and every
    /// recycled page lies strictly below the high-water mark and
    /// appears at most once.
    pub open spec fn wf(self) -> bool {
        &&& self.begin <= self.next <= self.end
        &&& self.end * PAGE_SIZE <= usize::MAX
        &&& (forall|i: int|
            0 <= i < self.recycled.len() ==> self.begin <= #[trigger] self.recycled[i]
                < self.next)
        &&& (forall|i: int, j: int|
            0 <= i < j < self.recycled.len() ==> self.recycled[i] != self.recycled[j])
    }

    /// The pages currently held by live `Frame` handles: issued below
    /// the high-water mark and not sitting in the recycled pool.
    pub open spec fn live(self) -> Set<usize> {
        Set::new(|p: usize| self.begin <= p < self.next && !self.recycled.contains(p))
    }

    /// Page returned by the next allocation: the most recently
    /// recycled page if any, else the high-water mark if it has not
    /// reached the bound, else nothing.
    pub open spec fn alloc_result(self) -> Option<usize> {
        if self.recycled.len() > 0 {
            Some(self.recycled.last())
        } else if self.next < self.end {
            Some(self.next)
        } else {
            None
        }
    }

    /// Allocator state after one allocation attempt.
    pub open spec fn alloc_next(self) -> AllocatorModel {
        if self.recycled.len() > 0 {
            AllocatorModel { recycled: self.recycled.drop_last(), ..self }
        } else if self.next < self.end {
            AllocatorModel { next: (self.next + 1) as usize, ..self }
        } else {
            self
        }
    }

    /// Allocator state after releasing page `p`.
    pub open spec fn release_next(self, p: usize) -> AllocatorModel {
        AllocatorModel { recycled: self.recycled.push(p), ..self }
    }

    /// Pages the allocator can still hand out: the recycled pool plus
    /// the part of the managed range the high-water mark has not
    /// reached.  Each successful allocation lowers it by one; it is
    /// zero exactly when the next allocation fails.
    pub open spec fn capacity(self) -> int {
        self.recycled.len() + self.end - self.next
    }
}

/// One allocation attempt preserves the invariant, never yields a page
/// at or beyond the bound, and never yields a page some live handle
/// already owns: the returned page is fresh and the live set grows by
/// exactly that page.  Together with [`lemma_release_step`] this is
/// the inductive heart of frame uniqueness over any sequence of
/// allocate/release operations.
pub proof fn lemma_alloc_step(m: AllocatorModel)
    requires
        m.wf(),
    ensures
        m.alloc_next().wf(),
        m.alloc_result() is Some <==> (m.recycled.len() > 0 || m.next < m.end),
        m.alloc_result() matches Some(p) ==> m.begin <= p < m.end && !m.live().contains(p)
            && m.alloc_next().live() == m.live().insert(p),
        m.alloc_result() is None ==> m.alloc_next() == m,
{
    if m.recycled.len() > 0 {
        let p = m.recycled.last();
        let m2 = m.alloc_next();
        assert forall|q: usize| #[trigger] m2.live().contains(q) <==> m.live().insert(
            p,
        ).contains(q) by {
            if m2.live().contains(q) {
                if q != p && m.recycled.contains(q) {
                    let i = choose|i: int|
                        0 <= i < m.recycled.len() && m.recycled[i] == q;
                    assert(m2.recycled[i] == q);
                }
            } else {
                if q == p {
                    assert(!m2.recycled.contains(p)) by {
                        if m2.recycled.contains(p) {
                            let i = choose|i: int|
                                0 <= i < m2.recycled.len() && m2.recycled[i] == p;
                            assert(m.recycled[i] == m.recycled[m.recycled.len() - 1]);
                        }
                    }
                } else if m.live().contains(q) {
                    assert(!m2.recycled.contains(q)) by {
                        if m2.recycled.contains(q) {
                            let i = choose|i: int|
                                0 <= i < m2.recycled.len() && m2.recycled[i] == q;
                            assert(m.recycled[i] == q);
                        }
                    }
                }
            }
        }
        assert(m2.live() =~= m.live().insert(p));
    } else if m.next < m.end {
        let p = m.next;
        let m2 = m.alloc_next();
        assert forall|q: usize| #[trigger] m2.live().contains(q) <==> m.live().insert(
            p,
        ).contains(q) by {}
        assert(m2.live() =~= m.live().insert(p));
    }
}

/// Releasing a live page preserves the invariant and shrinks the live
/// set by exactly that page.
pub proof fn lemma_release_step(m: AllocatorModel, p: usize)
    requires
        m.wf(),
        m.live().contains(p),
    ensures
        m.release_next(p).wf(),
        m.release_next(p).live() == m.live().remove(p),
{
    let m2 = m.release_next(p);
    assert forall|i: int, j: int|
        0 <= i < j < m2.recycled.len() implies m2.recycled[i] != m2.recycled[j] by {
        if j == m.recycled.len() {
            assert(m2.recycled[i] == m.recycled[i]);
            assert(m.recycled.contains(m.recycled[i]));
        }
    }
    assert forall|q: usize| #[trigger] m2.live().contains(q) <==> m.live().remove(p).contains(
        q,
    ) by {
        if m.live().remove(p).contains(q) {
            assert(!m.recycled.contains(q));
            if m2.recycled.contains(q) {
                let i = choose|i: int| 0 <= i < m2.recycled.len() && m2.recycled[i] == q;
                assert(i == m.recycled.len() || m.recycled[i] == q);
            }
        } else {
            if m2.live().contains(q) {
                assert(!m2.recycled.contains(q));
                assert(m2.recycled[m.recycled.len() as int] == p);
                if m.recycled.contains(q) {
                    let i = choose|i: int|
                        0 <= i < m.recycled.len() && m.recycled[i] == q;
                    assert(m2.recycled[i] == q);
                }
            }
        }
    }
    assert(m2.live() =~= m.live().remove(p));
}

/// One operation on the allocator: an allocation attempt, or the
/// release of a page.
pub ghost enum AllocatorOp {
    Allocate,
    Release(usize),
}

/// Whether one operation is legal in state `m`: a release must give
/// back a page some live handle owns.
pub open spec fn op_allowed(m: AllocatorModel, op: AllocatorOp) -> bool {
    match op {
        AllocatorOp::Allocate => true,
        AllocatorOp::Release(p) => m.live().contains(p),
    }
}

/// State after one operation.
pub open spec fn apply_op(m: AllocatorModel, op: AllocatorOp) -> AllocatorModel {
    match op {
        AllocatorOp::Allocate => m.alloc_next(),
        AllocatorOp::Release(p) => m.release_next(p),
    }
}

/// Whether a whole operation sequence is legal, each step in the state
/// the previous steps produced.
pub open spec fn ops_allowed(m: AllocatorModel, ops: Seq<AllocatorOp>) -> bool
    decreases ops.len(),
{
    ops.len() == 0 || (op_allowed(m, ops[0]) && ops_allowed(apply_op(m, ops[0]), ops.drop_first()))
}

/// State after a whole operation sequence.
pub open spec fn apply_ops(m: AllocatorModel, ops: Seq<AllocatorOp>) -> AllocatorModel
    decreases ops.len(),
{
    if ops.len() == 0 {
        m
    } else {
        apply_ops(apply_op(m, ops[0]), ops.drop_first())
    }
}

/// Frame uniqueness over every legal operation sequence: the allocator
/// invariant holds after every prefix of the sequence, so by
/// [`lemma_alloc_step`] each allocation along the way returns a page
/// that no live handle owns at that point — at no point do two live
/// frames share an address.
pub proof fn lemma_ops_preserve_wf(m: AllocatorModel, ops: Seq<AllocatorOp>)
    requires
        m.wf(),
        ops_allowed(m, ops),
    ensures
        forall|j: int| 0 <= j <= ops.len() ==> apply_ops(m, #[trigger] ops.take(j)).wf(),
    decreases ops.len(),
{
    assert(ops.take(0) =~= Seq::<AllocatorOp>::empty());
    if ops.len() > 0 {
        match ops[0] {
            AllocatorOp::Allocate => lemma_alloc_step(m),
            AllocatorOp::Release(p) => lemma_release_step(m, p),
        }
        let m1 = apply_op(m, ops[0]);
        lemma_ops_preserve_wf(m1, ops.drop_first());
        assert forall|j: int| 0 <= j <= ops.len() implies apply_ops(
            m,
            #[trigger] ops.take(j),
        ).wf() by {
            if j > 0 {
                let t = ops.take(j);
                assert(t[0] == ops[0]);
                assert(t.drop_first() =~= ops.drop_first().take(j - 1));
                assert(apply_ops(m, t) == apply_ops(m1, ops.drop_first().take(j - 1)));
            }
        }
    }
}

/// Allocator state and results after `n` consecutive allocation
/// attempts, oldest first.
pub open spec fn alloc_run(m: AllocatorModel, n: nat) -> (AllocatorModel, Seq<Option<usize>>)
    decreases n,
{
    if n == 0 {
        (m, Seq::empty())
    } else {
        let rest = alloc_run(m.alloc_next(), (n - 1) as nat);
        (rest.0, seq![m.alloc_result()] + rest.1)
    }
}

/// Allocator state after releasing the pages `ps`, in order.
pub open spec fn release_run(m: AllocatorModel, ps: Seq<usize>) -> AllocatorModel
    decreases ps.len(),
{
    if ps.len() == 0 {
        m
    } else {
        release_run(m.release_next(ps[0]), ps.drop_first())
    }
}

/// Whether the pages `ps` can be released in order: each one is live
/// when its turn comes.
pub open spec fn can_release(m: AllocatorModel, ps: Seq<usize>) -> bool
    decreases ps.len(),
{
    ps.len() == 0 || (m.live().contains(ps[0]) && can_release(
        m.release_next(ps[0]),
        ps.drop_first(),
    ))
}

proof fn lemma_release_run_recycled(m: AllocatorModel, ps: Seq<usize>)
    ensures
        release_run(m, ps) == (AllocatorModel { recycled: m.recycled + ps, ..m }),
    decreases ps.len(),
{
    if ps.len() == 0 {
        assert(m.recycled + ps =~= m.recycled);
        assert(release_run(m, ps) =~= (AllocatorModel { recycled: m.recycled + ps, ..m }));
    } else {
        let m1 = m.release_next(ps[0]);
        lemma_release_run_recycled(m1, ps.drop_first());
        assert(m1.recycled + ps.drop_first() =~= m.recycled + ps);
        assert(release_run(m, ps) =~= (AllocatorModel { recycled: m.recycled + ps, ..m }));
    }
}

proof fn lemma_alloc_run_pops(m: AllocatorModel, k: nat)
    requires
        k <= m.recycled.len(),
    ensures
        alloc_run(m, k).1.len() == k,
        forall|i: int|
            0 <= i < k ==> alloc_run(m, k).1[i] == Some(
                m.recycled[m.recycled.len() - 1 - i],
            ),
        alloc_run(m, k).0 == (AllocatorModel {
            recycled: m.recycled.take(m.recycled.len() - k),
            ..m
        }),
    decreases k,
{
    if k == 0 {
        assert(m.recycled.take(m.recycled.len() - 0) =~= m.recycled);
        assert(alloc_run(m, 0).0 =~= (AllocatorModel {
            recycled: m.recycled.take(m.recycled.len() - 0),
            ..m
        }));
    } else {
        let m1 = m.alloc_next();
        assert(m1.recycled == m.recycled.drop_last());
        lemma_alloc_run_pops(m1, (k - 1) as nat);
        assert(m1.recycled.take(m1.recycled.len() - (k - 1)) =~= m.recycled.take(
            m.recycled.len() - k,
        ));
        assert(alloc_run(m, k).0 =~= (AllocatorModel {
            recycled: m.recycled.take(m.recycled.len() - k),
            ..m
        }));
        assert forall|i: int| 0 <= i < k implies alloc_run(m, k).1[i] == Some(
            m.recycled[m.recycled.len() - 1 - i],
        ) by {
            if i > 0 {
                assert(alloc_run(m, k).1[i] == alloc_run(m1, (k - 1) as nat).1[i - 1]);
            }
        }
    }
}

/// Recycling is LIFO: releasing the pages `ps` and then allocating
/// `ps.len()` times (with no other activity) returns exactly those
/// pages, in reverse order of release, and leaves the allocator in
/// the state it started from.
pub proof fn lemma_recycling_lifo(m: AllocatorModel, ps: Seq<usize>)
    requires
        m.wf(),
        can_release(m, ps),
    ensures
        ({
            let (m2, rs) = alloc_run(release_run(m, ps), ps.len());
            &&& rs.len() == ps.len()
            &&& (forall|i: int| 0 <= i < ps.len() ==> rs[i] == Some(ps[ps.len() - 1 - i]))
            &&& m2 == m
        }),
{
    lemma_release_run_recycled(m, ps);
    let m1 = release_run(m, ps);
    lemma_alloc_run_pops(m1, ps.len());
    let (m2, rs) = alloc_run(m1, ps.len());
    assert forall|i: int| 0 <= i < ps.len() implies rs[i] == Some(ps[ps.len() - 1 - i]) by {
        assert(m1.recycled[m1.recycled.len() - 1 - i] == ps[ps.len() - 1 - i]);
    }
    assert(m1.recycled.take(m1.recycled.len() - ps.len()) =~= m.recycled);
    assert(m2 =~= m);
}

/// Bounded allocation: with an empty recycled pool, the next
/// `end - next` allocation attempts all succeed and return the
/// consecutive pages up to (and excluding) the bound; the attempt
/// after that fails, the range being exhausted.
pub proof fn lemma_bounded_allocation(m: AllocatorModel)
    requires
        m.wf(),
        m.recycled.len() == 0,
    ensures
        ({
            let n = (m.end - m.next) as nat;
            let (m2, rs) = alloc_run(m, n);
            &&& rs.len() == n
            &&& (forall|i: int| 0 <= i < n ==> rs[i] == Some((m.next + i) as usize))
            &&& m2 == (AllocatorModel { next: m.end, ..m })
            &&& m2.alloc_result() is None
        }),
    decreases m.end - m.next,
{
    let n = (m.end - m.next) as nat;
    if n == 0 {
        assert(alloc_run(m, n).0 =~= (AllocatorModel { next: m.end, ..m }));
    } else {
        let m1 = m.alloc_next();
        lemma_bounded_allocation(m1);
        let (m2, rs) = alloc_run(m, n);
        assert(m2 =~= (AllocatorModel { next: m.end, ..m }));
        assert forall|i: int| 0 <= i < n implies rs[i] == Some((m.next + i) as usize) by {
            if i > 0 {
                assert(rs[i] == alloc_run(m1, (n - 1) as nat).1[i - 1]);
            }
        }
    }
}

/// Physical frame allocator over the page range `[begin, end)`.
#[derive(Debug)]
pub struct FrameAllocator {
    begin: usize,
    next: usize,
    end: usize,
    recycled: Vec<usize>,
}

impl View for FrameAllocator {
    type V = AllocatorModel;

    closed spec fn view(&self) -> AllocatorModel {
        AllocatorModel {
            begin: self.begin,
            next: self.next,
            end: self.end,
            recycled: self.recycled@,
        }
    }
}

impl FrameAllocator {
    /// A fresh allocator over `[begin, end)`: nothing issued, nothing
    /// recycled.
    pub fn new(begin: usize, end: usize) -> (r: FrameAllocator)
        requires
            begin <= end,
            end * PAGE_SIZE <= usize::MAX,
        ensures
            r@.wf(),
            r@ == (AllocatorModel { begin, next: begin, end, recycled: Seq::<usize>::empty() }),
    {
        let r = FrameAllocator { begin, next: begin, end, recycled: Vec::new() };
        proof {
            assert(r@ =~= AllocatorModel {
                begin,
                next: begin,
                end,
                recycled: Seq::<usize>::empty(),
            });
        }
        r
    }

    /// Hand out one page: the most recently recycled page if any
    /// (LIFO), else the high-water mark; fails with `OutOfMemory`
    /// exactly when the pool is empty and the mark has reached the
    /// bound.  The returned frame is fresh: no live handle owns its
    /// page.
    pub fn allocate(&mut self) -> (r: Result<Frame, MemoryError>)
        requires
            old(self)@.wf(),
        ensures
            final(self)@.wf(),
            final(self)@ == old(self)@.alloc_next(),
            r is Ok <==> (old(self)@.recycled.len() > 0 || old(self)@.next < old(self)@.end),
            r matches Ok(f) ==> Some(f@) == old(self)@.alloc_result(),
            r matches Ok(f) ==> old(self)@.begin <= f@ < old(self)@.end && !old(self)@.live().contains(f@)
                && final(self)@.live() == old(self)@.live().insert(f@),
            r matches Err(e) ==> e == MemoryError::OutOfMemory && final(self)@ == old(self)@,
    {
        proof {
            lemma_alloc_step(old(self)@);
        }
        match self.recycled.pop() {
            Some(p) => {
                proof {
                    assert(final(self)@ =~= old(self)@.alloc_next());
                }
                Ok(Frame { ppn: p })
            },
            None => {
                if self.next < self.end {
                    let p = self.next;
                    self.next = self.next + 1;
                    proof {
                        assert(final(self)@ =~= old(self)@.alloc_next());
                    }
                    Ok(Frame { ppn: p })
                } else {
                    proof {
                        assert(final(self)@ =~= old(self)@.alloc_next());
                    }
                    Err(MemoryError::OutOfMemory)
                }
            },
        }
    }

    /// Return a frame's page to the recycled pool.  Consuming the
    /// `Frame` by value is what rules out double release: the sole
    /// owner gives the handle up here and cannot release it again.
    pub fn release(&mut self, frame: Frame)
        requires
            old(self)@.wf(),
            old(self)@.live().contains(frame@),
        ensures
            final(self)@.wf(),
            final(self)@ == old(self)@.release_next(frame@),
            final(self)@.live() == old(self)@.live().remove(frame@),
    {
        proof {
            lemma_release_step(old(self)@, frame@);
        }
        self.recycled.push(frame.ppn);
        proof {
            assert(final(self)@ =~= old(self)@.release_next(frame@));
        }
    }
}

} // verus!

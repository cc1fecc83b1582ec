//! The processor: the scheduler's ready queue (FIFO) and the
//! currently running thread, with the round-robin pick-next protocol
//! driven by traps.

use vstd::prelude::*;

verus! {

use vstd::pervasive::unreached;

use crate::context::Context;
use crate::process::Thread;
use crate::process::ThreadView;

/// Failure of a schedule decision.
#[derive(Clone, Copy, PartialEq, Eq, Structural, Debug)]
pub enum SchedulerError {
    /// The ready queue is empty and no live thread remains: the
    /// kernel has no work left and must halt.
    NoRunnableThread,
}

/// Mathematical state of the processor: the ready queue in FIFO
/// order, and the thread occupying the *currently running* slot.
#[verifier::ext_equal]
pub ghost struct ProcessorModel {
    pub ready: Seq<ThreadView>,
    pub current: Option<ThreadView>,
}

impl ProcessorModel {
    /// Park the running thread at a schedule decision: re-enqueue it
    /// at the tail if it is still ready, drop it if it is dead.
    pub open spec fn park(self) -> ProcessorModel {
        match self.current {
            Some(c) => if c.dead {
                ProcessorModel { ready: self.ready, current: None }
            } else {
                ProcessorModel { ready: self.ready.push(c), current: None }
            },
            None => self,
        }
    }
}

/// Pop the head of a ready queue, skipping and discarding any thread
/// already marked dead: the remaining queue and the thread picked.
pub open spec fn pick(ready: Seq<ThreadView>) -> (Seq<ThreadView>, Option<ThreadView>)
    decreases ready.len(),
{
    if ready.len() == 0 {
        (ready, None)
    } else if ready[0].dead {
        pick(ready.drop_first())
    } else {
        (ready.drop_first(), Some(ready[0]))
    }
}

/// One full schedule decision: park the running thread, then pick the
/// next one and install it as current.
pub open spec fn schedule(m: ProcessorModel) -> (ProcessorModel, Option<ThreadView>) {
    let parked = m.park();
    let picked = pick(parked.ready);
    (ProcessorModel { ready: picked.0, current: picked.1 }, picked.1)
}

/// Views of a sequence of threads.
pub open spec fn views_of(threads: Seq<Thread>) -> Seq<ThreadView> {
    threads.map_values(|t: Thread| t@)
}

/// The scheduler: a FIFO ready queue of threads and the currently
/// running thread.  The surrounding kernel holds it behind one
/// mutual-exclusion lock, never held across a context switch; inside
/// the lock the operations below are the whole protocol.
#[derive(Debug)]
pub struct Processor {
    ready: Vec<Thread>,
    current: Option<Thread>,
}

impl View for Processor {
    type V = ProcessorModel;

    closed spec fn view(&self) -> ProcessorModel {
        ProcessorModel {
            ready: views_of(self.ready@),
            current: match self.current {
                Some(t) => Some(t@),
                None => None,
            },
        }
    }
}

impl Processor {
    /// A processor with nothing to run.
    pub fn new() -> (r: Processor)
        ensures
            r@ == (ProcessorModel { ready: Seq::<ThreadView>::empty(), current: None }),
    {
        let r = Processor { ready: Vec::new(), current: None };
        proof {
            assert(r@.ready =~= Seq::<ThreadView>::empty());
            assert(r@ =~= (ProcessorModel { ready: Seq::<ThreadView>::empty(), current: None }));
        }
        r
    }

    /// Append a thread to the tail of the ready queue.
    pub fn add_thread(&mut self, thread: Thread)
        ensures
            final(self)@ == (ProcessorModel {
                ready: old(self)@.ready.push(thread@),
                ..old(self)@
            }),
    {
        self.ready.push(thread);
        proof {
            assert(views_of(self.ready@) =~= old(self)@.ready.push(thread@));
            assert(final(self)@ =~= (ProcessorModel {
                ready: old(self)@.ready.push(thread@),
                ..old(self)@
            }));
        }
    }

    /// Number of threads waiting in the ready queue.
    pub fn ready_count(&self) -> (r: usize)
        ensures
            r == self@.ready.len(),
    {
        self.ready.len()
    }

    /// Whether a thread currently occupies the running slot.
    pub fn has_current(&self) -> (r: bool)
        ensures
            r == (self@.current is Some),
    {
        match &self.current {
            Some(_) => true,
            None => false,
        }
    }

    /// The currently running thread.  Only meaningful while a thread
    /// is installed: from within that thread's own execution or from
    /// a trap taken while it was running.
    pub fn current_thread(&self) -> (r: &Thread)
        requires
            self@.current is Some,
        ensures
            r@ == self@.current.unwrap(),
    {
        match &self.current {
            Some(t) => t,
            None => unreached(),
        }
    }

    /// Store a trapped thread's saved register file back into the
    /// running thread, before the next schedule decision.
    pub fn park_current_thread(&mut self, context: Context)
        requires
            old(self)@.current is Some,
        ensures
            final(self)@ == (ProcessorModel {
                current: Some(
                    ThreadView { context: context@, ..old(self)@.current.unwrap() },
                ),
                ..old(self)@
            }),
    {
        match self.current.take() {
            Some(mut t) => {
                t.set_context(context);
                self.current = Some(t);
                proof {
                    assert(final(self)@ =~= (ProcessorModel {
                        current: Some(
                            ThreadView { context: context@, ..old(self)@.current.unwrap() },
                        ),
                        ..old(self)@
                    }));
                }
            },
            None => unreached(),
        }
    }

    /// Set the running thread's liveness flag: the thread is finished
    /// and must never be scheduled again.
    pub fn mark_current_dead(&mut self)
        requires
            old(self)@.current is Some,
        ensures
            final(self)@ == (ProcessorModel {
                current: Some(ThreadView { dead: true, ..old(self)@.current.unwrap() }),
                ..old(self)@
            }),
    {
        match self.current.take() {
            Some(mut t) => {
                t.mark_dead();
                self.current = Some(t);
                proof {
                    assert(final(self)@ =~= (ProcessorModel {
                        current: Some(ThreadView { dead: true, ..old(self)@.current.unwrap() }),
                        ..old(self)@
                    }));
                }
            },
            None => unreached(),
        }
    }

    /// One schedule decision: park the running thread (re-enqueue if
    /// ready, discard if dead), pop the first live thread off the
    /// ready queue, install it as current, and hand back a copy of
    /// its saved context for the trap layer to restore.  Fails with
    /// `NoRunnableThread` exactly when no live thread remains.
    pub fn prepare_next_thread(&mut self) -> (r: Result<Context, SchedulerError>)
        ensures
            final(self)@ == schedule(old(self)@).0,
            r is Ok <==> schedule(old(self)@).1 is Some,
            r matches Ok(c) ==> schedule(old(self)@).1 matches Some(t) && c@ == t.context,
            r matches Err(e) ==> e == SchedulerError::NoRunnableThread,
    {
        match self.current.take() {
            Some(cur) => {
                if !cur.is_dead() {
                    self.ready.push(cur);
                }
            },
            None => (),
        }
        proof {
            assert(views_of(self.ready@) =~= old(self)@.park().ready);
        }
        while self.ready.len() > 0
            invariant
                self.current is None,
                pick(views_of(self.ready@)) == pick(old(self)@.park().ready),
            decreases self.ready.len(),
        {
            let ghost v0 = views_of(self.ready@);
            let t = self.ready.remove(0);
            proof {
                assert(views_of(self.ready@) =~= v0.drop_first());
            }
            if !t.is_dead() {
                let c = t.context().clone();
                self.current = Some(t);
                proof {
                    assert(pick(v0) == (v0.drop_first(), Some(t@)));
                    assert(final(self)@ =~= schedule(old(self)@).0);
                }
                return Ok(c);
            }
            proof {
                assert(pick(v0) == pick(v0.drop_first()));
            }
        }
        proof {
            assert(views_of(self.ready@) =~= Seq::<ThreadView>::empty());
            assert(pick(views_of(self.ready@)).1 is None);
            assert(final(self)@ =~= schedule(old(self)@).0);
        }
        Err(SchedulerError::NoRunnableThread)
    }
}

/// The conceptual queue of a processor state: the ready threads in
/// FIFO order, then the running thread (next to be re-enqueued).
pub open spec fn queue(m: ProcessorModel) -> Seq<ThreadView> {
    m.ready + (match m.current {
        Some(c) => seq![c],
        None => Seq::<ThreadView>::empty(),
    })
}

/// No thread anywhere in the processor is dead.
pub open spec fn none_dead(m: ProcessorModel) -> bool {
    &&& (forall|i: int| 0 <= i < m.ready.len() ==> !(#[trigger] m.ready[i]).dead)
    &&& (m.current matches Some(c) ==> !c.dead)
}

/// While no thread is dead, one schedule decision picks exactly the
/// head of the conceptual queue and rotates it to the tail.
pub proof fn lemma_schedule_rotates(m: ProcessorModel)
    requires
        none_dead(m),
        queue(m).len() > 0,
    ensures
        schedule(m).1 == Some(queue(m)[0]),
        none_dead(schedule(m).0),
        queue(schedule(m).0) == queue(m).drop_first().push(queue(m)[0]),
{
    let q = queue(m);
    let parked = m.park();
    assert(parked.ready =~= q);
    assert(!q[0].dead);
    let m2 = schedule(m).0;
    assert(queue(m2) =~= q.drop_first().push(q[0]));
    assert forall|i: int| 0 <= i < m2.ready.len() implies !(#[trigger] m2.ready[i]).dead by {
        assert(m2.ready[i] == q[i + 1]);
    }
}

/// Processor states and picks over `k` consecutive schedule
/// decisions, oldest pick first.
pub open spec fn schedule_run(m: ProcessorModel, k: nat) -> (
    ProcessorModel,
    Seq<Option<ThreadView>>,
)
    decreases k,
{
    if k == 0 {
        (m, Seq::empty())
    } else {
        let s = schedule(m);
        let rest = schedule_run(s.0, (k - 1) as nat);
        (rest.0, seq![s.1] + rest.1)
    }
}

proof fn lemma_schedule_run_len(m: ProcessorModel, k: nat)
    ensures
        schedule_run(m, k).1.len() == k,
    decreases k,
{
    if k > 0 {
        lemma_schedule_run_len(schedule(m).0, (k - 1) as nat);
    }
}

/// Scheduling fairness: while no thread is dead, the `j`-th schedule
/// decision picks thread `j mod n` of the conceptual queue — with
/// threads added in some order, the sequence of running threads is
/// exactly that order, repeating round-robin.
pub proof fn lemma_round_robin(m: ProcessorModel, k: nat)
    requires
        none_dead(m),
        queue(m).len() > 0,
    ensures
        schedule_run(m, k).1.len() == k,
        forall|j: int|
            0 <= j < k ==> schedule_run(m, k).1[j] == Some(
                queue(m)[j % (queue(m).len() as int)],
            ),
    decreases k,
{
    let n = queue(m).len() as int;
    if k > 0 {
        lemma_schedule_rotates(m);
        let m1 = schedule(m).0;
        lemma_round_robin(m1, (k - 1) as nat);
        let q = queue(m);
        let q1 = queue(m1);
        let run = schedule_run(m, k).1;
        let rest = schedule_run(m1, (k - 1) as nat).1;
        assert forall|j: int| 0 <= j < k implies run[j] == Some(q[j % n]) by {
            if j == 0 {
                assert(run[0] == schedule(m).1);
                assert(0int % n == 0);
            } else {
                assert(run[j] == rest[j - 1]);
                assert(rest[j - 1] == Some(q1[(j - 1) % n]));
                let i = (j - 1) % n;
                let d = (j - 1) / n;
                vstd::arithmetic::div_mod::lemma_fundamental_div_mod(j - 1, n);
                if i < n - 1 {
                    assert(q1[i] == q[i + 1]);
                    vstd::arithmetic::div_mod::lemma_fundamental_div_mod_converse(
                        j,
                        n,
                        d,
                        i + 1,
                    );
                } else {
                    assert(q1[n - 1] == q[0]);
                    assert((d + 1) * n == n * d + n) by (nonlinear_arith);
                    assert(j == (d + 1) * n + 0);
                    vstd::arithmetic::div_mod::lemma_fundamental_div_mod_converse(
                        j,
                        n,
                        d + 1,
                        0,
                    );
                }
            }
        }
    }
}

/// Whether every thread with identity `id` anywhere in the processor
/// is dead.
pub open spec fn dead_for(m: ProcessorModel, id: usize) -> bool {
    &&& (forall|i: int|
        0 <= i < m.ready.len() && (#[trigger] m.ready[i]).id == id ==> m.ready[i].dead)
    &&& (m.current matches Some(c) ==> (c.id == id ==> c.dead))
}

proof fn lemma_pick_from(ready: Seq<ThreadView>)
    ensures
        pick(ready).1 matches Some(t) ==> !t.dead && ready.contains(t),
        forall|i: int|
            0 <= i < pick(ready).0.len() ==> ready.contains(#[trigger] pick(ready).0[i]),
    decreases ready.len(),
{
    if ready.len() == 0 {
    } else if ready[0].dead {
        lemma_pick_from(ready.drop_first());
        if pick(ready).1 is Some {
            let t = pick(ready).1.unwrap();
            let i = choose|i: int|
                0 <= i < ready.drop_first().len() && ready.drop_first()[i] == t;
            assert(ready[i + 1] == t);
        }
        assert forall|i: int| 0 <= i < pick(ready).0.len() implies ready.contains(
            #[trigger] pick(ready).0[i],
        ) by {
            assert(ready.drop_first().contains(pick(ready).0[i]));
            let j = choose|j: int|
                0 <= j < ready.drop_first().len() && ready.drop_first()[j] == pick(ready).0[i];
            assert(ready[j + 1] == pick(ready).0[i]);
        }
    } else {
        assert(ready[0int] == ready[0]);
        assert forall|i: int| 0 <= i < pick(ready).0.len() implies ready.contains(
            #[trigger] pick(ready).0[i],
        ) by {
            assert(ready[i + 1] == pick(ready).0[i]);
        }
    }
}

/// Dead-thread exclusion, one step: once every thread with a given
/// identity is dead, a schedule decision never picks that identity,
/// and the property persists into the next state.
pub proof fn lemma_dead_excluded(m: ProcessorModel, id: usize)
    requires
        dead_for(m, id),
    ensures
        schedule(m).1 matches Some(t) ==> t.id != id,
        dead_for(schedule(m).0, id),
{
    let parked = m.park();
    assert forall|i: int|
        0 <= i < parked.ready.len() && (#[trigger] parked.ready[i]).id == id implies parked.ready[i].dead by {
        if i == m.ready.len() {
        }
    }
    lemma_pick_from(parked.ready);
    let m2 = schedule(m).0;
    if schedule(m).1 is Some {
        let t = schedule(m).1.unwrap();
        let i = choose|i: int| 0 <= i < parked.ready.len() && parked.ready[i] == t;
        assert(t.id == id ==> t.dead);
    }
    assert forall|i: int|
        0 <= i < m2.ready.len() && (#[trigger] m2.ready[i]).id == id implies m2.ready[i].dead by {
        assert(parked.ready.contains(m2.ready[i]));
        let j = choose|j: int| 0 <= j < parked.ready.len() && parked.ready[j] == m2.ready[i];
    }
}

/// Dead-thread exclusion forever: once every thread with a given
/// identity is dead, no later schedule decision — however many — ever
/// picks that identity again.
pub proof fn lemma_dead_excluded_forever(m: ProcessorModel, id: usize, k: nat)
    requires
        dead_for(m, id),
    ensures
        forall|j: int|
            0 <= j < k ==> ((#[trigger] schedule_run(m, k).1[j]) matches Some(t) ==> t.id
                != id),
    decreases k,
{
    if k > 0 {
        lemma_dead_excluded(m, id);
        let m1 = schedule(m).0;
        lemma_dead_excluded_forever(m1, id, (k - 1) as nat);
        lemma_schedule_run_len(m, k);
        lemma_schedule_run_len(m1, (k - 1) as nat);
        assert forall|j: int|
            0 <= j < k implies ((#[trigger] schedule_run(m, k).1[j]) matches Some(t) ==> t.id
            != id) by {
            if j > 0 {
                assert(schedule_run(m, k).1[j] == schedule_run(m1, (k - 1) as nat).1[j - 1]);
            }
        }
    }
}

/// The thread exit protocol, end to end: the running thread has set
/// its own liveness flag (and only then traps), and no queued thread
/// shares its identity — thread identities are unique by
/// construction, each creation being handed a distinct id.  Then no
/// schedule decision, however many follow, ever picks that identity
/// again: the exited thread is permanently excluded and its context
/// is never returned.
pub proof fn lemma_exit_excludes_current(m: ProcessorModel, k: nat)
    requires
        m.current matches Some(c) ==> c.dead,
        m.current is Some,
        forall|i: int|
            0 <= i < m.ready.len() ==> (#[trigger] m.ready[i]).id != m.current.unwrap().id,
    ensures
        forall|j: int|
            0 <= j < k ==> ((#[trigger] schedule_run(m, k).1[j]) matches Some(t) ==> t.id
                != m.current.unwrap().id),
{
    let id = m.current.unwrap().id;
    assert(dead_for(m, id));
    lemma_dead_excluded_forever(m, id, k);
}

} // verus!

//! The scheduler: a FIFO ready queue ordered by priority at selection time,
//! the list of threads cooling down after exhausting their budget, and the
//! record of the running thread with its remaining quantum.
use vstd::prelude::*;
use crate::abi::ThreadRef;
use crate::space::Space;
use crate::tcb::{Tcb, ThreadState, RecvReq};
use crate::KernelError;

verus! {

/// Size of the TCB table.
pub const TCB_CAPACITY: usize = 16;

/// Number of priorities; 7 is the highest.
pub const PRIORITY_LEVELS: usize = 8;

/// A thread waiting in the ready queue. `loaned_tcb` names the thread whose
/// budget pays for this one while it serves a call.
#[derive(Clone, Copy, Debug, PartialEq, Eq, Structural)]
pub struct DomainEntry {
    pub tcb_ref: ThreadRef,
    pub loaned_tcb: Option<ThreadRef>,
    pub priority: u8,
}

impl DomainEntry {
    pub fn new(tcb_ref: ThreadRef, loaned_tcb: Option<ThreadRef>, priority: u8) -> (r: DomainEntry)
        ensures
            r == (DomainEntry { tcb_ref, loaned_tcb, priority }),
    {
        DomainEntry { tcb_ref, loaned_tcb, priority }
    }

    /// The idle thread at priority zero.
    pub fn idle() -> (r: DomainEntry)
        ensures
            r == idle_entry(),
    {
        DomainEntry { tcb_ref: ThreadRef(0), loaned_tcb: None, priority: 0 }
    }

    /// The thread whose budget is charged while this entry runs.
    pub open spec fn time_ref(self) -> ThreadRef {
        match self.loaned_tcb {
            Some(t) => t,
            None => self.tcb_ref,
        }
    }
}

pub open spec fn idle_entry() -> DomainEntry {
    DomainEntry { tcb_ref: ThreadRef(0), loaned_tcb: None, priority: 0 }
}

/// A thread that used up its budget and the ticks left before it may run.
#[derive(Clone, Copy, Debug, PartialEq, Eq, Structural)]
pub struct ExhaustedThread {
    pub tcb_ref: ThreadRef,
    pub time: usize,
    pub loaned_tcb: Option<ThreadRef>,
}

/// The running thread and what is left of its quantum.
#[derive(Clone, Copy, Debug, PartialEq, Eq, Structural)]
pub struct ThreadTime {
    pub tcb_ref: ThreadRef,
    pub time: usize,
    pub loaned_tcb: Option<ThreadRef>,
}

impl ThreadTime {
    pub open spec fn time_ref(self) -> ThreadRef {
        match self.loaned_tcb {
            Some(t) => t,
            None => self.tcb_ref,
        }
    }

    /// The thread whose budget the running thread spends.
    pub fn time_thread(&self) -> (r: ThreadRef)
        ensures
            r == self.time_ref(),
    {
        match self.loaned_tcb {
            Some(t) => t,
            None => self.tcb_ref,
        }
    }
}

/// Index of the earliest entry of highest priority.
pub open spec fn best_index(q: Seq<DomainEntry>) -> int
    decreases q.len(),
{
    if q.len() <= 1 {
        0
    } else {
        let b = best_index(q.drop_last());
        if q.last().priority > q[b].priority {
            q.len() - 1
        } else {
            b
        }
    }
}

proof fn lemma_best_index(q: Seq<DomainEntry>)
    requires
        q.len() > 0,
    ensures
        0 <= best_index(q) < q.len(),
        forall|k: int| 0 <= k < q.len() ==> (#[trigger] q[k]).priority <= q[best_index(q)].priority,
        forall|k: int| 0 <= k < best_index(q) ==> (#[trigger] q[k]).priority < q[best_index(q)].priority,
    decreases q.len(),
{
    if q.len() > 1 {
        lemma_best_index(q.drop_last());
        let b = best_index(q.drop_last());
        assert forall|k: int| 0 <= k < q.len() - 1 implies q.drop_last()[k] == #[trigger] q[k] by {}
    }
}

/// The slot of thread `r`, if it is live.
pub open spec fn live(tcbs: Seq<Option<Tcb>>, r: ThreadRef) -> bool {
    r.0 < tcbs.len() && tcbs[r.0 as int] is Some
}

/// An entry that may be switched to: not the running thread, live, and
/// not blocked in a receive.
pub open spec fn runnable(tcbs: Seq<Option<Tcb>>, cur: ThreadRef, e: DomainEntry) -> bool {
    &&& e.tcb_ref != cur
    &&& live(tcbs, e.tcb_ref)
    &&& !(tcbs[e.tcb_ref.0 as int].unwrap().state is Waiting)
}

/// The thread the scheduler picks over priority `p`, and the ready queue
/// afterwards. Entries of higher priority that cannot run are dropped on
/// the way.
pub open spec fn pick(q: Seq<DomainEntry>, p: int, cur: ThreadRef, tcbs: Seq<Option<Tcb>>) -> (Option<DomainEntry>, Seq<DomainEntry>)
    decreases q.len(),
{
    if q.len() == 0 {
        (None, q)
    } else {
        let b = best_index(q);
        if !(0 <= b < q.len()) || q[b].priority <= p {
            (None, q)
        } else if runnable(tcbs, cur, q[b]) {
            (Some(q[b]), q.remove(b))
        } else {
            pick(q.remove(b), p, cur, tcbs)
        }
    }
}

/// An exhausted thread one tick later.
pub open spec fn decremented(e: ExhaustedThread) -> ExhaustedThread {
    ExhaustedThread { time: if e.time > 0 { (e.time - 1) as usize } else { 0 }, ..e }
}

/// The exhausted threads still cooling after one more tick, in order.
pub open spec fn still_cooling(ex: Seq<ExhaustedThread>) -> Seq<ExhaustedThread>
    decreases ex.len(),
{
    if ex.len() == 0 {
        ex
    } else {
        let rest = still_cooling(ex.drop_last());
        if decremented(ex.last()).time > 0 { rest.push(decremented(ex.last())) } else { rest }
    }
}

/// The ready-queue entries of the exhausted threads whose cooldown ends on
/// this tick, in order; threads no longer live are dropped.
pub open spec fn woken(ex: Seq<ExhaustedThread>, tcbs: Seq<Option<Tcb>>) -> Seq<DomainEntry>
    decreases ex.len(),
{
    if ex.len() == 0 {
        Seq::empty()
    } else {
        let rest = woken(ex.drop_last(), tcbs);
        let e = ex.last();
        if decremented(e).time == 0 && live(tcbs, e.tcb_ref) {
            rest.push(DomainEntry { tcb_ref: e.tcb_ref, loaned_tcb: e.loaned_tcb, priority: tcbs[e.tcb_ref.0 as int].unwrap().priority as u8 })
        } else {
            rest
        }
    }
}

/// Cooldown is exact, one tick at a time: an exhausted thread with more
/// than one tick of cooldown left is still cooling after the tick, with one
/// tick less; one with at most one tick left is back in the ready queue
/// after the tick (if its TCB is still live).
pub proof fn lemma_cooldown_step(ex: Seq<ExhaustedThread>, tcbs: Seq<Option<Tcb>>, k: int)
    requires
        0 <= k < ex.len(),
    ensures
        ex[k].time > 1 ==> still_cooling(ex).contains(ExhaustedThread { time: (ex[k].time - 1) as usize, ..ex[k] }),
        ex[k].time <= 1 ==> !still_cooling(ex).contains(decremented(ex[k])),
        ex[k].time <= 1 && live(tcbs, ex[k].tcb_ref) ==> woken(ex, tcbs).contains(DomainEntry {
            tcb_ref: ex[k].tcb_ref,
            loaned_tcb: ex[k].loaned_tcb,
            priority: tcbs[ex[k].tcb_ref.0 as int].unwrap().priority as u8,
        }),
    decreases ex.len(),
{
    lemma_still_cooling_positive(ex);
    let rest = still_cooling(ex.drop_last());
    let wrest = woken(ex.drop_last(), tcbs);
    if k == ex.len() - 1 {
        if decremented(ex.last()).time > 0 {
            assert(still_cooling(ex) == rest.push(decremented(ex.last())));
            assert(still_cooling(ex)[rest.len() as int] == decremented(ex.last()));
        } else if live(tcbs, ex.last().tcb_ref) {
            let e = ex.last();
            let d = DomainEntry { tcb_ref: e.tcb_ref, loaned_tcb: e.loaned_tcb, priority: tcbs[e.tcb_ref.0 as int].unwrap().priority as u8 };
            assert(woken(ex, tcbs) == wrest.push(d));
            assert(woken(ex, tcbs)[wrest.len() as int] == d);
        }
    } else {
        lemma_cooldown_step(ex.drop_last(), tcbs, k);
        assert(ex.drop_last()[k] == ex[k]);
        if ex[k].time > 1 {
            let x = ExhaustedThread { time: (ex[k].time - 1) as usize, ..ex[k] };
            let i = choose|i: int| 0 <= i < rest.len() && rest[i] == x;
            if decremented(ex.last()).time > 0 {
                assert(still_cooling(ex)[i] == x);
            }
        }
        if ex[k].time <= 1 && live(tcbs, ex[k].tcb_ref) {
            let d = DomainEntry { tcb_ref: ex[k].tcb_ref, loaned_tcb: ex[k].loaned_tcb, priority: tcbs[ex[k].tcb_ref.0 as int].unwrap().priority as u8 };
            let i = choose|i: int| 0 <= i < wrest.len() && wrest[i] == d;
            let e = ex.last();
            if decremented(e).time == 0 && live(tcbs, e.tcb_ref) {
                assert(woken(ex, tcbs)[i] == d);
            }
        }
    }
}

proof fn lemma_still_cooling_positive(ex: Seq<ExhaustedThread>)
    ensures
        forall|i: int| 0 <= i < still_cooling(ex).len() ==> (#[trigger] still_cooling(ex)[i]).time > 0,
    decreases ex.len(),
{
    if ex.len() > 0 {
        lemma_still_cooling_positive(ex.drop_last());
    }
}

/// The TCB table after the departing thread's remaining time is saved.
pub open spec fn saved_time(tcbs: Seq<Option<Tcb>>, cur: ThreadTime) -> Seq<Option<Tcb>> {
    let d = cur.time_ref();
    if live(tcbs, d) {
        tcbs.update(d.0 as int, Some(Tcb { rem_time: cur.time, ..tcbs[d.0 as int].unwrap() }))
    } else {
        tcbs
    }
}

/// What switching from `cur` to `next` returns, and the TCB table and
/// running record afterwards.
pub open spec fn switch_result(tcbs: Seq<Option<Tcb>>, cur: ThreadTime, next: DomainEntry) -> (Result<ThreadRef, KernelError>, Seq<Option<Tcb>>, ThreadTime) {
    if !live(tcbs, next.tcb_ref) {
        (Err(KernelError::InvalidThreadRef), tcbs, cur)
    } else {
        let t2 = saved_time(tcbs, cur);
        let loan_live = live(tcbs, next.time_ref());
        let tr = if loan_live { next.time_ref() } else { next.tcb_ref };
        let loan = if loan_live { next.loaned_tcb } else { None };
        (Ok(next.tcb_ref), t2, ThreadTime { tcb_ref: next.tcb_ref, time: quantum(t2[tr.0 as int].unwrap()), loaned_tcb: loan })
    }
}

/// Picking only takes entries out of the ready queue, and never drops a
/// runnable entry it does not return.
pub proof fn lemma_pick_keeps(q: Seq<DomainEntry>, p: int, cur: ThreadRef, tcbs: Seq<Option<Tcb>>, x: DomainEntry)
    ensures
        pick(q, p, cur, tcbs).1.contains(x) ==> q.contains(x),
        q.contains(x) && runnable(tcbs, cur, x) ==> pick(q, p, cur, tcbs).1.contains(x) || pick(q, p, cur, tcbs).0 == Some(x),
    decreases q.len(),
{
    if q.len() > 0 {
        lemma_best_index(q);
        let b = best_index(q);
        let r = q.remove(b);
        assert forall|y: DomainEntry| r.contains(y) implies q.contains(y) by {
            let k = choose|k: int| 0 <= k < r.len() && r[k] == y;
            if k < b { assert(q[k] == y); } else { assert(q[k + 1] == y); }
        }
        if q.contains(x) && x != q[b] {
            let k = choose|k: int| 0 <= k < q.len() && q[k] == x;
            if k < b { assert(r[k] == x); } else { assert(r[k - 1] == x); }
        }
        if q[b].priority > p && !runnable(tcbs, cur, q[b]) {
            lemma_pick_keeps(r, p, cur, tcbs, x);
        }
    }
}

/// The entry the scheduler picks has the highest priority of everything
/// left in the ready queue.
pub proof fn lemma_pick_best(q: Seq<DomainEntry>, p: int, cur: ThreadRef, tcbs: Seq<Option<Tcb>>)
    ensures
        pick(q, p, cur, tcbs).0 matches Some(e) ==> forall|k: int| 0 <= k < pick(q, p, cur, tcbs).1.len()
            ==> (#[trigger] pick(q, p, cur, tcbs).1[k]).priority <= e.priority,
    decreases q.len(),
{
    if q.len() > 0 {
        lemma_best_index(q);
        let b = best_index(q);
        if q[b].priority > p {
            if runnable(tcbs, cur, q[b]) {
                assert forall|k: int| 0 <= k < q.remove(b).len() implies (#[trigger] q.remove(b)[k]).priority <= q[b].priority by {
                    if k < b { assert(q.remove(b)[k] == q[k]); } else { assert(q.remove(b)[k] == q[k + 1]); }
                }
            } else {
                lemma_pick_best(q.remove(b), p, cur, tcbs);
            }
        }
    }
}

/// The entry the scheduler picks can run: it is live, not blocked and not
/// the running thread.
pub proof fn lemma_pick_runnable(q: Seq<DomainEntry>, p: int, cur: ThreadRef, tcbs: Seq<Option<Tcb>>)
    ensures
        pick(q, p, cur, tcbs).0 matches Some(e) ==> runnable(tcbs, cur, e) && e.priority > p,
        pick(q, p, cur, tcbs).0 is None ==> forall|k: int| 0 <= k < pick(q, p, cur, tcbs).1.len() ==> (#[trigger] pick(q, p, cur, tcbs).1[k]).priority <= p,
    decreases q.len(),
{
    if q.len() > 0 {
        lemma_best_index(q);
        let b = best_index(q);
        if q[b].priority > p && !runnable(tcbs, cur, q[b]) {
            lemma_pick_runnable(q.remove(b), p, cur, tcbs);
        }
    }
}

/// The entry picked over priority `p`, or the idle thread.
pub open spec fn pick_or_idle(q: Seq<DomainEntry>, p: int, cur: ThreadRef, tcbs: Seq<Option<Tcb>>) -> DomainEntry {
    match pick(q, p, cur, tcbs).0 {
        Some(e) => e,
        None => idle_entry(),
    }
}

/// The quantum a thread starts with: what it had left, or a full budget.
pub open spec fn quantum(t: Tcb) -> usize {
    if t.rem_time > 0 { t.rem_time } else { t.budget }
}

/// A TCB the scheduler can hold: well formed, at a valid priority.
pub open spec fn tcb_ok(t: Tcb) -> bool {
    t.wf() && t.priority < PRIORITY_LEVELS
}

/// What one tick does: scheduler `b` becomes `a` and the tick returns `r`.
pub open spec fn ticked(b: Scheduler, a: Scheduler, r: Result<Option<ThreadRef>, KernelError>) -> bool {
    let tc = b.tcbs@;
    let cur = b.current_thread;
    let q1 = b.wait_queue@ + woken(b.exhausted_threads@, tc);
    let ex1 = still_cooling(b.exhausted_threads@);
    let cur1 = ThreadTime { time: if cur.time > 0 { (cur.time - 1) as usize } else { 0 }, ..cur };
    if cur1.time == 0 {
        if !live(tc, cur.time_ref()) {
            r == Err::<Option<ThreadRef>, KernelError>(KernelError::InvalidThreadRef)
        } else {
            let next = pick_or_idle(q1, 0, cur.tcb_ref, tc);
            let sw = switch_result(tc, cur1, next);
            &&& a.exhausted_threads@ == seq![ExhaustedThread { tcb_ref: cur.tcb_ref, time: tc[cur.time_ref().0 as int].unwrap().cooldown, loaned_tcb: cur.loaned_tcb }] + ex1
            &&& a.wait_queue@ == pick(q1, 0, cur.tcb_ref, tc).1
            &&& a.tcbs@ == sw.1
            &&& a.current_thread == sw.2
            &&& r == match sw.0 { Ok(t) => Ok(Some(t)), Err(e) => Err(e) }
        }
    } else {
        if !live(tc, cur.tcb_ref) {
            r == Err::<Option<ThreadRef>, KernelError>(KernelError::InvalidThreadRef)
        } else {
            let p = tc[cur.tcb_ref.0 as int].unwrap().priority as int;
            &&& a.exhausted_threads@ == ex1
            &&& match pick(q1, p, cur.tcb_ref, tc).0 {
                None => r == Ok::<Option<ThreadRef>, KernelError>(None) && a.current_thread == cur1 && a.tcbs@ == tc
                    && a.wait_queue@ == pick(q1, p, cur.tcb_ref, tc).1,
                Some(next) => {
                    let sw = switch_result(tc, cur1, next);
                    &&& a.tcbs@ == sw.1
                    &&& a.current_thread == sw.2
                    &&& r == Ok::<Option<ThreadRef>, KernelError>(Some(next.tcb_ref))
                    &&& a.wait_queue@ == pick(q1, p, cur.tcb_ref, tc).1.push(DomainEntry { tcb_ref: cur.tcb_ref, loaned_tcb: cur.loaned_tcb, priority: p as u8 })
                },
            }
        }
    }
}

/// A tick that reports a switch reports the thread now running.
pub proof fn lemma_ticked_switch(b: Scheduler, a: Scheduler, r: Result<Option<ThreadRef>, KernelError>)
    requires
        ticked(b, a, r),
    ensures
        r matches Ok(Some(t)) ==> t == a.current_thread.tcb_ref,
{
    let tc = b.tcbs@;
    let cur = b.current_thread;
    let q1 = b.wait_queue@ + woken(b.exhausted_threads@, tc);
    let cur1 = ThreadTime { time: if cur.time > 0 { (cur.time - 1) as usize } else { 0 }, ..cur };
    if cur1.time == 0 {
        lemma_switch_result(tc, cur1, pick_or_idle(q1, 0, cur.tcb_ref, tc));
    } else if live(tc, cur.tcb_ref) {
        let p = tc[cur.tcb_ref.0 as int].unwrap().priority as int;
        lemma_pick_runnable(q1, p, cur.tcb_ref, tc);
        if let Some(next) = pick(q1, p, cur.tcb_ref, tc).0 {
            lemma_switch_result(tc, cur1, next);
        }
    }
}

pub proof fn lemma_switch_result(tcbs: Seq<Option<Tcb>>, cur: ThreadTime, next: DomainEntry)
    ensures
        switch_result(tcbs, cur, next).0 matches Ok(t) ==> t == next.tcb_ref && switch_result(tcbs, cur, next).2.tcb_ref == next.tcb_ref,
{
}

pub struct Scheduler {
    pub tcbs: Space<Tcb, 16>,
    pub wait_queue: Vec<DomainEntry>,
    pub exhausted_threads: Vec<ExhaustedThread>,
    pub current_thread: ThreadTime,
}

impl Scheduler {
    pub open spec fn wf(&self) -> bool {
        &&& self.tcbs.wf()
        &&& forall|i: int| 0 <= i < self.tcbs@.len() && (#[trigger] self.tcbs@[i]) is Some ==> tcb_ok(self.tcbs@[i].unwrap())
    }

    /// An empty scheduler whose running record names the idle slot.
    pub fn new() -> (s: Scheduler)
        ensures
            s.wf(),
            s.tcbs@ == Seq::new(16, |i: int| None::<Tcb>),
            s.tcbs.next_slot() == 0,
            s.wait_queue@ == Seq::<DomainEntry>::empty(),
            s.exhausted_threads@ == Seq::<ExhaustedThread>::empty(),
            s.current_thread == (ThreadTime { tcb_ref: ThreadRef(0), time: 20, loaned_tcb: None }),
    {
        Scheduler {
            tcbs: Space::new(),
            wait_queue: Vec::new(),
            exhausted_threads: Vec::new(),
            current_thread: ThreadTime { tcb_ref: ThreadRef(0), time: 20, loaned_tcb: None },
        }
    }

    /// Puts `tcb` in the next free slot and queues it at its priority.
    pub fn spawn(&mut self, tcb: Tcb) -> (r: Result<ThreadRef, KernelError>)
        requires
            old(self).wf(),
            tcb.wf(),
        ensures
            final(self).wf(),
            final(self).current_thread == old(self).current_thread,
            final(self).exhausted_threads@ == old(self).exhausted_threads@,
            tcb.priority >= PRIORITY_LEVELS ==> r == Err::<ThreadRef, KernelError>(KernelError::InvalidPriority)
                && final(self).tcbs@ == old(self).tcbs@ && final(self).wait_queue@ == old(self).wait_queue@,
            tcb.priority < PRIORITY_LEVELS && old(self).tcbs.len_spec() >= TCB_CAPACITY ==> r == Err::<ThreadRef, KernelError>(KernelError::TooManyThreads)
                && final(self).tcbs@ == old(self).tcbs@ && final(self).wait_queue@ == old(self).wait_queue@,
            tcb.priority < PRIORITY_LEVELS && old(self).tcbs.len_spec() < TCB_CAPACITY ==> {
                let i = old(self).tcbs.next_slot();
                &&& r == Ok::<ThreadRef, KernelError>(ThreadRef(i as usize))
                &&& final(self).tcbs@ == old(self).tcbs@.update(i, Some(tcb))
                &&& final(self).tcbs.free_stack() == old(self).tcbs.free_stack().drop_last()
                &&& final(self).wait_queue@ == old(self).wait_queue@.push(DomainEntry { tcb_ref: ThreadRef(i as usize), loaned_tcb: None, priority: tcb.priority as u8 })
            },
    {
        if tcb.priority >= PRIORITY_LEVELS {
            return Err(KernelError::InvalidPriority);
        }
        let priority = tcb.priority as u8;
        proof {
            self.tcbs.lemma_wf();
        }
        match self.tcbs.push(tcb) {
            Some(i) => {
                proof {
                    assert forall|k: int| 0 <= k < self.tcbs@.len() && (#[trigger] self.tcbs@[k]) is Some implies tcb_ok(self.tcbs@[k].unwrap()) by {
                        if k != i {
                            assert(self.tcbs@[k] == old(self).tcbs@[k]);
                        }
                    }
                }
                let r = ThreadRef(i);
                self.wait_queue.push(DomainEntry { tcb_ref: r, loaned_tcb: None, priority });
                Ok(r)
            },
            None => Err(KernelError::TooManyThreads),
        }
    }

    /// Index of the earliest entry of highest priority in the ready queue.
    fn best(&self) -> (b: usize)
        requires
            self.wait_queue@.len() > 0,
        ensures
            b == best_index(self.wait_queue@),
            b < self.wait_queue@.len(),
    {
        let q = &self.wait_queue;
        let mut b: usize = 0;
        let mut i: usize = 1;
        proof {
            assert(q@.take(1).drop_last() =~= Seq::<DomainEntry>::empty());
        }
        while i < q.len()
            invariant
                1 <= i <= q@.len(),
                b < i,
                b == best_index(q@.take(i as int)),
            decreases q@.len() - i,
        {
            proof {
                assert(q@.take(i + 1).drop_last() =~= q@.take(i as int));
                lemma_best_index(q@.take(i as int));
            }
            if q[i].priority > q[b].priority {
                b = i;
            }
            i = i + 1;
        }
        assert(q@.take(q@.len() as int) =~= q@);
        b
    }

    /// Takes the next thread to run over priority `current_priority` off the
    /// ready queue, if there is one.
    pub fn next_thread(&mut self, current_priority: usize) -> (r: Option<DomainEntry>)
        requires
            old(self).wf(),
        ensures
            (r, final(self).wait_queue@) == pick(old(self).wait_queue@, current_priority as int, old(self).current_thread.tcb_ref, old(self).tcbs@),
            final(self).tcbs == old(self).tcbs,
            final(self).exhausted_threads@ == old(self).exhausted_threads@,
            final(self).current_thread == old(self).current_thread,
    {
        loop
            invariant
                pick(self.wait_queue@, current_priority as int, self.current_thread.tcb_ref, self.tcbs@)
                    == pick(old(self).wait_queue@, current_priority as int, old(self).current_thread.tcb_ref, old(self).tcbs@),
                self.tcbs == old(self).tcbs,
                old(self).wf(),
                self.exhausted_threads@ == old(self).exhausted_threads@,
                self.current_thread == old(self).current_thread,
            decreases self.wait_queue@.len(),
        {
            if self.wait_queue.len() == 0 {
                return None;
            }
            proof {
                lemma_best_index(self.wait_queue@);
                self.tcbs.lemma_wf();
            }
            let b = self.best();
            if self.wait_queue[b].priority as usize <= current_priority {
                return None;
            }
            let e = self.wait_queue.remove(b);
            if e.tcb_ref.0 != self.current_thread.tcb_ref.0 {
                let waiting = match self.tcbs.get(e.tcb_ref.0) {
                    Some(t) => match t.state {
                        ThreadState::Waiting(_) => true,
                        _ => false,
                    },
                    None => true,
                };
                if !waiting {
                    return Some(e);
                }
            }
        }
    }

    /// Queues thread `tcb_ref` at `priority`.
    pub fn add_thread(&mut self, priority: usize, tcb_ref: ThreadRef) -> (r: Result<(), KernelError>)
        ensures
            priority >= PRIORITY_LEVELS ==> r == Err::<(), KernelError>(KernelError::InvalidPriority) && final(self).wait_queue@ == old(self).wait_queue@,
            priority < PRIORITY_LEVELS ==> r is Ok && final(self).wait_queue@ == old(self).wait_queue@.push(DomainEntry { tcb_ref, loaned_tcb: None, priority: priority as u8 }),
            final(self).tcbs == old(self).tcbs,
            final(self).exhausted_threads@ == old(self).exhausted_threads@,
            final(self).current_thread == old(self).current_thread,
    {
        if priority >= PRIORITY_LEVELS {
            return Err(KernelError::InvalidPriority);
        }
        self.wait_queue.push(DomainEntry::new(tcb_ref, None, priority as u8));
        Ok(())
    }

    /// Makes `next` the running thread. The departing thread keeps what is
    /// left of its quantum; `next` resumes its own, or starts a full budget.
    /// While `next` serves a call its time is drawn from the caller's budget,
    /// as long as the caller is still live.
    pub fn switch_thread(&mut self, next: DomainEntry) -> (r: Result<ThreadRef, KernelError>)
        requires
            old(self).wf(),
        ensures
            final(self).wf(),
            final(self).wait_queue@ == old(self).wait_queue@,
            final(self).exhausted_threads@ == old(self).exhausted_threads@,
            final(self).tcbs.free_stack() == old(self).tcbs.free_stack(),
            (r, final(self).tcbs@, final(self).current_thread) == switch_result(old(self).tcbs@, old(self).current_thread, next),
    {
        proof {
            self.tcbs.lemma_wf();
        }
        if self.tcbs.get(next.tcb_ref.0).is_none() {
            return Err(KernelError::InvalidThreadRef);
        }
        let (target, loan) = match next.loaned_tcb {
            Some(l) => if self.tcbs.get(l.0).is_some() { (l, next.loaned_tcb) } else { (next.tcb_ref, None) },
            None => (next.tcb_ref, None),
        };
        let dep = self.current_thread.time_thread();
        let time = self.current_thread.time;
        let ghost before = self.tcbs@;
        match self.tcbs.get_mut(dep.0) {
            Some(t) => {
                t.rem_time = time;
            },
            None => {},
        }
        proof {
            self.tcbs.lemma_wf();
            assert(self.tcbs@ =~= saved_time(before, old(self).current_thread));
            assert forall|i: int| 0 <= i < self.tcbs@.len() && (#[trigger] self.tcbs@[i]) is Some implies tcb_ok(self.tcbs@[i].unwrap()) by {
                assert(before[i] is Some);
            }
        }
        let t = self.tcbs.get(target.0).unwrap();
        let time = if t.rem_time > 0 {
            t.rem_time
        } else {
            t.budget
        };
        self.current_thread = ThreadTime { tcb_ref: next.tcb_ref, time, loaned_tcb: loan };
        Ok(next.tcb_ref)
    }

    /// Ends one tick of cooldown for every exhausted thread; those whose
    /// cooldown is over go to the back of the ready queue.
    fn requeue_exhausted(&mut self)
        requires
            old(self).wf(),
        ensures
            final(self).exhausted_threads@ == still_cooling(old(self).exhausted_threads@),
            final(self).wait_queue@ == old(self).wait_queue@ + woken(old(self).exhausted_threads@, old(self).tcbs@),
            final(self).tcbs == old(self).tcbs,
            final(self).current_thread == old(self).current_thread,
    {
        proof {
            self.tcbs.lemma_wf();
        }
        let ghost ex = self.exhausted_threads@;
        let mut rest: Vec<ExhaustedThread> = Vec::new();
        let mut i: usize = 0;
        proof {
            assert(ex.take(0) =~= Seq::<ExhaustedThread>::empty());
            assert(self.wait_queue@ =~= old(self).wait_queue@ + woken(ex.take(0), self.tcbs@));
        }
        while i < self.exhausted_threads.len()
            invariant
                ex == self.exhausted_threads@,
                ex == old(self).exhausted_threads@,
                self.tcbs == old(self).tcbs,
                old(self).wf(),
                self.current_thread == old(self).current_thread,
                i <= ex.len(),
                rest@ == still_cooling(ex.take(i as int)),
                self.wait_queue@ == old(self).wait_queue@ + woken(ex.take(i as int), self.tcbs@),
            decreases ex.len() - i,
        {
            let e = self.exhausted_threads[i];
            proof {
                assert(ex.take(i + 1).drop_last() =~= ex.take(i as int));
                self.tcbs.lemma_wf();
            }
            let time = if e.time > 0 { e.time - 1 } else { 0 };
            let d = ExhaustedThread { tcb_ref: e.tcb_ref, time, loaned_tcb: e.loaned_tcb };
            if time > 0 {
                rest.push(d);
            } else {
                match self.tcbs.get(e.tcb_ref.0) {
                    Some(t) => {
                        let entry = DomainEntry::new(e.tcb_ref, e.loaned_tcb, t.priority as u8);
                        self.wait_queue.push(entry);
                        proof {
                            assert(self.wait_queue@ =~= old(self).wait_queue@ + woken(ex.take(i + 1), self.tcbs@));
                        }
                    },
                    None => {},
                }
            }
            i = i + 1;
        }
        proof {
            assert(ex.take(ex.len() as int) =~= ex);
        }
        self.exhausted_threads = rest;
    }

    /// One scheduler tick: cooled-down threads are requeued; the running
    /// thread's quantum shrinks by one; a thread whose quantum ends starts
    /// its cooldown and the best ready thread (or idle) replaces it;
    /// otherwise a ready thread of strictly higher priority preempts it.
    /// Returns the thread switched to, if any.
    pub fn tick(&mut self) -> (r: Result<Option<ThreadRef>, KernelError>)
        requires
            old(self).wf(),
        ensures
            final(self).wf(),
            ticked(*old(self), *final(self), r),
    {
        self.requeue_exhausted();
        proof {
            self.tcbs.lemma_wf();
        }
        if self.current_thread.time > 0 {
            self.current_thread.time = self.current_thread.time - 1;
        }
        if self.current_thread.time == 0 {
            let tr = self.current_thread.time_thread();
            let cooldown = match self.tcbs.get(tr.0) {
                Some(t) => t.cooldown,
                None => return Err(KernelError::InvalidThreadRef),
            };
            let ex = ExhaustedThread { tcb_ref: self.current_thread.tcb_ref, time: cooldown, loaned_tcb: self.current_thread.loaned_tcb };
            self.exhausted_threads.insert(0, ex);
            let next = match self.next_thread(0) {
                Some(n) => n,
                None => DomainEntry::idle(),
            };
            let r = self.switch_thread(next);
            proof {
                assert(self.exhausted_threads@ =~= seq![ex] + still_cooling(old(self).exhausted_threads@));
            }
            return match r {
                Ok(t) => Ok(Some(t)),
                Err(e) => Err(e),
            };
        }
        let priority = match self.tcbs.get(self.current_thread.tcb_ref.0) {
            Some(t) => t.priority,
            None => return Err(KernelError::InvalidThreadRef),
        };
        self.preempt(priority)
    }

    /// Switches to the best ready thread of priority above `priority` (the
    /// running thread's), if there is one; the running thread goes back to
    /// the tail of the ready queue.
    pub fn preempt(&mut self, priority: usize) -> (r: Result<Option<ThreadRef>, KernelError>)
        requires
            old(self).wf(),
            priority < PRIORITY_LEVELS,
        ensures
            final(self).wf(),
            final(self).exhausted_threads@ == old(self).exhausted_threads@,
            final(self).tcbs.free_stack() == old(self).tcbs.free_stack(),
            ({
                let cur = old(self).current_thread;
                let pk = pick(old(self).wait_queue@, priority as int, cur.tcb_ref, old(self).tcbs@);
                match pk.0 {
                    None => r == Ok::<Option<ThreadRef>, KernelError>(None) && final(self).current_thread == cur
                        && final(self).tcbs@ == old(self).tcbs@ && final(self).wait_queue@ == pk.1,
                    Some(next) => {
                        let sw = switch_result(old(self).tcbs@, cur, next);
                        &&& r == Ok::<Option<ThreadRef>, KernelError>(Some(next.tcb_ref))
                        &&& final(self).tcbs@ == sw.1
                        &&& final(self).current_thread == sw.2
                        &&& final(self).wait_queue@ == pk.1.push(DomainEntry { tcb_ref: cur.tcb_ref, loaned_tcb: cur.loaned_tcb, priority: priority as u8 })
                    },
                }
            }),
    {
        proof {
            lemma_pick_runnable(self.wait_queue@, priority as int, self.current_thread.tcb_ref, self.tcbs@);
        }
        match self.next_thread(priority) {
            Some(next) => {
                let cur = self.current_thread;
                self.wait_queue.push(DomainEntry { tcb_ref: cur.tcb_ref, loaned_tcb: cur.loaned_tcb, priority: priority as u8 });
                let t = self.switch_thread(next)?;
                Ok(Some(t))
            },
            None => Ok(None),
        }
    }

    /// Blocks the running thread on `req` and switches to the best ready
    /// thread, or idle. With `loan` the running thread's budget pays for
    /// the thread switched to.
    pub fn wait(&mut self, req: RecvReq, loan: bool) -> (r: Result<ThreadRef, KernelError>)
        requires
            old(self).wf(),
        ensures
            final(self).wf(),
            final(self).exhausted_threads@ == old(self).exhausted_threads@,
            ({
                let tc = old(self).tcbs@;
                let cur = old(self).current_thread;
                if !live(tc, cur.tcb_ref) {
                    r == Err::<ThreadRef, KernelError>(KernelError::InvalidThreadRef) && final(self).tcbs@ == tc
                        && final(self).wait_queue@ == old(self).wait_queue@ && final(self).current_thread == cur
                } else {
                    let tc1 = tc.update(cur.tcb_ref.0 as int, Some(Tcb { state: ThreadState::Waiting(req), ..tc[cur.tcb_ref.0 as int].unwrap() }));
                    let picked = pick_or_idle(old(self).wait_queue@, 0, cur.tcb_ref, tc1);
                    let next = if loan { DomainEntry { loaned_tcb: Some(cur.tcb_ref), ..picked } } else { picked };
                    let sw = switch_result(tc1, cur, next);
                    &&& final(self).wait_queue@ == pick(old(self).wait_queue@, 0, cur.tcb_ref, tc1).1
                    &&& (r, final(self).tcbs@, final(self).current_thread) == sw
                }
            }),
    {
        proof {
            self.tcbs.lemma_wf();
        }
        let cur = self.current_thread.tcb_ref;
        let ghost before = self.tcbs@;
        match self.tcbs.get_mut(cur.0) {
            Some(t) => {
                t.state = ThreadState::Waiting(req);
            },
            None => return Err(KernelError::InvalidThreadRef),
        }
        proof {
            self.tcbs.lemma_wf();
            assert forall|i: int| 0 <= i < self.tcbs@.len() && (#[trigger] self.tcbs@[i]) is Some implies tcb_ok(self.tcbs@[i].unwrap()) by {
                assert(before[i] is Some);
            }
        }
        let mut next = match self.next_thread(0) {
            Some(n) => n,
            None => DomainEntry::idle(),
        };
        if loan {
            next.loaned_tcb = Some(cur);
        }
        self.switch_thread(next)
    }

    /// Blocks the running thread on `req` and hands the processor to
    /// `target`, whose entry is the last of the ready queue; `target`'s
    /// time is drawn from the blocked thread's budget.
    pub fn hand_off(&mut self, req: RecvReq, target: ThreadRef) -> (r: Result<ThreadRef, KernelError>)
        requires
            old(self).wf(),
            live(old(self).tcbs@, old(self).current_thread.tcb_ref),
            live(old(self).tcbs@, target),
            old(self).wait_queue@.len() > 0,
            old(self).wait_queue@.last().tcb_ref == target,
        ensures
            final(self).wf(),
            final(self).exhausted_threads@ == old(self).exhausted_threads@,
            final(self).wait_queue@ == old(self).wait_queue@.drop_last(),
            ({
                let tc = old(self).tcbs@;
                let cur = old(self).current_thread;
                let tc1 = tc.update(cur.tcb_ref.0 as int, Some(Tcb { state: ThreadState::Waiting(req), ..tc[cur.tcb_ref.0 as int].unwrap() }));
                let next = DomainEntry { tcb_ref: target, loaned_tcb: Some(cur.tcb_ref), priority: old(self).wait_queue@.last().priority };
                &&& (r, final(self).tcbs@, final(self).current_thread) == switch_result(tc1, cur, next)
                &&& r == Ok::<ThreadRef, KernelError>(target)
            }),
    {
        proof {
            self.tcbs.lemma_wf();
        }
        let cur = self.current_thread.tcb_ref;
        let ghost before = self.tcbs@;
        match self.tcbs.get_mut(cur.0) {
            Some(t) => {
                t.state = ThreadState::Waiting(req);
            },
            None => {},
        }
        proof {
            self.tcbs.lemma_wf();
            assert forall|i: int| 0 <= i < self.tcbs@.len() && (#[trigger] self.tcbs@[i]) is Some implies tcb_ok(self.tcbs@[i].unwrap()) by {
                assert(before[i] is Some);
            }
        }
        let e = self.wait_queue.pop().unwrap();
        self.switch_thread(DomainEntry { tcb_ref: target, loaned_tcb: Some(cur), priority: e.priority })
    }

    /// The running thread's TCB.
    pub fn current_thread(&self) -> (r: Result<&Tcb, KernelError>)
        requires
            self.wf(),
        ensures
            match r {
                Ok(t) => live(self.tcbs@, self.current_thread.tcb_ref) && self.tcbs@[self.current_thread.tcb_ref.0 as int] == Some(*t),
                Err(e) => !live(self.tcbs@, self.current_thread.tcb_ref) && e == KernelError::InvalidThreadRef,
            },
    {
        self.get_tcb(self.current_thread.tcb_ref)
    }

    /// The TCB of thread `tcb_ref`.
    pub fn get_tcb(&self, tcb_ref: ThreadRef) -> (r: Result<&Tcb, KernelError>)
        requires
            self.wf(),
        ensures
            match r {
                Ok(t) => live(self.tcbs@, tcb_ref) && self.tcbs@[tcb_ref.0 as int] == Some(*t),
                Err(e) => !live(self.tcbs@, tcb_ref) && e == KernelError::InvalidThreadRef,
            },
    {
        proof {
            self.tcbs.lemma_wf();
        }
        match self.tcbs.get(tcb_ref.0) {
            Some(t) => Ok(t),
            None => Err(KernelError::InvalidThreadRef),
        }
    }

    /// Forgets the running thread after it has been removed: no live
    /// thread is named as running, so none is passed over by the next pick
    /// and no remaining time is saved for it.
    pub fn vacate(&mut self)
        ensures
            final(self).current_thread == (ThreadTime { tcb_ref: ThreadRef(TCB_CAPACITY), time: 0, loaned_tcb: None }),
            final(self).tcbs == old(self).tcbs,
            final(self).wait_queue@ == old(self).wait_queue@,
            final(self).exhausted_threads@ == old(self).exhausted_threads@,
    {
        self.current_thread = ThreadTime { tcb_ref: ThreadRef(TCB_CAPACITY), time: 0, loaned_tcb: None };
    }
}

} // verus!

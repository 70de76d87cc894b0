//! Page loans: a page sent by reference leaves the sender's region table,
//! is mapped into the receiver's task on delivery, and goes back to the
//! sender when the receiver replies to the call that carried it.
use vstd::prelude::*;
use crate::abi::ThreadRef;
use crate::kernel::Kernel;
use crate::regions::{maps_to, Region, RegionAttrs};
use crate::scheduler::live;
use crate::task::TaskRef;
use crate::tcb::IpcBody;
use crate::KernelError;

verus! {

/// Access a receiver gets to a loaned page.
pub open spec fn loan_attrs() -> RegionAttrs {
    RegionAttrs { write: true, read: true, executable: false, device: false, dma: false }
}

impl Kernel {
    /// The task of live thread `t` and the page last delivered to it, if
    /// the delivery was a page loan.
    pub open spec fn delivered_page(&self, t: ThreadRef) -> Option<(int, Region)> {
        if live(self.scheduler.tcbs@, t) {
            let tcb = self.scheduler.tcbs@[t.0 as int].unwrap();
            let k = tcb.task.0 as int;
            match tcb.delivered {
                Some(d) => match d.resp.inner {
                    crate::abi::RecvRespInner::Page { addr, len } => if k < self.tasks@.len() && addr + len <= usize::MAX {
                        Some((k, Region { start: addr, end: (addr + len) as usize, attr: loan_attrs() }))
                    } else {
                        None
                    },
                    _ => None,
                },
                None => None,
            }
        } else {
            None
        }
    }

    /// Maps the page last delivered to thread `t`, if it was a loan, into
    /// `t`'s task with read and write access.
    pub fn grant_delivered_page(&mut self, t: ThreadRef) -> (r: Result<(), KernelError>)
        requires
            old(self).wf(),
        ensures
            final(self).wf(),
            final(self).scheduler == old(self).scheduler,
            final(self).log@ == old(self).log@,
            final(self).tasks@.len() == old(self).tasks@.len(),
            r matches Err(e) ==> e == KernelError::ABI(crate::abi::Error::BufferOverflow),
            match old(self).delivered_page(t) {
                None => r is Ok && final(self).tasks@ == old(self).tasks@,
                Some((k, reg)) => {
                    &&& forall|i: int| 0 <= i < final(self).tasks@.len() && i != k ==> final(self).tasks@[i] == old(self).tasks@[i]
                    &&& r is Err ==> final(self).tasks@[k].region_table@ == old(self).tasks@[k].region_table@
                    &&& reg.start < reg.end ==> (r is Ok <==> crate::regions::cut_count(old(self).tasks@[k].region_table@, reg.start as int, reg.end as int) < crate::regions::REGION_CAPACITY)
                    &&& reg.start >= reg.end ==> r is Ok
                    &&& r is Ok ==> forall|a: int, at: RegionAttrs| maps_to(final(self).tasks@[k].region_table@, a, at)
                        <==> (if reg.has(a) { at == loan_attrs() } else { maps_to(old(self).tasks@[k].region_table@, a, at) })
                },
            },
    {
        proof { self.scheduler.tcbs.lemma_wf(); }
        let (k, reg) = match self.scheduler.tcbs.get(t.0) {
            Some(tcb) => match &tcb.delivered {
                Some(d) => match d.resp.inner {
                    crate::abi::RecvRespInner::Page { addr, len } => {
                        if tcb.task.0 >= self.tasks.len() || len > usize::MAX - addr {
                            return Ok(());
                        }
                        let attr = RegionAttrs { write: true, read: true, executable: false, device: false, dma: false };
                        (tcb.task.0, Region { start: addr, end: addr + len, attr })
                    },
                    _ => return Ok(()),
                },
                None => return Ok(()),
            },
            None => return Ok(()),
        };
        let mut task = self.tasks.remove(k);
        assert(task == old(self).tasks@[k as int]);
        let r = task.region_table.push(reg);
        self.tasks.insert(k, task);
        proof {
            assert forall|i: int| 0 <= i < self.tasks@.len() implies (#[trigger] self.tasks@[i]).wf() by {
                if i != k {
                    assert(self.tasks@[i] == old(self).tasks@[i]);
                }
            }
        }
        r
    }

    /// Gives back the page thread `lender` loaned with its call: it is cut
    /// out of task `holder` and mapped back into the lender's task with
    /// read and write access. A lender with no page on loan changes nothing.
    pub fn reclaim_loan(&mut self, lender: ThreadRef, holder: TaskRef) -> (r: Result<(), KernelError>)
        requires
            old(self).wf(),
        ensures
            final(self).wf(),
            final(self).log@ == old(self).log@,
            final(self).tasks@.len() == old(self).tasks@.len(),
            final(self).scheduler.current_thread == old(self).scheduler.current_thread,
            final(self).scheduler.wait_queue@ == old(self).scheduler.wait_queue@,
            final(self).scheduler.exhausted_threads@ == old(self).scheduler.exhausted_threads@,
            forall|i: int| 0 <= i < crate::scheduler::TCB_CAPACITY && i != lender.0 ==> final(self).scheduler.tcbs@[i] == old(self).scheduler.tcbs@[i],
            live(old(self).scheduler.tcbs@, lender) ==> (final(self).scheduler.tcbs@[lender.0 as int] matches Some(t)
                && t.req_queue@ == old(self).scheduler.tcbs@[lender.0 as int].unwrap().req_queue@
                && t.state == old(self).scheduler.tcbs@[lender.0 as int].unwrap().state
                && t.priority == old(self).scheduler.tcbs@[lender.0 as int].unwrap().priority
                && t.task == old(self).scheduler.tcbs@[lender.0 as int].unwrap().task),
            !(live(old(self).scheduler.tcbs@, lender) && old(self).scheduler.tcbs@[lender.0 as int].unwrap().lent is Some)
                ==> r is Ok && final(self).tasks@ == old(self).tasks@ && final(self).scheduler == old(self).scheduler,
            live(old(self).scheduler.tcbs@, lender) ==> ({
                let tcb = old(self).scheduler.tcbs@[lender.0 as int].unwrap();
                let k = tcb.task.0 as int;
                tcb.lent matches Some(reg) && reg.start < reg.end && k < old(self).tasks@.len()
                    && crate::regions::cut_count(old(self).tasks@[k].region_table@, reg.start as int, reg.end as int) < crate::regions::REGION_CAPACITY
                    && (holder.0 == k || holder.0 >= old(self).tasks@.len()
                        || crate::regions::cut_count(old(self).tasks@[holder.0 as int].region_table@, reg.start as int, reg.end as int) <= crate::regions::REGION_CAPACITY)
                    ==> r is Ok
            }),
            r is Ok && live(old(self).scheduler.tcbs@, lender) ==> ({
                let tcb = old(self).scheduler.tcbs@[lender.0 as int].unwrap();
                tcb.lent matches Some(reg) ==> ({
                    let k = tcb.task.0 as int;
                    &&& final(self).scheduler.tcbs@[lender.0 as int] matches Some(t) && t.lent is None
                    &&& k < final(self).tasks@.len() ==> forall|a: int| reg.has(a) ==> maps_to(final(self).tasks@[k].region_table@, a, reg.attr)
                    &&& holder.0 != k && holder.0 < final(self).tasks@.len() ==> forall|a: int, at: RegionAttrs| reg.has(a)
                        ==> !maps_to(final(self).tasks@[holder.0 as int].region_table@, a, at)
                })
            }),
    {
        proof { self.scheduler.tcbs.lemma_wf(); }
        let (reg, k) = match self.scheduler.tcbs.get(lender.0) {
            Some(t) => match t.lent {
                Some(reg) => (reg, t.task.0),
                None => return Ok(()),
            },
            None => return Ok(()),
        };
        let ghost tc0 = self.scheduler.tcbs@;
        match self.scheduler.tcbs.get_mut(lender.0) {
            Some(t) => {
                t.lent = None;
            },
            None => {},
        }
        proof {
            self.scheduler.tcbs.lemma_wf();
            assert forall|i: int| 0 <= i < self.scheduler.tcbs@.len() && (#[trigger] self.scheduler.tcbs@[i]) is Some implies crate::scheduler::tcb_ok(self.scheduler.tcbs@[i].unwrap()) by {
                assert(tc0[i] is Some);
            }
        }
        if holder.0 < self.tasks.len() && holder.0 != k {
            let mut task = self.tasks.remove(holder.0);
            let res = task.region_table.carve(reg.start, reg.end);
            self.tasks.insert(holder.0, task);
            proof {
                assert forall|i: int| 0 <= i < self.tasks@.len() implies (#[trigger] self.tasks@[i]).wf() by {
                    if i != holder.0 {
                        assert(self.tasks@[i] == old(self).tasks@[i]);
                    }
                }
            }
            res?;
        }
        let ghost mid = self.tasks@;
        if k < self.tasks.len() {
            let mut task = self.tasks.remove(k);
            let res = task.region_table.push(reg);
            self.tasks.insert(k, task);
            proof {
                assert forall|i: int| 0 <= i < self.tasks@.len() implies (#[trigger] self.tasks@[i]).wf() by {
                    if i != k {
                        assert(self.tasks@[i] == mid[i]);
                    }
                }
                if holder.0 != k && holder.0 < self.tasks@.len() {
                    assert(self.tasks@[holder.0 as int] == mid[holder.0 as int]);
                }
            }
            res?;
        }
        Ok(())
    }
}

} // verus!

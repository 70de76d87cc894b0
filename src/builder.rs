//! Builders that set up a kernel from the image's task table: regions to
//! loan into tasks, threads with their capabilities, and endpoints between
//! threads.
use vstd::prelude::*;
use crate::abi::{Cap, Connect, Endpoint, Listen, PortId, ThreadRef};
use crate::caps::{CapList, CAP_REF_MAX};
use crate::kernel::{Kernel, TaskDesc};
use crate::mpu::MpuProgram;
use crate::regions::{Region, RegionAttrs};
use crate::scheduler::{live, PRIORITY_LEVELS};
use crate::task::TaskRef;
use crate::KernelError;

verus! {

/// Most regions a thread builder loans into its task.
pub const LOANS_MAX: usize = 16;

/// Default number of CPU cycles per scheduler tick.
pub const DEFAULT_CYCLES_PER_TICK: usize = 400_000;

/// A region to add to a task's table.
#[derive(Clone, Copy, Debug, PartialEq, Eq)]
pub struct RegionBuilder {
    pub region: Region,
}

impl RegionBuilder {
    pub fn new(start: usize, end: usize, attr: RegionAttrs) -> (r: RegionBuilder)
        ensures
            r.region == (Region { start, end, attr }),
    {
        RegionBuilder { region: Region { start, end, attr } }
    }

    /// A device's register block of `len` bytes at `addr`.
    pub fn device(addr: usize, len: usize) -> (r: RegionBuilder)
        requires
            addr + len <= usize::MAX,
        ensures
            r.region == (Region { start: addr, end: (addr + len) as usize, attr: RegionAttrs { write: false, read: false, executable: false, device: true, dma: false } }),
    {
        let attr = RegionAttrs { write: false, read: false, executable: false, device: true, dma: false };
        RegionBuilder { region: Region { start: addr, end: addr + len, attr } }
    }

    pub fn write(self) -> (r: RegionBuilder)
        ensures
            r.region == (Region { attr: RegionAttrs { write: true, ..self.region.attr }, ..self.region }),
    {
        RegionBuilder { region: Region { attr: RegionAttrs { write: true, ..self.region.attr }, ..self.region } }
    }

    pub fn read(self) -> (r: RegionBuilder)
        ensures
            r.region == (Region { attr: RegionAttrs { read: true, ..self.region.attr }, ..self.region }),
    {
        RegionBuilder { region: Region { attr: RegionAttrs { read: true, ..self.region.attr }, ..self.region } }
    }

    pub fn exec(self) -> (r: RegionBuilder)
        ensures
            r.region == (Region { attr: RegionAttrs { executable: true, ..self.region.attr }, ..self.region }),
    {
        RegionBuilder { region: Region { attr: RegionAttrs { executable: true, ..self.region.attr }, ..self.region } }
    }

    pub fn dma(self) -> (r: RegionBuilder)
        ensures
            r.region == (Region { attr: RegionAttrs { dma: true, ..self.region.attr }, ..self.region }),
    {
        RegionBuilder { region: Region { attr: RegionAttrs { dma: true, ..self.region.attr }, ..self.region } }
    }

    pub fn build(self) -> (r: Region)
        ensures
            r == self.region,
    {
        self.region
    }
}

/// The regions a thread builder's loan list holds, in order.
pub uninterp spec fn loan_items(v: heapless::Vec<RegionBuilder, 16>) -> Seq<RegionBuilder>;

/// Relies on heapless::Vec::new: the vector starts empty.
#[verifier::external_body]
fn loan_vec_new() -> (r: heapless::Vec<RegionBuilder, 16>)
    ensures
        loan_items(r) == Seq::<RegionBuilder>::empty(),
{
    heapless::Vec::new()
}

/// Relies on heapless::Vec::push: appends while fewer than 16 items are
/// held, and otherwise hands the item back and leaves the vector as it was.
#[verifier::external_body]
fn loan_vec_push(v: &mut heapless::Vec<RegionBuilder, 16>, item: RegionBuilder) -> (rejected: Option<RegionBuilder>)
    ensures
        loan_items(*old(v)).len() < 16 ==> rejected is None,
        loan_items(*old(v)).len() < 16 ==> loan_items(*final(v)) == loan_items(*old(v)).push(item),
        loan_items(*old(v)).len() >= 16 ==> rejected == Some(item),
        loan_items(*old(v)).len() >= 16 ==> loan_items(*final(v)) == loan_items(*old(v)),
{
    v.push(item).err()
}

/// Relies on heapless::Vec's slice view: the number of items held, never above 16.
#[verifier::external_body]
fn loan_vec_len(v: &heapless::Vec<RegionBuilder, 16>) -> (r: usize)
    ensures
        r == loan_items(*v).len(),
        r <= 16,
{
    v.as_slice().len()
}

/// Relies on heapless::Vec's slice view: the item at position `i`.
#[verifier::external_body]
fn loan_vec_at(v: &heapless::Vec<RegionBuilder, 16>, i: usize) -> (r: RegionBuilder)
    requires
        i < loan_items(*v).len(),
    ensures
        r == loan_items(*v)[i as int],
{
    v.as_slice()[i]
}

/// A thread to spawn in task `index`.
pub struct ThreadBuilder {
    pub index: usize,
    pub priority: usize,
    pub budget: usize,
    pub cooldown: usize,
    pub caps: CapList,
    pub loans: heapless::Vec<RegionBuilder, 16>,
}

impl ThreadBuilder {
    /// A thread of task `index` at priority zero, with an unbounded budget,
    /// no cooldown, no capabilities and no loans.
    pub fn new(index: usize) -> (r: ThreadBuilder)
        ensures
            r.index == index,
            r.priority == 0,
            r.budget == usize::MAX,
            r.cooldown == 0,
            r.caps.wf(),
            r.caps@.len() == 0,
            r.caps.next_ref_spec() == 1,
            loan_items(r.loans).len() == 0,
    {
        ThreadBuilder { index, priority: 0, budget: usize::MAX, cooldown: 0, caps: CapList::new(), loans: loan_vec_new() }
    }

    /// Sets the priority; 7 is the highest.
    pub fn priority(self, p: usize) -> (r: ThreadBuilder)
        requires
            p < PRIORITY_LEVELS,
        ensures
            r.priority == p,
            r.index == self.index && r.budget == self.budget && r.cooldown == self.cooldown,
            r.caps == self.caps && loan_items(r.loans) == loan_items(self.loans),
    {
        ThreadBuilder { priority: p, ..self }
    }

    /// Sets the ticks the thread may run per quantum.
    pub fn budget(self, b: usize) -> (r: ThreadBuilder)
        requires
            b > 0,
        ensures
            r.budget == b,
            r.index == self.index && r.priority == self.priority && r.cooldown == self.cooldown,
            r.caps == self.caps && loan_items(r.loans) == loan_items(self.loans),
    {
        ThreadBuilder { budget: b, ..self }
    }

    /// Sets the ticks the thread waits after using up its budget.
    pub fn cooldown(self, c: usize) -> (r: ThreadBuilder)
        ensures
            r.cooldown == c,
            r.index == self.index && r.priority == self.priority && r.budget == self.budget,
            r.caps == self.caps && loan_items(r.loans) == loan_items(self.loans),
    {
        ThreadBuilder { cooldown: c, ..self }
    }

    /// Gives the thread the right to listen on `port`.
    pub fn listen(self, port: PortId) -> (r: ThreadBuilder)
        requires
            self.caps.wf(),
            self.caps.next_ref_spec() < CAP_REF_MAX,
        ensures
            r.caps.wf(),
            r.caps@ == self.caps@.push(crate::abi::CapListEntry { cap_ref: crate::abi::CapRef(self.caps.next_ref_spec()), desc: Cap::Listen(Listen { port }) }),
            r.index == self.index && r.priority == self.priority && r.budget == self.budget && r.cooldown == self.cooldown,
            loan_items(r.loans) == loan_items(self.loans),
    {
        let mut s = self;
        s.caps.add(Cap::Listen(Listen { port }));
        s
    }

    /// Gives the thread the right to connect to `port`.
    pub fn connect(self, port: PortId) -> (r: ThreadBuilder)
        requires
            self.caps.wf(),
            self.caps.next_ref_spec() < CAP_REF_MAX,
        ensures
            r.caps.wf(),
            r.caps@ == self.caps@.push(crate::abi::CapListEntry { cap_ref: crate::abi::CapRef(self.caps.next_ref_spec()), desc: Cap::Connect(Connect { port }) }),
            r.index == self.index && r.priority == self.priority && r.budget == self.budget && r.cooldown == self.cooldown,
            loan_items(r.loans) == loan_items(self.loans),
    {
        let mut s = self;
        s.caps.add(Cap::Connect(Connect { port }));
        s
    }

    /// Adds a region to loan into the thread's task when it is spawned.
    pub fn loan_mem(self, region: RegionBuilder) -> (r: ThreadBuilder)
        requires
            loan_items(self.loans).len() < LOANS_MAX,
        ensures
            loan_items(r.loans) == loan_items(self.loans).push(region),
            r.index == self.index && r.priority == self.priority && r.budget == self.budget && r.cooldown == self.cooldown,
            r.caps == self.caps,
    {
        let mut s = self;
        loan_vec_push(&mut s.loans, region);
        s
    }
}

/// After loaning the first `n` regions of `s` into a table `t`, every
/// address of a loaned region that no later loan covers has that region's
/// attributes in `t`.
pub open spec fn loans_mapped(s: Seq<RegionBuilder>, n: int, t: Seq<Region>) -> bool {
    forall|k: int, x: int| 0 <= k < n && s[k].region.has(x)
        && (forall|j: int| k < j < n ==> !(#[trigger] s[j]).region.has(x))
        ==> #[trigger] crate::regions::maps_to(t, x, s[k].region.attr)
}

/// Sets up a kernel: threads, the idle thread and endpoints, then starts it.
pub struct KernelBuilder {
    pub cycles_per_tick: usize,
    pub idle_task_set: bool,
    pub kernel: Kernel,
}

impl KernelBuilder {
    /// A builder for a kernel running the described tasks.
    pub fn new(tasks: &Vec<TaskDesc>) -> (r: Result<KernelBuilder, KernelError>)
        requires
            tasks@.len() > 0,
        ensures
            r matches Ok(b) ==> b.kernel.wf() && b.kernel.tasks@.len() == tasks@.len()
                && b.cycles_per_tick == DEFAULT_CYCLES_PER_TICK && !b.idle_task_set,
    {
        let kernel = Kernel::from_tasks(tasks)?;
        Ok(KernelBuilder { cycles_per_tick: DEFAULT_CYCLES_PER_TICK, idle_task_set: false, kernel })
    }

    /// Sets the CPU cycles per scheduler tick; budgets and cooldowns are
    /// counted in ticks.
    pub fn cycles_per_tick(&mut self, cycles: usize)
        ensures
            final(self).cycles_per_tick == cycles,
            final(self).idle_task_set == old(self).idle_task_set,
            final(self).kernel == old(self).kernel,
    {
        self.cycles_per_tick = cycles;
    }

    /// Loans the builder's regions into its task and spawns the thread at
    /// the task's entrypoint.
    pub fn thread(&mut self, thread: ThreadBuilder) -> (r: Result<ThreadRef, KernelError>)
        requires
            old(self).kernel.wf(),
            thread.caps.wf(),
        ensures
            final(self).kernel.wf(),
            final(self).idle_task_set == old(self).idle_task_set,
            thread.index >= old(self).kernel.tasks@.len() ==> r == Err::<ThreadRef, KernelError>(KernelError::InvalidTaskRef),
            thread.index < old(self).kernel.tasks@.len() && loan_items(thread.loans).len() == 0 && thread.priority < PRIORITY_LEVELS
                && crate::kernel::spawn_fits(old(self).kernel.tasks@[thread.index as int], old(self).kernel.tasks@[thread.index as int].entrypoint)
                && old(self).kernel.scheduler.tcbs.len_spec() < crate::scheduler::TCB_CAPACITY ==> r is Ok,
            r matches Ok(t) ==> final(self).kernel.scheduler.tcbs@[t.0 as int] matches Some(tcb)
                && tcb.task == TaskRef(thread.index) && tcb.priority == thread.priority && tcb.budget == thread.budget
                && tcb.cooldown == thread.cooldown && tcb.capabilities == thread.caps,
            r is Ok ==> loans_mapped(loan_items(thread.loans), loan_items(thread.loans).len() as int,
                final(self).kernel.tasks@[thread.index as int].region_table@),
    {
        let ThreadBuilder { index, priority, budget, cooldown, caps, loans } = thread;
        if index >= self.kernel.tasks.len() {
            return Err(KernelError::InvalidTaskRef);
        }
        let mut task = self.kernel.tasks.remove(index);
        assert(task == old(self).kernel.tasks@[index as int]);
        let entrypoint = task.entrypoint;
        let mut i: usize = 0;
        let mut res: Result<(), KernelError> = Ok(());
        while i < loan_vec_len(&loans)
            invariant
                task.wf(),
                task.entrypoint == entrypoint,
                i <= loan_items(loans).len(),
                i == 0 ==> res is Ok && task == old(self).kernel.tasks@[index as int],
                res is Ok ==> loans_mapped(loan_items(loans), i as int, task.region_table@),
            decreases loan_items(loans).len() - i,
        {
            if res.is_ok() {
                let l = loan_vec_at(&loans, i);
                let ghost t0 = task.region_table@;
                res = task.region_table.push(l.region);
                proof {
                    let s = loan_items(loans);
                    if res is Ok {
                        assert forall|k: int, x: int| 0 <= k < i + 1 && s[k].region.has(x)
                            && (forall|j: int| k < j < i + 1 ==> !(#[trigger] s[j]).region.has(x))
                            implies #[trigger] crate::regions::maps_to(task.region_table@, x, s[k].region.attr) by {
                            if k < i {
                                assert(!s[i as int].region.has(x));
                                assert forall|j: int| k < j < i implies !(#[trigger] s[j]).region.has(x) by {}
                            }
                        }
                    }
                }
            }
            i = i + 1;
        }
        self.kernel.tasks.insert(index, task);
        proof {
            assert forall|j: int| 0 <= j < self.kernel.tasks@.len() implies (#[trigger] self.kernel.tasks@[j]).wf() by {
                if j != index {
                    assert(self.kernel.tasks@[j] == old(self).kernel.tasks@[j]);
                }
            }
        }
        res?;
        proof {
            if loan_items(loans).len() == 0 {
                assert(self.kernel.tasks@ =~= old(self).kernel.tasks@);
            }
        }
        self.kernel.spawn_thread(TaskRef(index), priority, budget, cooldown, entrypoint, caps)
    }

    /// Spawns the idle thread: priority zero, unbounded budget, no cooldown.
    pub fn idle_thread(&mut self, thread: ThreadBuilder) -> (r: Result<ThreadRef, KernelError>)
        requires
            old(self).kernel.wf(),
            thread.caps.wf(),
        ensures
            final(self).kernel.wf(),
            r is Ok ==> final(self).idle_task_set,
            thread.index < old(self).kernel.tasks@.len()
                && crate::kernel::spawn_fits(old(self).kernel.tasks@[thread.index as int], old(self).kernel.tasks@[thread.index as int].entrypoint)
                && old(self).kernel.scheduler.tcbs.len_spec() < crate::scheduler::TCB_CAPACITY ==> r is Ok,
            r matches Ok(t) ==> final(self).kernel.scheduler.tcbs@[t.0 as int] matches Some(tcb)
                && tcb.task == TaskRef(thread.index) && tcb.priority == 0 && tcb.budget == usize::MAX && tcb.cooldown == 0,
    {
        if thread.index >= self.kernel.tasks.len() {
            return Err(KernelError::InvalidTaskRef);
        }
        let entrypoint = self.kernel.tasks[thread.index].entrypoint;
        let t = self.kernel.spawn_thread(TaskRef(thread.index), 0, usize::MAX, 0, entrypoint, thread.caps)?;
        self.idle_task_set = true;
        Ok(t)
    }

    /// Gives thread `task` an endpoint capability to thread `dest` at `addr`.
    pub fn endpoint(&mut self, task: ThreadRef, dest: ThreadRef, addr: usize) -> (r: Result<(), KernelError>)
        requires
            old(self).kernel.wf(),
        ensures
            final(self).kernel.wf(),
            !live(old(self).kernel.scheduler.tcbs@, task) || !live(old(self).kernel.scheduler.tcbs@, dest) ==> r is Err,
            live(old(self).kernel.scheduler.tcbs@, task) && live(old(self).kernel.scheduler.tcbs@, dest)
                && old(self).kernel.scheduler.tcbs@[task.0 as int].unwrap().capabilities.next_ref_spec() < CAP_REF_MAX ==> r is Ok,
            r is Ok ==> (final(self).kernel.scheduler.tcbs@[task.0 as int] matches Some(t) && t.capabilities@.last().desc
                == Cap::Endpoint(Endpoint { tcb_ref: dest, addr, disposable: false })),
    {
        proof { self.kernel.scheduler.tcbs.lemma_wf(); }
        self.kernel.scheduler.get_tcb(dest)?;
        let ghost tc0 = self.kernel.scheduler.tcbs@;
        let r = match self.kernel.scheduler.tcbs.get_mut(task.0) {
            Some(t) => {
                if t.capabilities.is_full() {
                    Err(KernelError::ABI(crate::abi::Error::BufferOverflow))
                } else {
                    t.add_cap(Cap::Endpoint(Endpoint { tcb_ref: dest, addr, disposable: false }));
                    Ok(())
                }
            },
            None => Err(KernelError::InvalidThreadRef),
        };
        proof {
            self.kernel.scheduler.tcbs.lemma_wf();
            assert forall|i: int| 0 <= i < self.kernel.scheduler.tcbs@.len() && (#[trigger] self.kernel.scheduler.tcbs@[i]) is Some implies crate::scheduler::tcb_ok(self.kernel.scheduler.tcbs@[i].unwrap()) by {
                assert(tc0[i] is Some);
            }
        }
        r
    }

    /// Starts the kernel: runs the first tick and returns the kernel with
    /// the thread to run first and the MPU program for its task.
    pub fn start(self) -> (r: Result<(Kernel, ThreadRef, MpuProgram), KernelError>)
        requires
            self.kernel.wf(),
        ensures
            r matches Ok((k, t, p)) ==> k.wf() && t == k.scheduler.current_thread.tcb_ref && live(k.scheduler.tcbs@, t)
                && p.derived_from(k.tasks@[k.scheduler.tcbs@[t.0 as int].unwrap().task.0 as int].region_table@)
                && exists|rt: Result<Option<ThreadRef>, KernelError>| #[trigger] crate::scheduler::ticked(self.kernel.scheduler, k.scheduler, rt),
            r is Err ==> exists|rt: Result<Option<ThreadRef>, KernelError>, s: crate::scheduler::Scheduler|
                #[trigger] crate::scheduler::ticked(self.kernel.scheduler, s, rt)
                && (rt is Err || !live(s.tcbs@, s.current_thread.tcb_ref)
                    || s.tcbs@[s.current_thread.tcb_ref.0 as int].unwrap().task.0 >= self.kernel.tasks@.len()),
    {
        let mut kernel = self.kernel;
        let (t, p) = kernel.start()?;
        Ok((kernel, t, p))
    }
}

impl Kernel {
    /// Runs the first tick and names the thread to run first with the MPU
    /// program for its task.
    pub fn start(&mut self) -> (r: Result<(ThreadRef, MpuProgram), KernelError>)
        requires
            old(self).wf(),
        ensures
            final(self).wf(),
            final(self).tasks@ == old(self).tasks@,
            r matches Ok((t, p)) ==> t == final(self).scheduler.current_thread.tcb_ref && live(final(self).scheduler.tcbs@, t)
                && p.derived_from(final(self).tasks@[final(self).scheduler.tcbs@[t.0 as int].unwrap().task.0 as int].region_table@),
            exists|rt: Result<Option<ThreadRef>, KernelError>| #[trigger] crate::scheduler::ticked(old(self).scheduler, final(self).scheduler, rt)
                && (rt matches Err(e) ==> r == Err::<(ThreadRef, MpuProgram), KernelError>(e))
                && (rt is Ok && live(final(self).scheduler.tcbs@, final(self).scheduler.current_thread.tcb_ref)
                    && final(self).scheduler.tcbs@[final(self).scheduler.current_thread.tcb_ref.0 as int].unwrap().task.0 < final(self).tasks@.len()
                    ==> r is Ok),
    {
        let ghost s0 = self.scheduler;
        let ro = self.on_tick();
        let ghost rt = choose|rt: Result<Option<ThreadRef>, KernelError>| #[trigger] crate::scheduler::ticked(s0, self.scheduler, rt) && match rt {
            Ok(None) => ro matches Ok(None),
            Ok(Some(t)) => (live(self.scheduler.tcbs@, t) && self.scheduler.tcbs@[t.0 as int].unwrap().task.0 < self.tasks@.len())
                ==> (ro matches Ok(Some((t2, p))) && t2 == t && t == self.scheduler.current_thread.tcb_ref),
            Err(e) => ro == Err::<Option<(ThreadRef, MpuProgram)>, KernelError>(e),
        };
        proof {
            assert(crate::scheduler::ticked(s0, self.scheduler, rt));
            crate::scheduler::lemma_ticked_switch(s0, self.scheduler, rt);
        }
        match ro? {
            Some((t, p)) => Ok((t, p)),
            None => {
                let t = self.scheduler.current_thread.tcb_ref;
                let p = self.thread_program(t)?;
                Ok((t, p))
            },
        }
    }
}

} // verus!

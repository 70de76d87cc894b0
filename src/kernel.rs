//! The kernel: the task table, the scheduler and the port registry, with
//! thread spawning and the synchronous IPC operations.
use vstd::prelude::*;
use crate::abi::{self, CapRef, Endpoint, ThreadRef};
use crate::caps::CapList;
use crate::regions::{Region, RegionAttrs, RegionTable};
use crate::registry::Registry;
use crate::scheduler::{live, Scheduler, PRIORITY_LEVELS, TCB_CAPACITY};
use crate::task::{StackRange, Task, TaskRef, TaskState, first_fit};
use crate::tcb::{msg_matches, BootFrame, ExceptionFrame, IpcBody, IpcMsg, RecvReq, RecvRes, Tcb, ThreadState, EXC_RETURN, FRAME_SIZE, REPLY_BIT};
use crate::KernelError;

verus! {

/// A task as the image builder describes it.
#[derive(Clone, Copy, Debug, PartialEq, Eq)]
pub struct TaskDesc {
    pub entrypoint: usize,
    pub stack_space: StackRange,
    pub init_stack_size: usize,
    pub flash_region: StackRange,
    pub ram_region: StackRange,
}

/// Flash and RAM are readable, writable and executable by their task.
pub open spec fn task_memory_attrs() -> RegionAttrs {
    RegionAttrs { write: true, read: true, executable: true, device: false, dma: false }
}

impl TaskDesc {
    /// The task's initial region table: its flash and its RAM, both
    /// readable, writable and executable.
    pub fn region_table(&self) -> (r: Result<RegionTable, KernelError>)
        ensures
            r matches Ok(t) && t.wf() && forall|a: int, at: RegionAttrs| crate::regions::maps_to(t@, a, at)
                <==> at == task_memory_attrs() && (self.flash_region.start <= a < self.flash_region.end
                    || self.ram_region.start <= a < self.ram_region.end),
    {
        let attr = RegionAttrs { write: true, read: true, executable: true, device: false, dma: false };
        let mut t = RegionTable::new();
        t.push(Region { start: self.flash_region.start, end: self.flash_region.end, attr })?;
        proof {
            crate::regions::lemma_cut_count_bound(t@, self.ram_region.start as int, self.ram_region.end as int);
        }
        t.push(Region { start: self.ram_region.start, end: self.ram_region.end, attr })?;
        Ok(t)
    }
}

/// A thread of `task` can be spawned at `entrypoint`: the entrypoint lies
/// in an executable region, a free stack range has room for a stack, and
/// the first exception frame below the new stack top lies in writable
/// memory.
pub open spec fn spawn_fits(task: Task, entrypoint: usize) -> bool {
    &&& entrypoint + 1 <= usize::MAX
    &&& crate::regions::permits(task.region_table@, entrypoint as int, 1, RegionAttrs::exec_only())
    &&& first_fit(task.available_stack@, task.stack_size as int) matches Some(i) && {
        let top = task.available_stack@[i].start + task.stack_size;
        top >= FRAME_SIZE && crate::regions::permits(task.region_table@, top - FRAME_SIZE, FRAME_SIZE as int, RegionAttrs::write_only())
    }
}

/// A restarted `task` has room for its original thread again: the spawn
/// fits once the stack allocator holds only the initial stack range.
pub open spec fn restart_fits(task: Task) -> bool {
    let top = task.initial_stack.start + task.stack_size;
    &&& task.entrypoint + 1 <= usize::MAX
    &&& crate::regions::permits(task.region_table@, task.entrypoint as int, 1, RegionAttrs::exec_only())
    &&& task.initial_stack.size() >= task.stack_size
    &&& top >= FRAME_SIZE
    &&& crate::regions::permits(task.region_table@, top - FRAME_SIZE, FRAME_SIZE as int, RegionAttrs::write_only())
}

/// Some live thread of task `task_ref` starts at `entrypoint`.
pub open spec fn has_original(tcbs: Seq<Option<Tcb>>, task_ref: TaskRef, entrypoint: usize) -> bool {
    exists|i: int| 0 <= i < TCB_CAPACITY && ((#[trigger] tcbs[i]) matches Some(o) && o.task == task_ref && o.entrypoint == entrypoint)
}

/// The TCB table after task `task_ref` (described by `task` before) was
/// restarted with new thread `t`: `t` has the original thread's priority,
/// budget, cooldown and capabilities, an empty queue and a stack at the
/// start of the task's stack space; no other thread of the task is left.
pub open spec fn restarted(before: Seq<Option<Tcb>>, after: Seq<Option<Tcb>>, task: Task, task_ref: TaskRef, t: ThreadRef) -> bool {
    &&& t.0 < TCB_CAPACITY
    &&& exists|i: int| 0 <= i < TCB_CAPACITY && ((#[trigger] before[i]) matches Some(o)
        && o.task == task_ref && o.entrypoint == task.entrypoint
        && (after[t.0 as int] matches Some(n)
            && n.task == task_ref && n.priority == o.priority && n.budget == o.budget
            && n.cooldown == o.cooldown && n.capabilities == o.capabilities && n.entrypoint == task.entrypoint
            && n.req_queue@.len() == 0 && n.state == ThreadState::Ready
            && n.stack_pointer == task.initial_stack.start + task.stack_size))
    &&& forall|i: int| 0 <= i < TCB_CAPACITY && i != t.0 && (#[trigger] after[i]) is Some
        ==> after[i].unwrap().task != task_ref && after[i] == before[i]
    &&& forall|i: int| 0 <= i < TCB_CAPACITY && i != t.0 && (#[trigger] before[i]) is Some && before[i].unwrap().task != task_ref
        ==> after[i] == before[i]
}

/// Value every thread's epoch starts from.
pub const INITIAL_EPOCH: usize = 0;

pub struct Kernel {
    pub scheduler: Scheduler,
    pub registry: Registry,
    pub epoch: usize,
    pub tasks: Vec<Task>,
    /// Framed log records not yet handed to the host.
    pub log: Vec<u8>,
    /// Memory of restarted tasks still to be wiped before their threads run.
    pub wipes: Vec<Region>,
}

impl Kernel {
    pub open spec fn wf(&self) -> bool {
        &&& self.scheduler.wf()
        &&& forall|i: int| 0 <= i < self.tasks@.len() ==> (#[trigger] self.tasks@[i]).wf()
    }

    /// A kernel running `tasks`, with no threads yet.
    pub fn new(tasks: Vec<Task>) -> (r: Result<Kernel, KernelError>)
        requires
            forall|i: int| 0 <= i < tasks@.len() ==> (#[trigger] tasks@[i]).wf(),
        ensures
            r matches Ok(k) && k.wf() && k.tasks@ == tasks@ && k.epoch == INITIAL_EPOCH
                && k.scheduler.wait_queue@.len() == 0 && k.scheduler.exhausted_threads@.len() == 0
                && k.scheduler.tcbs.next_slot() == 0 && k.log@.len() == 0
                && k.registry@ == crate::registry::no_ports()
                && k.scheduler.tcbs@ == Seq::new(16, |i: int| None::<Tcb>),
    {
        Ok(Kernel { scheduler: Scheduler::new(), registry: Registry::new(), epoch: INITIAL_EPOCH, tasks, log: Vec::new(), wipes: Vec::new() })
    }

    /// A kernel whose tasks are built from their descriptions.
    pub fn from_tasks(descs: &Vec<TaskDesc>) -> (r: Result<Kernel, KernelError>)
        ensures
            r matches Ok(k) && k.wf() && k.tasks@.len() == descs@.len() && k.scheduler.tcbs.next_slot() == 0
                && forall|i: int| 0 <= i < descs@.len() ==> {
                    let t = #[trigger] k.tasks@[i];
                    &&& t.entrypoint == descs@[i].entrypoint
                    &&& t.stack_size == descs@[i].init_stack_size
                    &&& t.initial_stack == descs@[i].stack_space
                    &&& t.available_stack@ == seq![descs@[i].stack_space]
                    &&& t.state == TaskState::Pending
                    &&& forall|a: int, at: RegionAttrs| crate::regions::maps_to(t.region_table@, a, at)
                        <==> at == task_memory_attrs() && (descs@[i].flash_region.start <= a < descs@[i].flash_region.end
                            || descs@[i].ram_region.start <= a < descs@[i].ram_region.end)
                },
    {
        let mut tasks: Vec<Task> = Vec::new();
        let mut i: usize = 0;
        while i < descs.len()
            invariant
                i <= descs@.len(),
                tasks@.len() == i,
                forall|k: int| 0 <= k < tasks@.len() ==> (#[trigger] tasks@[k]).wf(),
                forall|k: int| 0 <= k < i ==> {
                    let t = #[trigger] tasks@[k];
                    &&& t.entrypoint == descs@[k].entrypoint
                    &&& t.stack_size == descs@[k].init_stack_size
                    &&& t.initial_stack == descs@[k].stack_space
                    &&& t.available_stack@ == seq![descs@[k].stack_space]
                    &&& t.state == TaskState::Pending
                    &&& forall|a: int, at: RegionAttrs| crate::regions::maps_to(t.region_table@, a, at)
                        <==> at == task_memory_attrs() && (descs@[k].flash_region.start <= a < descs@[k].flash_region.end
                            || descs@[k].ram_region.start <= a < descs@[k].ram_region.end)
                },
            decreases descs@.len() - i,
        {
            let d = descs[i];
            let table = d.region_table()?;
            tasks.push(Task::new(table, d.init_stack_size, d.stack_space, d.entrypoint, false));
            i = i + 1;
        }
        Kernel::new(tasks)
    }

    /// Creates a thread of task `task_ref` at `entrypoint`, which must lie in
    /// an executable region of the task, on a freshly carved stack.
    pub fn spawn_thread(
        &mut self,
        task_ref: TaskRef,
        priority: usize,
        budget: usize,
        cooldown: usize,
        entrypoint: usize,
        caps: CapList,
    ) -> (r: Result<ThreadRef, KernelError>)
        requires
            old(self).wf(),
            caps.wf(),
        ensures
            final(self).wf(),
            final(self).tasks@.len() == old(self).tasks@.len(),
            final(self).epoch == old(self).epoch,
            final(self).log@ == old(self).log@,
            task_ref.0 >= old(self).tasks@.len() ==> r == Err::<ThreadRef, KernelError>(KernelError::InvalidTaskRef),
            task_ref.0 < old(self).tasks@.len() && spawn_fits(old(self).tasks@[task_ref.0 as int], entrypoint)
                && priority < PRIORITY_LEVELS && old(self).scheduler.tcbs.len_spec() < TCB_CAPACITY ==> r is Ok,
            r matches Ok(t) ==> {
                let task = old(self).tasks@[task_ref.0 as int];
                &&& final(self).scheduler.tcbs@[t.0 as int].unwrap().stack_pointer
                    == task.available_stack@[first_fit(task.available_stack@, task.stack_size as int).unwrap()].start + task.stack_size
                &&& task_ref.0 < old(self).tasks@.len()
                &&& t.0 == old(self).scheduler.tcbs.next_slot()
                &&& t.0 < TCB_CAPACITY
                &&& priority < PRIORITY_LEVELS
                &&& first_fit(task.available_stack@, task.stack_size as int) is Some
                &&& final(self).scheduler.tcbs@[t.0 as int] matches Some(tcb)
                    && tcb.task == task_ref && tcb.priority == priority && tcb.budget == budget
                    && tcb.cooldown == cooldown && tcb.entrypoint == entrypoint
                    && tcb.epoch == old(self).epoch && tcb.capabilities == caps
                    && tcb.req_queue@.len() == 0 && tcb.state == ThreadState::Ready
                    && (tcb.boot_frame matches Some(b) && b.addr + FRAME_SIZE == tcb.stack_pointer
                        && b.frame.is_initial(entrypoint) && tcb.saved_state.psp == b.addr
                        && tcb.saved_state.exc_return == EXC_RETURN)
                &&& final(self).scheduler.wait_queue@ == old(self).scheduler.wait_queue@.push(
                    crate::scheduler::DomainEntry { tcb_ref: t, loaned_tcb: None, priority: priority as u8 })
                &&& forall|i: int| 0 <= i < TCB_CAPACITY && i != t.0 ==> final(self).scheduler.tcbs@[i] == old(self).scheduler.tcbs@[i]
                &&& old(self).scheduler.tcbs@[t.0 as int] is None
            },
            r is Err ==> final(self).scheduler.tcbs@ == old(self).scheduler.tcbs@
                && final(self).scheduler.wait_queue@ == old(self).scheduler.wait_queue@,
            r is Ok ==> {
                let task = old(self).tasks@[task_ref.0 as int];
                &&& task.state == TaskState::Pending ==> final(self).wipes@ == old(self).wipes@
                    + crate::task::holding(task.region_table@, task.available_stack@[0].start as int)
                &&& task.state == TaskState::Started ==> final(self).wipes@ == old(self).wipes@
                &&& final(self).tasks@[task_ref.0 as int].state == TaskState::Started
                &&& final(self).tasks@[task_ref.0 as int].region_table == task.region_table
            },
            final(self).scheduler.current_thread == old(self).scheduler.current_thread,
            final(self).scheduler.exhausted_threads@ == old(self).scheduler.exhausted_threads@,
            forall|i: int| 0 <= i < final(self).tasks@.len() && i != task_ref.0 ==> final(self).tasks@[i] == old(self).tasks@[i],
    {
        if task_ref.0 >= self.tasks.len() {
            return Err(KernelError::InvalidTaskRef);
        }
        let epoch = self.epoch;
        let mut task = self.tasks.remove(task_ref.0);
        let ghost t0 = task;
        assert(t0 == old(self).tasks@[task_ref.0 as int]);
        assert(t0.wf());
        if !task.region_table.permits(entrypoint, 1, RegionAttrs::of(crate::regions::RegionAttr::Exec)) {
            self.tasks.insert(task_ref.0, task);
            proof { assert(self.tasks@ =~= old(self).tasks@); }
            return Err(KernelError::InvalidEntrypoint);
        }
        let was_pending = match task.state {
            TaskState::Pending => true,
            TaskState::Started => false,
        };
        let mut wipe = if was_pending { task.regions_holding_stack() } else { Vec::new() };
        proof { crate::task::lemma_first_fit_some(task.available_stack@, task.stack_size as int); }
        let stack = task.alloc_stack();
        let frame_ok = match stack {
            Some(s) => s >= FRAME_SIZE && task.validate_mut_ptr(s - FRAME_SIZE, FRAME_SIZE),
            None => false,
        };
        task.state = TaskState::Started;
        assert(task.wf());
        self.tasks.insert(task_ref.0, task);
        proof {
            assert forall|i: int| 0 <= i < self.tasks@.len() implies (#[trigger] self.tasks@[i]).wf() by {
                if i != task_ref.0 {
                    assert(self.tasks@[i] == old(self).tasks@[i]);
                }
            }
        }
        let stack = match stack {
            Some(s) => s,
            None => return Err(KernelError::StackExhausted),
        };
        if !frame_ok {
            return Err(KernelError::InvalidTaskPtr);
        }
        self.wipes.append(&mut wipe);
        let mut tcb = Tcb::new(task_ref, stack, priority, budget, cooldown, entrypoint, epoch, caps);
        let frame_addr = stack - FRAME_SIZE;
        tcb.saved_state.psp = frame_addr;
        tcb.saved_state.exc_return = EXC_RETURN;
        tcb.boot_frame = Some(BootFrame { addr: frame_addr, frame: ExceptionFrame::initial(entrypoint) });
        proof {
            self.scheduler.tcbs.lemma_wf();
        }
        self.scheduler.spawn(tcb)
    }

    /// Restarts task `task_ref` after a panic: its threads leave the ready
    /// and cooldown queues and the TCB table, its stack space is reclaimed,
    /// and its original thread (the one at the task's entrypoint) is spawned
    /// again with the same priority, budget, cooldown and capabilities, and
    /// an empty message queue. Returns the new thread.
    pub fn restart_task(&mut self, task_ref: TaskRef) -> (r: Result<ThreadRef, KernelError>)
        requires
            old(self).wf(),
        ensures
            final(self).wf(),
            final(self).log@ == old(self).log@,
            r is Ok ==> final(self).tasks@.len() == old(self).tasks@.len(),
            task_ref.0 >= old(self).tasks@.len() ==> r == Err::<ThreadRef, KernelError>(KernelError::InvalidTaskRef),
            task_ref.0 < old(self).tasks@.len() && !has_original(old(self).scheduler.tcbs@, task_ref, old(self).tasks@[task_ref.0 as int].entrypoint)
                ==> r == Err::<ThreadRef, KernelError>(KernelError::InitTCBNotFound),
            task_ref.0 < old(self).tasks@.len() && has_original(old(self).scheduler.tcbs@, task_ref, old(self).tasks@[task_ref.0 as int].entrypoint)
                && restart_fits(old(self).tasks@[task_ref.0 as int]) ==> r is Ok,
            r matches Ok(t) ==> {
                &&& restarted(old(self).scheduler.tcbs@, final(self).scheduler.tcbs@, old(self).tasks@[task_ref.0 as int], task_ref, t)
                &&& final(self).wipes@ == old(self).wipes@ + crate::task::holding(old(self).tasks@[task_ref.0 as int].region_table@,
                    old(self).tasks@[task_ref.0 as int].initial_stack.start as int)
                &&& final(self).tasks@[task_ref.0 as int].state == TaskState::Started
                &&& final(self).tasks@[task_ref.0 as int].region_table == old(self).tasks@[task_ref.0 as int].region_table
                &&& final(self).scheduler.wait_queue@.len() > 0
                &&& final(self).scheduler.wait_queue@.last() == (crate::scheduler::DomainEntry {
                    tcb_ref: t, loaned_tcb: None, priority: final(self).scheduler.tcbs@[t.0 as int].unwrap().priority as u8 })
                    &&& forall|i: int| 0 <= i < final(self).tasks@.len() && i != task_ref.0 ==> final(self).tasks@[i] == old(self).tasks@[i]
                &&& forall|k: int| 0 <= k < final(self).scheduler.wait_queue@.len() - 1
                    ==> (#[trigger] final(self).scheduler.wait_queue@[k]).tcb_ref != t
                        && live(final(self).scheduler.tcbs@, final(self).scheduler.wait_queue@[k].tcb_ref)
                &&& forall|k: int| 0 <= k < final(self).scheduler.exhausted_threads@.len()
                    ==> (#[trigger] final(self).scheduler.exhausted_threads@[k]).tcb_ref != t
                        && live(final(self).scheduler.tcbs@, final(self).scheduler.exhausted_threads@[k].tcb_ref)
            },
    {
        if task_ref.0 >= self.tasks.len() {
            return Err(KernelError::InvalidTaskRef);
        }
        proof { self.scheduler.tcbs.lemma_wf(); }
        let mut q: Vec<crate::scheduler::DomainEntry> = Vec::new();
        let mut i: usize = 0;
        while i < self.scheduler.wait_queue.len()
            invariant
                self.wf(),
                self.log@ == old(self).log@,
                self.wipes@ == old(self).wipes@,
                self.scheduler.tcbs.wf(),
                self.scheduler.tcbs@.len() == TCB_CAPACITY,
                self.scheduler.tcbs == old(self).scheduler.tcbs,
                self.tasks@ == old(self).tasks@,
                i <= self.scheduler.wait_queue@.len(),
                forall|k: int| 0 <= k < q@.len() ==> live(self.scheduler.tcbs@, (#[trigger] q@[k]).tcb_ref)
                    && self.scheduler.tcbs@[q@[k].tcb_ref.0 as int].unwrap().task != task_ref,
            decreases self.scheduler.wait_queue@.len() - i,
        {
            let e = self.scheduler.wait_queue[i];
            match self.scheduler.tcbs.get(e.tcb_ref.0) {
                Some(t) => {
                    if t.task.0 != task_ref.0 {
                        q.push(e);
                    }
                },
                None => {},
            }
            i = i + 1;
        }
        self.scheduler.wait_queue = q;
        let mut ex: Vec<crate::scheduler::ExhaustedThread> = Vec::new();
        i = 0;
        while i < self.scheduler.exhausted_threads.len()
            invariant
                self.wf(),
                self.log@ == old(self).log@,
                self.wipes@ == old(self).wipes@,
                self.scheduler.tcbs.wf(),
                self.scheduler.tcbs@.len() == TCB_CAPACITY,
                self.scheduler.tcbs == old(self).scheduler.tcbs,
                self.tasks@ == old(self).tasks@,
                i <= self.scheduler.exhausted_threads@.len(),
                forall|k: int| 0 <= k < ex@.len() ==> live(self.scheduler.tcbs@, (#[trigger] ex@[k]).tcb_ref)
                    && self.scheduler.tcbs@[ex@[k].tcb_ref.0 as int].unwrap().task != task_ref,
                forall|k: int| 0 <= k < self.scheduler.wait_queue@.len() ==> live(self.scheduler.tcbs@, (#[trigger] self.scheduler.wait_queue@[k]).tcb_ref)
                    && self.scheduler.tcbs@[self.scheduler.wait_queue@[k].tcb_ref.0 as int].unwrap().task != task_ref,
            decreases self.scheduler.exhausted_threads@.len() - i,
        {
            let e = self.scheduler.exhausted_threads[i];
            match self.scheduler.tcbs.get(e.tcb_ref.0) {
                Some(t) => {
                    if t.task.0 != task_ref.0 {
                        ex.push(e);
                    }
                },
                None => {},
            }
            i = i + 1;
        }
        self.scheduler.exhausted_threads = ex;
        let mut task = self.tasks.remove(task_ref.0);
        assert(task == old(self).tasks@[task_ref.0 as int]);
        let entry = task.entrypoint;
        task.state = TaskState::Pending;
        task.reset_stack_ptr();
        self.tasks.insert(task_ref.0, task);
        proof {
            assert forall|j: int| 0 <= j < self.tasks@.len() implies (#[trigger] self.tasks@[j]).wf() by {
                if j != task_ref.0 {
                    assert(self.tasks@[j] == old(self).tasks@[j]);
                }
            }
        }
        let ghost tc1 = self.scheduler.tcbs@;
        let ghost tasks1 = self.tasks@;
        let mut found: Option<(usize, usize, usize, CapList)> = None;
        let ghost mut found_at: int = 0;
        let mut s: usize = 0;
        while s < TCB_CAPACITY
            invariant
                self.wf(),
                self.log@ == old(self).log@,
                self.wipes@ == old(self).wipes@,
                self.scheduler.tcbs.wf(),
                self.scheduler.tcbs@.len() == TCB_CAPACITY,
                tc1.len() == TCB_CAPACITY,
                s <= TCB_CAPACITY,
                task_ref.0 < self.tasks@.len(),
                entry == old(self).tasks@[task_ref.0 as int].entrypoint,
                forall|j: int| 0 <= j < s && (#[trigger] self.scheduler.tcbs@[j]) is Some ==> self.scheduler.tcbs@[j].unwrap().task != task_ref,
                forall|j: int| s <= j < TCB_CAPACITY ==> (#[trigger] self.scheduler.tcbs@[j]) == tc1[j],
                forall|j: int| 0 <= j < TCB_CAPACITY && (#[trigger] self.scheduler.tcbs@[j]) is Some ==> self.scheduler.tcbs@[j] == tc1[j],
                forall|j: int| 0 <= j < TCB_CAPACITY && (#[trigger] tc1[j]) is Some && tc1[j].unwrap().task != task_ref ==> self.scheduler.tcbs@[j] == tc1[j],
                forall|k: int| 0 <= k < self.scheduler.wait_queue@.len() ==> live(tc1, (#[trigger] self.scheduler.wait_queue@[k]).tcb_ref)
                    && tc1[self.scheduler.wait_queue@[k].tcb_ref.0 as int].unwrap().task != task_ref,
                forall|k: int| 0 <= k < self.scheduler.exhausted_threads@.len() ==> live(tc1, (#[trigger] self.scheduler.exhausted_threads@[k]).tcb_ref)
                    && tc1[self.scheduler.exhausted_threads@[k].tcb_ref.0 as int].unwrap().task != task_ref,
                tc1 == old(self).scheduler.tcbs@,
                self.tasks@ == tasks1,
                found is None ==> forall|j: int| 0 <= j < s ==> !((#[trigger] tc1[j]) matches Some(o) && o.task == task_ref && o.entrypoint == entry),
                found is Some ==> self.scheduler.tcbs.free_stack().len() > 0,
                found matches Some((p, b, c, caps)) ==> (0 <= found_at < TCB_CAPACITY && caps.wf() && (tc1[found_at] matches Some(o)
                    && o.task == task_ref && o.entrypoint == entry && o.priority == p && o.budget == b
                    && o.cooldown == c && o.capabilities == caps)),
            decreases TCB_CAPACITY - s,
        {
            let mine = match self.scheduler.tcbs.get(s) {
                Some(t) => t.task.0 == task_ref.0,
                None => false,
            };
            if mine {
                let ghost before = self.scheduler.tcbs@;
                let t = self.scheduler.tcbs.remove(s).unwrap();
                proof {
                    self.scheduler.tcbs.lemma_wf();
                    assert forall|j: int| 0 <= j < self.scheduler.tcbs@.len() && (#[trigger] self.scheduler.tcbs@[j]) is Some implies crate::scheduler::tcb_ok(self.scheduler.tcbs@[j].unwrap()) by {
                        assert(before[j] is Some);
                    }
                }
                if t.entrypoint == entry {
                    proof { found_at = s as int; }
                    found = Some((t.priority, t.budget, t.cooldown, t.capabilities));
                }
            }
            s = s + 1;
        }
        let (priority, budget, cooldown, caps) = match found {
            Some(f) => f,
            None => return Err(KernelError::InitTCBNotFound),
        };
        proof {
            self.scheduler.tcbs.lemma_wf();
            let t0 = old(self).tasks@[task_ref.0 as int];
            let tk = self.tasks@[task_ref.0 as int];
            assert(tk.available_stack@ == seq![t0.initial_stack]);
            reveal_with_fuel(first_fit, 2);
            assert(seq![t0.initial_stack].drop_last() =~= Seq::<StackRange>::empty());
            if restart_fits(t0) {
                assert(first_fit(tk.available_stack@, tk.stack_size as int) == Some(0int));
                assert(spawn_fits(tk, entry));
            }
        }
        self.epoch = self.epoch.wrapping_add(1);
        let ghost tc2 = self.scheduler.tcbs@;
        let ghost q2 = self.scheduler.wait_queue@;
        let r = self.spawn_thread(task_ref, priority, budget, cooldown, entry, caps);
        proof {
            if r is Ok {
                let t = r->Ok_0;
                self.scheduler.tcbs.lemma_wf();
                assert(tc1[found_at] is Some);
                reveal_with_fuel(first_fit, 2);
                assert(seq![old(self).tasks@[task_ref.0 as int].initial_stack].drop_last() =~= Seq::<StackRange>::empty());
                assert forall|k: int| 0 <= k < self.scheduler.wait_queue@.len() - 1 implies (#[trigger] self.scheduler.wait_queue@[k]).tcb_ref != t
                    && live(self.scheduler.tcbs@, self.scheduler.wait_queue@[k].tcb_ref) by {
                    assert(self.scheduler.wait_queue@[k] == q2[k]);
                    let j = q2[k].tcb_ref.0 as int;
                    assert(live(tc1, q2[k].tcb_ref));
                    assert(tc1[j] is Some);
                    assert(tc2[j] == tc1[j]);
                    assert(j != t.0);
                    assert(self.scheduler.tcbs@[j] == tc2[j]);
                }
                assert forall|k: int| 0 <= k < self.scheduler.exhausted_threads@.len() implies (#[trigger] self.scheduler.exhausted_threads@[k]).tcb_ref != t
                    && live(self.scheduler.tcbs@, self.scheduler.exhausted_threads@[k].tcb_ref) by {
                    let j = self.scheduler.exhausted_threads@[k].tcb_ref.0 as int;
                    assert(live(tc1, self.scheduler.exhausted_threads@[k].tcb_ref));
                    assert(tc1[j] is Some);
                    assert(tc2[j] == tc1[j]);
                    assert(j != t.0);
                    assert(self.scheduler.tcbs@[j] == tc2[j]);
                }
            }
        }
        r
    }

    /// Appends a message to the endpoint's thread. A thread blocked in a
    /// receive whose mask the address matches is handed its earliest
    /// matching message at once (as `Tcb::recv` does), becomes ready and
    /// joins the ready queue; a loaned page is mapped into its task (left
    /// unmapped if its table is full). A call also readies a thread that is
    /// not waiting.
    pub fn send_inner(&mut self, endpoint: Endpoint, body: IpcBody, reply_endpoint: Option<Endpoint>) -> (r: Result<(), KernelError>)
        requires
            old(self).wf(),
            reply_endpoint matches Some(e) ==> e.disposable,
        ensures
            final(self).wf(),
            final(self).tasks@.len() == old(self).tasks@.len(),
            final(self).log@ == old(self).log@,
            final(self).scheduler.current_thread == old(self).scheduler.current_thread,
            final(self).scheduler.exhausted_threads@ == old(self).scheduler.exhausted_threads@,
            final(self).scheduler.tcbs.free_stack() == old(self).scheduler.tcbs.free_stack(),
            !live(old(self).scheduler.tcbs@, endpoint.tcb_ref) ==> r == Err::<(), KernelError>(KernelError::InvalidThreadRef)
                && final(self).scheduler.tcbs@ == old(self).scheduler.tcbs@
                && final(self).scheduler.wait_queue@ == old(self).scheduler.wait_queue@,
            live(old(self).scheduler.tcbs@, endpoint.tcb_ref) ==> {
                let dest = old(self).scheduler.tcbs@[endpoint.tcb_ref.0 as int].unwrap();
                let m = IpcMsg { addr: endpoint.addr, reply_endpoint, body };
                let wakes = dest.state matches ThreadState::Waiting(req) && msg_matches(endpoint.addr, req.mask);
                let entry = crate::scheduler::DomainEntry { tcb_ref: endpoint.tcb_ref, loaned_tcb: None, priority: dest.priority as u8 };
                &&& forall|i: int| 0 <= i < TCB_CAPACITY && i != endpoint.tcb_ref.0 ==> final(self).scheduler.tcbs@[i] == old(self).scheduler.tcbs@[i]
                &&& wakes && dest.task.0 >= old(self).tasks@.len() ==> r == Err::<(), KernelError>(KernelError::InvalidTaskRef)
                &&& !(wakes && dest.task.0 >= old(self).tasks@.len()) ==> r is Ok
                &&& r is Ok ==> (final(self).scheduler.tcbs@[endpoint.tcb_ref.0 as int] matches Some(t)
                    && t.task == dest.task && t.priority == dest.priority && t.budget == dest.budget
                    && t.cooldown == dest.cooldown
                    && (wakes ==> t.state == ThreadState::Ready && (dest.state matches ThreadState::Waiting(req)
                        && exists|res: RecvRes| crate::tcb::received(dest, dest.req_queue@.push(m), t, old(self).tasks@[dest.task.0 as int], req, res)))
                    && (!wakes ==> t.state == dest.state && t.req_queue@ == dest.req_queue@.push(m)))
                &&& r is Ok ==> (wakes || reply_endpoint is Some ==> final(self).scheduler.wait_queue@ == old(self).scheduler.wait_queue@.push(entry))
                &&& r is Ok ==> (!wakes && reply_endpoint is None ==> final(self).scheduler.wait_queue@ == old(self).scheduler.wait_queue@)
                &&& !wakes ==> final(self).tasks@ == old(self).tasks@
                &&& forall|i: int| 0 <= i < old(self).tasks@.len() && i != dest.task.0 ==> final(self).tasks@[i] == old(self).tasks@[i]
            },
    {
        proof { self.scheduler.tcbs.lemma_wf(); }
        let dest_ref = endpoint.tcb_ref;
        let is_call = reply_endpoint.is_some();
        let ghost tc0 = self.scheduler.tcbs@;
        let ghost m = IpcMsg { addr: endpoint.addr, reply_endpoint, body };
        let ghost mut rres = RecvRes::NotFound;
        let ghost mut rreq = RecvReq { mask: 0, resp_addr: 0, out: crate::tcb::RecvOut::Page };
        let (priority, woke, page) = match self.scheduler.tcbs.get_mut(dest_ref.0) {
            None => return Err(KernelError::InvalidThreadRef),
            Some(dest) => {
                let ghost d0 = *dest;
                match dest.state {
                    ThreadState::Waiting(req) => {
                        if endpoint.addr & req.mask == req.mask && dest.task.0 >= self.tasks.len() {
                            return Err(KernelError::InvalidTaskRef);
                        }
                    },
                    _ => {},
                }
                dest.req_queue.push(IpcMsg { addr: endpoint.addr, reply_endpoint, body });
                proof {
                    let q = dest.req_queue@;
                    assert forall|k: int| 0 <= k < q.len() implies ((#[trigger] q[k]).reply_endpoint matches Some(e) ==> e.disposable) by {
                        if k < q.len() - 1 { assert(q[k] == d0.req_queue@[k]); }
                    }
                }
                let priority = dest.priority;
                match dest.state {
                    ThreadState::Waiting(req) => {
                        if endpoint.addr & req.mask == req.mask {
                            dest.state = ThreadState::Ready;
                            let task = &self.tasks[dest.task.0];
                            let rr = dest.recv(task, req);
                            proof { rres = rr; rreq = req; }
                            let page = match rr {
                                RecvRes::Delivered(ret) => match ret.get_type() {
                                    crate::abi::SyscallReturnType::Page => true,
                                    _ => false,
                                },
                                RecvRes::NotFound => false,
                            };
                            (priority, true, page)
                        } else {
                            (priority, false, false)
                        }
                    },
                    _ => (priority, false, false),
                }
            },
        };
        proof {
            self.scheduler.tcbs.lemma_wf();
            assert forall|i: int| 0 <= i < self.scheduler.tcbs@.len() && (#[trigger] self.scheduler.tcbs@[i]) is Some implies crate::scheduler::tcb_ok(self.scheduler.tcbs@[i].unwrap()) by {
                assert(tc0[i] is Some);
            }
        }
        let ghost tc1 = self.scheduler.tcbs@;
        let ghost tasks0 = self.tasks@;
        proof {
            let d = tc0[dest_ref.0 as int].unwrap();
            assert(priority == d.priority);
            assert(crate::scheduler::tcb_ok(d));
            if woke {
                let t = tc1[dest_ref.0 as int].unwrap();
                assert(d.state matches ThreadState::Waiting(rq) && rq == rreq);
                assert(crate::tcb::received(d, d.req_queue@.push(m), t, tasks0[d.task.0 as int], rreq, rres));
            }
        }
        if page {
            let _ = self.grant_delivered_page(dest_ref);
        }
        if woke || is_call {
            let _ = self.scheduler.add_thread(priority, dest_ref);
        }
        Ok(())
    }

    /// Task `task_ref`.
    pub fn task(&self, task_ref: TaskRef) -> (r: Result<&Task, KernelError>)
        ensures
            task_ref.0 < self.tasks@.len() ==> r == Ok::<&Task, KernelError>(&self.tasks@[task_ref.0 as int]),
            task_ref.0 >= self.tasks@.len() ==> r == Err::<&Task, KernelError>(KernelError::InvalidTaskRef),
    {
        if task_ref.0 < self.tasks.len() {
            Ok(&self.tasks[task_ref.0])
        } else {
            Err(KernelError::InvalidTaskRef)
        }
    }

    /// The task of the running thread.
    pub fn current_task_ref(&self) -> (r: Result<TaskRef, KernelError>)
        requires
            self.wf(),
        ensures
            match r {
                Ok(t) => live(self.scheduler.tcbs@, self.scheduler.current_thread.tcb_ref)
                    && t == self.scheduler.tcbs@[self.scheduler.current_thread.tcb_ref.0 as int].unwrap().task
                    && t.0 < self.tasks@.len() && self.caller_task() == Some(t.0 as int),
                Err(e) => self.caller_task() is None && (e == KernelError::InvalidThreadRef || e == KernelError::InvalidTaskRef),
            },
    {
        let t = self.scheduler.current_thread()?.task;
        if t.0 >= self.tasks.len() {
            return Err(KernelError::InvalidTaskRef);
        }
        Ok(t)
    }

    /// Uses capability `dest` of the running thread as an endpoint.
    pub(crate) fn take_endpoint(&mut self, dest: CapRef) -> (r: Result<Endpoint, KernelError>)
        requires
            old(self).wf(),
        ensures
            final(self).wf(),
            final(self).tasks@ == old(self).tasks@,
            final(self).scheduler.current_thread == old(self).scheduler.current_thread,
            final(self).scheduler.wait_queue@ == old(self).scheduler.wait_queue@,
            final(self).scheduler.exhausted_threads@ == old(self).scheduler.exhausted_threads@,
            final(self).scheduler.tcbs.free_stack() == old(self).scheduler.tcbs.free_stack(),
            !live(old(self).scheduler.tcbs@, old(self).scheduler.current_thread.tcb_ref) ==> r == Err::<Endpoint, KernelError>(KernelError::InvalidThreadRef),
            live(old(self).scheduler.tcbs@, old(self).scheduler.current_thread.tcb_ref) ==> {
                let c = old(self).scheduler.current_thread.tcb_ref.0 as int;
                let caps = old(self).scheduler.tcbs@[c].unwrap().capabilities@;
                &&& match crate::caps::use_endpoint(caps, dest) {
                    Ok((e, s)) => r == Ok::<Endpoint, KernelError>(e) && final(self).scheduler.tcbs@[c].unwrap().capabilities@ == s,
                    Err(err) => r == Err::<Endpoint, KernelError>(KernelError::ABI(err)) && final(self).scheduler.tcbs@[c].unwrap().capabilities@ == caps,
                }
                &&& final(self).scheduler.tcbs@[c] matches Some(t) && t.task == old(self).scheduler.tcbs@[c].unwrap().task
                    && t.state == old(self).scheduler.tcbs@[c].unwrap().state
                    && t.priority == old(self).scheduler.tcbs@[c].unwrap().priority
                    && t.budget == old(self).scheduler.tcbs@[c].unwrap().budget
                    && t.cooldown == old(self).scheduler.tcbs@[c].unwrap().cooldown
                    && t.req_queue@ == old(self).scheduler.tcbs@[c].unwrap().req_queue@
                &&& forall|i: int| 0 <= i < TCB_CAPACITY && i != c ==> final(self).scheduler.tcbs@[i] == old(self).scheduler.tcbs@[i]
            },
    {
        proof { self.scheduler.tcbs.lemma_wf(); }
        let cur = self.scheduler.current_thread.tcb_ref;
        let ghost tc0 = self.scheduler.tcbs@;
        let r = match self.scheduler.tcbs.get_mut(cur.0) {
            Some(t) => t.capabilities.endpoint(dest),
            None => return Err(KernelError::InvalidThreadRef),
        };
        proof {
            self.scheduler.tcbs.lemma_wf();
            assert forall|i: int| 0 <= i < self.scheduler.tcbs@.len() && (#[trigger] self.scheduler.tcbs@[i]) is Some implies crate::scheduler::tcb_ok(self.scheduler.tcbs@[i].unwrap()) by {
                assert(tc0[i] is Some);
            }
        }
        r
    }

    /// Sends `msg` from the running thread on its capability `dest`, with
    /// the effect `send_inner` has on the endpoint's thread.
    pub fn send(&mut self, dest: CapRef, msg: Vec<u8>) -> (r: Result<(), KernelError>)
        requires
            old(self).wf(),
        ensures
            final(self).wf(),
            final(self).tasks@.len() == old(self).tasks@.len(),
            final(self).scheduler.current_thread == old(self).scheduler.current_thread,
            !live(old(self).scheduler.tcbs@, old(self).scheduler.current_thread.tcb_ref) ==> r == Err::<(), KernelError>(KernelError::InvalidThreadRef),
            live(old(self).scheduler.tcbs@, old(self).scheduler.current_thread.tcb_ref) ==> {
                let c = old(self).scheduler.current_thread.tcb_ref;
                let caps = old(self).scheduler.tcbs@[c.0 as int].unwrap().capabilities@;
                &&& crate::caps::use_endpoint(caps, dest) matches Err(err) ==> r == Err::<(), KernelError>(KernelError::ABI(err))
                &&& crate::caps::use_endpoint(caps, dest) matches Ok((e, s2)) ==> {
                    let d = old(self).scheduler.tcbs@[e.tcb_ref.0 as int].unwrap();
                    let m = IpcMsg { addr: e.addr, reply_endpoint: None, body: IpcBody::Buf(msg) };
                    let wakes = d.state matches ThreadState::Waiting(req) && msg_matches(e.addr, req.mask);
                    &&& !live(old(self).scheduler.tcbs@, e.tcb_ref) ==> r == Err::<(), KernelError>(KernelError::InvalidThreadRef)
                    &&& live(old(self).scheduler.tcbs@, e.tcb_ref) && wakes && d.task.0 >= old(self).tasks@.len()
                        ==> r == Err::<(), KernelError>(KernelError::InvalidTaskRef)
                    &&& live(old(self).scheduler.tcbs@, e.tcb_ref) && !(wakes && d.task.0 >= old(self).tasks@.len()) ==> r is Ok
                    &&& r is Ok && !wakes ==> (final(self).scheduler.tcbs@[e.tcb_ref.0 as int] matches Some(t)
                        && t.req_queue@ == d.req_queue@.push(m))
                        && final(self).scheduler.wait_queue@ == old(self).scheduler.wait_queue@
                    &&& r is Ok && wakes ==> (final(self).scheduler.tcbs@[e.tcb_ref.0 as int] matches Some(t)
                        && t.state == ThreadState::Ready
                        && (e.tcb_ref != c ==> (d.state matches ThreadState::Waiting(req)
                            && exists|res: RecvRes| crate::tcb::received(d, d.req_queue@.push(m), t, old(self).tasks@[d.task.0 as int], req, res))))
                        && final(self).scheduler.wait_queue@ == old(self).scheduler.wait_queue@.push(
                            crate::scheduler::DomainEntry { tcb_ref: e.tcb_ref, loaned_tcb: None, priority: d.priority as u8 })
                    &&& r is Ok && e.tcb_ref != c ==> final(self).scheduler.tcbs@[c.0 as int].unwrap().capabilities@ == s2
                }
            },
    {
        proof { self.scheduler.tcbs.lemma_wf(); }
        let ghost old_tcbs = self.scheduler.tcbs@;
        let ghost c = self.scheduler.current_thread.tcb_ref.0 as int;
        let endpoint = self.take_endpoint(dest)?;
        let ghost mid = self.scheduler.tcbs@;
        let ghost j = endpoint.tcb_ref.0 as int;
        proof {
            self.scheduler.tcbs.lemma_wf();
            if live(old_tcbs, endpoint.tcb_ref) && j != c {
                assert(mid[j] == old_tcbs[j]);
            }
        }
        self.send_inner(endpoint, IpcBody::Buf(msg), None)
    }

    /// Sends `body` on capability `dest` with a single-use reply endpoint
    /// back to the running thread, then blocks the running thread until the
    /// reply arrives and switches to the best ready thread (or idle), whose
    /// time is drawn from the caller's budget.
    pub fn call(&mut self, dest: CapRef, body: IpcBody, out: crate::tcb::RecvOut, resp_addr: usize) -> (r: Result<ThreadRef, KernelError>)
        requires
            old(self).wf(),
        ensures
            final(self).wf(),
            final(self).tasks@.len() == old(self).tasks@.len(),
            live(old(self).scheduler.tcbs@, old(self).scheduler.current_thread.tcb_ref) ==> {
                let c = old(self).scheduler.current_thread.tcb_ref;
                let caps = old(self).scheduler.tcbs@[c.0 as int].unwrap().capabilities@;
                &&& crate::caps::use_endpoint(caps, dest) matches Err(err) ==> r == Err::<ThreadRef, KernelError>(KernelError::ABI(err))
                &&& crate::caps::use_endpoint(caps, dest) matches Ok((e, _)) ==> {
                    let d = old(self).scheduler.tcbs@[e.tcb_ref.0 as int].unwrap();
                    let reply = Endpoint { tcb_ref: c, addr: e.addr | REPLY_BIT, disposable: true };
                    let m = IpcMsg { addr: e.addr, reply_endpoint: Some(reply), body };
                    let wakes = d.state matches ThreadState::Waiting(req) && msg_matches(e.addr, req.mask);
                    &&& !live(old(self).scheduler.tcbs@, e.tcb_ref) ==> r == Err::<ThreadRef, KernelError>(KernelError::InvalidThreadRef)
                    &&& live(old(self).scheduler.tcbs@, e.tcb_ref) && e.tcb_ref != c && !(wakes && d.task.0 >= old(self).tasks@.len())
                        && live(old(self).scheduler.tcbs@, ThreadRef(0)) ==> r is Ok
                    &&& live(old(self).scheduler.tcbs@, e.tcb_ref) && e.tcb_ref != c && !(wakes && d.task.0 >= old(self).tasks@.len())
                        && (wakes || !(d.state is Waiting)) ==> r == Ok::<ThreadRef, KernelError>(e.tcb_ref)
                            && final(self).scheduler.current_thread.tcb_ref == e.tcb_ref
                    &&& r is Ok && e.tcb_ref != c && !wakes ==> (final(self).scheduler.tcbs@[e.tcb_ref.0 as int] matches Some(t)
                        && t.req_queue@ == d.req_queue@.push(m))
                    &&& r is Ok ==> (final(self).scheduler.tcbs@[c.0 as int] matches Some(t)
                        && (t.state matches ThreadState::Waiting(req) && req.mask == e.addr | REPLY_BIT
                            && req.resp_addr == resp_addr && req.out == out))
                }
            },
            r is Ok ==> final(self).scheduler.current_thread.loaned_tcb == Some(old(self).scheduler.current_thread.tcb_ref),
            r is Ok ==> (final(self).scheduler.tcbs@[old(self).scheduler.current_thread.tcb_ref.0 as int] matches Some(t)
                && (t.state matches ThreadState::Waiting(req) && req.resp_addr == resp_addr && req.out == out
                && req.mask & REPLY_BIT == REPLY_BIT)),
    {
        let src_ref = self.scheduler.current_thread.tcb_ref;
        proof { self.scheduler.tcbs.lemma_wf(); }
        let ghost old_tcbs = self.scheduler.tcbs@;
        let endpoint = self.take_endpoint(dest)?;
        let ghost mid = self.scheduler.tcbs@;
        let ghost j = endpoint.tcb_ref.0 as int;
        proof {
            self.scheduler.tcbs.lemma_wf();
            if live(old_tcbs, endpoint.tcb_ref) && j != src_ref.0 {
                assert(mid[j] == old_tcbs[j]);
            }
            assert(live(mid, ThreadRef(0)) == live(old_tcbs, ThreadRef(0)));
        }
        let reply = Endpoint { tcb_ref: src_ref, addr: endpoint.addr | REPLY_BIT, disposable: true };
        let req = RecvReq { mask: reply.addr, resp_addr, out };
        let ea = endpoint.addr;
        assert((ea | 0x8000_0000usize) & 0x8000_0000usize == 0x8000_0000usize) by (bit_vector);
        self.send_inner(endpoint, body, Some(reply))?;
        proof {
            self.scheduler.tcbs.lemma_wf();
            let s1 = self.scheduler.tcbs@;
            if live(old_tcbs, endpoint.tcb_ref) && j != src_ref.0 {
                assert(s1[src_ref.0 as int] == mid[src_ref.0 as int]);
                assert(live(s1, src_ref));
                if live(old_tcbs, ThreadRef(0)) {
                    if j != 0 { assert(s1[0] == mid[0]); }
                    assert(live(s1, ThreadRef(0)));
                }
                assert(self.scheduler.wait_queue@.last().tcb_ref == endpoint.tcb_ref);
            }
        }
        self.block_for_reply(req, endpoint.tcb_ref)
    }

    /// Blocks the running thread until its call is answered. A callee that
    /// can run gets the processor at once (its entry, the last of the ready
    /// queue, leaves the queue); otherwise the best ready thread, or idle,
    /// runs. Either way the caller's budget pays for it.
    pub(crate) fn block_for_reply(&mut self, req: RecvReq, callee: ThreadRef) -> (r: Result<ThreadRef, KernelError>)
        requires
            old(self).wf(),
        ensures
            final(self).wf(),
            final(self).tasks@ == old(self).tasks@,
            final(self).log@ == old(self).log@,
            ({
                let tc = old(self).scheduler.tcbs@;
                let cur = old(self).scheduler.current_thread.tcb_ref;
                let q = old(self).scheduler.wait_queue@;
                &&& live(tc, cur) && live(tc, ThreadRef(0)) ==> r is Ok
                &&& live(tc, cur) && live(tc, callee) && callee != cur && !(tc[callee.0 as int].unwrap().state is Waiting)
                    && q.len() > 0 && q.last().tcb_ref == callee
                    ==> r == Ok::<ThreadRef, KernelError>(callee) && final(self).scheduler.current_thread.tcb_ref == callee
                        && final(self).scheduler.wait_queue@ == q.drop_last()
                &&& r matches Ok(n) ==> n == final(self).scheduler.current_thread.tcb_ref
                    && final(self).scheduler.current_thread.loaned_tcb == Some(cur)
                    && (final(self).scheduler.tcbs@[cur.0 as int] matches Some(t) && t.state == ThreadState::Waiting(req))
                &&& forall|i: int| 0 <= i < TCB_CAPACITY && i != cur.0 ==> (final(self).scheduler.tcbs@[i] is Some <==> tc[i] is Some)
                    && (tc[i] is Some ==> final(self).scheduler.tcbs@[i].unwrap().req_queue@ == tc[i].unwrap().req_queue@
                        && final(self).scheduler.tcbs@[i].unwrap().state == tc[i].unwrap().state)
            }),
    {
        proof { self.scheduler.tcbs.lemma_wf(); }
        let src_ref = self.scheduler.current_thread.tcb_ref;
        let runnable = callee.0 != src_ref.0 && self.scheduler.tcbs.get(src_ref.0).is_some() && match self.scheduler.tcbs.get(callee.0) {
            Some(t) => match t.state {
                ThreadState::Waiting(_) => false,
                _ => true,
            },
            None => false,
        };
        let n = self.scheduler.wait_queue.len();
        if runnable && n > 0 && self.scheduler.wait_queue[n - 1].tcb_ref.0 == callee.0 {
            let r = self.scheduler.hand_off(req, callee);
            proof {
                let tc = old(self).scheduler.tcbs@;
                let tc1 = tc.update(src_ref.0 as int, Some(Tcb { state: ThreadState::Waiting(req), ..tc[src_ref.0 as int].unwrap() }));
                crate::scheduler::lemma_switch_result(tc1, old(self).scheduler.current_thread,
                    crate::scheduler::DomainEntry { tcb_ref: callee, loaned_tcb: Some(src_ref), priority: old(self).scheduler.wait_queue@.last().priority });
            }
            return r;
        }
        proof {
            let tc = self.scheduler.tcbs@;
            if live(tc, src_ref) {
                let tc1 = tc.update(src_ref.0 as int, Some(Tcb { state: ThreadState::Waiting(req), ..tc[src_ref.0 as int].unwrap() }));
                crate::scheduler::lemma_pick_runnable(self.scheduler.wait_queue@, 0, src_ref, tc1);
                if live(tc, ThreadRef(0)) {
                    assert(live(tc1, ThreadRef(0)));
                }
            }
        }
        let r = self.scheduler.wait(req, true);
        proof {
            let tc = old(self).scheduler.tcbs@;
            if live(tc, src_ref) {
                let tc1 = tc.update(src_ref.0 as int, Some(Tcb { state: ThreadState::Waiting(req), ..tc[src_ref.0 as int].unwrap() }));
                let picked = crate::scheduler::pick_or_idle(old(self).scheduler.wait_queue@, 0, src_ref, tc1);
                crate::scheduler::lemma_switch_result(tc1, old(self).scheduler.current_thread,
                    crate::scheduler::DomainEntry { loaned_tcb: Some(src_ref), ..picked });
            }
        }
        r
    }
}

} // verus!

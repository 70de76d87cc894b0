//! Tasks: an isolated memory compartment with its region table and the
//! stack space from which thread stacks are carved.
use vstd::prelude::*;
use crate::regions::{permits, Region, RegionAttr, RegionAttrs, RegionTable};

verus! {

/// A half-open address range of stack space.
#[derive(Clone, Copy, Debug, PartialEq, Eq, Structural)]
pub struct StackRange {
    pub start: usize,
    pub end: usize,
}

impl StackRange {
    pub open spec fn size(self) -> int {
        if self.end >= self.start { self.end - self.start } else { 0 }
    }
}

#[derive(Clone, Copy, Debug, PartialEq, Eq, Structural)]
pub enum TaskState {
    Pending,
    Started,
}

/// Index of a task in the kernel's task table.
#[derive(Clone, Copy, Debug, PartialEq, Eq, Structural)]
pub struct TaskRef(pub usize);

/// Most free stack ranges a task keeps track of.
pub const STACK_RANGES_MAX: usize = 8;

pub struct Task {
    pub region_table: RegionTable,
    pub stack_size: usize,
    pub initial_stack: StackRange,
    pub available_stack: Vec<StackRange>,
    pub entrypoint: usize,
    pub secure: bool,
    pub state: TaskState,
}

/// Index of the first range with room for `size` bytes.
pub open spec fn first_fit(s: Seq<StackRange>, size: int) -> Option<int>
    decreases s.len(),
{
    if s.len() == 0 {
        None
    } else {
        match first_fit(s.drop_last(), size) {
            Some(i) => Some(i),
            None => if s.last().size() >= size { Some(s.len() - 1) } else { None },
        }
    }
}

/// The first fit is a range with room.
pub proof fn lemma_first_fit_some(s: Seq<StackRange>, size: int)
    ensures
        first_fit(s, size) matches Some(i) ==> 0 <= i < s.len() && s[i].size() >= size,
    decreases s.len(),
{
    if s.len() > 0 {
        lemma_first_fit_some(s.drop_last(), size);
    }
}

proof fn lemma_first_fit(s: Seq<StackRange>, size: int, i: int)
    requires
        0 <= i <= s.len(),
        forall|k: int| 0 <= k < i ==> (#[trigger] s[k]).size() < size,
    ensures
        i < s.len() && s[i].size() >= size ==> first_fit(s, size) == Some(i),
        i == s.len() ==> first_fit(s, size) is None,
    decreases s.len(),
{
    if s.len() > 0 {
        if i < s.len() {
            if i < s.len() - 1 {
                lemma_first_fit(s.drop_last(), size, i);
            } else {
                lemma_first_fit(s.drop_last(), size, i);
            }
        } else {
            lemma_first_fit(s.drop_last(), size, i - 1);
        }
    }
}

/// The regions of `s` that hold address `a`, in order.
pub open spec fn holding(s: Seq<Region>, a: int) -> Seq<Region>
    decreases s.len(),
{
    if s.len() == 0 {
        s
    } else {
        let rest = holding(s.drop_last(), a);
        if s.last().has(a) { rest.push(s.last()) } else { rest }
    }
}

/// Where a freed stack at `start` goes: onto the range it precedes, after
/// the range it follows, or as a new range.
pub open spec fn stack_returned(s: Seq<StackRange>, start: int, size: int) -> Seq<StackRange>
    decreases s.len(),
{
    returned_from(s, start, size, 0)
}

pub open spec fn returned_from(s: Seq<StackRange>, start: int, size: int, i: int) -> Seq<StackRange>
    decreases s.len() - i,
{
    if i >= s.len() || i < 0 {
        if s.len() < STACK_RANGES_MAX {
            s.push(StackRange { start: start as usize, end: (start + size) as usize })
        } else {
            s
        }
    } else if s[i].start == start + size {
        s.update(i, StackRange { start: start as usize, end: s[i].end })
    } else if s[i].end == start {
        s.update(i, StackRange { start: s[i].start, end: (start + size) as usize })
    } else {
        returned_from(s, start, size, i + 1)
    }
}

impl Task {
    pub open spec fn wf(&self) -> bool {
        self.region_table.wf() && self.available_stack@.len() <= STACK_RANGES_MAX
    }

    pub fn new(region_table: RegionTable, stack_size: usize, initial_stack: StackRange, entrypoint: usize, secure: bool) -> (t: Task)
        ensures
            t.region_table == region_table,
            t.stack_size == stack_size,
            t.initial_stack == initial_stack,
            t.available_stack@ == seq![initial_stack],
            t.entrypoint == entrypoint,
            t.secure == secure,
            t.state == TaskState::Pending,
    {
        Task {
            region_table,
            stack_size,
            initial_stack,
            available_stack: vec![initial_stack],
            entrypoint,
            secure,
            state: TaskState::Pending,
        }
    }

    /// The regions that hold the start of the first free stack range: the
    /// memory to wipe before a pending task runs again.
    pub fn regions_holding_stack(&self) -> (r: Vec<Region>)
        ensures
            self.available_stack@.len() == 0 ==> r@.len() == 0,
            self.available_stack@.len() > 0 ==> r@ == holding(self.region_table@, self.available_stack@[0].start as int),
    {
        let mut out: Vec<Region> = Vec::new();
        if self.available_stack.len() == 0 {
            return out;
        }
        let s = self.available_stack[0].start;
        let regions = self.region_table.regions();
        let mut i: usize = 0;
        while i < regions.len()
            invariant
                regions@ == self.region_table@,
                self.available_stack@.len() > 0,
                s == self.available_stack@[0].start,
                i <= regions@.len(),
                out@ == holding(regions@.take(i as int), s as int),
            decreases regions@.len() - i,
        {
            let r = regions[i];
            proof {
                assert(regions@.take(i + 1).drop_last() =~= regions@.take(i as int));
            }
            if r.start <= s && s < r.end {
                out.push(r);
            }
            i = i + 1;
        }
        proof {
            assert(regions@.take(regions@.len() as int) =~= regions@);
        }
        out
    }

    /// Returns all stack space to the allocator.
    pub fn reset_stack_ptr(&mut self)
        ensures
            final(self).available_stack@ == seq![old(self).initial_stack],
            final(self).region_table == old(self).region_table,
            final(self).stack_size == old(self).stack_size,
            final(self).initial_stack == old(self).initial_stack,
            final(self).entrypoint == old(self).entrypoint,
            final(self).state == old(self).state,
    {
        self.available_stack = vec![self.initial_stack];
    }

    /// Whether `addr .. addr + len` lies in one readable region.
    pub fn validate_ptr(&self, addr: usize, len: usize) -> (r: bool)
        ensures
            r == (addr + len <= usize::MAX && permits(self.region_table@, addr as int, len as int, RegionAttrs::read_only())),
    {
        self.region_table.permits(addr, len, RegionAttrs::of(RegionAttr::Read))
    }

    /// Whether `addr .. addr + len` lies in one writable region.
    pub fn validate_mut_ptr(&self, addr: usize, len: usize) -> (r: bool)
        ensures
            r == (addr + len <= usize::MAX && permits(self.region_table@, addr as int, len as int, RegionAttrs::write_only())),
    {
        self.region_table.permits(addr, len, RegionAttrs::of(RegionAttr::Write))
    }

    /// Takes `stack_size` bytes from the front of the first range with room,
    /// returning the new start of that range (the top of the new stack).
    pub fn alloc_stack(&mut self) -> (r: Option<usize>)
        ensures
            match first_fit(old(self).available_stack@, old(self).stack_size as int) {
                None => r is None && final(self).available_stack@ == old(self).available_stack@,
                Some(i) => {
                    let old_r = old(self).available_stack@[i];
                    let new_r = StackRange { start: (old_r.start + old(self).stack_size) as usize, end: old_r.end };
                    &&& r == Some(new_r.start)
                    &&& final(self).available_stack@ == old(self).available_stack@.update(i, new_r)
                },
            },
            final(self).available_stack@.len() == old(self).available_stack@.len(),
            final(self).region_table == old(self).region_table,
            final(self).stack_size == old(self).stack_size,
            final(self).initial_stack == old(self).initial_stack,
            final(self).entrypoint == old(self).entrypoint,
            final(self).state == old(self).state,
    {
        let size = self.stack_size;
        let mut i: usize = 0;
        while i < self.available_stack.len()
            invariant
                size == self.stack_size,
                self.available_stack@ == old(self).available_stack@,
                self.stack_size == old(self).stack_size,
                self.region_table == old(self).region_table,
                self.initial_stack == old(self).initial_stack,
                self.entrypoint == old(self).entrypoint,
                self.state == old(self).state,
                i <= self.available_stack@.len(),
                forall|k: int| 0 <= k < i ==> (#[trigger] self.available_stack@[k]).size() < size,
            decreases self.available_stack@.len() - i,
        {
            let r = self.available_stack[i];
            let avail = if r.end >= r.start { r.end - r.start } else { 0 };
            if avail >= size {
                proof {
                    lemma_first_fit(self.available_stack@, size as int, i as int);
                }
                let n = StackRange { start: r.start + size, end: r.end };
                self.available_stack.set(i, n);
                return Some(n.start);
            }
            i = i + 1;
        }
        proof {
            lemma_first_fit(self.available_stack@, size as int, i as int);
        }
        None
    }

    /// Gives back the stack that starts at `stack_start`.
    pub fn make_stack_available(&mut self, stack_start: usize)
        requires
            stack_start + old(self).stack_size <= usize::MAX,
        ensures
            final(self).available_stack@ == stack_returned(old(self).available_stack@, stack_start as int, old(self).stack_size as int),
            final(self).region_table == old(self).region_table,
            final(self).stack_size == old(self).stack_size,
            final(self).initial_stack == old(self).initial_stack,
            final(self).entrypoint == old(self).entrypoint,
            final(self).state == old(self).state,
    {
        let size = self.stack_size;
        let ghost s0 = self.available_stack@;
        let mut i: usize = 0;
        while i < self.available_stack.len()
            invariant
                size == self.stack_size,
                self.available_stack@ == s0,
                s0 == old(self).available_stack@,
                self.stack_size == old(self).stack_size,
                self.region_table == old(self).region_table,
                self.initial_stack == old(self).initial_stack,
                self.entrypoint == old(self).entrypoint,
                self.state == old(self).state,
                stack_start + size <= usize::MAX,
                i <= s0.len(),
                returned_from(s0, stack_start as int, size as int, 0) == returned_from(s0, stack_start as int, size as int, i as int),
            decreases s0.len() - i,
        {
            let r = self.available_stack[i];
            if r.start == stack_start + size {
                self.available_stack.set(i, StackRange { start: stack_start, end: r.end });
                return;
            }
            if r.end == stack_start {
                self.available_stack.set(i, StackRange { start: r.start, end: stack_start + size });
                return;
            }
            i = i + 1;
        }
        if self.available_stack.len() < STACK_RANGES_MAX {
            self.available_stack.push(StackRange { start: stack_start, end: stack_start + size });
        }
    }
}

} // verus!

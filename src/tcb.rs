//! Thread control blocks: saved state, scheduling parameters, the
//! capability list and the FIFO of inbound messages, with receive by mask.
use vstd::prelude::*;
use crate::abi::{self, CapRef, Cap, Endpoint, RecvResp, RecvRespInner, SyscallArgs, SyscallReturn, SyscallReturnType};
use crate::caps::{CapList, CAP_REF_MAX};
use crate::regions::{permits, RegionAttrs};
use crate::task::{Task, TaskRef};
use crate::KernelError;

verus! {

/// Bytes of a response header in user memory.
pub const RECV_RESP_SIZE: usize = 32;

/// Mask bit the kernel sets on reply addresses.
pub const REPLY_BIT: usize = 0x8000_0000;

/// Bytes of the exception frame the hardware pops when a thread resumes.
pub const FRAME_SIZE: usize = 104;

/// Program status word a thread starts with (Thumb state).
pub const INITIAL_PSR: u32 = 0x0100_0000;

/// Exception-return code that resumes a thread on its process stack.
pub const EXC_RETURN: u32 = 0xFFFF_FFED;

/// The registers the hardware stacks on exception entry.
#[derive(Clone, Copy, Debug, Default, PartialEq, Eq)]
pub struct ExceptionFrame {
    pub r0: u32,
    pub r1: u32,
    pub r2: u32,
    pub r3: u32,
    pub r12: u32,
    pub lr: u32,
    pub pc: u32,
    pub xpsr: u32,
    pub fpu_regs: [u32; 16],
    pub fpscr: u32,
    pub reserved: u32,
}

impl ExceptionFrame {
    /// The frame a new thread starts from: execution at `entrypoint` in
    /// Thumb state, an invalid return address, everything else zero.
    pub open spec fn is_initial(self, entrypoint: usize) -> bool {
        &&& self.r0 == 0 && self.r1 == 0 && self.r2 == 0 && self.r3 == 0 && self.r12 == 0
        &&& self.lr == 0xFFFF_FFFF
        &&& self.pc == (entrypoint as u32) | 1u32
        &&& self.xpsr == INITIAL_PSR
        &&& self.fpu_regs@ == Seq::new(16, |i: int| 0u32)
        &&& self.fpscr == 0 && self.reserved == 0
    }

    pub fn initial(entrypoint: usize) -> (r: ExceptionFrame)
        ensures
            r.is_initial(entrypoint),
    {
        let fpu_regs = [0u32; 16];
        assert(fpu_regs@ =~= Seq::new(16, |i: int| 0u32));
        ExceptionFrame {
            r0: 0, r1: 0, r2: 0, r3: 0, r12: 0,
            lr: 0xFFFF_FFFF,
            pc: (entrypoint as u32) | 1u32,
            xpsr: INITIAL_PSR,
            fpu_regs,
            fpscr: 0,
            reserved: 0,
        }
    }
}

/// An exception frame to place on a new thread's stack at `addr`.
#[derive(Clone, Copy, Debug, PartialEq, Eq)]
pub struct BootFrame {
    pub addr: usize,
    pub frame: ExceptionFrame,
}

/// The registers saved for a thread: the syscall argument words (the first
/// two carry a syscall's return value back), the process stack pointer and
/// the exception-return code it resumes with.
#[derive(Clone, Copy, Debug, Default, PartialEq, Eq)]
pub struct SavedThreadState {
    pub args: SyscallArgs,
    pub psp: usize,
    pub exc_return: u32,
}

impl SavedThreadState {
    pub open spec fn new_spec() -> SavedThreadState {
        SavedThreadState { args: SyscallArgs { arg1: 0, arg2: 0, arg3: 0, arg4: 0, arg5: 0, arg6: 0 }, psp: 0, exc_return: 0 }
    }

    pub open spec fn with_return(self, ret: SyscallReturn) -> SavedThreadState {
        SavedThreadState {
            args: SyscallArgs {
                arg1: (ret.0 as u32) as usize,
                arg2: ((ret.0 >> 32u64) as u32) as usize,
                ..self.args
            },
            ..self
        }
    }

    pub fn new() -> (r: SavedThreadState)
        ensures
            r.args == (SyscallArgs { arg1: 0, arg2: 0, arg3: 0, arg4: 0, arg5: 0, arg6: 0 }),
            r.psp == 0,
            r.exc_return == 0,
    {
        SavedThreadState { args: SyscallArgs { arg1: 0, arg2: 0, arg3: 0, arg4: 0, arg5: 0, arg6: 0 }, psp: 0, exc_return: 0 }
    }

    /// The saved argument words.
    pub fn syscall_args(&self) -> (r: SyscallArgs)
        ensures
            r == self.args,
    {
        self.args
    }

    /// Writes a return word: its low half into the first argument register
    /// and its high half into the second.
    pub fn set_syscall_return(&mut self, ret: SyscallReturn)
        ensures
            *final(self) == old(self).with_return(ret),
    {
        let (hi, lo) = ret.split();
        self.args.arg1 = lo as usize;
        self.args.arg2 = hi as usize;
    }
}

/// Where a receiver wants the body.
#[derive(Clone, Copy, Debug, PartialEq, Eq, Structural)]
pub enum RecvOut {
    Page,
    Buf { addr: usize, len: usize },
}

/// A pending receive: the mask to match, where the response header goes and
/// where the body goes.
#[derive(Clone, Copy, Debug, PartialEq, Eq, Structural)]
pub struct RecvReq {
    pub mask: usize,
    pub resp_addr: usize,
    pub out: RecvOut,
}

#[derive(Clone, Copy, Debug, PartialEq, Eq, Structural)]
pub enum ThreadState {
    Waiting(RecvReq),
    Ready,
    Running,
}

/// A message body: owned bytes, or a range of memory loaned by the sender.
#[derive(Debug)]
pub enum IpcBody {
    Buf(Vec<u8>),
    Page { addr: usize, len: usize },
}

/// A queued message.
#[derive(Debug)]
pub struct IpcMsg {
    pub addr: usize,
    pub reply_endpoint: Option<Endpoint>,
    pub body: IpcBody,
}

/// What a completed receive leaves for the trap layer to write into the
/// receiver's memory: the response header, and for a copy the body.
#[derive(Debug)]
pub struct Delivery {
    pub resp_addr: usize,
    pub resp: RecvResp,
    pub out_addr: usize,
    pub body: Vec<u8>,
}

#[derive(Clone, Copy, Debug, PartialEq, Eq, Structural)]
pub enum RecvRes {
    /// A message was taken; the return word written for the receiver.
    Delivered(SyscallReturn),
    NotFound,
}

pub open spec fn msg_matches(addr: usize, mask: usize) -> bool {
    addr & mask == mask
}

/// Index of the earliest queued message whose address matches `mask`.
pub open spec fn first_match(q: Seq<IpcMsg>, mask: usize) -> Option<int>
    decreases q.len(),
{
    if q.len() == 0 {
        None
    } else {
        match first_match(q.drop_last(), mask) {
            Some(i) => Some(i),
            None => if msg_matches(q.last().addr, mask) { Some(q.len() - 1) } else { None },
        }
    }
}

proof fn lemma_first_match(q: Seq<IpcMsg>, mask: usize, i: int)
    requires
        0 <= i <= q.len(),
        forall|k: int| 0 <= k < i ==> !msg_matches((#[trigger] q[k]).addr, mask),
    ensures
        i < q.len() && msg_matches(q[i].addr, mask) ==> first_match(q, mask) == Some(i),
        i == q.len() ==> first_match(q, mask) is None,
    decreases q.len(),
{
    if q.len() > 0 {
        if i < q.len() {
            lemma_first_match(q.drop_last(), mask, i);
        } else {
            lemma_first_match(q.drop_last(), mask, i - 1);
        }
    }
}

/// Facts about the earliest match: it matches and nothing before it does.
pub proof fn lemma_first_match_is_earliest(q: Seq<IpcMsg>, mask: usize)
    ensures
        match first_match(q, mask) {
            Some(i) => 0 <= i < q.len() && msg_matches(q[i].addr, mask) && forall|k: int| 0 <= k < i ==> !msg_matches((#[trigger] q[k]).addr, mask),
            None => forall|k: int| 0 <= k < q.len() ==> !msg_matches((#[trigger] q[k]).addr, mask),
        },
    decreases q.len(),
{
    if q.len() > 0 {
        lemma_first_match_is_earliest(q.drop_last(), mask);
        assert forall|k: int| 0 <= k < q.len() - 1 implies q.drop_last()[k] == #[trigger] q[k] by {}
    }
}

/// Delivery keeps arrival order: when messages `i` and `j` (sent in that
/// order) both match a receive's mask, the receive takes one that arrived
/// no later than `i`, never `j`, and whatever it takes, `i` still comes
/// before `j` in the queue that is left.
pub proof fn lemma_fifo_delivery(q: Seq<IpcMsg>, mask: usize, i: int, j: int)
    requires
        0 <= i < j < q.len(),
        msg_matches(q[i].addr, mask),
        msg_matches(q[j].addr, mask),
    ensures
        first_match(q, mask) matches Some(k) && k <= i && k != j && (k < i ==> q.remove(k)[i - 1] == q[i]
            && q.remove(k)[j - 1] == q[j]),
{
    lemma_first_match_is_earliest(q, mask);
}

/// Two messages sent one after the other to a receiver with nothing else
/// matching are received in the order they were sent: the first receive
/// takes the first message, and the next receive takes the second.
pub proof fn lemma_two_sends_in_order(q: Seq<IpcMsg>, m1: IpcMsg, m2: IpcMsg, mask: usize)
    requires
        first_match(q, mask) is None,
        msg_matches(m1.addr, mask),
        msg_matches(m2.addr, mask),
    ensures
        first_match(q.push(m1).push(m2), mask) == Some(q.len() as int),
        q.push(m1).push(m2)[q.len() as int] == m1,
        first_match(q.push(m1).push(m2).remove(q.len() as int), mask) == Some(q.len() as int),
        q.push(m1).push(m2).remove(q.len() as int)[q.len() as int] == m2,
{
    let q2 = q.push(m1).push(m2);
    assert(q2.drop_last() =~= q.push(m1));
    assert(q.push(m1).drop_last() =~= q);
    assert(first_match(q.push(m1), mask) == Some(q.len() as int));
    assert(first_match(q2, mask) == Some(q.len() as int));
    let r = q2.remove(q.len() as int);
    assert(r =~= q.push(m2));
    assert(q.push(m2).drop_last() =~= q);
    assert(first_match(q.push(m2), mask) == Some(q.len() as int));
}

/// A caller blocked in a call waits on the reply mask `addr | REPLY_BIT`:
/// the reply sent on its reply endpoint (whose address is that mask)
/// matches it, and no message whose address lacks the reply bit does, so
/// only the reply can resume the caller.
pub proof fn lemma_only_reply_resumes_caller(addr: usize, other: usize)
    ensures
        msg_matches(addr | REPLY_BIT, addr | REPLY_BIT),
        other & REPLY_BIT == 0 ==> !msg_matches(other, addr | REPLY_BIT),
{
    assert((addr | 0x8000_0000usize) & (addr | 0x8000_0000usize) == (addr | 0x8000_0000usize)) by (bit_vector);
    assert(other & 0x8000_0000usize == 0 ==> other & (addr | 0x8000_0000usize) != (addr | 0x8000_0000usize)) by (bit_vector);
}

/// A later send never overtakes: appending a message to a queue that
/// already holds a match for `mask` does not change what a receive with
/// that mask takes.
pub proof fn lemma_append_keeps_first_match(q: Seq<IpcMsg>, m: IpcMsg, mask: usize)
    requires
        first_match(q, mask) is Some,
    ensures
        first_match(q.push(m), mask) == first_match(q, mask),
{
    assert(q.push(m).drop_last() =~= q);
}

/// Messages of `q` carry a reply endpoint only if it is disposable.
pub open spec fn replies_disposable(q: Seq<IpcMsg>) -> bool {
    forall|k: int| 0 <= k < q.len() ==> ((#[trigger] q[k]).reply_endpoint matches Some(e) ==> e.disposable)
}

/// A reply endpoint carried by a queued message is disposable, so the reply
/// capability a receive installs from it serves a single use.
pub proof fn lemma_queued_reply_disposable(t: Tcb, k: int)
    requires
        t.wf(),
        0 <= k < t.req_queue@.len(),
    ensures
        t.req_queue@[k].reply_endpoint matches Some(e) ==> e.disposable,
{
}

/// What a receive with `req` does to thread `b` whose queue is `q`, leaving
/// `a` and returning `r`: the earliest matching message leaves the queue and
/// is delivered, or fails with an error written as the return word.
pub open spec fn received(b: Tcb, q: Seq<IpcMsg>, a: Tcb, task: Task, req: RecvReq, r: RecvRes) -> bool {
    &&& a.task == b.task
    &&& a.priority == b.priority
    &&& a.budget == b.budget
    &&& a.cooldown == b.cooldown
    &&& a.rem_time == b.rem_time
    &&& a.entrypoint == b.entrypoint
    &&& a.stack_pointer == b.stack_pointer
    &&& a.lent == b.lent
    &&& a.capabilities.next_ref_spec() >= b.capabilities.next_ref_spec()
    &&& match first_match(q, req.mask) {
        None => r == RecvRes::NotFound && a.req_queue@ == q
            && a.capabilities == b.capabilities
            && a.saved_state == b.saved_state
            && a.delivered == b.delivered,
        Some(i) => {
            let m = &q[i];
            &&& r matches RecvRes::Delivered(ret) && a.saved_state == b.saved_state.with_return(ret)
            &&& a.req_queue@ == q.remove(i)
            &&& match delivery_error(&task, req, m, &b.capabilities) {
                Some(e) => a.saved_state == b.saved_state.with_return(SyscallReturn::from_error_spec(e))
                    && a.capabilities == b.capabilities
                    && a.delivered == b.delivered,
                None => {
                    let cap = match m.reply_endpoint {
                        Some(_) => Some(CapRef(b.capabilities.next_ref_spec())),
                        None => None,
                    };
                    &&& a.saved_state == b.saved_state.with_return(SyscallReturn::of_type_spec(delivered_type(m)))
                    &&& match m.reply_endpoint {
                        Some(e) => a.capabilities@ == b.capabilities@.push(abi::CapListEntry { cap_ref: CapRef(b.capabilities.next_ref_spec()), desc: Cap::Endpoint(e) }),
                        None => a.capabilities == b.capabilities,
                    }
                    &&& a.delivered matches Some(d) && d.resp == delivered_resp(m, cap) && d.resp_addr == req.resp_addr
                        && match m.body {
                            IpcBody::Buf(bytes) => d.body@ == bytes@ && (req.out matches RecvOut::Buf { addr, len } && d.out_addr == addr),
                            IpcBody::Page { .. } => d.body@.len() == 0,
                        }
                },
            }
        },
    }
}

/// A writable range of the task.
pub open spec fn writable(task: &Task, addr: usize, len: usize) -> bool {
    addr + len <= usize::MAX && permits(task.region_table@, addr as int, len as int, RegionAttrs::write_only())
}

/// The error with which delivering `m` for `req` fails, if it does.
pub open spec fn delivery_error(task: &Task, req: RecvReq, m: &IpcMsg, caps: &CapList) -> Option<abi::Error> {
    let body_err = match m.body {
        IpcBody::Buf(b) => match req.out {
            RecvOut::Page => Some(abi::Error::ReturnTypeMismatch),
            RecvOut::Buf { addr, len } => {
                if !writable(task, addr, len) {
                    Some(abi::Error::BadAccess)
                } else if len != b@.len() {
                    Some(abi::Error::ReturnTypeMismatch)
                } else {
                    None
                }
            },
        },
        IpcBody::Page { .. } => None,
    };
    if body_err is Some {
        body_err
    } else if !writable(task, req.resp_addr, RECV_RESP_SIZE) {
        Some(abi::Error::BadAccess)
    } else if m.reply_endpoint is Some && caps.next_ref_spec() >= CAP_REF_MAX {
        Some(abi::Error::BufferOverflow)
    } else {
        None
    }
}

/// The response header for a delivered message.
pub open spec fn delivered_resp(m: &IpcMsg, cap: Option<CapRef>) -> RecvResp {
    RecvResp {
        cap,
        inner: match m.body {
            IpcBody::Buf(b) => RecvRespInner::Copy(b@.len() as usize),
            IpcBody::Page { addr, len } => RecvRespInner::Page { addr, len },
        },
    }
}

pub open spec fn delivered_type(m: &IpcMsg) -> SyscallReturnType {
    match m.body {
        IpcBody::Buf(_) => SyscallReturnType::Copy,
        IpcBody::Page { .. } => SyscallReturnType::Page,
    }
}

/// The capability list a `Caps` syscall leaves for the trap layer to write
/// at `out_addr`.
#[derive(Debug)]
pub struct CapListing {
    pub out_addr: usize,
    pub entries: Vec<abi::CapListEntry>,
}

pub struct Tcb {
    pub saved_state: SavedThreadState,
    pub task: TaskRef,
    pub req_queue: Vec<IpcMsg>,
    pub state: ThreadState,
    pub priority: usize,
    pub budget: usize,
    pub cooldown: usize,
    pub capabilities: CapList,
    pub stack_pointer: usize,
    pub entrypoint: usize,
    pub epoch: usize,
    pub rem_time: usize,
    pub delivered: Option<Delivery>,
    pub listing: Option<CapListing>,
    pub boot_frame: Option<BootFrame>,
    /// The page this thread loaned out with its pending call.
    pub lent: Option<crate::regions::Region>,
}

impl Tcb {
    pub open spec fn wf(&self) -> bool {
        self.capabilities.wf() && replies_disposable(self.req_queue@)
    }

    /// A ready thread with an empty queue and a full first quantum.
    pub fn new(
        task: TaskRef,
        stack_pointer: usize,
        priority: usize,
        budget: usize,
        cooldown: usize,
        entrypoint: usize,
        epoch: usize,
        caps: CapList,
    ) -> (t: Tcb)
        requires
            caps.wf(),
        ensures
            t.wf(),
            t.task == task,
            t.stack_pointer == stack_pointer,
            t.priority == priority,
            t.budget == budget,
            t.cooldown == cooldown,
            t.entrypoint == entrypoint,
            t.epoch == epoch,
            t.capabilities == caps,
            t.req_queue@ == Seq::<IpcMsg>::empty(),
            t.state == ThreadState::Ready,
            t.rem_time == budget,
            t.delivered is None,
            t.listing is None,
            t.boot_frame is None,
            t.lent is None,
            t.saved_state == SavedThreadState::new_spec(),
    {
        Tcb {
            saved_state: SavedThreadState::new(),
            task,
            req_queue: Vec::new(),
            state: ThreadState::Ready,
            priority,
            budget,
            cooldown,
            capabilities: caps,
            stack_pointer,
            entrypoint,
            epoch,
            rem_time: budget,
            delivered: None,
            listing: None,
            boot_frame: None,
            lent: None,
        }
    }

    /// Adds a capability, returning its ref.
    pub fn add_cap(&mut self, cap: Cap) -> (r: Option<CapRef>)
        requires
            old(self).wf(),
        ensures
            final(self).wf(),
            old(self).capabilities.next_ref_spec() >= CAP_REF_MAX ==> r is None && final(self).capabilities@ == old(self).capabilities@,
            old(self).capabilities.next_ref_spec() < CAP_REF_MAX ==> r == Some(CapRef(old(self).capabilities.next_ref_spec()))
                && final(self).capabilities@ == old(self).capabilities@.push(abi::CapListEntry { cap_ref: CapRef(old(self).capabilities.next_ref_spec()), desc: cap }),
            final(self).task == old(self).task,
            final(self).priority == old(self).priority,
            final(self).req_queue@ == old(self).req_queue@,
            final(self).state == old(self).state,
    {
        self.capabilities.add(cap)
    }

    /// Whether a queued message matches `mask`.
    pub fn has_match(&self, mask: usize) -> (r: bool)
        ensures
            r == (first_match(self.req_queue@, mask) is Some),
    {
        let mut i: usize = 0;
        while i < self.req_queue.len()
            invariant
                i <= self.req_queue@.len(),
                forall|k: int| 0 <= k < i ==> !msg_matches((#[trigger] self.req_queue@[k]).addr, mask),
            decreases self.req_queue@.len() - i,
        {
            if self.req_queue[i].addr & mask == mask {
                proof { lemma_first_match(self.req_queue@, mask, i as int); }
                return true;
            }
            i = i + 1;
        }
        proof { lemma_first_match(self.req_queue@, mask, i as int); }
        false
    }

    /// Delivers the earliest queued message whose address matches
    /// `req.mask`. The message leaves the queue whether or not delivery
    /// succeeds; a failed delivery writes the error into the saved return
    /// registers. A reply endpoint carried by the message becomes a new
    /// capability of this thread, named in the response header.
    pub fn recv(&mut self, task: &Task, req: RecvReq) -> (r: RecvRes)
        requires
            old(self).wf(),
            task.wf(),
        ensures
            final(self).wf(),
            final(self).task == old(self).task,
            final(self).priority == old(self).priority,
            final(self).budget == old(self).budget,
            final(self).cooldown == old(self).cooldown,
            final(self).state == old(self).state,
            final(self).rem_time == old(self).rem_time,
            received(*old(self), old(self).req_queue@, *final(self), *task, req, r),
    {
        let mask = req.mask;
        let mut i: usize = 0;
        let mut found = false;
        while i < self.req_queue.len() && !found
            invariant
                self.req_queue@ == old(self).req_queue@,
                i <= self.req_queue@.len(),
                found ==> i < self.req_queue@.len() && msg_matches(self.req_queue@[i as int].addr, mask),
                forall|k: int| 0 <= k < i ==> !msg_matches((#[trigger] self.req_queue@[k]).addr, mask),
            decreases self.req_queue@.len() - i + (if found { 0int } else { 1int }),
        {
            if self.req_queue[i].addr & mask == mask {
                found = true;
            } else {
                i = i + 1;
            }
        }
        proof {
            lemma_first_match(self.req_queue@, mask, i as int);
        }
        if !found {
            return RecvRes::NotFound;
        }
        let msg = self.req_queue.remove(i);
        proof {
            let q0 = old(self).req_queue@;
            assert forall|k: int| 0 <= k < self.req_queue@.len() implies ((#[trigger] self.req_queue@[k]).reply_endpoint matches Some(e) ==> e.disposable) by {
                if k < i { assert(self.req_queue@[k] == q0[k]); } else { assert(self.req_queue@[k] == q0[k + 1]); }
            }
        }
        match self.deliver(task, req, msg) {
            Ok(ret) => RecvRes::Delivered(ret),
            Err(e) => {
                let ret = SyscallReturn::from_error(e);
                self.saved_state.set_syscall_return(ret);
                RecvRes::Delivered(ret)
            },
        }
    }

    fn deliver(&mut self, task: &Task, req: RecvReq, msg: IpcMsg) -> (r: Result<SyscallReturn, abi::Error>)
        requires
            old(self).wf(),
            task.wf(),
        ensures
            final(self).wf(),
            final(self).task == old(self).task,
            final(self).priority == old(self).priority,
            final(self).budget == old(self).budget,
            final(self).cooldown == old(self).cooldown,
            final(self).state == old(self).state,
            final(self).rem_time == old(self).rem_time,
            final(self).entrypoint == old(self).entrypoint,
            final(self).stack_pointer == old(self).stack_pointer,
            final(self).lent == old(self).lent,
            final(self).req_queue@ == old(self).req_queue@,
            final(self).capabilities.next_ref_spec() >= old(self).capabilities.next_ref_spec(),
            match delivery_error(task, req, &msg, &old(self).capabilities) {
                Some(e) => r == Err::<SyscallReturn, abi::Error>(e) && final(self).saved_state == old(self).saved_state
                    && final(self).capabilities == old(self).capabilities
                    && final(self).delivered == old(self).delivered,
                None => {
                    let cap = match msg.reply_endpoint {
                        Some(_) => Some(CapRef(old(self).capabilities.next_ref_spec())),
                        None => None,
                    };
                    &&& r == Ok::<SyscallReturn, abi::Error>(SyscallReturn::of_type_spec(delivered_type(&msg)))
                    &&& final(self).saved_state == old(self).saved_state.with_return(SyscallReturn::of_type_spec(delivered_type(&msg)))
                    &&& match msg.reply_endpoint {
                        Some(e) => final(self).capabilities@ == old(self).capabilities@.push(abi::CapListEntry { cap_ref: CapRef(old(self).capabilities.next_ref_spec()), desc: Cap::Endpoint(e) }),
                        None => final(self).capabilities == old(self).capabilities,
                    }
                    &&& final(self).delivered matches Some(d) && d.resp == delivered_resp(&msg, cap) && d.resp_addr == req.resp_addr
                        && match msg.body {
                            IpcBody::Buf(b) => d.body@ == b@ && (req.out matches RecvOut::Buf { addr, len } && d.out_addr == addr),
                            IpcBody::Page { .. } => d.body@.len() == 0,
                        }
                },
            },
    {
        let IpcMsg { addr: _, reply_endpoint, body } = msg;
        let (inner, out_addr, bytes, ty) = match body {
            IpcBody::Buf(b) => {
                let (out_addr, out_len) = match req.out {
                    RecvOut::Page => return Err(abi::Error::ReturnTypeMismatch),
                    RecvOut::Buf { addr, len } => (addr, len),
                };
                if !task.validate_mut_ptr(out_addr, out_len) {
                    return Err(abi::Error::BadAccess);
                }
                if out_len != b.len() {
                    return Err(abi::Error::ReturnTypeMismatch);
                }
                (RecvRespInner::Copy(b.len()), out_addr, b, SyscallReturnType::Copy)
            },
            IpcBody::Page { addr, len } => (RecvRespInner::Page { addr, len }, 0, Vec::new(), SyscallReturnType::Page),
        };
        if !task.validate_mut_ptr(req.resp_addr, RECV_RESP_SIZE) {
            return Err(abi::Error::BadAccess);
        }
        let cap = match reply_endpoint {
            Some(e) => {
                if self.capabilities.is_full() {
                    return Err(abi::Error::BufferOverflow);
                }
                self.capabilities.add(Cap::Endpoint(e))
            },
            None => None,
        };
        let ret = SyscallReturn::of_type(ty);
        self.saved_state.set_syscall_return(ret);
        self.delivered = Some(Delivery { resp_addr: req.resp_addr, resp: RecvResp { cap, inner }, out_addr, body: bytes });
        Ok(ret)
    }
}

} // verus!

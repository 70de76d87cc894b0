//! Syscall dispatch: decoding the index, validating user pointers against
//! the caller's regions and running each handler to a `CallReturn`.
use vstd::prelude::*;
use crate::abi::{self, Cap, CapRef, Endpoint, SyscallArgs, SyscallDataType, SyscallFn, SyscallReturn, SyscallReturnType, ThreadRef};
use crate::caps::CAP_REF_MAX;
use crate::kernel::Kernel;
use crate::regions::{permits, maps_to, Region, RegionAttrs};
use crate::scheduler::{live, DomainEntry, TCB_CAPACITY};
use crate::task::TaskRef;
use crate::tcb::{CapListing, IpcBody, RecvOut, RecvReq, RecvRes};
use crate::KernelError;

verus! {

/// Largest body of a copy message.
pub const COPY_LIMIT: usize = 1024;

/// Largest payload of a log record.
pub const LOG_LIMIT: usize = 255;

/// Largest panic message.
pub const PANIC_LIMIT: usize = 512;

/// Bytes of one capability-list entry in user memory.
pub const CAP_ENTRY_SIZE: usize = 32;

/// How the trap exit continues after a syscall.
#[derive(Clone, Copy, Debug, PartialEq, Eq)]
pub enum CallReturn {
    /// The caller is blocked; resume `next_thread` and leave the caller's
    /// return registers alone.
    Replace { next_thread: ThreadRef },
    /// Write `ret` to the caller, then resume `next_thread`.
    Switch { next_thread: ThreadRef, ret: SyscallReturn },
    /// Write `ret` to the caller and resume it.
    Return { ret: SyscallReturn },
}

pub open spec fn read_write() -> RegionAttrs {
    RegionAttrs { write: true, read: true, executable: false, device: false, dma: false }
}

/// One framed log record: the source id, the payload length, the payload.
pub open spec fn log_frame(id: u8, payload: Seq<u8>) -> Seq<u8> {
    seq![id, payload.len() as u8] + payload
}

/// Frames `payload` as a record from source `id` (0 is the kernel, a task
/// is its index plus one).
pub fn log_record(id: u8, payload: &Vec<u8>) -> (r: Vec<u8>)
    requires
        payload@.len() <= LOG_LIMIT,
    ensures
        r@ == log_frame(id, payload@),
{
    let mut r: Vec<u8> = Vec::new();
    r.push(id);
    r.push(payload.len() as u8);
    let mut i: usize = 0;
    while i < payload.len()
        invariant
            i <= payload@.len(),
            r@ == seq![id, payload@.len() as u8] + payload@.take(i as int),
        decreases payload@.len() - i,
    {
        r.push(payload[i]);
        assert(payload@.take(i as int).push(payload@[i as int]) =~= payload@.take(i + 1));
        assert(seq![id, payload@.len() as u8] + payload@.take(i + 1) =~= (seq![id, payload@.len() as u8] + payload@.take(i as int)).push(payload@[i as int]));
        i = i + 1;
    }
    assert(payload@.take(payload@.len() as int) =~= payload@);
    r
}

/// The outcome of `Kernel::exec_send`: kernel `b` becomes `a` and `r` is returned.
pub open spec fn sent(b: Kernel, a: Kernel, arg_type: SyscallDataType, buf_addr: usize, buf_len: usize, cap_ref: CapRef, input: Vec<u8>, r: Result<CallReturn, KernelError>) -> bool {
    &&& b.caller_task() is None ==> r is Err
    &&& b.caller_task() is Some ==> {
        let c = b.scheduler.current_thread.tcb_ref;
        let me = b.scheduler.tcbs@[c.0 as int].unwrap();
        let caps = me.capabilities@;
        let ret = SyscallReturn::of_type_spec(SyscallReturnType::Copy);
        match b.body_error(arg_type, buf_addr, buf_len) {
            Some(e) => r == Err::<CallReturn, KernelError>(KernelError::ABI(e)) && a == b,
            None => match crate::caps::use_endpoint(caps, cap_ref) {
                Err(e) => r == Err::<CallReturn, KernelError>(KernelError::ABI(e)),
                Ok((ep, _)) => {
                    let d = b.scheduler.tcbs@[ep.tcb_ref.0 as int].unwrap();
                    let wakes = d.state matches crate::tcb::ThreadState::Waiting(req) && crate::tcb::msg_matches(ep.addr, req.mask);
                    &&& !live(b.scheduler.tcbs@, ep.tcb_ref) ==> r is Err
                    &&& live(b.scheduler.tcbs@, ep.tcb_ref) && !(wakes && d.task.0 >= b.tasks@.len())
                        && b.page_fits(arg_type, buf_addr, buf_len) ==> r is Ok
                    &&& r is Ok ==> (r matches Ok(CallReturn::Switch { next_thread, ret: rt }) && rt == ret
                            && next_thread == a.scheduler.current_thread.tcb_ref && next_thread != c
                            && exists|e: crate::scheduler::DomainEntry| e.tcb_ref == next_thread && e.priority > me.priority
                                && forall|k: int| 0 <= k < a.scheduler.wait_queue@.len() - 1
                                    ==> (#[trigger] a.scheduler.wait_queue@[k]).priority <= e.priority
                            && a.scheduler.wait_queue@.last() == (crate::scheduler::DomainEntry {
                                tcb_ref: c, loaned_tcb: b.scheduler.current_thread.loaned_tcb, priority: me.priority as u8 }))
                        || (r matches Ok(CallReturn::Return { ret: rt }) && rt == ret
                            && a.scheduler.current_thread == b.scheduler.current_thread
                            && forall|k: int| 0 <= k < a.scheduler.wait_queue@.len()
                                ==> (#[trigger] a.scheduler.wait_queue@[k]).priority <= me.priority)
                    &&& r is Ok && !wakes ==> (a.scheduler.tcbs@[ep.tcb_ref.0 as int] matches Some(t)
                        && t.req_queue@.drop_last() == d.req_queue@ && t.req_queue@.last().addr == ep.addr
                        && t.req_queue@.last().reply_endpoint is None
                        && (arg_type == SyscallDataType::Copy ==> (t.req_queue@.last().body matches IpcBody::Buf(bytes) && bytes@ == input@)))
                    &&& r is Ok && wakes ==> (a.scheduler.tcbs@[ep.tcb_ref.0 as int] matches Some(t)
                        && t.state == crate::tcb::ThreadState::Ready)
                    &&& r is Ok && arg_type == SyscallDataType::Page && !ep.disposable && d.task.0 != b.caller_task().unwrap() ==> ({
                        let t = b.caller_task().unwrap();
                        forall|x: int, at: RegionAttrs| crate::regions::maps_to(a.tasks@[t].region_table@, x, at)
                            <==> (!(buf_addr <= x < buf_addr + buf_len) && crate::regions::maps_to(b.tasks@[t].region_table@, x, at))
                    })
                },
            },
        }
    }
}

/// The outcome of `Kernel::exec_call`: kernel `b` becomes `a` and `r` is returned.
pub open spec fn called(b: Kernel, a: Kernel, arg_type: SyscallDataType, in_addr: usize, in_len: usize, cap_ref: CapRef, resp_addr: usize, out_addr: usize, out_len: usize, input: Vec<u8>, r: Result<CallReturn, KernelError>) -> bool {
    &&& b.caller_task() is None ==> r is Err
    &&& b.caller_task() is Some ==> {
        let c = b.scheduler.current_thread.tcb_ref;
        let caps = b.scheduler.tcbs@[c.0 as int].unwrap().capabilities@;
        match b.body_error(arg_type, in_addr, in_len) {
            Some(e) => r == Err::<CallReturn, KernelError>(KernelError::ABI(e)) && a == b,
            None => match crate::caps::use_endpoint(caps, cap_ref) {
                Err(e) => r == Err::<CallReturn, KernelError>(KernelError::ABI(e)),
                Ok((ep, _)) => {
                    let d = b.scheduler.tcbs@[ep.tcb_ref.0 as int].unwrap();
                    let wakes = d.state matches crate::tcb::ThreadState::Waiting(req) && crate::tcb::msg_matches(ep.addr, req.mask);
                    let reply = Endpoint { tcb_ref: c, addr: ep.addr | crate::tcb::REPLY_BIT, disposable: true };
                    &&& !live(b.scheduler.tcbs@, ep.tcb_ref) ==> r is Err
                    &&& live(b.scheduler.tcbs@, ep.tcb_ref) && ep.tcb_ref != c && !(wakes && d.task.0 >= b.tasks@.len())
                        && b.page_fits(arg_type, in_addr, in_len) && live(b.scheduler.tcbs@, ThreadRef(0)) ==> r is Ok
                    &&& live(b.scheduler.tcbs@, ep.tcb_ref) && ep.tcb_ref != c && !(wakes && d.task.0 >= b.tasks@.len())
                        && b.page_fits(arg_type, in_addr, in_len) && (wakes || !(d.state is Waiting))
                        ==> r == Ok::<CallReturn, KernelError>(CallReturn::Switch { next_thread: ep.tcb_ref, ret: SyscallReturn::new_spec() })
                    &&& r is Ok ==> (r matches Ok(CallReturn::Switch { next_thread, ret }) && ret == SyscallReturn::new_spec()
                        && next_thread == a.scheduler.current_thread.tcb_ref
                        && a.scheduler.current_thread.loaned_tcb == Some(c))
                    &&& r is Ok ==> (a.scheduler.tcbs@[c.0 as int] matches Some(t)
                        && (t.state matches crate::tcb::ThreadState::Waiting(req) && req.mask == ep.addr | crate::tcb::REPLY_BIT
                            && req.resp_addr == resp_addr && req.out == (RecvOut::Buf { addr: out_addr, len: out_len })))
                    &&& r is Ok && ep.tcb_ref != c && !wakes ==> (a.scheduler.tcbs@[ep.tcb_ref.0 as int] matches Some(t)
                        && t.req_queue@.drop_last() == d.req_queue@ && t.req_queue@.last().addr == ep.addr
                        && t.req_queue@.last().reply_endpoint == Some(reply)
                        && (arg_type == SyscallDataType::Copy ==> (t.req_queue@.last().body matches IpcBody::Buf(bytes) && bytes@ == input@)))
                    &&& r is Ok && arg_type == SyscallDataType::Page && d.task.0 != b.caller_task().unwrap() ==> ({
                        let t = b.caller_task().unwrap();
                        forall|x: int, at: RegionAttrs| crate::regions::maps_to(a.tasks@[t].region_table@, x, at)
                            <==> (!(in_addr <= x < in_addr + in_len) && crate::regions::maps_to(b.tasks@[t].region_table@, x, at))
                    })
                },
            },
        }
    }
}

/// The outcome of `Kernel::exec_recv`: kernel `b` becomes `a` and `r` is returned.
pub open spec fn received_call(b: Kernel, a: Kernel, arg_type: SyscallDataType, out_addr: usize, out_len: usize, mask: usize, resp_addr: usize, r: Result<CallReturn, KernelError>) -> bool {
    &&& b.caller_task() is None ==> r is Err
    &&& b.caller_task() is Some ==> {
        let c = b.scheduler.current_thread.tcb_ref.0 as int;
        let q = b.scheduler.tcbs@[c].unwrap().req_queue@;
        let me = b.scheduler.tcbs@[c].unwrap();
        let req = RecvReq { mask, resp_addr, out: match arg_type { SyscallDataType::Page => RecvOut::Page, _ => RecvOut::Buf { addr: out_addr, len: out_len } } };
        match crate::tcb::first_match(q, mask) {
            Some(i) => (r matches Ok(CallReturn::Return { ret })
                    && crate::tcb::received(me, q, a.scheduler.tcbs@[c].unwrap(), b.tasks@[me.task.0 as int], req, RecvRes::Delivered(ret)))
                && a.scheduler.current_thread == b.scheduler.current_thread
                && a.scheduler.wait_queue@ == b.scheduler.wait_queue@,
            None => {
                let cur = b.scheduler.current_thread;
                let tc1 = b.scheduler.tcbs@.update(c, Some(crate::tcb::Tcb { state: crate::tcb::ThreadState::Waiting(req), ..me }));
                let picked = crate::scheduler::pick_or_idle(b.scheduler.wait_queue@, 0, cur.tcb_ref, tc1);
                let sw = crate::scheduler::switch_result(tc1, cur, picked);
                &&& a.scheduler.wait_queue@ == crate::scheduler::pick(b.scheduler.wait_queue@, 0, cur.tcb_ref, tc1).1
                &&& a.scheduler.tcbs@ == sw.1
                &&& a.scheduler.current_thread == sw.2
                &&& a.scheduler.exhausted_threads@ == b.scheduler.exhausted_threads@
                &&& match sw.0 {
                    Ok(n) => r == Ok::<CallReturn, KernelError>(CallReturn::Replace { next_thread: n }),
                    Err(e) => r == Err::<CallReturn, KernelError>(e),
                }
                &&& (r matches Err(e) ==> e == KernelError::InvalidThreadRef && !live(b.scheduler.tcbs@, ThreadRef(0)))
                &&& (r matches Ok(x) ==> (x matches CallReturn::Replace { next_thread } && next_thread == a.scheduler.current_thread.tcb_ref
                    && (next_thread != cur.tcb_ref || cur.tcb_ref == ThreadRef(0))))
                &&& a.scheduler.tcbs@[c].unwrap().state == crate::tcb::ThreadState::Waiting(req)
                &&& a.tasks@ == b.tasks@
            },
        }
    }
}

/// The outcome of `Kernel::exec_log`: kernel `b` becomes `a` and `r` is returned.
pub open spec fn logged(b: Kernel, a: Kernel, in_addr: usize, in_len: usize, input: Vec<u8>, r: Result<CallReturn, KernelError>) -> bool {
    &&& a.scheduler == b.scheduler
    &&& b.caller_task() is None ==> r is Err && a.log@ == b.log@
    &&& b.caller_task() matches Some(t) ==> {
        if in_len > LOG_LIMIT || input@.len() > LOG_LIMIT {
            r == Err::<CallReturn, KernelError>(KernelError::ABI(abi::Error::BufferOverflow)) && a.log@ == b.log@
        } else if !b.caller_permits(in_addr, in_len, RegionAttrs::read_only()) {
            r == Err::<CallReturn, KernelError>(KernelError::ABI(abi::Error::BadAccess)) && a.log@ == b.log@
        } else {
            r == Ok::<CallReturn, KernelError>(CallReturn::Return { ret: SyscallReturn::new_spec() })
                && a.log@ == b.log@ + log_frame((t + 1) as u8, input@)
        }
    }
}

/// The outcome of `Kernel::exec_caps`: kernel `b` becomes `a` and `r` is returned.
pub open spec fn listed(b: Kernel, a: Kernel, out_addr: usize, out_len: usize, r: Result<CallReturn, KernelError>) -> bool {
    &&& b.caller_task() is None ==> r is Err
    &&& b.caller_task() is Some ==> {
        let c = b.scheduler.current_thread.tcb_ref.0 as int;
        let caps = b.scheduler.tcbs@[c].unwrap().capabilities@;
        if out_len > usize::MAX / CAP_ENTRY_SIZE || !b.caller_permits(out_addr, (out_len * CAP_ENTRY_SIZE) as usize, RegionAttrs::write_only()) {
            r == Err::<CallReturn, KernelError>(KernelError::ABI(abi::Error::BadAccess))
        } else {
            let n = if out_len < caps.len() { out_len as int } else { caps.len() as int };
            let n = if n > abi::SYSCALL_LEN_MAX { abi::SYSCALL_LEN_MAX as int } else { n };
            &&& r matches Ok(CallReturn::Return { ret }) && ret.ty() == SyscallReturnType::Copy && ret.len_field() == n
            &&& a.scheduler.tcbs@[c] matches Some(t) && t.listing matches Some(l) && l.out_addr == out_addr && l.entries@ == caps.take(n)
                && t.capabilities == b.scheduler.tcbs@[c].unwrap().capabilities
        }
    }
}

/// The outcome of `Kernel::exec_panik`: kernel `b` becomes `a` and `r` is returned.
pub open spec fn panicked(b: Kernel, a: Kernel, addr: usize, len: usize, input: Vec<u8>, r: Result<CallReturn, KernelError>) -> bool {
    &&& b.caller_task() is None ==> r is Err
    &&& b.caller_task() is Some ==> {
        if len > PANIC_LIMIT {
            r == Err::<CallReturn, KernelError>(KernelError::ABI(abi::Error::BufferOverflow))
        } else if !b.caller_permits(addr, len, RegionAttrs::read_only()) {
            r == Err::<CallReturn, KernelError>(KernelError::ABI(abi::Error::BadAccess))
        } else {
            let me = b.scheduler.tcbs@[b.scheduler.current_thread.tcb_ref.0 as int].unwrap();
            let task = b.tasks@[me.task.0 as int];
            let orig = crate::kernel::has_original(b.scheduler.tcbs@, me.task, task.entrypoint);
            &&& a.log@ == b.log@ + log_frame(0, input@.take(if input@.len() > LOG_LIMIT { LOG_LIMIT as int } else { input@.len() as int }))
            &&& r matches Ok(x) ==> (x matches CallReturn::Replace { next_thread } && next_thread == a.scheduler.current_thread.tcb_ref)
            &&& !orig ==> r == Err::<CallReturn, KernelError>(KernelError::InitTCBNotFound)
            &&& orig && crate::kernel::restart_fits(task) ==> r is Ok
                || (r == Err::<CallReturn, KernelError>(KernelError::InvalidThreadRef) && !live(a.scheduler.tcbs@, ThreadRef(0)))
            &&& r is Ok ==> exists|n: ThreadRef| #[trigger] crate::kernel::restarted(b.scheduler.tcbs@, a.scheduler.tcbs@, task, me.task, n)
                && (a.scheduler.current_thread.tcb_ref == n || a.scheduler.wait_queue@.contains(crate::scheduler::DomainEntry {
                    tcb_ref: n, loaned_tcb: None, priority: a.scheduler.tcbs@[n.0 as int].unwrap().priority as u8 }))
                && forall|j: int| 0 <= j < a.scheduler.wait_queue@.len() ==> live(a.scheduler.tcbs@, (#[trigger] a.scheduler.wait_queue@[j]).tcb_ref)
                    && (a.scheduler.tcbs@[a.scheduler.wait_queue@[j].tcb_ref.0 as int].unwrap().task == me.task ==> a.scheduler.wait_queue@[j].tcb_ref == n)
            &&& r is Ok ==> forall|i: int| 0 <= i < a.tasks@.len() && i != me.task.0 ==> a.tasks@[i] == b.tasks@[i]
            &&& r is Ok ==> a.tasks@.len() == b.tasks@.len() && a.tasks@[me.task.0 as int].region_table == task.region_table
                && a.tasks@[me.task.0 as int].state == crate::task::TaskState::Started
                && a.wipes@ == b.wipes@ + crate::task::holding(task.region_table@, task.initial_stack.start as int)
        }
    }
}

/// The outcome of `Kernel::exec_listen`: kernel `b` becomes `a` and `r` is returned.
pub open spec fn listened(b: Kernel, a: Kernel, cap_ref: CapRef, r: Result<CallReturn, KernelError>) -> bool {
    &&& a.scheduler == b.scheduler
    &&& b.caller_task() is Some ==> {
        let c = b.scheduler.current_thread.tcb_ref;
        let caps = b.scheduler.tcbs@[c.0 as int].unwrap().capabilities@;
        match crate::caps::lookup(caps, cap_ref) {
            Some(Cap::Listen(l)) => {
                let e = Endpoint { tcb_ref: c, addr: 0, disposable: false };
                if b.registry@.dom().contains(l.port) || b.registry@.dom().len() >= crate::registry::PORT_CAPACITY {
                    r == Err::<CallReturn, KernelError>(KernelError::ABI(abi::Error::BufferOverflow)) && a.registry@ == b.registry@
                } else {
                    r == Ok::<CallReturn, KernelError>(CallReturn::Return { ret: SyscallReturn::of_type_spec(SyscallReturnType::Copy) })
                        && a.registry@ == b.registry@.insert(l.port, e)
                }
            },
            _ => r == Err::<CallReturn, KernelError>(KernelError::ABI(abi::Error::InvalidCap)) && a.registry@ == b.registry@,
        }
    }
}

/// The outcome of `Kernel::exec_connect`: kernel `b` becomes `a` and `r` is returned.
pub open spec fn connected(b: Kernel, a: Kernel, cap_ref: CapRef, r: Result<CallReturn, KernelError>) -> bool {
    &&& b.caller_task() is Some ==> {
        let c = b.scheduler.current_thread.tcb_ref.0 as int;
        let tcb = b.scheduler.tcbs@[c].unwrap();
        match crate::caps::lookup(tcb.capabilities@, cap_ref) {
            Some(Cap::Connect(conn)) => {
                if !b.registry@.dom().contains(conn.port) {
                    r == Err::<CallReturn, KernelError>(KernelError::ABI(abi::Error::PortNotOpen))
                        && a.scheduler.tcbs@ == b.scheduler.tcbs@
                } else if tcb.capabilities.next_ref_spec() >= CAP_REF_MAX {
                    r == Err::<CallReturn, KernelError>(KernelError::ABI(abi::Error::BufferOverflow))
                        && a.scheduler.tcbs@[c].unwrap().capabilities@ == tcb.capabilities@
                } else {
                    let new_ref = tcb.capabilities.next_ref_spec();
                    &&& r matches Ok(CallReturn::Return { ret }) && ret.ty() == SyscallReturnType::Copy && ret.ptr_field() == new_ref as u64
                    &&& a.scheduler.tcbs@[c] matches Some(t) && t.capabilities@ == tcb.capabilities@.push(
                        abi::CapListEntry { cap_ref: CapRef(new_ref), desc: Cap::Endpoint(b.registry@[conn.port]) })
                }
            },
            _ => r == Err::<CallReturn, KernelError>(KernelError::ABI(abi::Error::InvalidCap))
                && a.scheduler.tcbs@ == b.scheduler.tcbs@,
        }
    }
    &&& a.registry@ == b.registry@
}

/// The outcome of `Kernel::syscall`: the handler that `index` names ran
/// on `args` and `input`, taking kernel `b` to `a` and returning `r`.
pub open spec fn dispatched(b: Kernel, a: Kernel, index: u32, args: SyscallArgs, input: Vec<u8>, r: Result<CallReturn, KernelError>) -> bool {
    match (SyscallFn::from_bits_spec(abi::index_fn_bits(index)), SyscallDataType::from_bits_spec(abi::index_arg_bits(index))) {
        (Some(f), Some(ty)) => match f {
            SyscallFn::Send => sent(b, a, ty, args.arg1, args.arg2, CapRef(args.arg3), input, r),
            SyscallFn::Call => called(b, a, ty, args.arg1, args.arg2, CapRef(args.arg3), args.arg4, args.arg5, args.arg6, input, r),
            SyscallFn::Recv => received_call(b, a, ty, args.arg1, args.arg2, args.arg3, args.arg4, r),
            SyscallFn::Log => logged(b, a, args.arg1, args.arg2, input, r),
            SyscallFn::Caps => listed(b, a, args.arg1, args.arg2, r),
            SyscallFn::Panik => panicked(b, a, args.arg1, args.arg2, input, r),
            SyscallFn::Connect => connected(b, a, CapRef(args.arg1), r),
            SyscallFn::Listen => listened(b, a, CapRef(args.arg1), r),
        },
        _ => r == Err::<CallReturn, KernelError>(KernelError::ABI(abi::Error::Unknown(abi::index_fn_bits(index) as u8))),
    }
}

impl Kernel {
    /// Why a message body of the given transport cannot be taken from the
    /// caller, if it cannot.
    pub open spec fn body_error(&self, arg_type: SyscallDataType, addr: usize, len: usize) -> Option<abi::Error> {
        match arg_type {
            SyscallDataType::Short => None,
            SyscallDataType::Copy => if len > COPY_LIMIT {
                Some(abi::Error::BufferOverflow)
            } else if !self.caller_permits(addr, len, RegionAttrs::read_only()) {
                Some(abi::Error::BadAccess)
            } else {
                None
            },
            SyscallDataType::Page => if !self.caller_permits(addr, len, read_write()) {
                Some(abi::Error::BadAccess)
            } else {
                None
            },
        }
    }

    /// A page loan of `addr .. addr + len` can be cut out of the caller's
    /// region table (always so for other transports).
    pub open spec fn page_fits(&self, arg_type: SyscallDataType, addr: usize, len: usize) -> bool {
        arg_type == SyscallDataType::Page && len > 0 && addr + len <= usize::MAX ==> (self.caller_task() matches Some(t)
            && crate::regions::cut_count(self.tasks@[t].region_table@, addr as int, addr + len) <= crate::regions::REGION_CAPACITY)
    }

    /// The running thread's task, when the running thread is live.
    pub open spec fn caller_task(&self) -> Option<int> {
        if live(self.scheduler.tcbs@, self.scheduler.current_thread.tcb_ref) {
            let t = self.scheduler.tcbs@[self.scheduler.current_thread.tcb_ref.0 as int].unwrap().task.0 as int;
            if t < self.tasks@.len() { Some(t) } else { None }
        } else {
            None
        }
    }

    /// The caller may access `addr .. addr + len` with attributes `need`.
    pub open spec fn caller_permits(&self, addr: usize, len: usize, need: RegionAttrs) -> bool {
        self.caller_task() matches Some(t) && addr + len <= usize::MAX
            && permits(self.tasks@[t].region_table@, addr as int, len as int, need)
    }

    /// Whether the caller may access `addr .. addr + len` with `need`.
    pub fn caller_may(&self, addr: usize, len: usize, need: RegionAttrs) -> (r: Result<bool, KernelError>)
        requires
            self.wf(),
        ensures
            self.caller_task() is Some ==> r == Ok::<bool, KernelError>(self.caller_permits(addr, len, need)),
            self.caller_task() is None ==> r is Err,
    {
        let t = self.current_task_ref()?;
        Ok(self.tasks[t.0].region_table.permits(addr, len, need))
    }

    /// The range of caller memory that the trap layer must copy in before
    /// the syscall runs: the body of a copy send or call, or a log or panic
    /// message, when it is within its size limit and readable by the caller.
    pub fn input_range(&self, index: u32, args: &SyscallArgs) -> (r: Option<(usize, usize)>)
        requires
            self.wf(),
        ensures
            r matches Some((a, l)) ==> a == args.arg1 && l == args.arg2 && l <= COPY_LIMIT
                && self.caller_permits(a, l, RegionAttrs::read_only()),
    {
        let (f, ty) = match abi::decode_index(index) {
            Some(d) => d,
            None => return None,
        };
        let limit = match f {
            SyscallFn::Send | SyscallFn::Call => match ty {
                SyscallDataType::Copy => COPY_LIMIT,
                _ => return None,
            },
            SyscallFn::Log => LOG_LIMIT,
            SyscallFn::Panik => PANIC_LIMIT,
            _ => return None,
        };
        if args.arg2 > limit {
            return None;
        }
        let ro = RegionAttrs::of(crate::regions::RegionAttr::Read);
        match self.caller_may(args.arg1, args.arg2, ro) {
            Ok(true) => Some((args.arg1, args.arg2)),
            _ => None,
        }
    }

    /// Checks a message body before anything is changed: a copy body must
    /// fit the limit and be readable, a loaned page readable and writable.
    fn check_body(&self, arg_type: SyscallDataType, addr: usize, len: usize) -> (r: Result<(), KernelError>)
        requires
            self.wf(),
        ensures
            self.caller_task() is None ==> r is Err,
            self.caller_task() is Some ==> match self.body_error(arg_type, addr, len) {
                Some(e) => r == Err::<(), KernelError>(KernelError::ABI(e)),
                None => r is Ok,
            },
    {
        match arg_type {
            SyscallDataType::Short => {
                self.current_task_ref()?;
                Ok(())
            },
            SyscallDataType::Copy => {
                self.current_task_ref()?;
                if len > COPY_LIMIT {
                    return Err(KernelError::ABI(abi::Error::BufferOverflow));
                }
                if !self.caller_may(addr, len, RegionAttrs::of(crate::regions::RegionAttr::Read))? {
                    return Err(KernelError::ABI(abi::Error::BadAccess));
                }
                Ok(())
            },
            SyscallDataType::Page => {
                let rw = RegionAttrs { write: true, read: true, executable: false, device: false, dma: false };
                if !self.caller_may(addr, len, rw)? {
                    return Err(KernelError::ABI(abi::Error::BadAccess));
                }
                Ok(())
            },
        }
    }

    /// Builds the body of a checked message. A loaned page is cut out of
    /// the caller's region table for as long as the loan lasts.
    fn take_body(&mut self, arg_type: SyscallDataType, addr: usize, len: usize, input: Vec<u8>) -> (r: Result<IpcBody, KernelError>)
        requires
            old(self).wf(),
        ensures
            final(self).wf(),
            final(self).scheduler == old(self).scheduler,
            final(self).tasks@.len() == old(self).tasks@.len(),
            arg_type == SyscallDataType::Copy ==> (r matches Ok(IpcBody::Buf(b)) && b@ == input@),
            arg_type == SyscallDataType::Short ==> r is Ok,
            arg_type == SyscallDataType::Page && old(self).caller_task() is Some && addr + len <= usize::MAX
                ==> (r is Ok <==> old(self).page_fits(arg_type, addr, len)),
            arg_type == SyscallDataType::Page && r is Ok ==> (r == Ok::<IpcBody, KernelError>(IpcBody::Page { addr, len })
                && (old(self).caller_task() matches Some(t) && forall|a: int, at: RegionAttrs|
                    maps_to(final(self).tasks@[t].region_table@, a, at) <==> (!(addr <= a < addr + len) && maps_to(old(self).tasks@[t].region_table@, a, at)))),
    {
        match arg_type {
            SyscallDataType::Page => {
                let t = self.current_task_ref()?;
                let mut task = self.tasks.remove(t.0);
                assert(task == old(self).tasks@[t.0 as int]);
                let end = if len <= usize::MAX - addr { addr + len } else { usize::MAX };
                let res = task.region_table.carve(addr, end);
                self.tasks.insert(t.0, task);
                proof {
                    assert forall|i: int| 0 <= i < self.tasks@.len() implies (#[trigger] self.tasks@[i]).wf() by {
                        if i != t.0 {
                            assert(self.tasks@[i] == old(self).tasks@[i]);
                        }
                    }
                }
                res?;
                if len > usize::MAX - addr {
                    return Err(KernelError::ABI(abi::Error::BadAccess));
                }
                Ok(IpcBody::Page { addr, len })
            },
            _ => Ok(IpcBody::Buf(input)),
        }
    }

    /// Notes that the running thread's pending call loans the page
    /// `addr .. addr + len`, to be given back when the call is answered.
    fn record_loan(&mut self, addr: usize, len: usize)
        requires
            old(self).wf(),
        ensures
            final(self).wf(),
            final(self).tasks@ == old(self).tasks@,
            final(self).log@ == old(self).log@,
            final(self).scheduler.current_thread == old(self).scheduler.current_thread,
            final(self).scheduler.wait_queue@ == old(self).scheduler.wait_queue@,
            final(self).scheduler.exhausted_threads@ == old(self).scheduler.exhausted_threads@,
            final(self).scheduler.tcbs.free_stack() == old(self).scheduler.tcbs.free_stack(),
            addr + len <= usize::MAX && live(old(self).scheduler.tcbs@, old(self).scheduler.current_thread.tcb_ref)
                ==> (final(self).scheduler.tcbs@[old(self).scheduler.current_thread.tcb_ref.0 as int] matches Some(t)
                && t.lent == Some(Region { start: addr, end: (addr + len) as usize, attr: crate::loans::loan_attrs() })),
            forall|i: int| 0 <= i < TCB_CAPACITY && i != old(self).scheduler.current_thread.tcb_ref.0 ==> final(self).scheduler.tcbs@[i] == old(self).scheduler.tcbs@[i],
            live(old(self).scheduler.tcbs@, old(self).scheduler.current_thread.tcb_ref) ==> ({
                let c = old(self).scheduler.current_thread.tcb_ref.0 as int;
                final(self).scheduler.tcbs@[c] matches Some(t) && t.state == old(self).scheduler.tcbs@[c].unwrap().state
                    && t.task == old(self).scheduler.tcbs@[c].unwrap().task && t.priority == old(self).scheduler.tcbs@[c].unwrap().priority
                    && t.req_queue@ == old(self).scheduler.tcbs@[c].unwrap().req_queue@
            }),
    {
        if len > usize::MAX - addr {
            return;
        }
        proof { self.scheduler.tcbs.lemma_wf(); }
        let cur = self.scheduler.current_thread.tcb_ref;
        let ghost tc0 = self.scheduler.tcbs@;
        let attr = RegionAttrs { write: true, read: true, executable: false, device: false, dma: false };
        match self.scheduler.tcbs.get_mut(cur.0) {
            Some(t) => {
                t.lent = Some(Region { start: addr, end: addr + len, attr });
            },
            None => {},
        }
        proof {
            self.scheduler.tcbs.lemma_wf();
            assert forall|i: int| 0 <= i < self.scheduler.tcbs@.len() && (#[trigger] self.scheduler.tcbs@[i]) is Some implies crate::scheduler::tcb_ok(self.scheduler.tcbs@[i].unwrap()) by {
                assert(tc0[i] is Some);
            }
        }
    }

    /// `Send`: sends a body on an endpoint capability and carries on; a
    /// woken receiver of higher priority preempts the caller.
    pub fn exec_send(&mut self, arg_type: SyscallDataType, buf_addr: usize, buf_len: usize, cap_ref: CapRef, input: Vec<u8>) -> (r: Result<CallReturn, KernelError>)
        requires
            old(self).wf(),
        ensures
            final(self).wf(),
            sent(*old(self), *final(self), arg_type, buf_addr, buf_len, cap_ref, input, r),
    {
        self.check_body(arg_type, buf_addr, buf_len)?;
        proof { self.scheduler.tcbs.lemma_wf(); }
        let ghost old_tcbs = self.scheduler.tcbs@;
        let ghost c = self.scheduler.current_thread.tcb_ref.0 as int;
        let endpoint = self.take_endpoint(cap_ref)?;
        let ghost j = endpoint.tcb_ref.0 as int;
        let ghost mid = self.scheduler.tcbs@;
        proof {
            self.scheduler.tcbs.lemma_wf();
            if live(old_tcbs, endpoint.tcb_ref) && j != c {
                assert(mid[j] == old_tcbs[j]);
            }
        }
        proof {
            assert(self.caller_task() == old(self).caller_task());
            assert(self.page_fits(arg_type, buf_addr, buf_len) == old(self).page_fits(arg_type, buf_addr, buf_len));
        }
        let body = self.take_body(arg_type, buf_addr, buf_len, input)?;
        self.send_inner(endpoint, body, None)?;
        let ghost s1 = self.scheduler.tcbs@;
        proof {
            self.scheduler.tcbs.lemma_wf();
            if c != j { assert(s1[c] == mid[c]); }
            assert(s1[c] is Some);
        }
        if endpoint.disposable {
            if let Ok(holder) = self.current_task_ref() {
                let _ = self.reclaim_loan(endpoint.tcb_ref, holder);
            }
        }
        proof {
            self.scheduler.tcbs.lemma_wf();
            if c != j { assert(self.scheduler.tcbs@[c] == s1[c]); }
            assert(self.scheduler.tcbs@[c] is Some);
        }
        let priority = self.scheduler.current_thread()?.priority;
        proof {
            assert(priority == old_tcbs[c].unwrap().priority);
            crate::scheduler::lemma_pick_runnable(self.scheduler.wait_queue@, priority as int, self.scheduler.current_thread.tcb_ref, self.scheduler.tcbs@);
        }
        let ret = SyscallReturn::of_type(SyscallReturnType::Copy);
        let ghost s2 = self.scheduler.tcbs@;
        proof {
            crate::scheduler::lemma_pick_best(self.scheduler.wait_queue@, priority as int, self.scheduler.current_thread.tcb_ref, self.scheduler.tcbs@);
        }
        let pr = self.scheduler.preempt(priority)?;
        proof {
            self.scheduler.tcbs.lemma_wf();
            if live(old_tcbs, endpoint.tcb_ref) && s2[j] is Some {
                let d = old_tcbs[j].unwrap();
                assert(self.scheduler.tcbs@[j] is Some);
                assert(self.scheduler.tcbs@[j].unwrap().req_queue@ == s2[j].unwrap().req_queue@);
                assert(s2[j].unwrap().req_queue@ == s1[j].unwrap().req_queue@);
                let dm = mid[j].unwrap();
                if !(dm.state matches crate::tcb::ThreadState::Waiting(rq) && crate::tcb::msg_matches(endpoint.addr, rq.mask)) {
                    let q1 = s1[j].unwrap().req_queue@;
                    assert(q1 == dm.req_queue@.push(q1.last()));
                    assert(q1.drop_last() =~= dm.req_queue@);
                }
            }
        }
        match pr {
            Some(n) => Ok(CallReturn::Switch { next_thread: n, ret }),
            None => Ok(CallReturn::Return { ret }),
        }
    }

    /// `Call`: sends a body with a reply endpoint and blocks the caller
    /// until the reply arrives in `out_addr .. out_addr + out_len`.
    pub fn exec_call(
        &mut self,
        arg_type: SyscallDataType,
        in_addr: usize,
        in_len: usize,
        cap_ref: CapRef,
        resp_addr: usize,
        out_addr: usize,
        out_len: usize,
        input: Vec<u8>,
    ) -> (r: Result<CallReturn, KernelError>)
        requires
            old(self).wf(),
        ensures
            final(self).wf(),
            called(*old(self), *final(self), arg_type, in_addr, in_len, cap_ref, resp_addr, out_addr, out_len, input, r),
    {
        self.check_body(arg_type, in_addr, in_len)?;
        let src_ref = self.scheduler.current_thread.tcb_ref;
        proof { self.scheduler.tcbs.lemma_wf(); }
        let ghost old_tcbs = self.scheduler.tcbs@;
        let endpoint = self.take_endpoint(cap_ref)?;
        let ghost mid = self.scheduler.tcbs@;
        let ghost j = endpoint.tcb_ref.0 as int;
        proof {
            self.scheduler.tcbs.lemma_wf();
            if live(old_tcbs, endpoint.tcb_ref) && j != src_ref.0 {
                assert(mid[j] == old_tcbs[j]);
            }
            assert(self.caller_task() == old(self).caller_task());
            assert(self.page_fits(arg_type, in_addr, in_len) == old(self).page_fits(arg_type, in_addr, in_len));
            assert(live(mid, ThreadRef(0)) == live(old_tcbs, ThreadRef(0)));
        }
        let body = self.take_body(arg_type, in_addr, in_len, input)?;
        match body {
            IpcBody::Page { addr, len } => self.record_loan(addr, len),
            IpcBody::Buf(_) => {},
        }
        let ghost mid2 = self.scheduler.tcbs@;
        proof {
            self.scheduler.tcbs.lemma_wf();
            if live(old_tcbs, endpoint.tcb_ref) && j != src_ref.0 {
                assert(mid2[j] == mid[j]);
            }
            assert(live(mid2, ThreadRef(0)) == live(old_tcbs, ThreadRef(0))) by {
                if src_ref.0 != 0 { assert(mid2[0] == mid[0]); }
            }
        }
        let reply = Endpoint { tcb_ref: src_ref, addr: endpoint.addr | crate::tcb::REPLY_BIT, disposable: true };
        let req = RecvReq { mask: reply.addr, resp_addr, out: RecvOut::Buf { addr: out_addr, len: out_len } };
        self.send_inner(endpoint, body, Some(reply))?;
        let ghost s1 = self.scheduler.tcbs@;
        proof {
            self.scheduler.tcbs.lemma_wf();
            if live(old_tcbs, endpoint.tcb_ref) && j != src_ref.0 {
                assert(s1[src_ref.0 as int] == mid2[src_ref.0 as int]);
                assert(live(s1, src_ref));
                if live(old_tcbs, ThreadRef(0)) {
                    if j != 0 { assert(s1[0] == mid2[0]); }
                    assert(live(s1, ThreadRef(0)));
                }
                assert(self.scheduler.wait_queue@.last().tcb_ref == endpoint.tcb_ref);
            }
        }
        let next_thread = self.block_for_reply(req, endpoint.tcb_ref)?;
        proof {
            self.scheduler.tcbs.lemma_wf();
            if live(old_tcbs, endpoint.tcb_ref) && j != src_ref.0 && s1[j] is Some {
                let d = old_tcbs[j].unwrap();
                assert(self.scheduler.tcbs@[j].unwrap().req_queue@ == s1[j].unwrap().req_queue@);
                let dm = mid2[j].unwrap();
                if !(dm.state matches crate::tcb::ThreadState::Waiting(rq) && crate::tcb::msg_matches(endpoint.addr, rq.mask)) {
                    let q1 = s1[j].unwrap().req_queue@;
                    assert(q1 == dm.req_queue@.push(q1.last()));
                    assert(q1.drop_last() =~= dm.req_queue@);
                }
            }
        }
        Ok(CallReturn::Switch { next_thread, ret: SyscallReturn::new() })
    }

    /// `Recv`: takes the earliest queued message that matches `mask`, or
    /// blocks the caller until one is sent.
    pub fn exec_recv(&mut self, arg_type: SyscallDataType, out_addr: usize, out_len: usize, mask: usize, resp_addr: usize) -> (r: Result<CallReturn, KernelError>)
        requires
            old(self).wf(),
        ensures
            final(self).wf(),
            received_call(*old(self), *final(self), arg_type, out_addr, out_len, mask, resp_addr, r),
    {
        let t = self.current_task_ref()?;
        let out = match arg_type {
            SyscallDataType::Page => RecvOut::Page,
            _ => RecvOut::Buf { addr: out_addr, len: out_len },
        };
        let req = RecvReq { mask, resp_addr, out };
        let cur = self.scheduler.current_thread.tcb_ref;
        proof { self.scheduler.tcbs.lemma_wf(); }
        let ghost tc0 = self.scheduler.tcbs@;
        let found = match self.scheduler.tcbs.get(cur.0) {
            Some(tcb) => tcb.has_match(mask),
            None => return Err(KernelError::InvalidThreadRef),
        };
        if !found {
            proof {
                let tc1 = tc0.update(cur.0 as int, Some(crate::tcb::Tcb { state: crate::tcb::ThreadState::Waiting(req), ..tc0[cur.0 as int].unwrap() }));
                crate::scheduler::lemma_pick_runnable(self.scheduler.wait_queue@, 0, cur, tc1);
                if live(tc0, ThreadRef(0)) {
                    assert(live(tc1, ThreadRef(0)));
                }
            }
            let next_thread = self.scheduler.wait(req, false)?;
            return Ok(CallReturn::Replace { next_thread });
        }
        let res = match self.scheduler.tcbs.get_mut(cur.0) {
            Some(tcb) => tcb.recv(&self.tasks[t.0], req),
            None => return Err(KernelError::InvalidThreadRef),
        };
        proof {
            self.scheduler.tcbs.lemma_wf();
            assert forall|i: int| 0 <= i < self.scheduler.tcbs@.len() && (#[trigger] self.scheduler.tcbs@[i]) is Some implies crate::scheduler::tcb_ok(self.scheduler.tcbs@[i].unwrap()) by {
                assert(tc0[i] is Some);
            }
        }
        proof {
            let me = tc0[cur.0 as int].unwrap();
            assert(crate::tcb::received(me, me.req_queue@, self.scheduler.tcbs@[cur.0 as int].unwrap(), old(self).tasks@[me.task.0 as int], req, res));
        }
        match res {
            RecvRes::Delivered(ret) => {
                match ret.get_type() {
                    SyscallReturnType::Page => {
                        let _ = self.grant_delivered_page(cur);
                    },
                    _ => {},
                }
                Ok(CallReturn::Return { ret })
            },
            RecvRes::NotFound => {
                proof {
                    let tc = self.scheduler.tcbs@;
                    let tc1 = tc.update(cur.0 as int, Some(crate::tcb::Tcb { state: crate::tcb::ThreadState::Waiting(req), ..tc[cur.0 as int].unwrap() }));
                    crate::scheduler::lemma_pick_runnable(self.scheduler.wait_queue@, 0, cur, tc1);
                    if live(tc0, ThreadRef(0)) {
                        if cur.0 != 0 { assert(tc[0] == tc0[0]); }
                        assert(live(tc1, ThreadRef(0)));
                    }
                }
                let next_thread = self.scheduler.wait(req, false)?;
                Ok(CallReturn::Replace { next_thread })
            },
        }
    }

    /// `Log`: appends the caller's message to the log as one record whose
    /// source is the caller's task index plus one.
    pub fn exec_log(&mut self, in_addr: usize, in_len: usize, input: Vec<u8>) -> (r: Result<CallReturn, KernelError>)
        requires
            old(self).wf(),
        ensures
            final(self).wf(),
            logged(*old(self), *final(self), in_addr, in_len, input, r),
    {
        let t = self.current_task_ref()?;
        if in_len > LOG_LIMIT || input.len() > LOG_LIMIT {
            return Err(KernelError::ABI(abi::Error::BufferOverflow));
        }
        if !self.tasks[t.0].region_table.permits(in_addr, in_len, RegionAttrs::of(crate::regions::RegionAttr::Read)) {
            return Err(KernelError::ABI(abi::Error::BadAccess));
        }
        let ntasks = self.tasks.len();
        assert(t.0 < ntasks);
        let mut rec = log_record((t.0 + 1) as u8, &input);
        self.log.append(&mut rec);
        Ok(CallReturn::Return { ret: SyscallReturn::new() })
    }

    /// `Caps`: lists the caller's capabilities, as many as fit the buffer.
    pub fn exec_caps(&mut self, out_addr: usize, out_len: usize) -> (r: Result<CallReturn, KernelError>)
        requires
            old(self).wf(),
        ensures
            final(self).wf(),
            listed(*old(self), *final(self), out_addr, out_len, r),
    {
        let t = self.current_task_ref()?;
        if out_len > usize::MAX / CAP_ENTRY_SIZE {
            return Err(KernelError::ABI(abi::Error::BadAccess));
        }
        if !self.tasks[t.0].region_table.permits(out_addr, out_len * CAP_ENTRY_SIZE, RegionAttrs::of(crate::regions::RegionAttr::Write)) {
            return Err(KernelError::ABI(abi::Error::BadAccess));
        }
        let cur = self.scheduler.current_thread.tcb_ref;
        proof { self.scheduler.tcbs.lemma_wf(); }
        let ghost tc0 = self.scheduler.tcbs@;
        let n = match self.scheduler.tcbs.get_mut(cur.0) {
            Some(tcb) => {
                let max = if out_len > abi::SYSCALL_LEN_MAX as usize { abi::SYSCALL_LEN_MAX as usize } else { out_len };
                let entries = tcb.capabilities.list(max);
                let n = entries.len();
                tcb.listing = Some(CapListing { out_addr, entries });
                n
            },
            None => return Err(KernelError::InvalidThreadRef),
        };
        proof {
            self.scheduler.tcbs.lemma_wf();
            assert forall|i: int| 0 <= i < self.scheduler.tcbs@.len() && (#[trigger] self.scheduler.tcbs@[i]) is Some implies crate::scheduler::tcb_ok(self.scheduler.tcbs@[i].unwrap()) by {
                assert(tc0[i] is Some);
            }
        }
        let ret = SyscallReturn::of_type(SyscallReturnType::Copy).with_len(n as u64);
        Ok(CallReturn::Return { ret })
    }

    /// `Listen`: registers the caller at address zero as the owner of the
    /// port its `Listen` capability names.
    pub fn exec_listen(&mut self, cap_ref: CapRef) -> (r: Result<CallReturn, KernelError>)
        requires
            old(self).wf(),
        ensures
            final(self).wf(),
            listened(*old(self), *final(self), cap_ref, r),
    {
        let cur = self.scheduler.current_thread.tcb_ref;
        let cap = self.scheduler.current_thread()?.capabilities.cap(cap_ref)?;
        let listen = match cap {
            Cap::Listen(l) => l,
            _ => return Err(KernelError::ABI(abi::Error::InvalidCap)),
        };
        match self.registry.listen(listen, Endpoint { tcb_ref: cur, addr: 0, disposable: false }) {
            Ok(()) => {},
            Err(e) => return Err(KernelError::ABI(e)),
        }
        Ok(CallReturn::Return { ret: SyscallReturn::of_type(SyscallReturnType::Copy) })
    }

    /// `Connect`: looks up the owner of the port the caller's `Connect`
    /// capability names and gives the caller a new endpoint capability to
    /// it; the return word carries the new cap-ref.
    pub fn exec_connect(&mut self, cap_ref: CapRef) -> (r: Result<CallReturn, KernelError>)
        requires
            old(self).wf(),
        ensures
            final(self).wf(),
            connected(*old(self), *final(self), cap_ref, r),
    {
        let cur = self.scheduler.current_thread.tcb_ref;
        let cap = self.scheduler.current_thread()?.capabilities.cap(cap_ref)?;
        let connect = match cap {
            Cap::Connect(c) => c,
            _ => return Err(KernelError::ABI(abi::Error::InvalidCap)),
        };
        let endpoint = match self.registry.connect(connect) {
            Ok(e) => e,
            Err(e) => return Err(KernelError::ABI(e)),
        };
        proof { self.scheduler.tcbs.lemma_wf(); }
        let ghost tc0 = self.scheduler.tcbs@;
        let new_ref = match self.scheduler.tcbs.get_mut(cur.0) {
            Some(tcb) => {
                if tcb.capabilities.is_full() {
                    return Err(KernelError::ABI(abi::Error::BufferOverflow));
                }
                tcb.add_cap(Cap::Endpoint(endpoint))
            },
            None => return Err(KernelError::InvalidThreadRef),
        };
        proof {
            self.scheduler.tcbs.lemma_wf();
            assert forall|i: int| 0 <= i < self.scheduler.tcbs@.len() && (#[trigger] self.scheduler.tcbs@[i]) is Some implies crate::scheduler::tcb_ok(self.scheduler.tcbs@[i].unwrap()) by {
                assert(tc0[i] is Some);
            }
        }
        let new_ref = new_ref.unwrap();
        let ret = SyscallReturn::of_type(SyscallReturnType::Copy).with_ptr(new_ref.0 as u64);
        Ok(CallReturn::Return { ret })
    }

    /// `Panik`: logs the caller's message as a kernel record (cut to the log
    /// limit), restarts the caller's task and switches to the best ready
    /// thread, or idle.
    pub fn exec_panik(&mut self, addr: usize, len: usize, input: Vec<u8>) -> (r: Result<CallReturn, KernelError>)
        requires
            old(self).wf(),
        ensures
            final(self).wf(),
            panicked(*old(self), *final(self), addr, len, input, r),
    {
        let t = self.current_task_ref()?;
        if len > PANIC_LIMIT {
            return Err(KernelError::ABI(abi::Error::BufferOverflow));
        }
        if !self.tasks[t.0].region_table.permits(addr, len, RegionAttrs::of(crate::regions::RegionAttr::Read)) {
            return Err(KernelError::ABI(abi::Error::BadAccess));
        }
        let n = if input.len() > LOG_LIMIT { LOG_LIMIT } else { input.len() };
        let mut msg: Vec<u8> = Vec::new();
        let mut i: usize = 0;
        while i < n
            invariant
                n <= input@.len(),
                i <= n,
                msg@ == input@.take(i as int),
            decreases n - i,
        {
            msg.push(input[i]);
            assert(input@.take(i as int).push(input@[i as int]) =~= input@.take(i + 1));
            i = i + 1;
        }
        let mut rec = log_record(0, &msg);
        self.log.append(&mut rec);
        let ghost tc0 = old(self).scheduler.tcbs@;
        let nt = self.restart_task(t)?;
        let ghost tc1 = self.scheduler.tcbs@;
        let ghost q1 = self.scheduler.wait_queue@;
        self.scheduler.vacate();
        let ghost vac = self.scheduler.current_thread.tcb_ref;
        let ghost ne = crate::scheduler::DomainEntry { tcb_ref: nt, loaned_tcb: None, priority: tc1[nt.0 as int].unwrap().priority as u8 };
        proof {
            self.scheduler.tcbs.lemma_wf();
            crate::scheduler::lemma_pick_runnable(q1, 0, vac, tc1);
            crate::scheduler::lemma_pick_keeps(q1, 0, vac, tc1, ne);
            assert(crate::kernel::restarted(tc0, tc1, old(self).tasks@[t.0 as int], t, nt));
            assert(q1[q1.len() - 1] == ne);
            assert(q1.contains(ne));
        }
        let next = match self.scheduler.next_thread(0) {
            Some(e) => e,
            None => DomainEntry::idle(),
        };
        proof { self.scheduler.tcbs.lemma_wf(); }
        let next_thread = self.scheduler.switch_thread(next)?;
        proof {
            assert(self.scheduler.tcbs@ == tc1);
            assert(crate::kernel::restarted(tc0, self.scheduler.tcbs@, old(self).tasks@[t.0 as int], t, nt));
            let q2 = self.scheduler.wait_queue@;
            assert forall|j: int| 0 <= j < q2.len() implies live(tc1, (#[trigger] q2[j]).tcb_ref)
                && (tc1[q2[j].tcb_ref.0 as int].unwrap().task == t ==> q2[j].tcb_ref == nt) by {
                crate::scheduler::lemma_pick_keeps(q1, 0, vac, tc1, q2[j]);
                assert(q2.contains(q2[j]));
                let i = choose|i: int| 0 <= i < q1.len() && q1[i] == q2[j];
                if i < q1.len() - 1 {
                    assert(q1[i].tcb_ref != nt);
                }
            }
        }
        Ok(CallReturn::Replace { next_thread })
    }

    /// Decodes syscall `index` and runs its handler on `args`. `input` holds
    /// the caller memory named by `input_range` (empty when it names none).
    /// An index that names no syscall gives `Unknown` with its function bits.
    pub fn syscall(&mut self, index: u32, args: &SyscallArgs, input: Vec<u8>) -> (r: Result<CallReturn, KernelError>)
        requires
            old(self).wf(),
        ensures
            final(self).wf(),
            dispatched(*old(self), *final(self), index, *args, input, r),
            (SyscallFn::from_bits_spec(abi::index_fn_bits(index)) is None || SyscallDataType::from_bits_spec(abi::index_arg_bits(index)) is None) ==> r == Err::<CallReturn, KernelError>(KernelError::ABI(abi::Error::Unknown(abi::index_fn_bits(index) as u8))),
    {
        let fb = SyscallFn::try_from_bits(index & 0xf);
        let tb = SyscallDataType::try_from_bits((index >> 4u32) & 0x3);
        let (f, ty) = match (fb, tb) {
            (Some(f), Some(ty)) => (f, ty),
            _ => return Err(KernelError::ABI(abi::Error::Unknown((index & 0xf) as u8))),
        };
        match f {
            SyscallFn::Send => self.exec_send(ty, args.arg1, args.arg2, CapRef(args.arg3), input),
            SyscallFn::Call => self.exec_call(ty, args.arg1, args.arg2, CapRef(args.arg3), args.arg4, args.arg5, args.arg6, input),
            SyscallFn::Recv => self.exec_recv(ty, args.arg1, args.arg2, args.arg3, args.arg4),
            SyscallFn::Log => self.exec_log(args.arg1, args.arg2, input),
            SyscallFn::Caps => self.exec_caps(args.arg1, args.arg2),
            SyscallFn::Panik => self.exec_panik(args.arg1, args.arg2, input),
            SyscallFn::Connect => self.exec_connect(CapRef(args.arg1)),
            SyscallFn::Listen => self.exec_listen(CapRef(args.arg1)),
        }
    }
}

/// Turns a handler's outcome into what the trap exit does: an error meant
/// for user space becomes an error return to the caller; other errors are
/// kernel faults and are passed on.
pub fn syscall_outcome(r: Result<CallReturn, KernelError>) -> (o: Result<CallReturn, KernelError>)
    ensures
        match r {
            Ok(c) => o == Ok::<CallReturn, KernelError>(c),
            Err(KernelError::ABI(e)) => o == Ok::<CallReturn, KernelError>(CallReturn::Return { ret: SyscallReturn::from_error_spec(e) }),
            Err(e) => o == Err::<CallReturn, KernelError>(e),
        },
{
    match r {
        Ok(c) => Ok(c),
        Err(KernelError::ABI(e)) => Ok(CallReturn::Return { ret: SyscallReturn::from_error(e) }),
        Err(e) => Err(e),
    }
}

impl Kernel {
    /// The MPU program for the task of thread `t`.
    pub fn thread_program(&self, t: ThreadRef) -> (r: Result<crate::mpu::MpuProgram, KernelError>)
        requires
            self.wf(),
        ensures
            match r {
                Ok(p) => live(self.scheduler.tcbs@, t) && {
                    let k = self.scheduler.tcbs@[t.0 as int].unwrap().task.0 as int;
                    k < self.tasks@.len() && p.derived_from(self.tasks@[k].region_table@)
                },
                Err(e) => e == KernelError::InvalidThreadRef && !live(self.scheduler.tcbs@, t)
                    || e == KernelError::InvalidTaskRef && live(self.scheduler.tcbs@, t)
                        && self.scheduler.tcbs@[t.0 as int].unwrap().task.0 >= self.tasks@.len(),
            },
    {
        let task = self.scheduler.get_tcb(t)?.task;
        if task.0 >= self.tasks.len() {
            return Err(KernelError::InvalidTaskRef);
        }
        Ok(crate::mpu::region_program(&self.tasks[task.0].region_table))
    }

    /// Completes a syscall made by `caller`: the return word goes into the
    /// caller's saved registers (unless it blocked), and on a switch the
    /// MPU program for the incoming thread's task is returned, to be in
    /// place before that thread runs.
    pub fn complete(&mut self, caller: ThreadRef, cr: CallReturn) -> (r: Result<Option<crate::mpu::MpuProgram>, KernelError>)
        requires
            old(self).wf(),
        ensures
            final(self).wf(),
            final(self).scheduler.current_thread == old(self).scheduler.current_thread,
            final(self).scheduler.wait_queue@ == old(self).scheduler.wait_queue@,
            final(self).tasks@ == old(self).tasks@,
            match cr {
                CallReturn::Return { ret } => r == Ok::<Option<crate::mpu::MpuProgram>, KernelError>(None)
                    && (live(old(self).scheduler.tcbs@, caller) ==> (final(self).scheduler.tcbs@[caller.0 as int] matches Some(t)
                        && t.saved_state == old(self).scheduler.tcbs@[caller.0 as int].unwrap().saved_state.with_return(ret))),
                CallReturn::Switch { next_thread, ret } => (live(old(self).scheduler.tcbs@, caller) ==> (final(self).scheduler.tcbs@[caller.0 as int] matches Some(t)
                        && t.saved_state == old(self).scheduler.tcbs@[caller.0 as int].unwrap().saved_state.with_return(ret)))
                    && (live(final(self).scheduler.tcbs@, next_thread) && final(self).scheduler.tcbs@[next_thread.0 as int].unwrap().task.0 < final(self).tasks@.len()
                        <==> (r matches Ok(Some(p)) && p.derived_from(final(self).tasks@[final(self).scheduler.tcbs@[next_thread.0 as int].unwrap().task.0 as int].region_table@)))
                    && (r is Err ==> r == Err::<Option<crate::mpu::MpuProgram>, KernelError>(KernelError::InvalidThreadRef)
                        || r == Err::<Option<crate::mpu::MpuProgram>, KernelError>(KernelError::InvalidTaskRef)),
                CallReturn::Replace { next_thread } => final(self).scheduler == old(self).scheduler
                    && (live(final(self).scheduler.tcbs@, next_thread) && final(self).scheduler.tcbs@[next_thread.0 as int].unwrap().task.0 < final(self).tasks@.len()
                        <==> (r matches Ok(Some(p)) && p.derived_from(final(self).tasks@[final(self).scheduler.tcbs@[next_thread.0 as int].unwrap().task.0 as int].region_table@)))
                    && (r is Err ==> r == Err::<Option<crate::mpu::MpuProgram>, KernelError>(KernelError::InvalidThreadRef)
                        || r == Err::<Option<crate::mpu::MpuProgram>, KernelError>(KernelError::InvalidTaskRef)),
            },
    {
        proof { self.scheduler.tcbs.lemma_wf(); }
        let (next, ret) = match cr {
            CallReturn::Return { ret } => (None, Some(ret)),
            CallReturn::Switch { next_thread, ret } => (Some(next_thread), Some(ret)),
            CallReturn::Replace { next_thread } => (Some(next_thread), None),
        };
        if let Some(ret) = ret {
            let ghost tc0 = self.scheduler.tcbs@;
            match self.scheduler.tcbs.get_mut(caller.0) {
                Some(t) => t.saved_state.set_syscall_return(ret),
                None => {},
            }
            proof {
                self.scheduler.tcbs.lemma_wf();
                assert forall|i: int| 0 <= i < self.scheduler.tcbs@.len() && (#[trigger] self.scheduler.tcbs@[i]) is Some implies crate::scheduler::tcb_ok(self.scheduler.tcbs@[i].unwrap()) by {
                    assert(tc0[i] is Some);
                }
            }
        }
        match next {
            None => Ok(None),
            Some(n) => {
                let p = self.thread_program(n)?;
                Ok(Some(p))
            },
        }
    }

    /// A timer tick: runs the scheduler and, when it switched, returns the
    /// incoming thread with the MPU program for its task.
    pub fn on_tick(&mut self) -> (r: Result<Option<(ThreadRef, crate::mpu::MpuProgram)>, KernelError>)
        requires
            old(self).wf(),
        ensures
            final(self).wf(),
            final(self).tasks@ == old(self).tasks@,
            exists|rt: Result<Option<ThreadRef>, KernelError>| #[trigger] crate::scheduler::ticked(old(self).scheduler, final(self).scheduler, rt) && match rt {
                Ok(None) => r matches Ok(None),
                Ok(Some(t)) => (live(final(self).scheduler.tcbs@, t) && final(self).scheduler.tcbs@[t.0 as int].unwrap().task.0 < final(self).tasks@.len())
                    ==> (r matches Ok(Some((t2, p))) && t2 == t && t == final(self).scheduler.current_thread.tcb_ref
                        && p.derived_from(final(self).tasks@[final(self).scheduler.tcbs@[t.0 as int].unwrap().task.0 as int].region_table@)),
                Err(e) => r == Err::<Option<(ThreadRef, crate::mpu::MpuProgram)>, KernelError>(e),
            },
            r matches Ok(Some((t, p))) ==> t == final(self).scheduler.current_thread.tcb_ref
                && live(final(self).scheduler.tcbs@, t)
                && p.derived_from(final(self).tasks@[final(self).scheduler.tcbs@[t.0 as int].unwrap().task.0 as int].region_table@),
    {
        let ghost s0 = self.scheduler;
        let rt = self.scheduler.tick();
        proof {
            assert(crate::scheduler::ticked(s0, self.scheduler, rt));
        }
        match rt {
            Ok(Some(t)) => {
                let p = self.thread_program(t)?;
                Ok(Some((t, p)))
            },
            Ok(None) => Ok(None),
            Err(e) => Err(e),
        }
    }
}

} // verus!

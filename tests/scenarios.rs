use k5::abi::{
    self, syscall_index, Cap, CapRef, Connect, Endpoint, Listen, RecvRespInner, SyscallArgs, SyscallDataType,
    SyscallFn, SyscallReturn, SyscallReturnType, ThreadRef,
};
use k5::caps::CapList;
use k5::kernel::{Kernel, TaskDesc};
use k5::syscalls::{syscall_outcome, CallReturn};
use k5::task::{StackRange, TaskRef};
use k5::regions::RegionAttrs;
use k5::tcb::ThreadState;
use k5::KernelError;

fn flash(i: usize) -> usize {
    0x0800_0000 + i * 0x1_0000
}

fn ram(i: usize) -> usize {
    0x2000_0000 + i * 0x1_0000
}

fn desc(i: usize) -> TaskDesc {
    TaskDesc {
        entrypoint: flash(i),
        stack_space: StackRange { start: ram(i) + 0x800, end: ram(i) + 0x1000 },
        init_stack_size: 0x100,
        flash_region: StackRange { start: flash(i), end: flash(i) + 0x1000 },
        ram_region: StackRange { start: ram(i), end: ram(i) + 0x1000 },
    }
}

/// Idle in task 0; thread 1 in task 1 and thread 2 in task 2, both at
/// priority 7 (budget 5 / cooldown 6 and budget 3 / cooldown 3).
fn kernel_with(caps1: CapList, caps2: CapList) -> Kernel {
    let mut k = Kernel::from_tasks(&vec![desc(0), desc(1), desc(2)]).unwrap();
    let idle = k.spawn_thread(TaskRef(0), 0, usize::MAX, 0, flash(0), CapList::new()).unwrap();
    assert_eq!(idle, ThreadRef(0));
    assert_eq!(k.spawn_thread(TaskRef(1), 7, 5, 6, flash(1), caps1).unwrap(), ThreadRef(1));
    assert_eq!(k.spawn_thread(TaskRef(2), 7, 3, 3, flash(2), caps2).unwrap(), ThreadRef(2));
    k
}

fn endpoint_caps(to: usize, addr: usize) -> (CapList, CapRef) {
    let mut caps = CapList::new();
    let r = caps.add(Cap::Endpoint(Endpoint { tcb_ref: ThreadRef(to), addr, disposable: false })).unwrap();
    (caps, r)
}

fn args(a: [usize; 6]) -> SyscallArgs {
    SyscallArgs { arg1: a[0], arg2: a[1], arg3: a[2], arg4: a[3], arg5: a[4], arg6: a[5] }
}

fn sys(k: &mut Kernel, f: SyscallFn, ty: SyscallDataType, a: [usize; 6], input: Vec<u8>) -> Result<CallReturn, KernelError> {
    let index = syscall_index(f, ty);
    syscall_outcome(k.syscall(index, &args(a), input))
}

fn current(k: &Kernel) -> usize {
    k.scheduler.current_thread.tcb_ref.0
}

#[test]
fn priority_schedule_over_fifteen_ticks() {
    let mut k = kernel_with(CapList::new(), CapList::new());
    let mut running = Vec::new();
    for _ in 0..15 {
        k.on_tick().unwrap();
        running.push(current(&k));
    }
    assert_eq!(running, vec![1, 1, 1, 1, 1, 2, 2, 2, 0, 0, 0, 2, 2, 2, 1]);
}

#[test]
fn switch_programs_incoming_task_regions() {
    let mut k = kernel_with(CapList::new(), CapList::new());
    let (t, p) = k.on_tick().unwrap().expect("switch");
    assert_eq!(t, ThreadRef(1));
    assert_eq!(p.slots.len(), 8);
    assert_eq!(p.slots[2].rlar & 1, 0);
    assert_eq!(p.slots[0].rbar & !0x1f, flash(1) as u32);
    assert_eq!(p.slots[1].rlar & !0x1f, (ram(1) + 0x1000) as u32);
}

#[test]
fn send_wakes_waiter() {
    let (caps2, cap) = endpoint_caps(1, 1);
    let mut k = kernel_with(CapList::new(), caps2);
    k.on_tick().unwrap();
    assert_eq!(current(&k), 1);
    let out = ram(1) + 0x10;
    let resp = ram(1) + 0x40;
    let r = sys(&mut k, SyscallFn::Recv, SyscallDataType::Copy, [out, 3, 1, resp, 0, 0], vec![]).unwrap();
    assert_eq!(r, CallReturn::Replace { next_thread: ThreadRef(2) });
    assert_eq!(current(&k), 2);
    let r = sys(&mut k, SyscallFn::Send, SyscallDataType::Copy, [ram(2), 3, cap.0, 0, 0, 0], vec![1, 2, 3]).unwrap();
    assert_eq!(r, CallReturn::Return { ret: SyscallReturn::of_type(SyscallReturnType::Copy) });
    let a = k.scheduler.get_tcb(ThreadRef(1)).unwrap();
    assert_eq!(a.state, ThreadState::Ready);
    let d = a.delivered.as_ref().unwrap();
    assert_eq!(d.body, vec![1, 2, 3]);
    assert_eq!(d.out_addr, out);
    assert_eq!(d.resp_addr, resp);
    assert_eq!(d.resp.cap, None);
    assert_eq!(d.resp.inner, RecvRespInner::Copy(3));
    assert_eq!(k.on_tick().unwrap().map(|x| x.0), None);
    assert_eq!(k.on_tick().unwrap().map(|x| x.0), None);
    assert_eq!(k.on_tick().unwrap().map(|x| x.0), Some(ThreadRef(1)));
}

#[test]
fn call_and_single_use_reply() {
    let (caps2, cap) = endpoint_caps(1, 1);
    let mut k = kernel_with(CapList::new(), caps2);
    k.on_tick().unwrap();
    sys(&mut k, SyscallFn::Recv, SyscallDataType::Copy, [ram(1) + 0x10, 3, 1, ram(1) + 0x40, 0, 0], vec![]).unwrap();
    assert_eq!(current(&k), 2);
    let r = sys(
        &mut k,
        SyscallFn::Call,
        SyscallDataType::Copy,
        [ram(2), 3, cap.0, ram(2) + 0x40, ram(2) + 0x10, 3],
        vec![1, 2, 3],
    )
    .unwrap();
    assert_eq!(r, CallReturn::Switch { next_thread: ThreadRef(1), ret: SyscallReturn::new() });
    assert_eq!(current(&k), 1);
    assert_eq!(k.scheduler.current_thread.loaned_tcb, Some(ThreadRef(2)));
    let reply = {
        let a = k.scheduler.get_tcb(ThreadRef(1)).unwrap();
        let d = a.delivered.as_ref().unwrap();
        assert_eq!(d.body, vec![1, 2, 3]);
        d.resp.cap.expect("reply cap")
    };
    let caps = k.scheduler.get_tcb(ThreadRef(1)).unwrap().capabilities.list(10);
    assert_eq!(
        caps[0].desc,
        Cap::Endpoint(Endpoint { tcb_ref: ThreadRef(2), addr: 1 | 0x8000_0000, disposable: true })
    );
    let r = sys(&mut k, SyscallFn::Send, SyscallDataType::Copy, [ram(1), 3, reply.0, 0, 0, 0], vec![9, 8, 7]).unwrap();
    assert!(matches!(r, CallReturn::Return { .. }));
    let b = k.scheduler.get_tcb(ThreadRef(2)).unwrap();
    assert_eq!(b.state, ThreadState::Ready);
    let d = b.delivered.as_ref().unwrap();
    assert_eq!(d.body, vec![9, 8, 7]);
    assert_eq!(d.out_addr, ram(2) + 0x10);
    let r = sys(&mut k, SyscallFn::Send, SyscallDataType::Copy, [ram(1), 3, reply.0, 0, 0, 0], vec![9, 8, 7]).unwrap();
    assert_eq!(r, CallReturn::Return { ret: SyscallReturn::from_error(abi::Error::InvalidCap) });
}

const PORT: [u8; 16] = *b"0123456789abcdef";

#[test]
fn port_rendezvous() {
    let mut f_caps = CapList::new();
    let listen = f_caps.add(Cap::Listen(Listen { port: PORT })).unwrap();
    let mut b_caps = CapList::new();
    let connect = b_caps.add(Cap::Connect(Connect { port: PORT })).unwrap();
    let mut k = kernel_with(f_caps, b_caps);
    k.on_tick().unwrap();
    assert_eq!(current(&k), 1);
    let r = sys(&mut k, SyscallFn::Listen, SyscallDataType::Short, [listen.0, 0, 0, 0, 0, 0], vec![]).unwrap();
    assert_eq!(r, CallReturn::Return { ret: SyscallReturn::of_type(SyscallReturnType::Copy) });
    sys(&mut k, SyscallFn::Recv, SyscallDataType::Copy, [ram(1) + 0x100, 10, 0, ram(1) + 0x40, 0, 0], vec![]).unwrap();
    assert_eq!(current(&k), 2);
    let r = sys(&mut k, SyscallFn::Connect, SyscallDataType::Short, [connect.0, 0, 0, 0, 0, 0], vec![]).unwrap();
    let e = match r {
        CallReturn::Return { ret } => {
            assert_eq!(ret.get_type(), SyscallReturnType::Copy);
            CapRef(ret.get_ptr() as usize)
        }
        other => panic!("unexpected {:?}", other),
    };
    assert_eq!(e, CapRef(2));
    let r = sys(
        &mut k,
        SyscallFn::Call,
        SyscallDataType::Copy,
        [ram(2), 10, e.0, ram(2) + 0x40, ram(2) + 0x100, 10],
        vec![0xAA; 10],
    )
    .unwrap();
    assert_eq!(r, CallReturn::Switch { next_thread: ThreadRef(1), ret: SyscallReturn::new() });
    let f = k.scheduler.get_tcb(ThreadRef(1)).unwrap();
    let d = f.delivered.as_ref().unwrap();
    assert_eq!(d.body, vec![0xAA; 10]);
    assert!(d.resp.cap.is_some());
}

#[test]
fn connect_without_listener_and_wrong_kind() {
    let mut b_caps = CapList::new();
    let connect = b_caps.add(Cap::Connect(Connect { port: PORT })).unwrap();
    let mut k = kernel_with(b_caps, CapList::new());
    k.on_tick().unwrap();
    let r = sys(&mut k, SyscallFn::Connect, SyscallDataType::Short, [connect.0, 0, 0, 0, 0, 0], vec![]).unwrap();
    assert_eq!(r, CallReturn::Return { ret: SyscallReturn::from_error(abi::Error::PortNotOpen) });
    let r = sys(&mut k, SyscallFn::Listen, SyscallDataType::Short, [connect.0, 0, 0, 0, 0, 0], vec![]).unwrap();
    assert_eq!(r, CallReturn::Return { ret: SyscallReturn::from_error(abi::Error::InvalidCap) });
    let r = sys(&mut k, SyscallFn::Listen, SyscallDataType::Short, [99, 0, 0, 0, 0, 0], vec![]).unwrap();
    assert_eq!(r, CallReturn::Return { ret: SyscallReturn::from_error(abi::Error::InvalidCap) });
}

#[test]
fn send_outside_regions_is_bad_access() {
    let (caps1, cap) = endpoint_caps(2, 1);
    let mut k = kernel_with(caps1, CapList::new());
    k.on_tick().unwrap();
    let r = sys(&mut k, SyscallFn::Send, SyscallDataType::Copy, [0xE000_ED00, 4, cap.0, 0, 0, 0], vec![0; 4]).unwrap();
    assert_eq!(r, CallReturn::Return { ret: SyscallReturn::from_error(abi::Error::BadAccess) });
    assert_eq!(k.scheduler.get_tcb(ThreadRef(2)).unwrap().req_queue.len(), 0);
}

#[test]
fn oversized_copy_and_log_overflow() {
    let (caps1, cap) = endpoint_caps(2, 1);
    let mut k = kernel_with(caps1, CapList::new());
    k.on_tick().unwrap();
    let r = sys(&mut k, SyscallFn::Send, SyscallDataType::Copy, [ram(1), 1025, cap.0, 0, 0, 0], vec![0; 1025]).unwrap();
    assert_eq!(r, CallReturn::Return { ret: SyscallReturn::from_error(abi::Error::BufferOverflow) });
    let r = sys(&mut k, SyscallFn::Log, SyscallDataType::Copy, [ram(1), 256, 0, 0, 0, 0], vec![0; 256]).unwrap();
    assert_eq!(r, CallReturn::Return { ret: SyscallReturn::from_error(abi::Error::BufferOverflow) });
    assert!(k.log.is_empty());
}

#[test]
fn recv_length_mismatch() {
    let (caps2, cap) = endpoint_caps(1, 1);
    let mut k = kernel_with(CapList::new(), caps2);
    k.on_tick().unwrap();
    sys(&mut k, SyscallFn::Recv, SyscallDataType::Copy, [ram(1) + 0x10, 4, 1, ram(1) + 0x40, 0, 0], vec![]).unwrap();
    sys(&mut k, SyscallFn::Send, SyscallDataType::Copy, [ram(2), 3, cap.0, 0, 0, 0], vec![1, 2, 3]).unwrap();
    let a = k.scheduler.get_tcb(ThreadRef(1)).unwrap();
    assert!(a.delivered.is_none());
    let err = SyscallReturn::from_error(abi::Error::ReturnTypeMismatch);
    let (hi, lo) = err.split();
    assert_eq!(a.saved_state.args.arg1, lo as usize);
    assert_eq!(a.saved_state.args.arg2, hi as usize);
}

#[test]
fn log_frames_record() {
    let mut k = kernel_with(CapList::new(), CapList::new());
    k.on_tick().unwrap();
    let r = sys(&mut k, SyscallFn::Log, SyscallDataType::Copy, [ram(1), 2, 0, 0, 0, 0], b"hi".to_vec()).unwrap();
    assert_eq!(r, CallReturn::Return { ret: SyscallReturn::new() });
    assert_eq!(k.log, vec![2, 2, b'h', b'i']);
}

#[test]
fn caps_lists_capabilities() {
    let mut caps = CapList::new();
    let l = caps.add(Cap::Listen(Listen { port: PORT })).unwrap();
    let c = caps.add(Cap::Connect(Connect { port: PORT })).unwrap();
    let mut k = kernel_with(caps, CapList::new());
    k.on_tick().unwrap();
    let r = sys(&mut k, SyscallFn::Caps, SyscallDataType::Short, [ram(1) + 0x200, 1, 0, 0, 0, 0], vec![]).unwrap();
    match r {
        CallReturn::Return { ret } => assert_eq!(ret.get_len(), 1),
        other => panic!("unexpected {:?}", other),
    }
    let t = k.scheduler.get_tcb(ThreadRef(1)).unwrap();
    let listing = t.listing.as_ref().unwrap();
    assert_eq!(listing.entries.len(), 1);
    assert_eq!(listing.entries[0].cap_ref, l);
    assert_ne!(l, c);
    let r = sys(&mut k, SyscallFn::Caps, SyscallDataType::Short, [0xE000_0000, 1, 0, 0, 0, 0], vec![]).unwrap();
    assert_eq!(r, CallReturn::Return { ret: SyscallReturn::from_error(abi::Error::BadAccess) });
}

#[test]
fn panic_restarts_task() {
    let (a_caps, to_b) = endpoint_caps(2, 1);
    let mut b_caps = CapList::new();
    b_caps.add(Cap::Listen(Listen { port: PORT })).unwrap();
    b_caps.add(Cap::Connect(Connect { port: PORT })).unwrap();
    let mut k = kernel_with(a_caps, b_caps);
    k.on_tick().unwrap();
    assert_eq!(current(&k), 1);
    // a message waits in b's queue
    sys(&mut k, SyscallFn::Send, SyscallDataType::Copy, [ram(1), 2, to_b.0, 0, 0, 0], vec![5, 6]).unwrap();
    assert_eq!(k.scheduler.get_tcb(ThreadRef(2)).unwrap().req_queue.len(), 1);
    for _ in 0..5 {
        k.on_tick().unwrap();
    }
    assert_eq!(current(&k), 2);
    let r = sys(&mut k, SyscallFn::Panik, SyscallDataType::Copy, [ram(2), 4, 0, 0, 0, 0], b"oops".to_vec()).unwrap();
    assert!(matches!(r, CallReturn::Replace { .. }));
    assert_eq!(k.log, vec![0, 4, b'o', b'o', b'p', b's']);
    let mut found = 0;
    for i in 0..16 {
        if let Some(t) = k.scheduler.tcbs.get(i) {
            if t.task == TaskRef(2) {
                found += 1;
                assert_eq!((t.priority, t.budget, t.cooldown), (7, 3, 3));
                assert_eq!(t.entrypoint, flash(2));
                assert_eq!(t.req_queue.len(), 0);
                let caps = t.capabilities.list(10);
                assert_eq!(caps.len(), 2);
                assert_eq!(caps[0].desc, Cap::Listen(Listen { port: PORT }));
                assert_eq!(caps[1].desc, Cap::Connect(Connect { port: PORT }));
            }
        }
    }
    assert_eq!(found, 1);
}

#[test]
fn unknown_syscall() {
    let mut k = kernel_with(CapList::new(), CapList::new());
    k.on_tick().unwrap();
    let r = syscall_outcome(k.syscall(0xf, &args([0; 6]), vec![]));
    assert_eq!(r, Ok(CallReturn::Return { ret: SyscallReturn::from_error(abi::Error::Unknown(0xf)) }));
}

#[test]
fn complete_writes_return_word() {
    let mut k = kernel_with(CapList::new(), CapList::new());
    k.on_tick().unwrap();
    let ret = SyscallReturn::of_type(SyscallReturnType::Copy).with_len(7);
    let p = k.complete(ThreadRef(1), CallReturn::Return { ret }).unwrap();
    assert!(p.is_none());
    let t = k.scheduler.get_tcb(ThreadRef(1)).unwrap();
    assert_eq!(t.saved_state.args.arg1, ret.0 as u32 as usize);
    let p = k.complete(ThreadRef(1), CallReturn::Replace { next_thread: ThreadRef(2) }).unwrap().unwrap();
    assert_eq!(p.slots.len(), 8);
    assert_eq!(p.slots[2].rlar & 1, 0);
    assert_eq!(p.slots[0].rbar & !0x1f, flash(2) as u32);
}

#[test]
fn page_loan_leaves_sender_regions() {
    let (caps1, cap) = endpoint_caps(2, 1);
    let mut k = kernel_with(caps1, CapList::new());
    k.on_tick().unwrap();
    let page = ram(1) + 0x100;
    let r = sys(&mut k, SyscallFn::Send, SyscallDataType::Page, [page, 0x20, cap.0, 0, 0, 0], vec![]).unwrap();
    assert!(matches!(r, CallReturn::Return { .. }));
    assert!(!k.tasks[1].region_table.permits(page, 1, k5::regions::RegionAttrs::empty()));
    assert!(k.tasks[1].region_table.permits(ram(1), 0x100, k5::regions::RegionAttrs::empty()));
    assert_eq!(k.scheduler.get_tcb(ThreadRef(2)).unwrap().req_queue.len(), 1);
}

#[test]
fn input_range_only_for_readable_copy() {
    let mut k = kernel_with(CapList::new(), CapList::new());
    k.on_tick().unwrap();
    let send = syscall_index(SyscallFn::Send, SyscallDataType::Copy);
    assert_eq!(k.input_range(send, &args([ram(1), 8, 0, 0, 0, 0])), Some((ram(1), 8)));
    assert_eq!(k.input_range(send, &args([0xE000_ED00, 4, 0, 0, 0, 0])), None);
    let page = syscall_index(SyscallFn::Send, SyscallDataType::Page);
    assert_eq!(k.input_range(page, &args([ram(1), 8, 0, 0, 0, 0])), None);
}

#[test]
fn spawn_prepares_first_frame_and_wipe() {
    let k = kernel_with(CapList::new(), CapList::new());
    let t = k.scheduler.get_tcb(ThreadRef(1)).unwrap();
    assert_eq!(t.stack_pointer, ram(1) + 0x900);
    let b = t.boot_frame.expect("frame");
    assert_eq!(b.addr, ram(1) + 0x900 - k5::tcb::FRAME_SIZE);
    assert_eq!(b.frame.pc, (flash(1) | 1) as u32);
    assert_eq!(b.frame.xpsr, k5::tcb::INITIAL_PSR);
    assert_eq!(b.frame.lr, 0xFFFF_FFFF);
    assert_eq!(t.saved_state.psp, b.addr);
    assert_eq!(t.saved_state.exc_return, k5::tcb::EXC_RETURN);
    // every task started out pending, so its RAM (which holds its stack) is to be wiped
    assert_eq!(k.wipes.len(), 3);
    assert_eq!(k.wipes[1].start, ram(1));
}

#[test]
fn page_loan_granted_then_reclaimed_on_reply() {
    let (caps2, cap) = endpoint_caps(1, 1);
    let mut k = kernel_with(CapList::new(), caps2);
    k.on_tick().unwrap();
    sys(&mut k, SyscallFn::Recv, SyscallDataType::Page, [0, 0, 1, ram(1) + 0x40, 0, 0], vec![]).unwrap();
    assert_eq!(current(&k), 2);
    let page = ram(2) + 0x100;
    let r = sys(&mut k, SyscallFn::Call, SyscallDataType::Page, [page, 0x20, cap.0, ram(2) + 0x40, ram(2) + 0x10, 3], vec![]).unwrap();
    assert!(matches!(r, CallReturn::Switch { .. }));
    let rw = RegionAttrs::of(k5::regions::RegionAttr::Read).with(k5::regions::RegionAttr::Write);
    assert!(!k.tasks[2].region_table.permits(page, 0x20, RegionAttrs::empty()));
    assert!(k.tasks[1].region_table.permits(page, 0x20, rw));
    let reply = {
        let a = k.scheduler.get_tcb(ThreadRef(1)).unwrap();
        let d = a.delivered.as_ref().unwrap();
        assert_eq!(d.resp.inner, RecvRespInner::Page { addr: page, len: 0x20 });
        d.resp.cap.unwrap()
    };
    let r = sys(&mut k, SyscallFn::Send, SyscallDataType::Copy, [ram(1), 3, reply.0, 0, 0, 0], vec![4, 5, 6]).unwrap();
    assert!(matches!(r, CallReturn::Return { .. }));
    assert!(!k.tasks[1].region_table.permits(page, 1, RegionAttrs::empty()));
    assert!(k.tasks[2].region_table.permits(page, 0x20, rw));
    assert_eq!(k.scheduler.get_tcb(ThreadRef(2)).unwrap().delivered.as_ref().unwrap().body, vec![4, 5, 6]);
}

#[test]
fn send_waking_higher_priority_switches() {
    let mut k = Kernel::from_tasks(&vec![desc(0), desc(1), desc(2)]).unwrap();
    k.spawn_thread(TaskRef(0), 0, usize::MAX, 0, flash(0), CapList::new()).unwrap();
    k.spawn_thread(TaskRef(1), 7, 5, 6, flash(1), CapList::new()).unwrap();
    let (caps2, cap) = endpoint_caps(1, 1);
    k.spawn_thread(TaskRef(2), 3, 5, 1, flash(2), caps2).unwrap();
    k.on_tick().unwrap();
    assert_eq!(current(&k), 1);
    sys(&mut k, SyscallFn::Recv, SyscallDataType::Copy, [ram(1) + 0x10, 2, 1, ram(1) + 0x40, 0, 0], vec![]).unwrap();
    assert_eq!(current(&k), 2);
    let r = sys(&mut k, SyscallFn::Send, SyscallDataType::Copy, [ram(2), 2, cap.0, 0, 0, 0], vec![7, 7]).unwrap();
    assert_eq!(
        r,
        CallReturn::Switch { next_thread: ThreadRef(1), ret: SyscallReturn::of_type(SyscallReturnType::Copy) }
    );
    assert_eq!(current(&k), 1);
    // the preempted sender is back in the ready queue
    assert_eq!(k.scheduler.wait_queue.last().unwrap().tcb_ref, ThreadRef(2));
    let p = k.complete(ThreadRef(2), r).unwrap().unwrap();
    assert_eq!(p.slots[0].rbar & !0x1f, flash(1) as u32);
    // the sender runs again once the receiver blocks
    sys(&mut k, SyscallFn::Recv, SyscallDataType::Copy, [ram(1) + 0x10, 2, 1, ram(1) + 0x40, 0, 0], vec![]).unwrap();
    assert_eq!(current(&k), 2);
}

#[test]
fn tick_preemption_requeues_running_thread() {
    let mut k = Kernel::from_tasks(&vec![desc(0), desc(1), desc(2)]).unwrap();
    k.spawn_thread(TaskRef(0), 0, usize::MAX, 0, flash(0), CapList::new()).unwrap();
    k.spawn_thread(TaskRef(1), 7, 1, 2, flash(1), CapList::new()).unwrap();
    k.spawn_thread(TaskRef(2), 3, 10, 1, flash(2), CapList::new()).unwrap();
    k.on_tick().unwrap();
    assert_eq!(current(&k), 1);
    k.on_tick().unwrap(); // thread 1 used its one tick
    assert_eq!(current(&k), 2);
    k.on_tick().unwrap();
    k.on_tick().unwrap(); // cooldown over: thread 1 preempts thread 2
    assert_eq!(current(&k), 1);
    assert!(k.scheduler.wait_queue.iter().any(|e| e.tcb_ref == ThreadRef(2)));
}

use k5::abi::{Cap, CapRef, Endpoint, ThreadRef};
use k5::caps::CapList;
use k5::kernel::Kernel;
use k5::regions::RegionTable;
use k5::task::{StackRange, Task, TaskRef};
use k5::tcb::{IpcBody, RecvOut, RecvReq, Tcb};

fn test_kernel() -> Kernel {
    let mut kernel = Kernel::new(vec![
        Task::new(RegionTable::new(), 100, StackRange { start: 0, end: 200 }, 1, false),
        Task::new(RegionTable::new(), 100, StackRange { start: 0, end: 200 }, 1, false),
    ])
    .unwrap();
    let idle = Tcb::new(TaskRef(0), 0, 0, usize::MAX, 0, 0, 0, CapList::new());
    kernel.scheduler.spawn(idle).unwrap();
    kernel.scheduler.tick().unwrap();
    kernel
}

#[test]
fn test_simple_tick_schedule() {
    let mut kernel = test_kernel();
    let a = Tcb::new(TaskRef(1), 0, 7, 5, 6, 0, 0, CapList::new());
    let b = Tcb::new(TaskRef(2), 0, 7, 3, 3, 0, 0, CapList::new());
    kernel.scheduler.spawn(a).unwrap();
    kernel.scheduler.spawn(b).unwrap();
    for _ in 0..5 {
        let next = kernel.scheduler.tick().unwrap().expect("should switch to a");
        assert_eq!(next.0, 1, "should switch to a");
        for _ in 0..4 {
            let next = kernel.scheduler.tick().unwrap();
            assert_eq!(next, None);
        }
        let next = kernel.scheduler.tick().unwrap().expect("should switch to b");
        assert_eq!(next.0, 2);
        for _ in 0..2 {
            let next = kernel.scheduler.tick().unwrap();
            assert_eq!(next, None);
        }
        let next = kernel.scheduler.tick().unwrap().expect("should switch to idle");
        assert_eq!(next.0, 0);
        for _ in 0..2 {
            let next = kernel.scheduler.tick().unwrap();
            assert_eq!(next, None);
        }
        let next = kernel.scheduler.tick().unwrap().expect("should switch to b");
        assert_eq!(next.0, 2);
        for _ in 0..2 {
            let next = kernel.scheduler.tick().unwrap();
            assert_eq!(next, None);
        }
    }
}

#[test]
fn test_send_schedule() {
    let mut kernel = test_kernel();
    let a = Tcb::new(TaskRef(1), 0, 7, 5, 6, 0, 0, CapList::new());
    let mut b = Tcb::new(TaskRef(2), 0, 7, 3, 3, 0, 0, CapList::new());
    let cap_ref = b
        .add_cap(Cap::Endpoint(Endpoint { tcb_ref: ThreadRef(1), addr: 1, disposable: false }))
        .unwrap();
    kernel.scheduler.spawn(a).unwrap();
    kernel.scheduler.spawn(b).unwrap();
    let next = kernel.scheduler.tick().unwrap().expect("should switch to a");
    assert_eq!(next.0, 1, "should switch to a");
    let next = kernel
        .scheduler
        .wait(RecvReq { mask: 0x1, resp_addr: 1, out: RecvOut::Buf { addr: 1, len: 10 } }, false)
        .unwrap();
    assert_eq!(next.0, 2, "should switch to b");
    let msg = [1u8, 2, 3];
    kernel.send(cap_ref, msg.to_vec()).expect("send failed");
    for _ in 0..2 {
        let next = kernel.scheduler.tick().unwrap();
        assert_eq!(next, None);
    }
    let next = kernel.scheduler.tick().unwrap().expect("should switch to a");
    assert_eq!(next.0, 1, "should switch to a");
}

#[test]
fn test_call_schedule() {
    let mut kernel = test_kernel();
    let a = Tcb::new(TaskRef(1), 0, 7, 5, 6, 0, 0, CapList::new());
    let mut b = Tcb::new(TaskRef(2), 0, 7, 3, 3, 0, 0, CapList::new());
    let cap_ref: CapRef = b
        .add_cap(Cap::Endpoint(Endpoint { tcb_ref: ThreadRef(1), addr: 1, disposable: false }))
        .unwrap();
    kernel.scheduler.spawn(a).unwrap();
    kernel.scheduler.spawn(b).unwrap();
    let next = kernel.scheduler.tick().unwrap().expect("should switch to a");
    assert_eq!(next.0, 1, "should switch to a");
    let next = kernel
        .scheduler
        .wait(RecvReq { mask: 0x1, resp_addr: 0, out: RecvOut::Buf { addr: 0, len: 0 } }, false)
        .unwrap();
    assert_eq!(next.0, 2, "should switch to b");
    let msg = vec![1u8, 2, 3];
    let next = kernel
        .call(cap_ref, IpcBody::Buf(msg), RecvOut::Buf { addr: 0, len: 0 }, 0)
        .expect("send failed");
    assert_eq!(next.0, 1, "should switch to a");
}

#[test]
fn test_alloc_stack() {
    let mut task = Task::new(RegionTable::new(), 10, StackRange { start: 0, end: 50 }, 0, false);
    for i in 1..=5 {
        assert_eq!(task.alloc_stack(), Some(i * 10));
    }
    assert_eq!(task.alloc_stack(), None);
    task.make_stack_available(0);
    assert_eq!(task.alloc_stack(), Some(10));
    task.make_stack_available(10);
    assert_eq!(task.alloc_stack(), Some(20));
    task.make_stack_available(40);
    assert_eq!(task.alloc_stack(), Some(50));
}

#[test]
fn task_lookup() {
    let kernel = test_kernel();
    assert_eq!(kernel.task(TaskRef(1)).unwrap().stack_size, 100);
    assert!(matches!(kernel.task(TaskRef(2)), Err(k5::KernelError::InvalidTaskRef)));
}

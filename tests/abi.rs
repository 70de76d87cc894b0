use k5::abi::{
    decode_index, syscall_index, Error, SyscallDataType, SyscallFn, SyscallReturn, SyscallReturnType, ThreadRef,
};
use k5::caps::CapList;
use k5::abi::{Cap, CapListEntry, CapRef, Connect, Endpoint, Listen, RecvResp, RecvRespInner};
use k5::registry::Registry;
use k5::syscalls::log_record;
use k5::tcb::SavedThreadState;
use k5::KernelError;

#[test]
fn index_round_trip() {
    let fns = [
        SyscallFn::Send,
        SyscallFn::Call,
        SyscallFn::Recv,
        SyscallFn::Log,
        SyscallFn::Panik,
        SyscallFn::Caps,
        SyscallFn::Connect,
        SyscallFn::Listen,
    ];
    let tys = [SyscallDataType::Short, SyscallDataType::Copy, SyscallDataType::Page];
    for f in fns {
        for t in tys {
            assert_eq!(decode_index(syscall_index(f, t)), Some((f, t)));
        }
    }
    assert_eq!(syscall_index(SyscallFn::Listen, SyscallDataType::Page), 9 | (2 << 4));
    assert_eq!(decode_index(4), None);
    assert_eq!(decode_index(1 | (3 << 4)), None);
    assert_eq!(SyscallFn::try_from_bits(8), Some(SyscallFn::Connect));
    assert_eq!(SyscallFn::Caps.into_bits(), 7);
    assert_eq!(SyscallDataType::try_from_bits(3), None);
}

#[test]
fn return_word_fields() {
    let r = SyscallReturn::new().with_type(SyscallReturnType::Copy).with_len(0x3f_ffff).with_ptr(0xdead_beef);
    assert_eq!(r.get_type(), SyscallReturnType::Copy);
    assert_eq!(r.get_len(), 0x3f_ffff);
    assert_eq!(r.get_ptr(), 0xdead_beef);
    assert_eq!(r.0, 3 | (0x3f_ffff << 2) | (0xdead_beef << 24));
    let (hi, lo) = r.split();
    assert_eq!(((hi as u64) << 32) | lo as u64, r.0);
    assert_eq!(SyscallReturnType::try_from_bits(2), Some(SyscallReturnType::Page));
    assert_eq!(SyscallReturnType::try_from_bits(4), None);
}

#[test]
fn error_codes() {
    assert_eq!(Error::BadAccess.code(), 2);
    assert_eq!(Error::InvalidCap.code(), 5);
    assert_eq!(Error::from_code(4), Error::PortNotOpen);
    assert_eq!(Error::from_code(1), Error::ReturnTypeMismatch);
    assert_eq!(Error::from_code(3), Error::BufferOverflow);
    assert_eq!(Error::from_code(9), Error::Unknown(9));
    let r = SyscallReturn::from_error(Error::BufferOverflow);
    assert_eq!(r.get_type(), SyscallReturnType::Error);
    assert_eq!(r.get_len(), 3);
    assert_eq!(r.0, 3 << 2);
    assert_eq!(ThreadRef::idle(), ThreadRef(0));
    assert_eq!(KernelError::from_abi(Error::BadAccess), KernelError::ABI(Error::BadAccess));
}

#[test]
fn saved_state_return_registers() {
    let mut s = SavedThreadState::new();
    s.args.arg3 = 42;
    s.set_syscall_return(SyscallReturn(0x1234_5678_9abc_def0));
    assert_eq!(s.syscall_args().arg1, 0x9abc_def0);
    assert_eq!(s.syscall_args().arg2, 0x1234_5678);
    assert_eq!(s.syscall_args().arg3, 42);
}

#[test]
fn disposable_endpoint_is_single_use() {
    let mut caps = CapList::new();
    let e = Endpoint { tcb_ref: ThreadRef(3), addr: 0x8000_0001, disposable: true };
    let keep = caps.add(Cap::Endpoint(Endpoint { tcb_ref: ThreadRef(1), addr: 1, disposable: false })).unwrap();
    let r = caps.add(Cap::Endpoint(e)).unwrap();
    assert_eq!(caps.endpoint(r), Ok(e));
    assert_eq!(caps.endpoint(r), Err(KernelError::ABI(Error::InvalidCap)));
    assert!(caps.endpoint(keep).is_ok());
    assert!(caps.endpoint(keep).is_ok());
    assert_eq!(caps.len(), 1);
    // refs are never handed out twice
    let again = caps.add(Cap::Notification).unwrap();
    assert_ne!(again, r);
    assert_eq!(caps.cap(r), Err(KernelError::ABI(Error::InvalidCap)));
    assert_eq!(caps.cap(again), Ok(Cap::Notification));
    let listen = caps.add(Cap::Listen(Listen { port: [1; 16] })).unwrap();
    assert_eq!(caps.endpoint(listen), Err(KernelError::ABI(Error::InvalidCap)));
    assert_eq!(caps.list(2).len(), 2);
    assert_eq!(caps.list(10).len(), 3);
    assert_eq!(CapRef(1), keep);
}

#[test]
fn registry_listen_connect_close() {
    let mut reg = Registry::new();
    let e = Endpoint { tcb_ref: ThreadRef(2), addr: 0, disposable: false };
    let port = *b"0123456789abcdef";
    assert_eq!(reg.connect(Connect { port }), Err(Error::PortNotOpen));
    assert_eq!(reg.listen(Listen { port }, e), Ok(()));
    assert_eq!(reg.connect(Connect { port }), Ok(e));
    assert_eq!(reg.listen(Listen { port }, e), Err(Error::BufferOverflow));
    assert_eq!(reg.len(), 1);
    for i in 1..8u8 {
        assert_eq!(reg.listen(Listen { port: [i; 16] }, e), Ok(()));
    }
    assert_eq!(reg.len(), 8);
    assert_eq!(reg.listen(Listen { port: [9; 16] }, e), Err(Error::BufferOverflow));
    assert_eq!(reg.close(port), Ok(()));
    assert_eq!(reg.close(port), Err(Error::BufferOverflow));
    assert_eq!(reg.connect(Connect { port }), Err(Error::PortNotOpen));
    assert_eq!(reg.listen(Listen { port: [9; 16] }, e), Ok(()));
}

#[test]
fn log_record_framing() {
    assert_eq!(log_record(3, &vec![7, 8, 9]), vec![3, 3, 7, 8, 9]);
    assert_eq!(log_record(0, &vec![]), vec![0, 0]);
}

#[test]
fn user_record_words() {
    let r = RecvResp { cap: Some(CapRef(4)), inner: RecvRespInner::Copy(3) };
    assert_eq!(r.to_words(), vec![4, 0, 3, 0]);
    let r = RecvResp { cap: None, inner: RecvRespInner::Page { addr: 0x2000_0100, len: 32 } };
    assert_eq!(r.to_words(), vec![0, 1, 0x2000_0100, 32]);
    let mut port = [0u8; 16];
    port[0] = 1;
    port[8] = 2;
    port[15] = 0xff;
    let e = CapListEntry { cap_ref: CapRef(7), desc: Cap::Listen(Listen { port }) };
    assert_eq!(e.to_words(), vec![7, 1, 1, 2 | (0xff << 56)]);
    let e = CapListEntry {
        cap_ref: CapRef(2),
        desc: Cap::Endpoint(Endpoint { tcb_ref: ThreadRef(5), addr: 0x8000_0001, disposable: true }),
    };
    assert_eq!(e.to_words(), vec![2, 0, 5, 0x8000_0001 | (1 << 63)]);
}

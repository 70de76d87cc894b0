//! The user/kernel interface: syscall indices, argument and return words,
//! error codes and the capability descriptors handed to user space.
use vstd::prelude::*;

verus! {

/// A 16-byte rendezvous name, compared for equality only.
pub type PortId = [u8; 16];

/// Index of a thread control block in the kernel's TCB table.
#[derive(Clone, Copy, Debug, PartialEq, Eq, Structural)]
pub struct ThreadRef(pub usize);

impl ThreadRef {
    /// The idle thread, which always occupies slot zero.
    pub fn idle() -> (r: ThreadRef)
        ensures
            r.0 == 0,
    {
        ThreadRef(0)
    }
}

/// A user-visible handle naming one capability of the calling thread.
#[derive(Clone, Copy, Debug, PartialEq, Eq, Structural)]
pub struct CapRef(pub usize);

/// The right to send to thread `tcb_ref` at address label `addr`.
#[derive(Clone, Copy, Debug, PartialEq, Eq)]
pub struct Endpoint {
    pub tcb_ref: ThreadRef,
    pub addr: usize,
    pub disposable: bool,
}

/// The right to register as the owner of a port.
#[derive(Clone, Copy, Debug, PartialEq, Eq)]
pub struct Listen {
    pub port: PortId,
}

/// The right to look up the owner of a port.
#[derive(Clone, Copy, Debug, PartialEq, Eq)]
pub struct Connect {
    pub port: PortId,
}

/// A capability held by a thread.
#[derive(Clone, Copy, Debug, PartialEq, Eq)]
pub enum Cap {
    Endpoint(Endpoint),
    Listen(Listen),
    Connect(Connect),
    Notification,
}

/// One entry of the list returned by the `Caps` syscall.
#[derive(Clone, Copy, Debug, PartialEq, Eq)]
pub struct CapListEntry {
    pub cap_ref: CapRef,
    pub desc: Cap,
}

/// How a received body reached the receiver.
#[derive(Clone, Copy, Debug, PartialEq, Eq)]
pub enum RecvRespInner {
    /// The body was copied into the out-buffer; it has this many bytes.
    Copy(usize),
    /// The sender loaned the memory `addr .. addr + len`.
    Page { addr: usize, len: usize },
}

/// The response header written for a completed receive.
#[derive(Clone, Copy, Debug, PartialEq, Eq)]
pub struct RecvResp {
    pub cap: Option<CapRef>,
    pub inner: RecvRespInner,
}

/// The four words of a response header in user memory: the reply cap-ref
/// (zero for none; refs start at one), the transport (0 copy, 1 page), and
/// the copied length, or the loaned page's address and length.
pub open spec fn recv_resp_words(r: RecvResp) -> Seq<u64> {
    let cap = match r.cap {
        Some(c) => c.0 as u64,
        None => 0u64,
    };
    match r.inner {
        RecvRespInner::Copy(len) => seq![cap, 0u64, len as u64, 0u64],
        RecvRespInner::Page { addr, len } => seq![cap, 1u64, addr as u64, len as u64],
    }
}

impl RecvResp {
    /// The header as the words written to user memory.
    pub fn to_words(&self) -> (r: Vec<u64>)
        ensures
            r@ == recv_resp_words(*self),
    {
        let cap: u64 = match self.cap {
            Some(c) => c.0 as u64,
            None => 0,
        };
        match self.inner {
            RecvRespInner::Copy(len) => vec![cap, 0, len as u64, 0],
            RecvRespInner::Page { addr, len } => vec![cap, 1, addr as u64, len as u64],
        }
    }
}

/// Eight bytes of a port name as a little-endian word.
pub open spec fn port_word(p: PortId, base: int) -> u64 {
    (p[base] as u64) | ((p[base + 1] as u64) << 8u64) | ((p[base + 2] as u64) << 16u64) | ((p[base + 3] as u64) << 24u64)
        | ((p[base + 4] as u64) << 32u64) | ((p[base + 5] as u64) << 40u64) | ((p[base + 6] as u64) << 48u64)
        | ((p[base + 7] as u64) << 56u64)
}

/// The four words of a capability-list entry in user memory: the cap-ref,
/// the kind (0 endpoint, 1 listen, 2 connect, 3 notification), then for an
/// endpoint its thread and its address with the disposable flag in bit 63,
/// for a port capability the port name as two little-endian words.
pub open spec fn cap_entry_words(e: CapListEntry) -> Seq<u64> {
    match e.desc {
        Cap::Endpoint(ep) => seq![e.cap_ref.0 as u64, 0u64, ep.tcb_ref.0 as u64,
            (ep.addr as u64 & 0x7fff_ffff_ffff_ffffu64) | (if ep.disposable { 0x8000_0000_0000_0000u64 } else { 0u64 })],
        Cap::Listen(l) => seq![e.cap_ref.0 as u64, 1u64, port_word(l.port, 0), port_word(l.port, 8)],
        Cap::Connect(c) => seq![e.cap_ref.0 as u64, 2u64, port_word(c.port, 0), port_word(c.port, 8)],
        Cap::Notification => seq![e.cap_ref.0 as u64, 3u64, 0u64, 0u64],
    }
}

fn port_word_exec(p: &PortId, base: usize) -> (r: u64)
    requires
        base + 8 <= 16,
    ensures
        r == port_word(*p, base as int),
{
    (p[base] as u64) | ((p[base + 1] as u64) << 8u64) | ((p[base + 2] as u64) << 16u64) | ((p[base + 3] as u64) << 24u64)
        | ((p[base + 4] as u64) << 32u64) | ((p[base + 5] as u64) << 40u64) | ((p[base + 6] as u64) << 48u64)
        | ((p[base + 7] as u64) << 56u64)
}

impl CapListEntry {
    /// The entry as the words written to user memory.
    pub fn to_words(&self) -> (r: Vec<u64>)
        ensures
            r@ == cap_entry_words(*self),
    {
        let id = self.cap_ref.0 as u64;
        match self.desc {
            Cap::Endpoint(ep) => {
                let flag: u64 = if ep.disposable { 0x8000_0000_0000_0000 } else { 0 };
                vec![id, 0, ep.tcb_ref.0 as u64, (ep.addr as u64 & 0x7fff_ffff_ffff_ffff) | flag]
            },
            Cap::Listen(l) => vec![id, 1, port_word_exec(&l.port, 0), port_word_exec(&l.port, 8)],
            Cap::Connect(c) => vec![id, 2, port_word_exec(&c.port, 0), port_word_exec(&c.port, 8)],
            Cap::Notification => vec![id, 3, 0, 0],
        }
    }
}

/// The syscall functions.
#[derive(Clone, Copy, Debug, PartialEq, Eq, Structural)]
pub enum SyscallFn {
    Send,
    Call,
    Recv,
    Log,
    Panik,
    Caps,
    Connect,
    Listen,
}

impl SyscallFn {
    pub open spec fn bits(self) -> u32 {
        match self {
            SyscallFn::Send => 1,
            SyscallFn::Call => 2,
            SyscallFn::Recv => 3,
            SyscallFn::Log => 5,
            SyscallFn::Panik => 6,
            SyscallFn::Caps => 7,
            SyscallFn::Connect => 8,
            SyscallFn::Listen => 9,
        }
    }

    pub open spec fn from_bits_spec(bits: u32) -> Option<SyscallFn> {
        if bits == 1 {
            Some(SyscallFn::Send)
        } else if bits == 2 {
            Some(SyscallFn::Call)
        } else if bits == 3 {
            Some(SyscallFn::Recv)
        } else if bits == 5 {
            Some(SyscallFn::Log)
        } else if bits == 6 {
            Some(SyscallFn::Panik)
        } else if bits == 7 {
            Some(SyscallFn::Caps)
        } else if bits == 8 {
            Some(SyscallFn::Connect)
        } else if bits == 9 {
            Some(SyscallFn::Listen)
        } else {
            None
        }
    }

    pub fn try_from_bits(bits: u32) -> (r: Option<SyscallFn>)
        ensures
            r == Self::from_bits_spec(bits),
            r matches Some(f) ==> f.bits() == bits,
    {
        if bits == 1 {
            Some(SyscallFn::Send)
        } else if bits == 2 {
            Some(SyscallFn::Call)
        } else if bits == 3 {
            Some(SyscallFn::Recv)
        } else if bits == 5 {
            Some(SyscallFn::Log)
        } else if bits == 6 {
            Some(SyscallFn::Panik)
        } else if bits == 7 {
            Some(SyscallFn::Caps)
        } else if bits == 8 {
            Some(SyscallFn::Connect)
        } else if bits == 9 {
            Some(SyscallFn::Listen)
        } else {
            None
        }
    }

    pub fn into_bits(self) -> (r: u32)
        ensures
            r == self.bits(),
            Self::from_bits_spec(r) == Some(self),
    {
        match self {
            SyscallFn::Send => 1,
            SyscallFn::Call => 2,
            SyscallFn::Recv => 3,
            SyscallFn::Log => 5,
            SyscallFn::Panik => 6,
            SyscallFn::Caps => 7,
            SyscallFn::Connect => 8,
            SyscallFn::Listen => 9,
        }
    }
}

/// How the body of a syscall is carried.
#[derive(Clone, Copy, Debug, PartialEq, Eq, Structural)]
pub enum SyscallDataType {
    Short,
    Copy,
    Page,
}

impl SyscallDataType {
    pub open spec fn bits(self) -> u32 {
        match self {
            SyscallDataType::Short => 0,
            SyscallDataType::Copy => 1,
            SyscallDataType::Page => 2,
        }
    }

    pub open spec fn from_bits_spec(bits: u32) -> Option<SyscallDataType> {
        if bits == 0 {
            Some(SyscallDataType::Short)
        } else if bits == 1 {
            Some(SyscallDataType::Copy)
        } else if bits == 2 {
            Some(SyscallDataType::Page)
        } else {
            None
        }
    }

    pub fn try_from_bits(bits: u32) -> (r: Option<SyscallDataType>)
        ensures
            r == Self::from_bits_spec(bits),
    {
        if bits == 0 {
            Some(SyscallDataType::Short)
        } else if bits == 1 {
            Some(SyscallDataType::Copy)
        } else if bits == 2 {
            Some(SyscallDataType::Page)
        } else {
            None
        }
    }

    pub fn into_bits(self) -> (r: u32)
        ensures
            r == self.bits(),
            Self::from_bits_spec(r) == Some(self),
    {
        match self {
            SyscallDataType::Short => 0,
            SyscallDataType::Copy => 1,
            SyscallDataType::Page => 2,
        }
    }
}

/// The function bits of a syscall index.
pub open spec fn index_fn_bits(index: u32) -> u32 {
    index & 0xf
}

/// The argument-type bits of a syscall index.
pub open spec fn index_arg_bits(index: u32) -> u32 {
    (index >> 4u32) & 0x3
}

/// Packs a function and an argument type into a syscall index.
pub fn syscall_index(f: SyscallFn, ty: SyscallDataType) -> (r: u32)
    ensures
        index_fn_bits(r) == f.bits(),
        index_arg_bits(r) == ty.bits(),
{
    let fb = f.into_bits();
    let tb = ty.into_bits();
    let r = fb | (tb << 4u32);
    assert(((fb | (tb << 4u32)) & 0xf) == fb && (((fb | (tb << 4u32)) >> 4u32) & 0x3) == tb)
        by (bit_vector)
        requires
            fb < 16,
            tb < 4,
    ;
    r
}

/// Splits a syscall index into its function and argument type.
pub fn decode_index(index: u32) -> (r: Option<(SyscallFn, SyscallDataType)>)
    ensures
        r matches Some((f, ty)) ==> f.bits() == index_fn_bits(index) && ty.bits() == index_arg_bits(index)
            && SyscallFn::from_bits_spec(index_fn_bits(index)) == Some(f)
            && SyscallDataType::from_bits_spec(index_arg_bits(index)) == Some(ty),
        r is None <==> SyscallFn::from_bits_spec(index_fn_bits(index)) is None
            || SyscallDataType::from_bits_spec(index_arg_bits(index)) is None,
{
    let f = SyscallFn::try_from_bits(index & 0xf);
    let ty = SyscallDataType::try_from_bits((index >> 4u32) & 0x3);
    match (f, ty) {
        (Some(f), Some(ty)) => Some((f, ty)),
        _ => None,
    }
}

/// The six argument words of a syscall.
#[derive(Clone, Copy, Debug, Default, PartialEq, Eq)]
pub struct SyscallArgs {
    pub arg1: usize,
    pub arg2: usize,
    pub arg3: usize,
    pub arg4: usize,
    pub arg5: usize,
    pub arg6: usize,
}

/// The kind of a syscall's result.
#[derive(Clone, Copy, Debug, PartialEq, Eq, Structural)]
pub enum SyscallReturnType {
    Error,
    Short,
    Page,
    Copy,
}

impl SyscallReturnType {
    pub open spec fn bits(self) -> u64 {
        match self {
            SyscallReturnType::Error => 0,
            SyscallReturnType::Short => 1,
            SyscallReturnType::Page => 2,
            SyscallReturnType::Copy => 3,
        }
    }

    pub open spec fn from_bits_spec(bits: u64) -> SyscallReturnType {
        if bits == 0 {
            SyscallReturnType::Error
        } else if bits == 1 {
            SyscallReturnType::Short
        } else if bits == 2 {
            SyscallReturnType::Page
        } else {
            SyscallReturnType::Copy
        }
    }

    pub fn into_bits(self) -> (r: u64)
        ensures
            r == self.bits(),
            r < 4,
            Self::from_bits_spec(r) == self,
    {
        match self {
            SyscallReturnType::Error => 0,
            SyscallReturnType::Short => 1,
            SyscallReturnType::Page => 2,
            SyscallReturnType::Copy => 3,
        }
    }

    /// Every two-bit value names a return type.
    pub fn try_from_bits(bits: u64) -> (r: Option<SyscallReturnType>)
        ensures
            bits < 4 <==> r is Some,
            r matches Some(t) ==> t == Self::from_bits_spec(bits) && t.bits() == bits,
    {
        if bits == 0 {
            Some(SyscallReturnType::Error)
        } else if bits == 1 {
            Some(SyscallReturnType::Short)
        } else if bits == 2 {
            Some(SyscallReturnType::Page)
        } else if bits == 3 {
            Some(SyscallReturnType::Copy)
        } else {
            None
        }
    }
}

/// Errors reported to user space.
#[derive(Clone, Copy, Debug, PartialEq, Eq, Structural)]
pub enum Error {
    ReturnTypeMismatch,
    BadAccess,
    BufferOverflow,
    PortNotOpen,
    InvalidCap,
    Unknown(u8),
}

impl Error {
    pub open spec fn code_spec(self) -> u8 {
        match self {
            Error::ReturnTypeMismatch => 1,
            Error::BadAccess => 2,
            Error::BufferOverflow => 3,
            Error::PortNotOpen => 4,
            Error::InvalidCap => 5,
            Error::Unknown(c) => c,
        }
    }

    pub open spec fn from_code_spec(code: u8) -> Error {
        if code == 1 {
            Error::ReturnTypeMismatch
        } else if code == 2 {
            Error::BadAccess
        } else if code == 3 {
            Error::BufferOverflow
        } else if code == 4 {
            Error::PortNotOpen
        } else if code == 5 {
            Error::InvalidCap
        } else {
            Error::Unknown(code)
        }
    }

    /// The one-byte code of an error.
    pub fn code(self) -> (r: u8)
        ensures
            r == self.code_spec(),
    {
        match self {
            Error::ReturnTypeMismatch => 1,
            Error::BadAccess => 2,
            Error::BufferOverflow => 3,
            Error::PortNotOpen => 4,
            Error::InvalidCap => 5,
            Error::Unknown(c) => c,
        }
    }

    /// The error that a one-byte code denotes.
    pub fn from_code(code: u8) -> (r: Error)
        ensures
            r == Self::from_code_spec(code),
            r.code_spec() == code,
    {
        if code == 1 {
            Error::ReturnTypeMismatch
        } else if code == 2 {
            Error::BadAccess
        } else if code == 3 {
            Error::BufferOverflow
        } else if code == 4 {
            Error::PortNotOpen
        } else if code == 5 {
            Error::InvalidCap
        } else {
            Error::Unknown(code)
        }
    }
}

/// Decoding the code of a named error gives that error back.
pub proof fn lemma_error_code_round_trip(e: Error)
    requires
        !(e is Unknown),
    ensures
        Error::from_code_spec(e.code_spec()) == e,
{
}

/// Largest value of the length field of a return word.
pub const SYSCALL_LEN_MAX: u64 = 0x3f_ffff;

/// Largest value of the pointer field of a return word.
pub const SYSCALL_PTR_MAX: u64 = 0xffff_ffff;

/// The 64-bit result word of a syscall: two bits of type, 22 bits of length and
/// 32 bits of pointer, from the least significant bit up.
#[derive(Clone, Copy, Debug, PartialEq, Eq, Structural)]
pub struct SyscallReturn(pub u64);

pub open spec fn ret_type_field(w: u64) -> u64 {
    w & 0x3
}

pub open spec fn ret_len_field(w: u64) -> u64 {
    (w >> 2u64) & 0x3f_ffff
}

pub open spec fn ret_ptr_field(w: u64) -> u64 {
    (w >> 24u64) & 0xffff_ffff
}

pub open spec fn ret_top_field(w: u64) -> u64 {
    w >> 56u64
}

impl SyscallReturn {
    pub open spec fn ty(self) -> SyscallReturnType {
        SyscallReturnType::from_bits_spec(ret_type_field(self.0))
    }

    pub open spec fn len_field(self) -> u64 {
        ret_len_field(self.0)
    }

    pub open spec fn ptr_field(self) -> u64 {
        ret_ptr_field(self.0)
    }

    pub open spec fn new_spec() -> SyscallReturn {
        SyscallReturn(0)
    }

    /// The word with every field zero.
    pub fn new() -> (r: SyscallReturn)
        ensures
            r == Self::new_spec(),
            r.0 == 0,
            r.ty() == SyscallReturnType::Error,
            r.len_field() == 0,
            r.ptr_field() == 0,
            ret_top_field(r.0) == 0,
    {
        assert(ret_type_field(0) == 0 && ret_len_field(0) == 0 && ret_ptr_field(0) == 0
            && ret_top_field(0) == 0) by (bit_vector);
        SyscallReturn(0)
    }

    /// Replaces the type field.
    pub fn with_type(self, t: SyscallReturnType) -> (r: SyscallReturn)
        ensures
            r.ty() == t,
            ret_type_field(r.0) == t.bits(),
            r.len_field() == self.len_field(),
            r.ptr_field() == self.ptr_field(),
            ret_top_field(r.0) == ret_top_field(self.0),
    {
        let b = t.into_bits();
        let w = self.0;
        let r = (w & !0x3u64) | b;
        assert(ret_type_field((w & !0x3u64) | b) == b && ret_len_field((w & !0x3u64) | b)
            == ret_len_field(w) && ret_ptr_field((w & !0x3u64) | b) == ret_ptr_field(w)
            && ret_top_field((w & !0x3u64) | b) == ret_top_field(w)) by (bit_vector)
            requires
                b < 4,
        ;
        SyscallReturn(r)
    }

    /// Replaces the length field.
    pub fn with_len(self, len: u64) -> (r: SyscallReturn)
        requires
            len <= SYSCALL_LEN_MAX,
        ensures
            r.ty() == self.ty(),
            ret_type_field(r.0) == ret_type_field(self.0),
            r.len_field() == len,
            r.ptr_field() == self.ptr_field(),
            ret_top_field(r.0) == ret_top_field(self.0),
    {
        let w = self.0;
        let r = (w & !0xff_fffcu64) | (len << 2u64);
        assert(ret_type_field((w & !0xff_fffcu64) | (len << 2u64)) == ret_type_field(w)
            && ret_len_field((w & !0xff_fffcu64) | (len << 2u64)) == len && ret_ptr_field(
            (w & !0xff_fffcu64) | (len << 2u64),
        ) == ret_ptr_field(w) && ret_top_field((w & !0xff_fffcu64) | (len << 2u64))
            == ret_top_field(w)) by (bit_vector)
            requires
                len <= 0x3f_ffff,
        ;
        SyscallReturn(r)
    }

    /// Replaces the pointer field.
    pub fn with_ptr(self, ptr: u64) -> (r: SyscallReturn)
        requires
            ptr <= SYSCALL_PTR_MAX,
        ensures
            r.ty() == self.ty(),
            ret_type_field(r.0) == ret_type_field(self.0),
            r.len_field() == self.len_field(),
            r.ptr_field() == ptr,
            ret_top_field(r.0) == ret_top_field(self.0),
    {
        let w = self.0;
        let r = (w & !0xff_ffff_ff00_0000u64) | (ptr << 24u64);
        assert(ret_type_field((w & !0xff_ffff_ff00_0000u64) | (ptr << 24u64)) == ret_type_field(
            w,
        ) && ret_len_field((w & !0xff_ffff_ff00_0000u64) | (ptr << 24u64)) == ret_len_field(w)
            && ret_ptr_field((w & !0xff_ffff_ff00_0000u64) | (ptr << 24u64)) == ptr
            && ret_top_field((w & !0xff_ffff_ff00_0000u64) | (ptr << 24u64)) == ret_top_field(w))
            by (bit_vector)
            requires
                ptr <= 0xffff_ffff,
        ;
        SyscallReturn(r)
    }

    /// Reads the type field.
    pub fn get_type(self) -> (r: SyscallReturnType)
        ensures
            r == self.ty(),
            r.bits() == ret_type_field(self.0),
    {
        let w = self.0;
        let b = w & 0x3;
        assert(b < 4) by (bit_vector)
            requires
                b == w & 0x3,
        ;
        if b == 0 {
            SyscallReturnType::Error
        } else if b == 1 {
            SyscallReturnType::Short
        } else if b == 2 {
            SyscallReturnType::Page
        } else {
            SyscallReturnType::Copy
        }
    }

    /// Reads the length field.
    pub fn get_len(self) -> (r: u64)
        ensures
            r == self.len_field(),
    {
        (self.0 >> 2u64) & 0x3f_ffff
    }

    /// Reads the pointer field.
    pub fn get_ptr(self) -> (r: u64)
        ensures
            r == self.ptr_field(),
    {
        (self.0 >> 24u64) & 0xffff_ffff
    }

    /// The high and low halves of the word.
    pub fn split(self) -> (r: (u32, u32))
        ensures
            r.0 == (self.0 >> 32u64) as u32,
            r.1 == self.0 as u32,
    {
        ((self.0 >> 32u64) as u32, self.0 as u32)
    }

    pub closed spec fn from_error_spec(err: Error) -> SyscallReturn {
        SyscallReturn((err.code_spec() as u64) << 2u64)
    }

    pub closed spec fn of_type_spec(t: SyscallReturnType) -> SyscallReturn {
        SyscallReturn(t.bits())
    }

    /// The error return: type `Error`, the error's code in the length field.
    pub fn from_error(err: Error) -> (r: SyscallReturn)
        ensures
            r == Self::from_error_spec(err),
            r.ty() == SyscallReturnType::Error,
            r.len_field() == err.code_spec() as u64,
            r.ptr_field() == 0,
            r.0 == (err.code_spec() as u64) << 2u64,
    {
        let c = err.code() as u64;
        let r = SyscallReturn::new().with_type(SyscallReturnType::Error).with_len(c);
        let w = r.0;
        assert(w == c << 2u64) by (bit_vector)
            requires
                ret_type_field(w) == 0,
                ret_len_field(w) == c,
                ret_ptr_field(w) == 0,
                ret_top_field(w) == 0,
        ;
        r
    }

    /// A successful return of the given type with empty length and pointer.
    pub fn of_type(t: SyscallReturnType) -> (r: SyscallReturn)
        ensures
            r == Self::of_type_spec(t),
            r.ty() == t,
            r.len_field() == 0,
            r.ptr_field() == 0,
    {
        let r = SyscallReturn::new().with_type(t);
        let w = r.0;
        let b = t.into_bits();
        assert(w == b) by (bit_vector)
            requires
                ret_type_field(w) == b,
                ret_len_field(w) == 0,
                ret_ptr_field(w) == 0,
                ret_top_field(w) == 0,
                b < 4,
        ;
        r
    }
}

/// The error code carried by an error return decodes to the error.
pub proof fn lemma_error_return_decodes(err: Error)
    ensures
        Error::from_code_spec(
            SyscallReturn((err.code_spec() as u64) << 2u64).len_field() as u8,
        ) == err || err is Unknown,
{
    let c = err.code_spec() as u64;
    assert(ret_len_field(c << 2u64) == c) by (bit_vector)
        requires
            c < 256,
    ;
}

} // verus!

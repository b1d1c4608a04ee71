//! The guest/host wire protocol: hypercall opcodes, the shared
//! message slot, and the messages a guest hands the host through it.

use vstd::prelude::*;

verus! {

pub const HYPERCALL_INIT: u16 = 1;
pub const HYPERCALL_PANIC: u16 = 2;
pub const HYPERCALL_WAIT: u16 = 3;
pub const HYPERCALL_LOADIDT: u16 = 4;

pub const ONE_MB: u64 = 0x100_000;
pub const DEFAULT_STACK_SIZE: u64 = 2 * ONE_MB;

/// A guest memory span handed across the protocol.
#[derive(Clone, Default, Debug)]
pub struct Str {
    pub addr: u64,
    pub len: u32,
}

/// A guest-to-host request: text to print, or a generic
/// address/length descriptor.
#[derive(Clone, Debug)]
pub enum Msg {
    Print(String),
    Msg1 { addr: u64, len: u32 },
}

/// The single shared handshake slot between guest and host: the guest
/// address of the current outstanding message.
pub struct ShareSpace {
    pub msgAddr: u64,
}

impl ShareSpace {
    pub fn Init() -> (r: Self)
        ensures
            r.msgAddr == 0,
    {
        ShareSpace { msgAddr: 0 }
    }

    /// Publishes the guest address of the next outstanding message;
    /// the previous one must already have been consumed by the host.
    pub fn SetMsg(&mut self, msgAddr: u64)
        ensures
            final(self).msgAddr == msgAddr,
    {
        self.msgAddr = msgAddr;
    }

    /// The guest address of the outstanding message.
    pub fn GetMsg(&mut self) -> (r: u64)
        ensures
            r == old(self).msgAddr,
            *final(self) == *old(self),
    {
        return self.msgAddr;
    }
}

/// One port write as the hypervisor observes it: the opcode in the
/// port number, a 32-bit payload, and an address operand carried in a
/// general-purpose register.
#[derive(Debug, Copy, Clone, PartialEq, Eq, Structural)]
pub struct HyperCallReq {
    pub port: u16,
    pub value: u32,
    pub addr: u64,
}

/// The port write a hypercall traps to the host with; the guest
/// runtime issues the actual port-output instruction carrying exactly
/// these operands.
pub fn HyperCall(type_: u16, para1: u64) -> (r: HyperCallReq)
    ensures
        r == (HyperCallReq { port: type_, value: 0u32, addr: para1 }),
{
    return HyperCallReq { port: type_, value: 0, addr: para1 };
}

/// A kernel thread's wait for a ready task: a WAIT hypercall with no
/// payload.
pub fn Wait() -> (r: HyperCallReq)
    ensures
        r == (HyperCallReq { port: HYPERCALL_WAIT, value: 0u32, addr: 0u64 }),
{
    HyperCall(HYPERCALL_WAIT, 0)
}

/// The guest kernel's host-service entry points: building a message,
/// publishing it in the shared slot, and trapping to the host.
pub struct Kernel {}

impl Kernel {
    pub fn Init() -> Self {
        return Kernel {  };
    }

    /// The print request for `s`: the message the guest places in
    /// memory before calling `Call` with its address.
    pub fn Print(s: &str) -> (m: Msg)
        ensures
            m matches Msg::Print(t) && t@ == s@,
    {
        let msg = Msg::Print(s.to_owned());
        return msg;
    }

    /// Publishes the message at `msgAddr` and issues the WAIT
    /// hypercall that lets the host consume it.
    pub fn Call(space: &mut ShareSpace, msgAddr: u64) -> (r: HyperCallReq)
        ensures
            final(space).msgAddr == msgAddr,
            r == (HyperCallReq { port: HYPERCALL_WAIT, value: 0u32, addr: 0u64 }),
    {
        space.SetMsg(msgAddr);
        Wait()
    }
}

} // verus!

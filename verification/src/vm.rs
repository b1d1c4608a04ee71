//! The verifiable core of the VM control loop: the register values
//! that enter 64-bit long mode, the pre-agreed guest-physical layout,
//! and the exit-handling state machine of the hypercall protocol.
//!
//! The application owns the virtualization handles; it feeds each VM
//! exit to `RunState::HandleExit` as plain values and performs the
//! action handed back.

use vstd::prelude::*;

use crate::common::Error;
use crate::mem::ONE_GB;
use crate::mem::ONE_MB;
use crate::mem::PHY_UPPER_ADDR;
use crate::mem::STACK_GUARDPAGE_SIZE;
use crate::mem::STACK_SIZE;
use crate::shared::Msg;
use crate::shared::HYPERCALL_INIT;
use crate::shared::HYPERCALL_PANIC;
use crate::shared::HYPERCALL_WAIT;

verus! {

pub const CR0_PE: u64 = 1;
pub const CR0_MP: u64 = 2;
pub const CR0_ET: u64 = 0x10;
pub const CR0_NE: u64 = 0x20;
pub const CR0_WP: u64 = 0x10000;
pub const CR0_AM: u64 = 0x40000;
pub const CR0_PG: u64 = 0x8000_0000;

pub const CR4_PAE: u64 = 0x20;

pub const EFER_SCE: u64 = 1;
pub const EFER_LME: u64 = 0x100;
pub const EFER_LMA: u64 = 0x400;

/// One segment register's descriptor, as the virtualization layer
/// takes it.
#[derive(Debug, Copy, Clone, PartialEq, Eq, Structural)]
pub struct SegmentDesc {
    pub base: u64,
    pub limit: u32,
    pub selector: u16,
    pub type_: u8,
    pub present: u8,
    pub dpl: u8,
    pub db: u8,
    pub s: u8,
    pub l: u8,
    pub g: u8,
    pub avl: u8,
}

/// The special registers the control loop programs; the application
/// copies them over the values the virtualization layer returned.
#[derive(Debug, Copy, Clone, PartialEq, Eq, Structural)]
pub struct SpecialRegs {
    pub cs: SegmentDesc,
    pub ds: SegmentDesc,
    pub es: SegmentDesc,
    pub fs: SegmentDesc,
    pub gs: SegmentDesc,
    pub ss: SegmentDesc,
    pub cr0: u64,
    pub cr3: u64,
    pub cr4: u64,
    pub efer: u64,
}

/// The flat 64-bit code descriptor: execute/read/accessed, long mode,
/// 4 KiB granularity, selector 1.
pub open spec fn code_segment_64bit() -> SegmentDesc {
    SegmentDesc {
        base: 0,
        limit: 0xffffffff,
        selector: 8,
        present: 1,
        type_: 11,
        dpl: 0,
        db: 0,
        s: 1,
        l: 1,
        g: 1,
        avl: 0,
    }
}

/// The matching flat data descriptor: read/write/accessed, selector 2.
pub open spec fn data_segment_64bit() -> SegmentDesc {
    SegmentDesc { type_: 3, selector: 16, ..code_segment_64bit() }
}

/// Installs the flat 64-bit code/data segment pair into every segment
/// register.
pub fn setup_64bit_code_segment(sregs: &mut SpecialRegs)
    ensures
        final(sregs).cs == code_segment_64bit(),
        final(sregs).ds == data_segment_64bit(),
        final(sregs).es == data_segment_64bit(),
        final(sregs).fs == data_segment_64bit(),
        final(sregs).gs == data_segment_64bit(),
        final(sregs).ss == data_segment_64bit(),
        final(sregs).cr0 == old(sregs).cr0,
        final(sregs).cr3 == old(sregs).cr3,
        final(sregs).cr4 == old(sregs).cr4,
        final(sregs).efer == old(sregs).efer,
{
    proof {
        assert(1u16 << 3 == 8u16) by (bit_vector);
        assert(2u16 << 3 == 16u16) by (bit_vector);
    }
    let cs_seg = SegmentDesc {
        base: 0,
        limit: 0xffffffff,
        selector: 1 << 3,
        present: 1,
        type_: 11,  // Code: execute, read, accessed
        dpl: 0,
        db: 0,
        s: 1,  // Code/data
        l: 1,
        g: 1,  // 4KB granularity
        avl: 0,
    };
    let ds_seg = SegmentDesc { type_: 3, selector: 2 << 3, ..cs_seg };
    sregs.cs = cs_seg;
    sregs.ds = ds_seg;
    sregs.es = ds_seg;
    sregs.fs = ds_seg;
    sregs.gs = ds_seg;
    sregs.ss = ds_seg;
}

/// Programs long mode: paging on over the given root, physical
/// address extension, the protection bits the hardware demands, the
/// long-mode and SYSCALL enable bits, and the flat segment pair.
pub fn setup_long_mode(sregs: &mut SpecialRegs, pageTableRoot: u64)
    ensures
        final(sregs).cr3 == pageTableRoot,
        final(sregs).cr4 == CR4_PAE,
        final(sregs).cr0 == CR0_PE + CR0_MP + CR0_ET + CR0_NE + CR0_WP + CR0_AM + CR0_PG,
        final(sregs).efer == EFER_LME + EFER_LMA + EFER_SCE,
        final(sregs).cs == code_segment_64bit(),
        final(sregs).ds == data_segment_64bit(),
        final(sregs).es == data_segment_64bit(),
        final(sregs).fs == data_segment_64bit(),
        final(sregs).gs == data_segment_64bit(),
        final(sregs).ss == data_segment_64bit(),
{
    sregs.cr3 = pageTableRoot;
    sregs.cr4 = CR4_PAE;
    sregs.cr0 = CR0_PE | CR0_MP | CR0_ET | CR0_NE | CR0_WP | CR0_AM | CR0_PG;
    sregs.efer = EFER_LME | EFER_LMA | EFER_SCE;
    proof {
        assert(CR0_PE | CR0_MP | CR0_ET | CR0_NE | CR0_WP | CR0_AM | CR0_PG == CR0_PE + CR0_MP
            + CR0_ET + CR0_NE + CR0_WP + CR0_AM + CR0_PG) by (bit_vector);
        assert(EFER_LME | EFER_LMA | EFER_SCE == EFER_LME + EFER_LMA + EFER_SCE) by (bit_vector);
    }
    setup_64bit_code_segment(sregs);
}

/// The general-purpose registers the vCPU starts with.
#[derive(Debug, Copy, Clone, PartialEq, Eq, Structural)]
pub struct VcpuRegs {
    pub rflags: u64,
    pub rip: u64,
    pub rsp: u64,
    pub rax: u64,
    pub rbx: u64,
    pub rdx: u64,
}

/// The initial register file for early bring-up: reserved-flag bit
/// set, instruction pointer at the kernel entry, stack pointer one
/// below the stack top, and fixed debug values in the remaining
/// registers.
pub fn initial_regs(entry: u64, topStackAddr: u64) -> (r: VcpuRegs)
    requires
        topStackAddr >= 1,
    ensures
        r == (VcpuRegs {
            rflags: 2u64,
            rip: entry,
            rsp: (topStackAddr - 1) as u64,
            rax: 0x11u64,
            rbx: 0xddu64,
            rdx: 0x123u64,
        }),
{
    return VcpuRegs {
        rflags: 2,
        rip: entry,
        rsp: topStackAddr - 1,
        rax: 0x11,
        rbx: 0xdd,
        rdx: 0x123,
    };
}

/// The pre-agreed guest-physical layout of the machine: page-table
/// and kernel memory at the fixed upper address, one memory slot, the
/// guest stack above the first gigabyte behind a guard gap.
#[derive(Debug, Copy, Clone, PartialEq, Eq, Structural)]
pub struct VmLayout {
    pub kernelMemSize: u64,
    pub pageMmapBase: u64,
    pub topStackAddr: u64,
    pub defaultStackAddr: u64,
    pub poolPageCount: u32,
    pub memRegionSize: u64,
}

/// Plans the machine's layout from the kernel image's computed start
/// address. The load address is a hard-coded contract between loader
/// and control loop: an image whose start is not exactly the fixed
/// upper address plus the kernel memory budget is rejected with the
/// fatal address-mismatch error.
pub fn PlanVmLayout(elfStartAddr: u64) -> (r: Result<VmLayout, Error>)
    ensures
        elfStartAddr != PHY_UPPER_ADDR + ONE_GB + 128 * ONE_MB ==> (r matches Err(e)
            && e is AddressDoesMatch),
        elfStartAddr == PHY_UPPER_ADDR + ONE_GB + 128 * ONE_MB ==> (r matches Ok(l) && l == (
        VmLayout {
            kernelMemSize: (ONE_GB + 128 * ONE_MB) as u64,
            pageMmapBase: PHY_UPPER_ADDR,
            topStackAddr: (PHY_UPPER_ADDR + ONE_GB) as u64,
            defaultStackAddr: (PHY_UPPER_ADDR + ONE_GB + STACK_GUARDPAGE_SIZE + STACK_SIZE) as u64,
            poolPageCount: 0x40000u32,
            memRegionSize: (16 * ONE_GB) as u64,
        })),
{
    let kernelMemSize = ONE_GB + 128 * ONE_MB;
    if elfStartAddr != PHY_UPPER_ADDR + kernelMemSize {
        return Err(Error::AddressDoesMatch);
    }
    let topStackAddr = PHY_UPPER_ADDR + ONE_GB;
    return Ok(
        VmLayout {
            kernelMemSize,
            pageMmapBase: PHY_UPPER_ADDR,
            topStackAddr,
            defaultStackAddr: topStackAddr + STACK_GUARDPAGE_SIZE + STACK_SIZE,
            poolPageCount: 256 * 1024,
            memRegionSize: 16 * ONE_GB,
        },
    );
}

/// One reason the vCPU handed control back, as plain values.
#[derive(Debug, Copy, Clone, PartialEq, Eq, Structural)]
pub enum VmExit {
    IoIn { port: u16 },
    IoOut { port: u16, rcx: u64 },
    MmioRead { addr: u64 },
    MmioWrite { addr: u64 },
    Hlt,
    FailEntry,
    Exception,
}

/// What the host must do after an exit: keep running, read the
/// outstanding message from the registered shared space, log that the
/// guest panicked (and keep running, as the current design does),
/// stop normally, or report the fatal entry failure.
#[derive(Debug, Copy, Clone, PartialEq, Eq, Structural)]
pub enum VmAction {
    Continue,
    ReadMsg { shareSpaceAddr: u64 },
    LogPanic,
    Stop,
    Fail,
}

/// What the host does with one consumed message: write its text to
/// standard output, or acknowledge a descriptor.
#[derive(Debug, Clone)]
pub enum MsgAction {
    PrintText(String),
    Ack,
}

/// The host-side state the run loop carries between exits: the
/// guest-supplied shared-space pointer, 0 until the INIT hypercall
/// delivers it.
#[derive(Debug, Copy, Clone, PartialEq, Eq, Structural)]
pub struct RunState {
    pub shareSpaceAddr: u64,
}

impl RunState {
    pub fn New() -> (r: Self)
        ensures
            r.shareSpaceAddr == 0,
    {
        return RunState { shareSpaceAddr: 0 };
    }

    /// Classifies one VM exit. An INIT port write registers the
    /// guest's shared-space pointer; a WAIT port write asks the host
    /// to read the outstanding message through it; a PANIC port write
    /// asks the host to log that the guest panicked (the loop goes
    /// on); port reads, unknown ports, and memory-mapped accesses are
    /// informational; a halt stops the loop and a failed entry aborts
    /// it. A WAIT before any INIT would dereference a null pointer
    /// and is excluded by contract.
    pub fn HandleExit(&mut self, exit: &VmExit) -> (r: VmAction)
        requires
            (*exit matches VmExit::IoOut { port, rcx } && port == HYPERCALL_WAIT) ==> old(
                self,
            ).shareSpaceAddr != 0,
        ensures
            match *exit {
                VmExit::IoOut { port, rcx } => {
                    if port == HYPERCALL_INIT {
                        final(self).shareSpaceAddr == rcx && r is Continue
                    } else if port == HYPERCALL_WAIT {
                        *final(self) == *old(self) && r == (VmAction::ReadMsg {
                            shareSpaceAddr: old(self).shareSpaceAddr,
                        })
                    } else if port == HYPERCALL_PANIC {
                        *final(self) == *old(self) && r is LogPanic
                    } else {
                        *final(self) == *old(self) && r is Continue
                    }
                },
                VmExit::Hlt => *final(self) == *old(self) && r is Stop,
                VmExit::FailEntry => *final(self) == *old(self) && r is Fail,
                _ => *final(self) == *old(self) && r is Continue,
            },
    {
        match *exit {
            VmExit::IoOut { port, rcx } => {
                if port == HYPERCALL_INIT {
                    self.shareSpaceAddr = rcx;
                    VmAction::Continue
                } else if port == HYPERCALL_WAIT {
                    VmAction::ReadMsg { shareSpaceAddr: self.shareSpaceAddr }
                } else if port == HYPERCALL_PANIC {
                    VmAction::LogPanic
                } else {
                    VmAction::Continue
                }
            },
            VmExit::Hlt => VmAction::Stop,
            VmExit::FailEntry => VmAction::Fail,
            VmExit::IoIn { .. } => VmAction::Continue,
            VmExit::MmioRead { .. } => VmAction::Continue,
            VmExit::MmioWrite { .. } => VmAction::Continue,
            VmExit::Exception => VmAction::Continue,
        }
    }
}

/// Dispatches one consumed message: the text of a print request is
/// handed on for standard output exactly as the guest wrote it; any
/// other message is only acknowledged.
pub fn HandleMsg(msg: Msg) -> (r: MsgAction)
    ensures
        msg matches Msg::Print(s) ==> (r matches MsgAction::PrintText(t) && t == s),
        msg matches Msg::Msg1 { addr, len } ==> r is Ack,
{
    match msg {
        Msg::Print(s) => MsgAction::PrintText(s),
        Msg::Msg1 { .. } => MsgAction::Ack,
    }
}

} // verus!

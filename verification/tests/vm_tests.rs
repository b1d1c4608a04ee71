use qvisor::common::Error;
use qvisor::shared::HyperCall;
use qvisor::shared::HyperCallReq;
use qvisor::shared::Kernel;
use qvisor::shared::Msg;
use qvisor::shared::ShareSpace;
use qvisor::shared::Str;
use qvisor::shared::Wait;
use qvisor::shared::HYPERCALL_PANIC;
use qvisor::shared::HYPERCALL_WAIT;
use qvisor::print::k_print;
use qvisor::print::PrintStruct;
use qvisor::vm::initial_regs;
use qvisor::vm::setup_64bit_code_segment;
use qvisor::vm::setup_long_mode;
use qvisor::vm::HandleMsg;
use qvisor::vm::MsgAction;
use qvisor::vm::PlanVmLayout;
use qvisor::vm::RunState;
use qvisor::vm::SegmentDesc;
use qvisor::vm::SpecialRegs;
use qvisor::vm::VmAction;
use qvisor::vm::VmExit;

fn zero_sregs() -> SpecialRegs {
    let z = SegmentDesc {
        base: 0,
        limit: 0,
        selector: 0,
        type_: 0,
        present: 0,
        dpl: 0,
        db: 0,
        s: 0,
        l: 0,
        g: 0,
        avl: 0,
    };
    SpecialRegs { cs: z, ds: z, es: z, fs: z, gs: z, ss: z, cr0: 0, cr3: 0, cr4: 0, efer: 0 }
}

#[test]
fn long_mode_register_values() {
    let mut sregs = zero_sregs();
    setup_long_mode(&mut sregs, 0x100000);
    assert_eq!(sregs.cr3, 0x100000);
    assert_eq!(sregs.cr4, 0x20); // physical address extension
    assert_eq!(sregs.cr0, 0x8005_0033); // PE|MP|ET|NE|WP|AM|PG
    assert_eq!(sregs.efer, 0x501); // LME|LMA|SCE
    assert_eq!(sregs.cs.selector, 8);
    assert_eq!(sregs.cs.type_, 11);
    assert_eq!(sregs.cs.l, 1);
    assert_eq!(sregs.cs.g, 1);
    assert_eq!(sregs.ds.selector, 16);
    assert_eq!(sregs.ds.type_, 3);
    assert_eq!(sregs.es, sregs.ds);
    assert_eq!(sregs.ss, sregs.ds);
}

#[test]
fn segment_setup_leaves_control_registers_alone() {
    let mut sregs = zero_sregs();
    sregs.cr3 = 0x77;
    setup_64bit_code_segment(&mut sregs);
    assert_eq!(sregs.cr3, 0x77);
    assert_eq!(sregs.cs.limit, 0xffffffff);
    assert_eq!(sregs.cs.present, 1);
}

#[test]
fn initial_register_file() {
    let r = initial_regs(0x1010, 0x70_4000_0000);
    assert_eq!(r.rflags, 2);
    assert_eq!(r.rip, 0x1010);
    assert_eq!(r.rsp, 0x70_3fff_ffff);
    assert_eq!(r.rax, 0x11);
    assert_eq!(r.rbx, 0xdd);
    assert_eq!(r.rdx, 0x123);
}

#[test]
fn layout_is_planned_from_the_agreed_load_address() {
    // 7 * 64 GiB plus the 1 GiB + 128 MiB kernel memory budget.
    let agreed = 0x70_0000_0000u64 + 0x4800_0000;
    let l = PlanVmLayout(agreed).unwrap();
    assert_eq!(l.kernelMemSize, 0x4800_0000);
    assert_eq!(l.pageMmapBase, 0x70_0000_0000);
    assert_eq!(l.topStackAddr, 0x70_4000_0000);
    assert_eq!(l.defaultStackAddr, 0x70_4080_0000);
    assert_eq!(l.poolPageCount, 0x40000);
    assert_eq!(l.memRegionSize, 0x4_0000_0000);
    assert!(matches!(PlanVmLayout(agreed + 0x1000), Err(Error::AddressDoesMatch)));
}

#[test]
fn guest_print_reaches_the_host_output() {
    // The guest issues INIT with its shared-space pointer, then WAIT
    // with a text message: the host's next action is to write exactly
    // that text to standard output, before any further exit is
    // handled.
    let mut state = RunState::New();
    let a = state.HandleExit(&VmExit::IoOut { port: 1, rcx: 0xdead000 });
    assert_eq!(a, VmAction::Continue);
    assert_eq!(state.shareSpaceAddr, 0xdead000);

    let a = state.HandleExit(&VmExit::IoOut { port: HYPERCALL_WAIT, rcx: 0 });
    assert_eq!(a, VmAction::ReadMsg { shareSpaceAddr: 0xdead000 });

    let msg = Kernel::Print("hello");
    match HandleMsg(msg) {
        MsgAction::PrintText(t) => assert_eq!(t, "hello"),
        MsgAction::Ack => panic!("a text message must be printed"),
    }
}

#[test]
fn descriptor_messages_are_only_acknowledged() {
    assert!(matches!(HandleMsg(Msg::Msg1 { addr: 0x100, len: 8 }), MsgAction::Ack));
}

#[test]
fn informational_exits_continue_and_terminal_exits_stop() {
    let mut state = RunState::New();
    assert_eq!(state.HandleExit(&VmExit::IoIn { port: 3 }), VmAction::Continue);
    // A guest panic is reported distinctly, and the loop goes on.
    assert_eq!(
        state.HandleExit(&VmExit::IoOut { port: HYPERCALL_PANIC, rcx: 0 }),
        VmAction::LogPanic
    );
    assert_eq!(state.HandleExit(&VmExit::IoOut { port: 9, rcx: 0 }), VmAction::Continue);
    assert_eq!(state.HandleExit(&VmExit::MmioRead { addr: 0x100 }), VmAction::Continue);
    assert_eq!(state.HandleExit(&VmExit::MmioWrite { addr: 0x100 }), VmAction::Continue);
    assert_eq!(state.HandleExit(&VmExit::Exception), VmAction::Continue);
    assert_eq!(state.HandleExit(&VmExit::Hlt), VmAction::Stop);
    assert_eq!(state.HandleExit(&VmExit::FailEntry), VmAction::Fail);
}

#[test]
fn share_space_holds_the_outstanding_message_address() {
    let mut space = ShareSpace::Init();
    assert_eq!(space.GetMsg(), 0);
    space.SetMsg(0x5000);
    assert_eq!(space.GetMsg(), 0x5000);
}

#[test]
fn hypercalls_carry_their_operands() {
    let r = HyperCall(7, 0x1234);
    assert_eq!(r, HyperCallReq { port: 7, value: 0, addr: 0x1234 });
    assert_eq!(Wait(), HyperCallReq { port: HYPERCALL_WAIT, value: 0, addr: 0 });
}

#[test]
fn kernel_call_publishes_then_waits() {
    let _ = Kernel::Init();
    let mut space = ShareSpace::Init();
    let req = Kernel::Call(&mut space, 0x8000);
    assert_eq!(space.GetMsg(), 0x8000);
    assert_eq!(req.port, HYPERCALL_WAIT);
}

#[test]
fn print_plumbing_builds_print_requests() {
    match k_print("in kernel end....") {
        Msg::Print(s) => assert_eq!(s, "in kernel end...."),
        _ => panic!("print plumbing must build a print request"),
    }
    let mut sink = PrintStruct {};
    match sink.write_str("x") {
        Msg::Print(s) => assert_eq!(s, "x"),
        _ => panic!("write_str must build a print request"),
    }
}

#[test]
fn str_descriptor_defaults() {
    let s = Str::default();
    assert_eq!(s.addr, 0);
    assert_eq!(s.len, 0);
}

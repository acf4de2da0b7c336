use kernel::userspace::{
    entry, handle_syscall, segment_bases, start_user_task, EntryRegs, SavedRegs, SegmentBases,
    SyscallOutcome, UserspaceExit,
};

const INTERRUPT_FLAG: u64 = 1 << 9;

fn numbered() -> SavedRegs {
    SavedRegs {
        rax: 1,
        rbx: 2,
        rcx: 3,
        rdx: 4,
        rdi: 5,
        rsi: 6,
        rbp: 7,
        r8: 8,
        r9: 9,
        r10: 10,
        r11: 11,
        r12: 12,
        r13: 13,
        r14: 14,
        r15: 15,
        rflags: 0x46,
        rip: 17,
        rsp: 18,
    }
}

fn at_entry() -> EntryRegs {
    EntryRegs {
        rax: 0x101,
        rbx: 0x102,
        rcx: 0x40_1234,
        rdi: 0x105,
        rsi: 0x106,
        rbp: 0x107,
        r8: 0x108,
        r9: 0x109,
        r10: 0x10a,
        r11: 0x246,
        r12: 0x10c,
        r13: 0x10d,
        r14: 0x10e,
        r15: 0x10f,
        rsp: 0x7fff_0000,
    }
}

#[test]
fn default_regs_are_zero() {
    let regs = SavedRegs::default();
    assert_eq!(regs.rax, 0);
    assert_eq!(regs.r15, 0);
    assert_eq!(regs.rflags, 0);
    assert_eq!(regs.rip, 0);
    assert_eq!(regs.rsp, 0);
}

#[test]
fn start_user_task_sets_the_interrupt_flag() {
    let regs = numbered();
    assert_eq!(regs.rflags & INTERRUPT_FLAG, 0);
    let entry = start_user_task(regs);
    assert_eq!(entry.rflags, 0x246);
    assert_eq!(entry, SavedRegs { rflags: 0x246, ..regs });
}

#[test]
fn start_user_task_keeps_a_set_interrupt_flag() {
    let regs = SavedRegs { rflags: 0x202, ..numbered() };
    assert_eq!(start_user_task(regs), regs);
}

#[test]
fn start_user_task_sets_the_flag_whatever_the_flags() {
    for rflags in [0u64, 1, 0x200, 0x1ff, u64::MAX, u64::MAX & !INTERRUPT_FLAG] {
        let entry = start_user_task(SavedRegs { rflags, ..numbered() });
        assert_eq!(entry.rflags & INTERRUPT_FLAG, INTERRUPT_FLAG);
        assert_eq!(entry.rflags & !INTERRUPT_FLAG, rflags & !INTERRUPT_FLAG);
    }
}

#[test]
fn entry_saves_the_registers() {
    let cpu = at_entry();
    let frame = entry(cpu);
    assert_eq!(frame.rax, 0x101);
    assert_eq!(frame.rbx, 0x102);
    assert_eq!(frame.rcx, 0x40_1234);
    assert_eq!(frame.rdx, 0x7fff_0000);
    assert_eq!(frame.rdi, 0x105);
    assert_eq!(frame.rsi, 0x106);
    assert_eq!(frame.rbp, 0x107);
    assert_eq!(frame.r8, 0x108);
    assert_eq!(frame.r9, 0x109);
    assert_eq!(frame.r10, 0x10a);
    assert_eq!(frame.r11, 0x246);
    assert_eq!(frame.r12, 0x10c);
    assert_eq!(frame.r13, 0x10d);
    assert_eq!(frame.r14, 0x10e);
    assert_eq!(frame.r15, 0x10f);
    assert_eq!(frame.rflags, 0x246);
    assert_eq!(frame.rip, 0x40_1234);
    assert_eq!(frame.rsp, 0x7fff_0000);
}

#[test]
fn unknown_syscall_changes_no_register() {
    for request in [0u64, 1, 0x1234, u64::MAX] {
        let mut regs = SavedRegs { rax: request, ..numbered() };
        let before = regs;
        let outcome = handle_syscall(&mut regs);
        assert_eq!(regs, before);
        assert_eq!(
            outcome,
            SyscallOutcome {
                request,
                resume: SavedRegs { rflags: before.rflags | INTERRUPT_FLAG, ..before }
            }
        );
    }
}

#[test]
fn syscall_round_trip_preserves_all_but_the_scratch_register() {
    let cpu = at_entry();
    let mut frame = entry(cpu);
    let resume = handle_syscall(&mut frame).resume;
    assert_eq!(resume.rax, cpu.rax);
    assert_eq!(resume.rbx, cpu.rbx);
    assert_eq!(resume.rcx, cpu.rcx);
    assert_eq!(resume.rdi, cpu.rdi);
    assert_eq!(resume.rsi, cpu.rsi);
    assert_eq!(resume.rbp, cpu.rbp);
    assert_eq!(resume.r8, cpu.r8);
    assert_eq!(resume.r9, cpu.r9);
    assert_eq!(resume.r10, cpu.r10);
    assert_eq!(resume.r11, cpu.r11);
    assert_eq!(resume.r12, cpu.r12);
    assert_eq!(resume.r13, cpu.r13);
    assert_eq!(resume.r14, cpu.r14);
    assert_eq!(resume.r15, cpu.r15);
    assert_eq!(resume.rsp, cpu.rsp);
    assert_eq!(resume.rip, cpu.rcx);
    assert_eq!(resume.rflags, cpu.r11 | INTERRUPT_FLAG);
    assert_eq!(resume.rdx, cpu.rsp);
}

#[test]
fn userspace_exits_differ() {
    assert_ne!(UserspaceExit::Segfault, UserspaceExit::Exception);
    assert_ne!(UserspaceExit::Exception, UserspaceExit::Syscall);
    assert_ne!(UserspaceExit::Segfault, UserspaceExit::Syscall);
}

#[test]
fn segment_bases_are_offsets_in_the_descriptor_table() {
    assert_eq!(segment_bases(1, 3), SegmentBases { kernel_base: 8, user_base: 16 });
    assert_eq!(segment_bases(0, 1), SegmentBases { kernel_base: 0, user_base: 0 });
    assert_eq!(segment_bases(8191, 8191), SegmentBases { kernel_base: 65528, user_base: 65520 });
}

//! The register snapshot of a frozen user-mode context, and the decisions
//! taken on the way into and out of user mode.

use crate::arch::{interrupt_enable_bit, interrupt_flag};
use vstd::prelude::*;

verus! {

/// Why control came back from user mode.
#[derive(Clone, Copy, Debug, PartialEq, Eq, Structural)]
pub enum UserspaceExit {
    Segfault,
    Exception,
    Syscall,
}

/// The general-purpose registers, the flags, the instruction pointer and the
/// stack pointer of one user-mode context.
#[derive(Clone, Copy, Debug, PartialEq, Eq, Structural)]
pub struct SavedRegs {
    pub rax: u64,
    pub rbx: u64,
    pub rcx: u64,
    pub rdx: u64,
    pub rdi: u64,
    pub rsi: u64,
    pub rbp: u64,
    pub r8: u64,
    pub r9: u64,
    pub r10: u64,
    pub r11: u64,
    pub r12: u64,
    pub r13: u64,
    pub r14: u64,
    pub r15: u64,
    pub rflags: u64,
    pub rip: u64,
    pub rsp: u64,
}

impl SavedRegs {
    /// The snapshot in which every field is zero.
    pub open spec fn zeroed() -> SavedRegs {
        SavedRegs {
            rax: 0,
            rbx: 0,
            rcx: 0,
            rdx: 0,
            rdi: 0,
            rsi: 0,
            rbp: 0,
            r8: 0,
            r9: 0,
            r10: 0,
            r11: 0,
            r12: 0,
            r13: 0,
            r14: 0,
            r15: 0,
            rflags: 0,
            rip: 0,
            rsp: 0,
        }
    }

    /// The registers that are loaded on a transition into user mode: `self`
    /// with the interrupt-enable bit set in the flags.
    pub open spec fn user_entry(self) -> SavedRegs {
        SavedRegs { rflags: self.rflags | interrupt_enable_bit(), ..self }
    }
}

impl Default for SavedRegs {
    fn default() -> (r: SavedRegs)
        ensures
            r == SavedRegs::zeroed(),
    {
        SavedRegs {
            rax: 0,
            rbx: 0,
            rcx: 0,
            rdx: 0,
            rdi: 0,
            rsi: 0,
            rbp: 0,
            r8: 0,
            r9: 0,
            r10: 0,
            r11: 0,
            r12: 0,
            r13: 0,
            r14: 0,
            r15: 0,
            rflags: 0,
            rip: 0,
            rsp: 0,
        }
    }
}

/// Setting the interrupt-enable bit leaves it set and changes no other bit.
pub proof fn lemma_interrupts_enabled(flags: u64)
    ensures
        (flags | interrupt_enable_bit()) & interrupt_enable_bit() == interrupt_enable_bit(),
        (flags | interrupt_enable_bit()) & !interrupt_enable_bit() == flags
            & !interrupt_enable_bit(),
{
    assert((flags | 0x200) & 0x200 == 0x200) by (bit_vector);
    assert((flags | 0x200) & !0x200u64 == flags & !0x200u64) by (bit_vector);
}

/// Prepares the transition into user mode: the registers to load are `regs`
/// with interrupts enabled, whatever the recorded flags said.
pub fn start_user_task(regs: SavedRegs) -> (entry: SavedRegs)
    ensures
        entry == regs.user_entry(),
        entry.rflags & interrupt_enable_bit() == interrupt_enable_bit(),
        entry.rflags & !interrupt_enable_bit() == regs.rflags & !interrupt_enable_bit(),
{
    proof {
        lemma_interrupts_enabled(regs.rflags);
    }
    let rflags = regs.rflags | interrupt_flag();
    SavedRegs { rflags, ..regs }
}

/// The largest index of a descriptor in a descriptor table.
pub const MAX_DESCRIPTOR_INDEX: u16 = 8191;

/// The size of a descriptor in a descriptor table, in bytes.
pub const DESCRIPTOR_SIZE: u16 = 8;

/// The two segment bases that tell the processor which segments to load on a
/// system call and on the return from it.
#[derive(Clone, Copy, Debug, PartialEq, Eq, Structural)]
pub struct SegmentBases {
    /// On a system call the code segment is the one at this offset in the
    /// descriptor table, and the stack segment the one after it.
    pub kernel_base: u16,
    /// On the return to user mode the stack segment is the one after this
    /// offset in the descriptor table, and the code segment the one after
    /// that.
    pub user_base: u16,
}

/// The segment bases for system calls, by the indices of the kernel code
/// segment and of the user stack segment in the descriptor table. The kernel
/// base is the offset of the kernel code segment; the user base is the offset
/// of the descriptor before the user stack segment.
pub fn segment_bases(kernel_cs_index: u16, user_ss_index: u16) -> (bases: SegmentBases)
    requires
        kernel_cs_index <= MAX_DESCRIPTOR_INDEX,
        1 <= user_ss_index <= MAX_DESCRIPTOR_INDEX,
    ensures
        bases.kernel_base == kernel_cs_index * DESCRIPTOR_SIZE,
        bases.user_base == (user_ss_index - 1) * DESCRIPTOR_SIZE,
{
    SegmentBases {
        kernel_base: kernel_cs_index * DESCRIPTOR_SIZE,
        user_base: (user_ss_index - 1) * DESCRIPTOR_SIZE,
    }
}

/// The registers that are captured when a system-call instruction has
/// transferred control to the kernel: every general-purpose register but
/// `rdx`, which is given up to carry the user stack pointer across the switch
/// of stacks, and that stack pointer. The hardware has put the return address
/// into `rcx` and the caller's flags into `r11`.
#[derive(Clone, Copy, Debug, PartialEq, Eq, Structural)]
pub struct EntryRegs {
    pub rax: u64,
    pub rbx: u64,
    pub rcx: u64,
    pub rdi: u64,
    pub rsi: u64,
    pub rbp: u64,
    pub r8: u64,
    pub r9: u64,
    pub r10: u64,
    pub r11: u64,
    pub r12: u64,
    pub r13: u64,
    pub r14: u64,
    pub r15: u64,
    pub rsp: u64,
}

impl EntryRegs {
    /// The snapshot of the caller that a system call works on. `rdx` is the
    /// one register given up: it holds the user stack pointer. Every other
    /// general-purpose register is saved as it arrived; the return address
    /// and the flags are taken from where the hardware left them.
    pub open spec fn frame(self) -> SavedRegs {
        SavedRegs {
            rax: self.rax,
            rbx: self.rbx,
            rcx: self.rcx,
            rdx: self.rsp,
            rdi: self.rdi,
            rsi: self.rsi,
            rbp: self.rbp,
            r8: self.r8,
            r9: self.r9,
            r10: self.r10,
            r11: self.r11,
            r12: self.r12,
            r13: self.r13,
            r14: self.r14,
            r15: self.r15,
            rflags: self.r11,
            rip: self.rcx,
            rsp: self.rsp,
        }
    }
}

/// What handling one system call decided: the request code, for the log, and
/// the registers with which user mode is entered again.
#[derive(Clone, Copy, Debug, PartialEq, Eq, Structural)]
pub struct SyscallOutcome {
    pub request: u64,
    pub resume: SavedRegs,
}

/// Forms the register snapshot of a system call from the registers captured
/// at entry.
pub fn entry(cpu: EntryRegs) -> (frame: SavedRegs)
    ensures
        frame == cpu.frame(),
{
    SavedRegs {
        rax: cpu.rax,
        rbx: cpu.rbx,
        rcx: cpu.rcx,
        rdx: cpu.rsp,
        rdi: cpu.rdi,
        rsi: cpu.rsi,
        rbp: cpu.rbp,
        r8: cpu.r8,
        r9: cpu.r9,
        r10: cpu.r10,
        r11: cpu.r11,
        r12: cpu.r12,
        r13: cpu.r13,
        r14: cpu.r14,
        r15: cpu.r15,
        rflags: cpu.r11,
        rip: cpu.rcx,
        rsp: cpu.rsp,
    }
}

/// Handles a system call. The request code is passed in `rax`. No request is
/// implemented: each one is reported for the log and otherwise ignored, so the
/// snapshot is left as it is. Every call ends in exactly one return to user
/// mode, with the registers in `resume`.
pub fn handle_syscall(saved_regs: &mut SavedRegs) -> (outcome: SyscallOutcome)
    ensures
        *final(saved_regs) == *old(saved_regs),
        outcome.request == old(saved_regs).rax,
        outcome.resume == old(saved_regs).user_entry(),
{
    let request = saved_regs.rax;
    let resume = start_user_task(*saved_regs);
    SyscallOutcome { request, resume }
}

/// A system call preserves the caller's registers: after entry, handling and
/// the return to user mode, every general-purpose register but `rdx` holds
/// what it held at entry, `rdx` holds the caller's stack pointer, the stack
/// pointer is the caller's, execution continues at the return address, and
/// the flags are the caller's with interrupts enabled.
pub proof fn lemma_syscall_preserves_registers(cpu: EntryRegs)
    ensures
        ({
            let resume = cpu.frame().user_entry();
            &&& resume.rax == cpu.rax
            &&& resume.rbx == cpu.rbx
            &&& resume.rcx == cpu.rcx
            &&& resume.rdi == cpu.rdi
            &&& resume.rsi == cpu.rsi
            &&& resume.rbp == cpu.rbp
            &&& resume.r8 == cpu.r8
            &&& resume.r9 == cpu.r9
            &&& resume.r10 == cpu.r10
            &&& resume.r11 == cpu.r11
            &&& resume.r12 == cpu.r12
            &&& resume.r13 == cpu.r13
            &&& resume.r14 == cpu.r14
            &&& resume.r15 == cpu.r15
            &&& resume.rsp == cpu.rsp
            &&& resume.rip == cpu.rcx
            &&& resume.rflags == cpu.r11 | interrupt_enable_bit()
            &&& resume.rdx == cpu.rsp
        }),
{
}

} // verus!

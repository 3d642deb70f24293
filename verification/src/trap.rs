//! What the trap handler does for each cause of a trap.
use vstd::prelude::*;
use crate::pte::{PteFlags, PTE_R, PTE_W};
use crate::addr::VirtAddr;

verus! {

/// Why the processor trapped into the kernel.
#[derive(Clone, Copy, Debug, PartialEq, Eq, Structural)]
pub enum TrapCause {
    /// An interrupt from the platform interrupt controller.
    ExternalIrq,
    /// The timer fired.
    TimerInterrupt,
    /// A system call.
    Syscall,
    /// A load from an unmapped or forbidden page.
    LoadPageFault,
    /// A store to an unmapped or forbidden page.
    StorePageFault,
    /// Any other cause, by its code.
    Unknown(u64),
}

/// What the trap handler does.
#[derive(Clone, Copy, Debug, PartialEq, Eq, Structural)]
pub enum TrapAction {
    /// Claim the interrupt and serve it.
    ServeIrq,
    /// Let the scheduler account the tick.
    Tick,
    /// Step past the `ecall` instruction (four bytes) and serve the call.
    Syscall { return_pc_offset: u64 },
    /// Serve a page fault of the current task for an access.
    PageFault { access: PteFlags },
    /// Stop: the trap cannot be handled.
    Fatal { cause: u64 },
}

/// The action for a trap cause.
pub fn trap_action(cause: TrapCause) -> (r: TrapAction)
    ensures
        r == match cause {
            TrapCause::ExternalIrq => TrapAction::ServeIrq,
            TrapCause::TimerInterrupt => TrapAction::Tick,
            TrapCause::Syscall => TrapAction::Syscall { return_pc_offset: 4 },
            TrapCause::LoadPageFault => TrapAction::PageFault { access: PTE_R },
            TrapCause::StorePageFault => TrapAction::PageFault { access: PTE_W },
            TrapCause::Unknown(c) => TrapAction::Fatal { cause: c },
        },
{
    match cause {
        TrapCause::ExternalIrq => TrapAction::ServeIrq,
        TrapCause::TimerInterrupt => TrapAction::Tick,
        TrapCause::Syscall => TrapAction::Syscall { return_pc_offset: 4 },
        TrapCause::LoadPageFault => TrapAction::PageFault { access: PTE_R },
        TrapCause::StorePageFault => TrapAction::PageFault { access: PTE_W },
        TrapCause::Unknown(c) => TrapAction::Fatal { cause: c },
    }
}

/// What serving a claimed interrupt does.
#[derive(Clone, Copy, Debug, PartialEq, Eq, Structural)]
pub struct IrqOutcome {
    /// Wake the tasks waiting on this interrupt.
    pub wake_waiters: bool,
    /// Report an interrupt nobody serves.
    pub unhandled: bool,
    /// Tell the interrupt controller the interrupt was served.
    pub complete: bool,
}

/// The outcome of serving interrupt `interrupt_id` (0: none pending) when
/// `uart_irq` is the serial line's and `read_anything` says whether input was
/// drained from it: waiters wake only when input arrived, and every real
/// interrupt is completed.
pub fn irq_outcome(interrupt_id: u32, uart_irq: u32, read_anything: bool) -> (r: IrqOutcome)
    ensures
        r.wake_waiters == (interrupt_id != 0 && interrupt_id == uart_irq && read_anything),
        r.unhandled == (interrupt_id != 0 && interrupt_id != uart_irq),
        r.complete == (interrupt_id != 0),
{
    if interrupt_id == 0 {
        IrqOutcome { wake_waiters: false, unhandled: false, complete: false }
    } else if interrupt_id == uart_irq {
        IrqOutcome { wake_waiters: read_anything, unhandled: false, complete: true }
    } else {
        IrqOutcome { wake_waiters: false, unhandled: true, complete: true }
    }
}

/// Registers saved when a task traps, and the accessors the trap path uses.
pub trait TrapFrame: Sized {
    /// The frame a task starts from: it runs from `instruction_ptr` on the
    /// stack `stack_ptr`.
    fn initialize(instruction_ptr: VirtAddr, stack_ptr: VirtAddr) -> Self;

    /// The system call number the task asked for.
    fn get_syscall(&self) -> u64;

    /// Leaves `ret` as the value the system call returns.
    fn set_syscall_return_value(&mut self, ret: i64);

    /// System call argument `I`.
    fn get_arg<const I: usize>(&self) -> u64;

    /// Records where the per-hart context lives.
    fn set_per_core_ctx(&mut self, ptr: u64);
}

/// Register numbers of the RISC-V calling convention that the trap path uses.
pub const REG_SP: usize = 2;
pub const REG_TP: usize = 4;
pub const REG_A0: usize = 10;
pub const REG_A7: usize = 17;

/// Number of system call arguments, in registers `a0` to `a5`.
pub const SYSCALL_ARGS: usize = 6;

/// The RISC-V trap frame: the 32 integer registers and the trapping pc.
#[derive(Clone, Copy, Debug)]
pub struct RiscvTrapFrame {
    pub regs: [u64; 32],
    pub sepc: u64,
}

impl TrapFrame for RiscvTrapFrame {
    fn initialize(instruction_ptr: VirtAddr, stack_ptr: VirtAddr) -> (r: Self)
        ensures
            r.sepc == instruction_ptr@,
            r.regs@[REG_SP as int] == stack_ptr@,
            forall|k: int| 0 <= k < 32 && k != REG_SP ==> r.regs@[k] == 0,
    {
        let mut regs = [0u64; 32];
        regs[REG_SP] = stack_ptr.0;
        RiscvTrapFrame { regs, sepc: instruction_ptr.0 }
    }

    fn get_syscall(&self) -> (r: u64)
        ensures
            r == self.regs@[REG_A7 as int],
    {
        self.regs[REG_A7]
    }

    fn set_syscall_return_value(&mut self, ret: i64)
        ensures
            final(self).regs@ == old(self).regs@.update(REG_A0 as int, ret as u64),
            final(self).sepc == old(self).sepc,
    {
        self.regs[REG_A0] = ret as u64;
    }

    fn get_arg<const I: usize>(&self) -> (r: u64)
        ensures
            I < SYSCALL_ARGS ==> r == self.regs@[REG_A0 + I],
            I >= SYSCALL_ARGS ==> r == 0,
    {
        if I < SYSCALL_ARGS {
            self.regs[REG_A0 + I]
        } else {
            0
        }
    }

    fn set_per_core_ctx(&mut self, ptr: u64)
        ensures
            final(self).regs@ == old(self).regs@.update(REG_TP as int, ptr),
            final(self).sepc == old(self).sepc,
    {
        self.regs[REG_TP] = ptr;
    }
}

} // verus!

//! Interrupt vector numbers and the decisions of the hardware interrupt handlers.
//!
//! Loading the descriptor tables and running the handlers is the caller's
//! work; the library says which vectors the hardware lines use and what a
//! handler must send to the controllers when it is done.

use vstd::prelude::*;
use crate::interrupts::pic::{PICPair, PortWrite, bit_set_u16};

verus! {

/// The interrupt stack table entry that holds the double fault stack.
pub const DOUBLE_FAULT_IST_INDEX: u16 = 0;

/// The size of the double fault stack.
pub const DOUBLE_FAULT_STACK_SIZE: usize = 4096 * 5;

/// The first vector of the master controller; vectors below it belong to CPU exceptions.
pub const PIC_1_OFFSET: u8 = 32;

/// The first vector of the slave controller.
pub const PIC_2_OFFSET: u8 = PIC_1_OFFSET + 8;

/// The hardware interrupt lines the kernel handles. Each is raised by the
/// master controller on the vector `PIC_1_OFFSET` plus its line.
#[derive(Debug, Clone, Copy)]
pub enum InterruptIndex {
    Timer,
    Keyboard,
}

impl InterruptIndex {
    /// The vector of this interrupt.
    pub open spec fn vector(self) -> u8 {
        match self {
            InterruptIndex::Timer => PIC_1_OFFSET,
            InterruptIndex::Keyboard => (PIC_1_OFFSET + 1) as u8,
        }
    }

    pub fn as_u8(self) -> (v: u8)
        ensures
            v == self.vector(),
    {
        match self {
            InterruptIndex::Timer => PIC_1_OFFSET,
            InterruptIndex::Keyboard => PIC_1_OFFSET + 1,
        }
    }

    pub fn as_usize(self) -> (v: usize)
        ensures
            v == self.vector() as usize,
    {
        self.as_u8() as usize
    }

    /// The controller line of this interrupt.
    pub fn get_irq_line(self) -> (line: u8)
        ensures
            line == self.vector() - PIC_1_OFFSET,
    {
        self.as_u8() - PIC_1_OFFSET
    }
}

/// What a hardware interrupt handler sends to the controllers when it is done
/// with `index`, given `isr`, the combined in-service registers read on entry:
/// nothing (`None`) for a spurious interrupt, which must be ignored without an
/// end-of-interrupt signal; otherwise the end-of-interrupt writes for the
/// interrupt's line, which go to the controller that raised it: the master,
/// as both lines are on the master.
pub fn hardware_interrupt_completion(pics: &PICPair, index: InterruptIndex, isr: u16) -> (done: Option<Vec<PortWrite>>)
    ensures
        match done {
            None => !bit_set_u16(isr, (index.vector() - PIC_1_OFFSET) as u8),
            Some(writes) => bit_set_u16(isr, (index.vector() - PIC_1_OFFSET) as u8)
                && writes@ == seq![
                    crate::interrupts::pic::port_write(pics.master_pic.command_port, crate::interrupts::pic::END_OF_INTERRUPT_COMMAND),
                ],
        },
{
    if pics.check_for_spurious(index.get_irq_line(), isr) {
        return None;
    }
    Some(pics.end_of_interrupt(index.get_irq_line()))
}

} // verus!

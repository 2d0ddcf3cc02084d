//! Interrupt vector numbering and the 8259 PIC pair.

pub mod interrupt_manager;
pub mod pic;

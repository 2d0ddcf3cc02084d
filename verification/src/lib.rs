//! Verified core of a small x86_64 hobby kernel: the VGA text-mode writer,
//! the interrupt vector numbering and the programmable interrupt controller
//! protocol, and the fixed-size block heap allocator with its frame allocator.
//!
//! Hardware access (port I/O, memory-mapped buffers, descriptor tables) is
//! done by the caller; the library decides what is written where.

pub mod interrupts;
pub mod memory;
pub mod vga;


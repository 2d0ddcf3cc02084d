# minikernel

The verified core of a small x86_64 hobby kernel, written in Verus.

- `src/vga.rs`: the VGA text-mode writer, modelled as a grid of cells with a
  cursor on the bottom row; writing, new lines and scrolling.
- `src/interrupts/`: interrupt vector numbers, and the protocol of the chained
  8259 PICs as the port writes it takes (initialization, masks, in-service
  registers, spurious interrupts, end of interrupt).
- `src/memory/`: the fixed-size block heap allocator, the frame allocator over
  the boot loader's memory map, and the pages of the kernel heap.

`app/` is the kernel program around the library: entry point, descriptor
tables, interrupt entry code, port I/O, the VGA buffer and page tables.

use minikernel::interrupts::interrupt_manager::{
    hardware_interrupt_completion, InterruptIndex, DOUBLE_FAULT_IST_INDEX, PIC_1_OFFSET, PIC_2_OFFSET,
};
use minikernel::interrupts::pic::{
    PICPair, PortWrite, END_OF_INTERRUPT_COMMAND, INITIALIZE_COMMAND, PIC, PIC_1_COMMAND, PIC_1_DATA,
    PIC_2_COMMAND, PIC_2_DATA, READ_ISR_COMMAND, WAIT_PORT,
};

fn w(port: u16, value: u8) -> PortWrite {
    PortWrite { port, value }
}

#[test]
fn interrupt_vectors() {
    assert_eq!(PIC_1_OFFSET, 32);
    assert_eq!(PIC_2_OFFSET, 40);
    assert_eq!(DOUBLE_FAULT_IST_INDEX, 0);
    assert_eq!(InterruptIndex::Timer.as_u8(), 32);
    assert_eq!(InterruptIndex::Keyboard.as_u8(), 33);
    assert_eq!(InterruptIndex::Timer.as_usize(), 32usize);
    assert_eq!(InterruptIndex::Keyboard.as_usize(), 33usize);
}

#[test]
fn irq_lines() {
    assert_eq!(InterruptIndex::Timer.get_irq_line(), 0);
    assert_eq!(InterruptIndex::Keyboard.get_irq_line(), 1);
}

#[test]
fn pic_ports_and_writes() {
    let mut pic = PIC::new(0x20, 0x21);
    assert_eq!((pic.command_port, pic.data_port, pic.masks), (0x20, 0x21, None));
    assert_eq!(pic.write_command(0x11), w(0x20, 0x11));
    assert_eq!(pic.write_data(0x04), w(0x21, 0x04));
    assert_eq!(pic.restore_masks(), None);
    pic.save_masks(0xb8);
    assert_eq!(pic.masks, Some(0xb8));
    assert_eq!(pic.restore_masks(), Some(w(0x21, 0xb8)));
}

#[test]
fn pic_pair_uses_standard_ports() {
    let pics = PICPair::new();
    assert_eq!(pics.master_pic.command_port, PIC_1_COMMAND as u16);
    assert_eq!(pics.master_pic.data_port, PIC_1_DATA as u16);
    assert_eq!(pics.slave_pic.command_port, PIC_2_COMMAND as u16);
    assert_eq!(pics.slave_pic.data_port, PIC_2_DATA as u16);
    assert_eq!((PIC_1_DATA, PIC_2_DATA), (0x21, 0xA1));
}

#[test]
fn initialize_sequence() {
    let mut pics = PICPair::new();
    let writes = pics.initialize(PIC_1_OFFSET, PIC_2_OFFSET, 0xb8, 0x8e);
    let wait = w(WAIT_PORT, 0);
    let expected = vec![
        w(0x20, INITIALIZE_COMMAND), wait,
        w(0xA0, INITIALIZE_COMMAND), wait,
        w(0x21, 32), wait,
        w(0xA1, 40), wait,
        w(0x21, 4), wait,
        w(0xA1, 2), wait,
        w(0x21, 1), wait,
        w(0xA1, 1), wait,
        w(0x21, 0xb8),
        w(0xA1, 0x8e),
    ];
    assert_eq!(writes, expected);
    assert_eq!(pics.master_pic.masks, Some(0xb8));
    assert_eq!(pics.slave_pic.masks, Some(0x8e));
}

#[test]
fn initialize_restores_masks_last() {
    let mut pics = PICPair::new();
    let writes = pics.initialize(0x30, 0x38, 0x12, 0x34);
    let last_master = writes.iter().rev().find(|x| x.port == 0x21).unwrap();
    let last_slave = writes.iter().rev().find(|x| x.port == 0xA1).unwrap();
    assert_eq!(last_master.value, 0x12);
    assert_eq!(last_slave.value, 0x34);
}

#[test]
fn set_mask_on_master_and_slave() {
    let pics = PICPair::new();
    assert_eq!(pics.mask_port_for(3), 0x21);
    assert_eq!(pics.mask_port_for(12), 0xA1);
    assert_eq!(pics.set_mask(3, true, 0b0000_0001), w(0x21, 0b0000_1001));
    assert_eq!(pics.set_mask(3, false, 0xff), w(0x21, 0b1111_0111));
    assert_eq!(pics.set_mask(12, true, 0x00), w(0xA1, 0b0001_0000));
    assert_eq!(pics.set_mask(15, false, 0xff), w(0xA1, 0x7f));
    assert_eq!(pics.set_mask(0, true, 0x01), w(0x21, 0x01));
}

#[test]
fn read_isr_combines_both_registers() {
    let pics = PICPair::new();
    assert_eq!(pics.read_isr_request(), vec![w(0x20, READ_ISR_COMMAND), w(0xA0, READ_ISR_COMMAND)]);
    assert_eq!(PICPair::read_isr(0x01, 0x00), 0x0001);
    assert_eq!(PICPair::read_isr(0x02, 0x80), 0x8002);
    assert_eq!(PICPair::read_isr(0xff, 0xff), 0xffff);
}

#[test]
fn spurious_interrupts() {
    let pics = PICPair::new();
    assert!(!pics.check_for_spurious(0, 0x0001));
    assert!(pics.check_for_spurious(0, 0x0002));
    assert!(!pics.check_for_spurious(1, 0x0002));
    assert!(pics.check_for_spurious(15, 0x7fff));
    assert!(!pics.check_for_spurious(15, 0x8000));
    assert!(!pics.check_for_spurious(16, 0x0000));
    assert!(!pics.check_for_spurious(200, 0x0000));
}

#[test]
fn end_of_interrupt_commands() {
    let pics = PICPair::new();
    assert_eq!(pics.end_of_interrupt_master_only(), w(0x20, END_OF_INTERRUPT_COMMAND));
    assert_eq!(pics.end_of_interrupt(3), vec![w(0x20, 0x20)]);
    assert_eq!(pics.end_of_interrupt(8), vec![w(0xA0, 0x20), w(0x20, 0x20)]);
    assert_eq!(pics.end_of_interrupt(33), vec![w(0xA0, 0x20), w(0x20, 0x20)]);
}

#[test]
fn hardware_interrupts_complete_unless_spurious() {
    let pics = PICPair::new();
    assert_eq!(hardware_interrupt_completion(&pics, InterruptIndex::Timer, 0x0000), None);
    assert_eq!(hardware_interrupt_completion(&pics, InterruptIndex::Keyboard, 0x0001), None);
    // Both lines are on the master, which alone gets the end of interrupt
    let eoi = vec![w(0x20, 0x20)];
    assert_eq!(hardware_interrupt_completion(&pics, InterruptIndex::Timer, 0x0001), Some(eoi.clone()));
    assert_eq!(hardware_interrupt_completion(&pics, InterruptIndex::Keyboard, 0x0002), Some(eoi));
}

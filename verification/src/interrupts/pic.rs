//! The chained pair of 8259 programmable interrupt controllers.
//!
//! The controllers are driven through I/O ports. The library keeps the port
//! numbers and the saved interrupt masks, and computes every byte that must be
//! sent to a port, in order, as a [`PortWrite`]. The caller performs the port
//! reads and writes, and hands the bytes it read back to the library.

use vstd::prelude::*;

verus! {

pub const PIC_1_COMMAND: u8 = 0x20;
pub const PIC_2_COMMAND: u8 = 0xA0;
pub const PIC_1_DATA: u8 = PIC_1_COMMAND + 1;
pub const PIC_2_DATA: u8 = PIC_2_COMMAND + 1;

pub const END_OF_INTERRUPT_COMMAND: u8 = 0x20;
pub const INITIALIZE_COMMAND: u8 = 0x11;
pub const READ_ISR_COMMAND: u8 = 0x0b;

/// An unused port; writing to it gives an old PIC time to react between commands.
pub const WAIT_PORT: u16 = 0x80;

/// One byte to be written to one I/O port.
#[derive(Debug, Clone, Copy, PartialEq, Eq, Structural)]
pub struct PortWrite {
    pub port: u16,
    pub value: u8,
}

pub open spec fn port_write(port: u16, value: u8) -> PortWrite {
    PortWrite { port, value }
}

/// The dummy write that separates two commands.
pub open spec fn wait_write() -> PortWrite {
    port_write(WAIT_PORT, 0)
}

/// The value of the last write to `port` in `writes`, if there is one.
pub open spec fn last_write_to(writes: Seq<PortWrite>, port: u16) -> Option<u8>
    decreases writes.len(),
{
    if writes.len() == 0 {
        None
    } else if writes.last().port == port {
        Some(writes.last().value)
    } else {
        last_write_to(writes.drop_last(), port)
    }
}

/// Whether bit `line` of `bits` is set.
pub open spec fn bit_set_u8(bits: u8, line: u8) -> bool {
    (bits >> line) & 1u8 == 1u8
}

/// Whether bit `line` of `bits` is set.
pub open spec fn bit_set_u16(bits: u16, line: u8) -> bool {
    (bits >> line) & 1u16 == 1u16
}

/// One controller: its command port, its data port and the masks saved from it.
pub struct PIC {
    pub command_port: u16,
    pub data_port: u16,
    pub masks: Option<u8>,
}

impl PIC {
    pub fn new(command_port: u8, data_port: u8) -> (pic: Self)
        ensures
            pic.command_port == command_port as u16,
            pic.data_port == data_port as u16,
            pic.masks is None,
    {
        PIC { command_port: command_port as u16, data_port: data_port as u16, masks: None }
    }

    /// The write that sends `command` to this controller.
    pub fn write_command(&self, command: u8) -> (w: PortWrite)
        ensures
            w == port_write(self.command_port, command),
    {
        PortWrite { port: self.command_port, value: command }
    }

    /// The write that sends `data` to this controller.
    pub fn write_data(&self, data: u8) -> (w: PortWrite)
        ensures
            w == port_write(self.data_port, data),
    {
        PortWrite { port: self.data_port, value: data }
    }

    /// Keeps `masks_read`, the byte read from the data port, as the saved masks.
    pub fn save_masks(&mut self, masks_read: u8)
        ensures
            final(self).masks == Some(masks_read),
            final(self).command_port == old(self).command_port,
            final(self).data_port == old(self).data_port,
    {
        self.masks = Some(masks_read);
    }

    /// The write that puts the saved masks back, if masks were saved.
    pub fn restore_masks(&self) -> (w: Option<PortWrite>)
        ensures
            match self.masks {
                Some(m) => w == Some(port_write(self.data_port, m)),
                None => w is None,
            },
    {
        match self.masks {
            Some(masks) => Some(PortWrite { port: self.data_port, value: masks }),
            None => None,
        }
    }
}

pub struct PICPair {
    pub master_pic: PIC,
    pub slave_pic: PIC,
}

/// Whether `pics` uses the standard ports of the master and the slave controller.
pub open spec fn standard_ports(pics: &PICPair) -> bool {
    &&& pics.master_pic.command_port == PIC_1_COMMAND as u16
    &&& pics.master_pic.data_port == PIC_1_DATA as u16
    &&& pics.slave_pic.command_port == PIC_2_COMMAND as u16
    &&& pics.slave_pic.data_port == PIC_2_DATA as u16
}

/// The writes that initialize both controllers: the initialization command,
/// the vector offset of each controller, the cascade wiring, 8086 mode, each
/// followed by a wait, and at last the saved masks of both controllers.
pub open spec fn initialize_writes(
    pics: &PICPair,
    pic_1_offset: u8,
    pic_2_offset: u8,
    master_masks: u8,
    slave_masks: u8,
) -> Seq<PortWrite> {
    let m_cmd = pics.master_pic.command_port;
    let s_cmd = pics.slave_pic.command_port;
    let m_data = pics.master_pic.data_port;
    let s_data = pics.slave_pic.data_port;
    seq![
        port_write(m_cmd, INITIALIZE_COMMAND), wait_write(),
        port_write(s_cmd, INITIALIZE_COMMAND), wait_write(),
        port_write(m_data, pic_1_offset), wait_write(),
        port_write(s_data, pic_2_offset), wait_write(),
        port_write(m_data, 4), wait_write(),
        port_write(s_data, 2), wait_write(),
        port_write(m_data, 0x01), wait_write(),
        port_write(s_data, 0x01), wait_write(),
        port_write(m_data, master_masks),
        port_write(s_data, slave_masks),
    ]
}

/// The mask byte after enabling (`enable`) or clearing the mask of `line` in `current`.
pub open spec fn updated_mask(current: u8, line: u8, enable: bool) -> u8 {
    if enable {
        current | (1u8 << line)
    } else {
        current & !(1u8 << line)
    }
}

/// The controller-local line of `irq`.
pub open spec fn local_line(irq: u8) -> u8 {
    if irq < 8 { irq } else { (irq - 8) as u8 }
}

impl PICPair {
    pub open spec fn mask_port(&self, irq: u8) -> u16 {
        if irq < 8 { self.master_pic.data_port } else { self.slave_pic.data_port }
    }

    pub fn new() -> (pics: Self)
        ensures
            standard_ports(&pics),
            pics.master_pic.masks is None,
            pics.slave_pic.masks is None,
    {
        PICPair {
            master_pic: PIC::new(PIC_1_COMMAND, PIC_1_DATA),
            slave_pic: PIC::new(PIC_2_COMMAND, PIC_2_DATA),
        }
    }

    /// Initializes both controllers with the given vector offsets.
    ///
    /// `master_masks` and `slave_masks` are the bytes read from the two data
    /// ports before the initialization; they are saved and written back at the
    /// end. The result is the sequence of port writes to perform, in order.
    pub fn initialize(&mut self, pic_1_offset: u8, pic_2_offset: u8, master_masks: u8, slave_masks: u8) -> (writes: Vec<PortWrite>)
        ensures
            writes@ == initialize_writes(old(self), pic_1_offset, pic_2_offset, master_masks, slave_masks),
            final(self).master_pic.masks == Some(master_masks),
            final(self).slave_pic.masks == Some(slave_masks),
            final(self).master_pic.command_port == old(self).master_pic.command_port,
            final(self).master_pic.data_port == old(self).master_pic.data_port,
            final(self).slave_pic.command_port == old(self).slave_pic.command_port,
            final(self).slave_pic.data_port == old(self).slave_pic.data_port,
    {
        let wait = PortWrite { port: WAIT_PORT, value: 0 };
        self.master_pic.save_masks(master_masks);
        self.slave_pic.save_masks(slave_masks);

        let mut writes: Vec<PortWrite> = Vec::new();
        writes.push(self.master_pic.write_command(INITIALIZE_COMMAND));
        writes.push(wait);
        writes.push(self.slave_pic.write_command(INITIALIZE_COMMAND));
        writes.push(wait);

        // The offset each controller uses for its vectors
        writes.push(self.master_pic.write_data(pic_1_offset));
        writes.push(wait);
        writes.push(self.slave_pic.write_data(pic_2_offset));
        writes.push(wait);

        // The slave sits on line 2 of the master; the slave's cascade identity is 2
        writes.push(self.master_pic.write_data(4));
        writes.push(wait);
        writes.push(self.slave_pic.write_data(2));
        writes.push(wait);

        // 8086 mode rather than the default 8080 mode
        writes.push(self.master_pic.write_data(0x01));
        writes.push(wait);
        writes.push(self.slave_pic.write_data(0x01));
        writes.push(wait);

        if let Some(w) = self.master_pic.restore_masks() {
            writes.push(w);
        }
        if let Some(w) = self.slave_pic.restore_masks() {
            writes.push(w);
        }
        assert(writes@ =~= initialize_writes(old(self), pic_1_offset, pic_2_offset, master_masks, slave_masks));
        writes
    }

    /// The data port whose mask byte `set_mask` changes for `irq`; the caller
    /// reads the current masks from it.
    pub fn mask_port_for(&self, irq: u8) -> (port: u16)
        ensures
            port == self.mask_port(irq),
    {
        if irq < 8 { self.master_pic.data_port } else { self.slave_pic.data_port }
    }

    /// Sets (`enable`) or clears the mask of `irq`; `current_masks` is the byte
    /// read from `mask_port_for(irq)`. The result is the write of the new masks.
    pub fn set_mask(&self, irq: u8, enable: bool, current_masks: u8) -> (w: PortWrite)
        requires
            irq < 16,
        ensures
            w == port_write(self.mask_port(irq), updated_mask(current_masks, local_line(irq), enable)),
            irq < 8 ==> w.port == self.master_pic.data_port,
            irq >= 8 ==> w.port == self.slave_pic.data_port,
            standard_ports(self) ==> w.port == if irq < 8 { 0x21u16 } else { 0xA1u16 },
            bit_set_u8(w.value, if irq < 8 { irq } else { (irq - 8) as u8 }) == enable,
            bit_set_u8(w.value, local_line(irq)) == enable,
            forall|other: u8| other < 8 && other != local_line(irq) ==>
                #[trigger] bit_set_u8(w.value, other) == bit_set_u8(current_masks, other),
    {
        let port = if irq < 8 { self.master_pic.data_port } else { self.slave_pic.data_port };
        let line: u8 = if irq < 8 { irq } else { irq - 8 };
        let mask: u8 = 1u8 << line;
        let value = if enable { current_masks | mask } else { current_masks & !mask };
        proof {
            lemma_updated_mask_bits(current_masks, line, enable);
        }
        PortWrite { port, value }
    }

    /// The writes that ask both controllers for their in-service registers;
    /// afterwards the caller reads one byte from each command port.
    pub fn read_isr_request(&self) -> (writes: Vec<PortWrite>)
        ensures
            writes@ == seq![
                port_write(self.master_pic.command_port, READ_ISR_COMMAND),
                port_write(self.slave_pic.command_port, READ_ISR_COMMAND),
            ],
    {
        let mut writes: Vec<PortWrite> = Vec::new();
        writes.push(self.master_pic.write_command(READ_ISR_COMMAND));
        writes.push(self.slave_pic.write_command(READ_ISR_COMMAND));
        writes
    }

    /// Both in-service registers in one value: the slave's bits above the master's.
    pub fn read_isr(master_isr: u8, slave_isr: u8) -> (isr: u16)
        ensures
            isr == ((slave_isr as u16) << 8u16) | (master_isr as u16),
            isr as int == slave_isr as int * 256 + master_isr as int,
            forall|line: u8| line < 8 ==>
                (#[trigger] bit_set_u16(isr, line) == bit_set_u8(master_isr, line)),
            forall|line: u8| 8 <= line < 16 ==>
                (#[trigger] bit_set_u16(isr, line) == bit_set_u8(slave_isr, (line - 8) as u8)),
    {
        let isr = ((slave_isr as u16) << 8u16) | (master_isr as u16);
        proof {
            lemma_isr_bits(master_isr, slave_isr);
        }
        isr
    }

    /// Whether an interrupt on line `irq` is spurious: a line that exists (below
    /// 16) whose bit in `isr`, the combined in-service registers, is clear.
    /// The caller reads the registers only for such lines.
    pub fn check_for_spurious(&self, irq: u8, isr: u16) -> (spurious: bool)
        ensures
            spurious == (irq < 16 && !bit_set_u16(isr, irq)),
    {
        if irq >= 16 {
            return false;
        }
        let expected: u16 = 1u16 << irq;
        let r = isr & expected != expected;
        proof {
            assert(((isr & (1u16 << irq)) != (1u16 << irq)) == !((isr >> irq) & 1u16 == 1u16)) by (bit_vector)
                requires irq < 16u8;
        }
        r
    }

    /// The end-of-interrupt command for the master controller alone.
    pub fn end_of_interrupt_master_only(&self) -> (w: PortWrite)
        ensures
            w == port_write(self.master_pic.command_port, END_OF_INTERRUPT_COMMAND),
    {
        self.master_pic.write_command(END_OF_INTERRUPT_COMMAND)
    }

    /// The end-of-interrupt commands for `irq`: to the slave as well when
    /// `irq` is 8 or more, and always to the master, last.
    pub fn end_of_interrupt(&self, irq: u8) -> (writes: Vec<PortWrite>)
        ensures
            writes@ == (if irq >= 8 {
                seq![
                    port_write(self.slave_pic.command_port, END_OF_INTERRUPT_COMMAND),
                    port_write(self.master_pic.command_port, END_OF_INTERRUPT_COMMAND),
                ]
            } else {
                seq![port_write(self.master_pic.command_port, END_OF_INTERRUPT_COMMAND)]
            }),
    {
        let mut writes: Vec<PortWrite> = Vec::new();
        if irq >= 8 {
            writes.push(self.slave_pic.write_command(END_OF_INTERRUPT_COMMAND));
        }
        writes.push(self.end_of_interrupt_master_only());
        assert(writes@ =~= (if irq >= 8 {
            seq![
                port_write(self.slave_pic.command_port, END_OF_INTERRUPT_COMMAND),
                port_write(self.master_pic.command_port, END_OF_INTERRUPT_COMMAND),
            ]
        } else {
            seq![port_write(self.master_pic.command_port, END_OF_INTERRUPT_COMMAND)]
        }));
        writes
    }
}

/// After the initialization writes, the last byte written to each data port
/// is the mask byte saved from it, so both controllers keep their masks, and
/// the vector offsets went to the data ports before the masks.
pub proof fn lemma_initialize_restores_masks(
    pics: &PICPair,
    pic_1_offset: u8,
    pic_2_offset: u8,
    master_masks: u8,
    slave_masks: u8,
)
    requires
        standard_ports(pics),
    ensures
        last_write_to(initialize_writes(pics, pic_1_offset, pic_2_offset, master_masks, slave_masks), pics.master_pic.data_port)
            == Some(master_masks),
        last_write_to(initialize_writes(pics, pic_1_offset, pic_2_offset, master_masks, slave_masks), pics.slave_pic.data_port)
            == Some(slave_masks),
        initialize_writes(pics, pic_1_offset, pic_2_offset, master_masks, slave_masks)[4]
            == port_write(pics.master_pic.data_port, pic_1_offset),
        initialize_writes(pics, pic_1_offset, pic_2_offset, master_masks, slave_masks)[6]
            == port_write(pics.slave_pic.data_port, pic_2_offset),
{
    let w = initialize_writes(pics, pic_1_offset, pic_2_offset, master_masks, slave_masks);
    assert(w.drop_last().last() == port_write(pics.master_pic.data_port, master_masks));
    reveal_with_fuel(last_write_to, 2);
}

/// Lines 0 to 7 belong to the master controller and lines 8 to 15 to the
/// slave: with the standard ports, a mask change for a line goes to data port
/// 0x21 for lines below 8 and to data port 0xA1 for the others, and changes
/// bit `irq` or `irq - 8` of that controller's masks.
pub proof fn lemma_mask_owner(pics: &PICPair, irq: u8)
    requires
        standard_ports(pics),
        irq < 16,
    ensures
        irq < 8 ==> pics.mask_port(irq) == 0x21u16 && local_line(irq) == irq,
        irq >= 8 ==> pics.mask_port(irq) == 0xA1u16 && local_line(irq) == irq - 8,
{
}

/// With the standard ports, initialization sends, in order: 0x11 to both
/// command ports, the two offsets, the cascade wiring (4 to the master, 2 to
/// the slave) and 8086 mode (1 to both), each followed by a 0 to port 0x80,
/// and at last the saved masks to the master's and then the slave's data port.
pub proof fn lemma_initialize_writes_standard(
    pics: &PICPair,
    pic_1_offset: u8,
    pic_2_offset: u8,
    master_masks: u8,
    slave_masks: u8,
)
    requires
        standard_ports(pics),
    ensures
        initialize_writes(pics, pic_1_offset, pic_2_offset, master_masks, slave_masks) == seq![
            PortWrite { port: 0x20, value: 0x11 }, PortWrite { port: 0x80, value: 0 },
            PortWrite { port: 0xA0, value: 0x11 }, PortWrite { port: 0x80, value: 0 },
            PortWrite { port: 0x21, value: pic_1_offset }, PortWrite { port: 0x80, value: 0 },
            PortWrite { port: 0xA1, value: pic_2_offset }, PortWrite { port: 0x80, value: 0 },
            PortWrite { port: 0x21, value: 4 }, PortWrite { port: 0x80, value: 0 },
            PortWrite { port: 0xA1, value: 2 }, PortWrite { port: 0x80, value: 0 },
            PortWrite { port: 0x21, value: 1 }, PortWrite { port: 0x80, value: 0 },
            PortWrite { port: 0xA1, value: 1 }, PortWrite { port: 0x80, value: 0 },
            PortWrite { port: 0x21, value: master_masks },
            PortWrite { port: 0xA1, value: slave_masks },
        ],
{
}

proof fn lemma_isr_bits(master: u8, slave: u8)
    ensures
        (((slave as u16) << 8u16) | (master as u16)) as int == slave as int * 256 + master as int,
        forall|line: u8| line < 8 ==>
            (#[trigger] bit_set_u16(((slave as u16) << 8u16) | (master as u16), line) == bit_set_u8(master, line)),
        forall|line: u8| 8 <= line < 16 ==>
            (#[trigger] bit_set_u16(((slave as u16) << 8u16) | (master as u16), line) == bit_set_u8(slave, (line - 8) as u8)),
{
    assert((((slave as u16) << 8u16) | (master as u16)) == (slave as u16) * 256u16 + (master as u16)) by (bit_vector);
    assert forall|line: u8| line < 8 implies
        (#[trigger] bit_set_u16(((slave as u16) << 8u16) | (master as u16), line) == bit_set_u8(master, line)) by {
        assert(((((((slave as u16) << 8u16) | (master as u16)) >> line) & 1u16) == 1u16) == (((master >> line) & 1u8) == 1u8)) by (bit_vector)
            requires line < 8u8;
    }
    assert forall|line: u8| 8 <= line < 16 implies
        (#[trigger] bit_set_u16(((slave as u16) << 8u16) | (master as u16), line) == bit_set_u8(slave, (line - 8) as u8)) by {
        let l2: u8 = (line - 8) as u8;
        assert(((((((slave as u16) << 8u16) | (master as u16)) >> line) & 1u16) == 1u16) == (((slave >> l2) & 1u8) == 1u8)) by (bit_vector)
            requires 8u8 <= line < 16u8, l2 == line - 8u8;
    }
}

proof fn lemma_updated_mask_bits(current: u8, line: u8, enable: bool)
    requires
        line < 8,
    ensures
        bit_set_u8(updated_mask(current, line, enable), line) == enable,
        forall|other: u8| other < 8 && other != line ==>
            #[trigger] bit_set_u8(updated_mask(current, line, enable), other) == bit_set_u8(current, other),
{
    let v = updated_mask(current, line, enable);
    if enable {
        assert(((current | (1u8 << line)) >> line) & 1u8 == 1u8) by (bit_vector)
            requires line < 8u8;
        assert forall|other: u8| other < 8 && other != line implies
            (((current | (1u8 << line)) >> other) & 1u8 == 1u8) == (((current >> other) & 1u8) == 1u8) by {
            assert((((current | (1u8 << line)) >> other) & 1u8 == 1u8) == (((current >> other) & 1u8) == 1u8)) by (bit_vector)
                requires line < 8u8, other < 8u8, other != line;
        }
    } else {
        assert(((current & !(1u8 << line)) >> line) & 1u8 == 0u8) by (bit_vector)
            requires line < 8u8;
        assert forall|other: u8| other < 8 && other != line implies
            (((current & !(1u8 << line)) >> other) & 1u8 == 1u8) == (((current >> other) & 1u8) == 1u8) by {
            assert((((current & !(1u8 << line)) >> other) & 1u8 == 1u8) == (((current >> other) & 1u8) == 1u8)) by (bit_vector)
                requires line < 8u8, other < 8u8, other != line;
        }
    }
}

} // verus!

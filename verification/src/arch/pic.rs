use vstd::prelude::*;

verus! {

pub const PIC1_COMMAND: u16 = 0x20;

pub const PIC1_DATA: u16 = 0x21;

pub const PIC2_COMMAND: u16 = 0xA0;

pub const PIC2_DATA: u16 = 0xA1;

pub const ICW1_INIT: u8 = 0x10;

pub const ICW1_ICW4: u8 = 0x01;

pub const ICW4_8086: u8 = 0x01;

/// Master IRQ0..7 are remapped to vectors 32..39.
pub const MASTER_VECTOR_OFFSET: u8 = 32;

/// Slave IRQ8..15 are remapped to vectors 40..47.
pub const SLAVE_VECTOR_OFFSET: u8 = 40;

/// Port written to give the PIC time between initialisation words.
pub const IO_WAIT_PORT: u16 = 0x80;

pub const END_OF_INTERRUPT: u8 = 0x20;

/// The port writes that remap both PICs (ICW1..ICW4, each followed by an
/// I/O wait), restore the saved masks, then leave only IRQ0 unmasked.
pub open spec fn init_sequence(master_mask: u8, slave_mask: u8) -> Seq<(u16, u8)> {
    seq![
        (PIC1_COMMAND, 0x11u8),
        (IO_WAIT_PORT, 0u8),
        (PIC2_COMMAND, 0x11u8),
        (IO_WAIT_PORT, 0u8),
        (PIC1_DATA, MASTER_VECTOR_OFFSET),
        (IO_WAIT_PORT, 0u8),
        (PIC2_DATA, SLAVE_VECTOR_OFFSET),
        (IO_WAIT_PORT, 0u8),
        (PIC1_DATA, 0x04u8),
        (IO_WAIT_PORT, 0u8),
        (PIC2_DATA, 0x02u8),
        (IO_WAIT_PORT, 0u8),
        (PIC1_DATA, ICW4_8086),
        (IO_WAIT_PORT, 0u8),
        (PIC2_DATA, ICW4_8086),
        (IO_WAIT_PORT, 0u8),
        (PIC1_DATA, master_mask),
        (PIC2_DATA, slave_mask),
        (PIC1_DATA, 0xFEu8),
        (PIC2_DATA, 0xFFu8),
    ]
}

/// The cascade line: the master's IRQ that the slave PIC is wired to.
pub const CASCADE_IRQ: u8 = 2;

/// The initialisation wires the cascade consistently: the master's ICW3
/// (its second data word) is the bit mask of the line the slave sits on,
/// the slave's ICW3 (its second data word) is the number of that line,
/// and that line is IRQ2. The ICW1 and ICW2 words around them start both
/// PICs in cascade mode and remap IRQ0..15 to vectors 32..47.
pub proof fn law_pic_cascade_on_irq2(master_mask: u8, slave_mask: u8)
    ensures
        ({
            let w = init_sequence(master_mask, slave_mask);
            &&& w[0].0 == PIC1_COMMAND && w[2].0 == PIC2_COMMAND
            &&& w[0].1 & ICW1_INIT != 0 && w[2].1 & ICW1_INIT != 0
            &&& w[4] == (PIC1_DATA, 32u8) && w[6] == (PIC2_DATA, 40u8)
            &&& w[8].0 == PIC1_DATA && w[10].0 == PIC2_DATA
            &&& w[10].1 == CASCADE_IRQ
            &&& w[8].1 == 1u8 << w[10].1
            &&& w[8].1 == 0x04u8 && w[10].1 == 0x02u8
        }),
{
    assert(0x11u8 & 0x10u8 != 0) by (bit_vector);
    assert(1u8 << 2u8 == 4u8) by (bit_vector);
}

fn push_wait(writes: &mut Vec<(u16, u8)>, port: u16, value: u8)
    ensures
        final(writes)@ == old(writes)@.push((port, value)).push((IO_WAIT_PORT, 0u8)),
{
    writes.push((port, value));
    writes.push((IO_WAIT_PORT, 0));
}

/// Port writes of PIC initialisation, given the masks read beforehand.
pub fn init_writes(master_mask: u8, slave_mask: u8) -> (r: Vec<(u16, u8)>)
    ensures
        r@ == init_sequence(master_mask, slave_mask),
        r@.len() == 20,
        r@[8] == (PIC1_DATA, 1u8 << CASCADE_IRQ),
        r@[10] == (PIC2_DATA, CASCADE_IRQ),
{
    let mut writes: Vec<(u16, u8)> = Vec::new();
    assert(ICW1_INIT | ICW1_ICW4 == 0x11u8) by (bit_vector);
    push_wait(&mut writes, PIC1_COMMAND, ICW1_INIT | ICW1_ICW4);
    push_wait(&mut writes, PIC2_COMMAND, ICW1_INIT | ICW1_ICW4);
    push_wait(&mut writes, PIC1_DATA, MASTER_VECTOR_OFFSET);
    push_wait(&mut writes, PIC2_DATA, SLAVE_VECTOR_OFFSET);
    push_wait(&mut writes, PIC1_DATA, 0x04);
    push_wait(&mut writes, PIC2_DATA, 0x02);
    push_wait(&mut writes, PIC1_DATA, ICW4_8086);
    push_wait(&mut writes, PIC2_DATA, ICW4_8086);
    writes.push((PIC1_DATA, master_mask));
    writes.push((PIC2_DATA, slave_mask));
    let masks = mask_all_except_timer();
    writes.push(masks[0]);
    writes.push(masks[1]);
    assert(writes@ =~= init_sequence(master_mask, slave_mask));
    assert(1u8 << 2u8 == 4u8) by (bit_vector);
    writes
}

/// Mask writes that leave only IRQ0 (the timer) enabled.
pub fn mask_all_except_timer() -> (r: [(u16, u8); 2])
    ensures
        r@ == seq![(PIC1_DATA, 0xFEu8), (PIC2_DATA, 0xFFu8)],
{
    let r = [(PIC1_DATA, 0b1111_1110u8), (PIC2_DATA, 0xFFu8)];
    assert(r@ =~= seq![(PIC1_DATA, 0xFEu8), (PIC2_DATA, 0xFFu8)]);
    r
}

/// The mask register that controls `irq`; `None` for lines the PICs do
/// not have.
pub fn irq_mask_port(irq: u8) -> (r: Option<u16>)
    ensures
        irq >= 16 ==> r is None,
        irq < 8 ==> r == Some(PIC1_DATA),
        8 <= irq < 16 ==> r == Some(PIC2_DATA),
{
    if irq >= 16 {
        None
    } else if irq < 8 {
        Some(PIC1_DATA)
    } else {
        Some(PIC2_DATA)
    }
}

/// Bit of `irq` within its PIC's mask register.
pub open spec fn irq_bit(irq: u8) -> u8 {
    if irq < 8 {
        irq
    } else {
        (irq - 8) as u8
    }
}

/// The mask register value that unmasks `irq`, from the current value.
pub fn enable_irq(irq: u8, mask: u8) -> (r: u8)
    requires
        irq < 16,
    ensures
        r == mask & !((1u8 << irq_bit(irq)) as u8),
        r & (1u8 << irq_bit(irq)) == 0,
{
    let bit = if irq < 8 {
        irq
    } else {
        irq - 8
    };
    let r = mask & !(1u8 << bit);
    assert(r & (1u8 << bit) == 0) by (bit_vector)
        requires
            r == mask & !(1u8 << bit),
            bit < 8,
    ;
    r
}

/// The mask register value that masks `irq`, from the current value.
pub fn disable_irq(irq: u8, mask: u8) -> (r: u8)
    requires
        irq < 16,
    ensures
        r == mask | (1u8 << irq_bit(irq)),
        r & (1u8 << irq_bit(irq)) != 0,
{
    let bit = if irq < 8 {
        irq
    } else {
        irq - 8
    };
    let r = mask | (1u8 << bit);
    assert(r & (1u8 << bit) != 0) by (bit_vector)
        requires
            r == mask | (1u8 << bit),
            bit < 8,
    ;
    r
}

/// End-of-interrupt writes for `irq`: the slave PIC first when the line
/// is on it, then always the master.
pub fn end_of_interrupt(irq: u8) -> (r: Vec<(u16, u8)>)
    ensures
        irq >= 8 ==> r@ == seq![(PIC2_COMMAND, END_OF_INTERRUPT), (PIC1_COMMAND, END_OF_INTERRUPT)],
        irq < 8 ==> r@ == seq![(PIC1_COMMAND, END_OF_INTERRUPT)],
{
    let mut writes: Vec<(u16, u8)> = Vec::new();
    if irq >= 8 {
        writes.push((PIC2_COMMAND, END_OF_INTERRUPT));
    }
    writes.push((PIC1_COMMAND, END_OF_INTERRUPT));
    proof {
        if irq >= 8 {
            assert(writes@ =~= seq![(PIC2_COMMAND, END_OF_INTERRUPT), (PIC1_COMMAND, END_OF_INTERRUPT)]);
        } else {
            assert(writes@ =~= seq![(PIC1_COMMAND, END_OF_INTERRUPT)]);
        }
    }
    writes
}

} // verus!

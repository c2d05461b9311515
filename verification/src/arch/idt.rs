use vstd::prelude::*;

verus! {

pub const IDT_ENTRIES: usize = 256;

pub const KERNEL_CODE_SELECTOR: u16 = 0x08;

/// Present, DPL 0, 64-bit interrupt gate.
pub const INTERRUPT_GATE: u8 = 0x8E;

/// One gate descriptor of the interrupt descriptor table.
#[derive(Clone, Copy, PartialEq, Eq, Structural)]
pub struct IdtEntry {
    pub offset_low: u16,
    pub selector: u16,
    pub ist: u8,
    pub attributes: u8,
    pub offset_mid: u16,
    pub offset_high: u32,
    pub reserved: u32,
}

/// The all-zero, not-present gate.
pub open spec fn missing_entry() -> IdtEntry {
    IdtEntry {
        offset_low: 0,
        selector: 0,
        ist: 0,
        attributes: 0,
        offset_mid: 0,
        offset_high: 0,
        reserved: 0,
    }
}

/// The interrupt gate that enters `handler` in the kernel code segment on
/// interrupt stack `ist` (only its low three bits count).
pub open spec fn gate_entry(handler: u64, ist: u8) -> IdtEntry {
    IdtEntry {
        offset_low: handler as u16,
        selector: KERNEL_CODE_SELECTOR,
        ist: ist & 0x07u8,
        attributes: INTERRUPT_GATE,
        offset_mid: (handler >> 16u64) as u16,
        offset_high: (handler >> 32u64) as u32,
        reserved: 0,
    }
}

/// The handler address the CPU jumps to through a gate.
pub open spec fn gate_target(e: IdtEntry) -> u64 {
    (e.offset_low as u64) | ((e.offset_mid as u64) << 16u64) | ((e.offset_high as u64) << 32u64)
}

/// A gate's three offset fields put back together give the handler
/// address it was built from.
pub proof fn law_gate_target(handler: u64, ist: u8)
    ensures
        gate_target(gate_entry(handler, ist)) == handler,
        gate_entry(handler, ist).ist < 8,
{
    assert(((handler as u16) as u64) | (((handler >> 16u64) as u16 as u64) << 16u64) | (((handler
        >> 32u64) as u32 as u64) << 32u64) == handler) by (bit_vector);
    assert(ist & 0x07u8 < 8) by (bit_vector);
}

impl IdtEntry {
    pub fn missing() -> (e: Self)
        ensures
            e == missing_entry(),
    {
        IdtEntry {
            offset_low: 0,
            selector: 0,
            ist: 0,
            attributes: 0,
            offset_mid: 0,
            offset_high: 0,
            reserved: 0,
        }
    }

    pub fn set_handler(&mut self, handler: u64)
        ensures
            *final(self) == gate_entry(handler, 0),
    {
        self.set_handler_with_ist(handler, 0);
    }

    pub fn set_handler_with_ist(&mut self, handler: u64, ist: u8)
        ensures
            *final(self) == gate_entry(handler, ist),
    {
        self.offset_low = handler as u16;
        self.selector = KERNEL_CODE_SELECTOR;
        self.ist = ist & 0x07;
        self.attributes = INTERRUPT_GATE;
        self.offset_mid = (handler >> 16u64) as u16;
        self.offset_high = (handler >> 32u64) as u32;
        self.reserved = 0;
    }
}

/// The interrupt descriptor table.
pub struct InterruptDescriptorTable {
    pub entries: [IdtEntry; IDT_ENTRIES],
}

impl InterruptDescriptorTable {
    pub fn new() -> (t: Self)
        ensures
            forall|i: int| 0 <= i < IDT_ENTRIES ==> #[trigger] t.entries@[i] == missing_entry(),
    {
        InterruptDescriptorTable { entries: [IdtEntry::missing(); IDT_ENTRIES] }
    }

    pub fn set_handler(&mut self, vector: usize, handler: u64)
        requires
            vector < IDT_ENTRIES,
        ensures
            final(self).entries@ == old(self).entries@.update(vector as int, gate_entry(handler, 0)),
    {
        self.set_handler_with_ist(vector, handler, 0);
    }

    pub fn set_handler_with_ist(&mut self, vector: usize, handler: u64, ist: u8)
        requires
            vector < IDT_ENTRIES,
        ensures
            final(self).entries@ == old(self).entries@.update(
                vector as int,
                gate_entry(handler, ist),
            ),
    {
        let mut entry = self.entries[vector];
        entry.set_handler_with_ist(handler, ist);
        self.entries[vector] = entry;
    }
}

/// CPU exception frame as the exception stubs hand it to the kernel.
pub struct InterruptFrame {
    pub vector: u64,
    pub error_code: u64,
    pub rip: u64,
    pub cs: u64,
    pub rflags: u64,
}

/// Hardware IRQ frame: vector pushed by the stub, then the IRET frame.
#[derive(Clone, Copy)]
pub struct IrqFrame {
    pub vector: u64,
    pub rip: u64,
    pub cs: u64,
    pub rflags: u64,
}

} // verus!

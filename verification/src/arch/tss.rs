use vstd::prelude::*;

verus! {

pub const DOUBLE_FAULT_STACK_SIZE: usize = 16384;

/// Ring 0 stack used when the CPU enters the kernel from ring 3.
pub const RING3_KERNEL_STACK_SIZE: usize = 16384;

/// Size in bytes of the hardware task state segment.
pub const TSS_SIZE: usize = 104;

/// The x86_64 task state segment.
pub struct TaskStateSegment {
    pub reserved1: u32,
    /// Ring 0 stack used when an interrupt or exception enters the kernel
    /// from CPL 3.
    pub rsp0: u64,
    pub rsp1: u64,
    pub rsp2: u64,
    pub reserved2: u64,
    pub ist1: u64,
    pub ist2: u64,
    pub ist3: u64,
    pub ist4: u64,
    pub ist5: u64,
    pub ist6: u64,
    pub ist7: u64,
    pub reserved3: u64,
    pub reserved4: u16,
    pub iomap_base: u16,
}

impl TaskStateSegment {
    /// Every field zero.
    pub open spec fn is_zero(&self) -> bool {
        &&& self.reserved1 == 0
        &&& self.rsp0 == 0
        &&& self.rsp1 == 0
        &&& self.rsp2 == 0
        &&& self.reserved2 == 0
        &&& self.ist1 == 0
        &&& self.ist2 == 0
        &&& self.ist3 == 0
        &&& self.ist4 == 0
        &&& self.ist5 == 0
        &&& self.ist6 == 0
        &&& self.ist7 == 0
        &&& self.reserved3 == 0
        &&& self.reserved4 == 0
        &&& self.iomap_base == 0
    }

    pub fn new() -> (t: Self)
        ensures
            t.is_zero(),
    {
        TaskStateSegment {
            reserved1: 0,
            rsp0: 0,
            rsp1: 0,
            rsp2: 0,
            reserved2: 0,
            ist1: 0,
            ist2: 0,
            ist3: 0,
            ist4: 0,
            ist5: 0,
            ist6: 0,
            ist7: 0,
            reserved3: 0,
            reserved4: 0,
            iomap_base: 0,
        }
    }

    /// Point IST1 at the top of the double-fault stack that starts at
    /// `double_fault_stack`, and disable the I/O bitmap by placing its base
    /// right after the segment.
    pub fn init(&mut self, double_fault_stack: u64)
        requires
            double_fault_stack + DOUBLE_FAULT_STACK_SIZE <= u64::MAX,
        ensures
            final(self).ist1 == double_fault_stack + DOUBLE_FAULT_STACK_SIZE,
            final(self).iomap_base == TSS_SIZE,
            final(self).rsp0 == old(self).rsp0,
            final(self).rsp1 == old(self).rsp1,
            final(self).rsp2 == old(self).rsp2,
            final(self).ist2 == old(self).ist2,
            final(self).ist3 == old(self).ist3,
            final(self).ist4 == old(self).ist4,
            final(self).ist5 == old(self).ist5,
            final(self).ist6 == old(self).ist6,
            final(self).ist7 == old(self).ist7,
    {
        let stack_end = double_fault_stack + DOUBLE_FAULT_STACK_SIZE as u64;
        self.ist1 = stack_end;
        self.iomap_base = TSS_SIZE as u16;
    }

    /// Set the ring 0 stack used for CPL 3 to CPL 0 transitions.
    pub fn set_rsp0(&mut self, stack_top: u64)
        ensures
            final(self).rsp0 == stack_top,
            final(self).ist1 == old(self).ist1,
            final(self).iomap_base == old(self).iomap_base,
    {
        self.rsp0 = stack_top;
    }

    pub fn rsp0(&self) -> (r: u64)
        ensures
            r == self.rsp0,
    {
        self.rsp0
    }
}

/// Size of the task state segment.
pub fn size() -> (r: usize)
    ensures
        r == TSS_SIZE,
{
    TSS_SIZE
}

/// Whether an IST1 stack top is usable: non-null and 16-byte aligned.
pub fn ist1_valid(ist1: u64) -> (r: bool)
    ensures
        r == (ist1 != 0 && ist1 % 16 == 0),
{
    proof {
        assert(ist1 & 0x0Fu64 == ist1 % 16) by (bit_vector);
    }
    ist1 != 0 && (ist1 & 0x0F) == 0
}

} // verus!

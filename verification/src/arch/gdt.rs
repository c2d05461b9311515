use vstd::prelude::*;

use super::tss::TSS_SIZE;

verus! {

pub const KERNEL_CODE_SELECTOR: u16 = 0x08;

pub const KERNEL_DATA_SELECTOR: u16 = 0x10;

pub const TSS_SELECTOR: u16 = 0x18;

pub const USER_DATA_SELECTOR: u16 = 0x28;

pub const USER_CODE_SELECTOR: u16 = 0x30;

/// Ring 3 (RPL 3) user data selector.
pub const USER_DATA_SELECTOR_R3: u16 = 0x2B;

/// Ring 3 (RPL 3) user code selector.
pub const USER_CODE_SELECTOR_R3: u16 = 0x33;

pub const GDT_NULL: u64 = 0x0000_0000_0000_0000;

pub const GDT_KERNEL_CODE: u64 = 0x00AF_9A00_0000_FFFF;

pub const GDT_KERNEL_DATA: u64 = 0x00CF_9200_0000_FFFF;

/// Present, DPL 3, writable data segment.
pub const GDT_USER_DATA: u64 = 0x00CF_F200_0000_FFFF;

/// Present, DPL 3, readable long-mode code segment.
pub const GDT_USER_CODE: u64 = 0x00AF_FA00_0000_FFFF;

pub const GDT_ENTRIES: usize = 7;

/// Size of the table in bytes.
pub const GDT_SIZE: usize = 56;

/// Operand of LGDT/SGDT: table limit (size minus one) and linear base.
#[derive(Clone, Copy, PartialEq, Eq, Structural)]
pub struct DescriptorTablePointer {
    pub limit: u16,
    pub base: u64,
}

/// Low quadword of a 64-bit available-TSS descriptor for a segment at
/// `base` with limit `limit` (present, DPL 0, type 1001b).
pub open spec fn tss_descriptor_low(base: u64, limit: u32) -> u64 {
    ((limit as u64) & 0xFFFFu64) | ((base & 0xFFFFu64) << 16u64) | (((base >> 16u64) & 0xFFu64)
        << 32u64) | (0x89u64 << 40u64) | ((((limit as u64) >> 16u64) & 0x0Fu64) << 48u64) | (((base
        >> 24u64) & 0xFFu64) << 56u64)
}

/// High quadword of a TSS descriptor: bits 32..63 of the base.
pub open spec fn tss_descriptor_high(base: u64) -> u64 {
    (base >> 32u64) & 0xFFFF_FFFFu64
}

/// Segment base as the CPU reads it from a system descriptor.
pub open spec fn descriptor_base(low: u64, high: u64) -> u64 {
    ((low >> 16u64) & 0xFFFFu64) | (((low >> 32u64) & 0xFFu64) << 16u64) | (((low >> 56u64) & 0xFFu64)
        << 24u64) | (high << 32u64)
}

/// Segment limit (20 bits) as the CPU reads it from a descriptor.
pub open spec fn descriptor_limit(low: u64) -> u64 {
    (low & 0xFFFFu64) | (((low >> 48u64) & 0x0Fu64) << 16u64)
}

/// Access byte of a descriptor.
pub open spec fn descriptor_access(low: u64) -> u64 {
    (low >> 40u64) & 0xFFu64
}

/// The CPU reads back from the installed TSS descriptor the base it was
/// built from, the limit truncated to 20 bits, and the available-TSS
/// access byte.
pub proof fn law_tss_descriptor_roundtrip(base: u64, limit: u32)
    ensures
        descriptor_base(tss_descriptor_low(base, limit), tss_descriptor_high(base)) == base,
        descriptor_limit(tss_descriptor_low(base, limit)) == (limit as u64) & 0xF_FFFFu64,
        descriptor_access(tss_descriptor_low(base, limit)) == 0x89,
{
    assert(descriptor_base(tss_descriptor_low(base, limit), tss_descriptor_high(base)) == base)
        by (bit_vector);
    assert(descriptor_limit(tss_descriptor_low(base, limit)) == (limit as u64) & 0xF_FFFFu64)
        by (bit_vector);
    assert(descriptor_access(tss_descriptor_low(base, limit)) == 0x89) by (bit_vector);
}

/// The global descriptor table:
///   [0] null, [1] kernel code, [2] kernel data, [3]/[4] TSS,
///   [5] user data, [6] user code.
pub struct GlobalDescriptorTable {
    pub entries: [u64; GDT_ENTRIES],
}

/// The table before the TSS descriptor is installed.
pub open spec fn initial_gdt() -> Seq<u64> {
    seq![GDT_NULL, GDT_KERNEL_CODE, GDT_KERNEL_DATA, 0u64, 0u64, GDT_USER_DATA, GDT_USER_CODE]
}

impl GlobalDescriptorTable {
    pub fn new() -> (g: Self)
        ensures
            g.entries@ == initial_gdt(),
    {
        let g = GlobalDescriptorTable {
            entries: [
                GDT_NULL,
                GDT_KERNEL_CODE,
                GDT_KERNEL_DATA,
                0,
                0,
                GDT_USER_DATA,
                GDT_USER_CODE,
            ],
        };
        assert(g.entries@ =~= initial_gdt());
        g
    }

    /// Write the descriptor of the task state segment at `tss_base` into
    /// entries 3 and 4.
    pub fn install_tss(&mut self, tss_base: u64)
        ensures
            final(self).entries@ == old(self).entries@.update(
                3,
                tss_descriptor_low(tss_base, (TSS_SIZE - 1) as u32),
            ).update(4, tss_descriptor_high(tss_base)),
    {
        let base = tss_base;
        let limit = (TSS_SIZE - 1) as u32;
        let mut low = 0u64;
        low = low | ((limit as u64) & 0xFFFF);
        low = low | ((base & 0xFFFF) << 16u64);
        low = low | (((base >> 16u64) & 0xFF) << 32u64);
        low = low | (0x89u64 << 40u64);
        low = low | ((((limit as u64) >> 16u64) & 0x0F) << 48u64);
        low = low | (((base >> 24u64) & 0xFF) << 56u64);
        let high = (base >> 32u64) & 0xFFFF_FFFF;
        assert(low == tss_descriptor_low(base, limit)) by (bit_vector)
            requires
                low == 0u64 | ((limit as u64) & 0xFFFFu64) | ((base & 0xFFFFu64) << 16u64) | (((base
                    >> 16u64) & 0xFFu64) << 32u64) | (0x89u64 << 40u64) | ((((limit as u64) >> 16u64)
                    & 0x0Fu64) << 48u64) | (((base >> 24u64) & 0xFFu64) << 56u64),
        ;
        self.entries[3] = low;
        self.entries[4] = high;
    }

    /// The LGDT operand for this table when it lives at `base`.
    pub fn pointer(base: u64) -> (p: DescriptorTablePointer)
        ensures
            p.limit == GDT_SIZE - 1,
            p.base == base,
    {
        DescriptorTablePointer { limit: (GDT_SIZE - 1) as u16, base }
    }
}

/// Whether the descriptor table register holds this table at
/// `expected_base`.
pub fn verify(actual: DescriptorTablePointer, expected_base: u64) -> (r: bool)
    ensures
        r == (actual.base == expected_base && actual.limit == GDT_SIZE - 1),
{
    actual.base == expected_base && actual.limit == (GDT_SIZE - 1) as u16
}

/// Whether the task register holds the TSS selector.
pub fn verify_task_register(task_register: u16) -> (r: bool)
    ensures
        r == (task_register == TSS_SELECTOR),
{
    task_register == TSS_SELECTOR
}

/// Whether the ring 3 descriptors hold their expected values.
pub fn verify_user_segments(gdt: &GlobalDescriptorTable) -> (r: bool)
    ensures
        r == (gdt.entries@[5] == GDT_USER_DATA && gdt.entries@[6] == GDT_USER_CODE),
{
    let user_data_ok = gdt.entries[5] == GDT_USER_DATA;
    let user_code_ok = gdt.entries[6] == GDT_USER_CODE;
    user_data_ok && user_code_ok
}

} // verus!

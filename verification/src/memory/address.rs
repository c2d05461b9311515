use vstd::prelude::*;

verus! {

/// Virtual address at which physical memory is identity-mapped.
pub const IDENTITY_MAP_BASE: u64 = 0;

/// The virtual address through which the kernel reaches a physical
/// address.
pub fn phys_to_virt(physical_address: u64) -> (r: u64)
    ensures
        r == physical_address + IDENTITY_MAP_BASE,
{
    physical_address + IDENTITY_MAP_BASE
}

} // verus!

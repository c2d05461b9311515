use vstd::prelude::*;

verus! {

pub const USER_CODE_VADDR: u64 = 0x0000_0000_0040_0000;

pub const USER_STACK_VADDR: u64 = 0x0000_0000_0080_0000;

pub const USER_STACK_SIZE: usize = 16384;

/// End of the temporary user test stack that starts at `start`.
pub fn stack_physical_end(start: u64) -> (r: u64)
    requires
        start + USER_STACK_SIZE <= u64::MAX,
    ensures
        r == start + USER_STACK_SIZE,
{
    start + USER_STACK_SIZE as u64
}

/// The initial user-mode RFLAGS: reserved bit 1 and IF.
pub const USER_RFLAGS: u64 = 0x202;

} // verus!

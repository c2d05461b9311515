use vstd::prelude::*;

verus! {

/// Syscall number: report the syscall ABI version.
pub const SYS_GET_VERSION: u64 = 0;

/// The syscall ABI version this kernel implements.
pub const UNBOUND_SYSCALL_ABI_VERSION: u64 = 1;

/// What the kernel answers to syscall `number`: the ABI version for
/// `SYS_GET_VERSION`, `u64::MAX` for any number it does not know.
pub open spec fn syscall_result(number: u64) -> u64 {
    if number == SYS_GET_VERSION {
        UNBOUND_SYSCALL_ABI_VERSION
    } else {
        u64::MAX
    }
}

/// Handle syscall `number` with its three arguments.
pub fn dispatch(number: u64, arg0: u64, arg1: u64, arg2: u64) -> (r: u64)
    ensures
        r == syscall_result(number),
{
    let _ = arg0;
    let _ = arg1;
    let _ = arg2;
    if number == SYS_GET_VERSION {
        UNBOUND_SYSCALL_ABI_VERSION
    } else {
        u64::MAX
    }
}

} // verus!

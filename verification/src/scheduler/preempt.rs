use vstd::prelude::*;

use crate::arch::idt::IrqFrame;

verus! {

/// Vector of the PIC timer interrupt (IRQ0).
pub const TIMER_VECTOR: u64 = 0x20;

/// Lowest and one-past-highest address of kernel text a saved frame may
/// resume at.
pub const KERNEL_TEXT_START: u64 = 0x100000;

pub const KERNEL_TEXT_END: u64 = 0x200000;

/// Bits 48..63 all equal (the 48-bit canonical form, as the kernel checks
/// it: upper 16 bits all zero or all one).
pub open spec fn canonical(addr: u64) -> bool {
    (addr >> 48u64) == 0 || (addr >> 48u64) == 0xFFFF
}

pub fn is_canonical_address(addr: u64) -> (r: bool)
    ensures
        r == canonical(addr),
{
    let upper = addr >> 48u64;
    upper == 0x0000 || upper == 0xFFFF
}

/// A saved timer-interrupt frame at `rsp` that is safe to resume: a
/// non-null address, the timer vector, the kernel code selector, the
/// reserved RFLAGS bit set, and a canonical RIP inside kernel text.
pub open spec fn frame_resumable(rsp: u64, frame: IrqFrame) -> bool {
    &&& rsp != 0
    &&& frame.vector == TIMER_VECTOR
    &&& frame.cs == 0x08
    &&& frame.rflags & 0x2u64 != 0
    &&& canonical(frame.rip)
    &&& KERNEL_TEXT_START <= frame.rip < KERNEL_TEXT_END
}

/// Check the frame words found at `rsp` (the words are only meaningful
/// when `rsp` is non-null).
pub fn validate_interrupt_frame(rsp: u64, frame: &IrqFrame) -> (r: bool)
    ensures
        r == frame_resumable(rsp, *frame),
{
    if rsp == 0 {
        return false;
    }
    if frame.vector != TIMER_VECTOR {
        return false;
    }
    if frame.cs != 0x08 {
        return false;
    }
    if (frame.rflags & 0x2) == 0 {
        return false;
    }
    if !is_canonical_address(frame.rip) {
        return false;
    }
    if frame.rip < KERNEL_TEXT_START || frame.rip >= KERNEL_TEXT_END {
        return false;
    }
    true
}

} // verus!

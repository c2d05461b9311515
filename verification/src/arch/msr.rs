use vstd::prelude::*;

verus! {

pub const IA32_EFER: u32 = 0xC000_0080;

pub const IA32_STAR: u32 = 0xC000_0081;

pub const IA32_LSTAR: u32 = 0xC000_0082;

pub const IA32_CSTAR: u32 = 0xC000_0083;

pub const IA32_FMASK: u32 = 0xC000_0084;

/// EFER.SCE: system call extensions enable (bit 0).
pub const EFER_SCE: u64 = 1;

/// SYSCALL kernel CS (STAR[47:32]); kernel SS is CS + 8.
pub const STAR_KERNEL_CS: u64 = 0x08;

/// SYSRET selector base (STAR[63:48]): user SS = base + 8, user CS = base
/// + 16.
pub const STAR_USER_CS_BASE: u64 = 0x20;

pub const USER_DATA_SELECTOR_R3: u16 = 0x2B;

pub const USER_CODE_SELECTOR_R3: u16 = 0x33;

/// RFLAGS bits SYSCALL clears: IF.
pub const SYSCALL_FMASK: u64 = 0x0000_0000_0000_0200;

/// The STAR value for the current GDT layout: 0x0020_0008_0000_0000.
pub fn make_star() -> (r: u64)
    ensures
        r == 0x0020_0008_0000_0000u64,
        r >> 48u64 == STAR_USER_CS_BASE,
        (r >> 32u64) & 0xFFFFu64 == STAR_KERNEL_CS,
{
    let r = (STAR_USER_CS_BASE << 48u64) | (STAR_KERNEL_CS << 32u64);
    assert(((0x20u64 << 48u64) | (0x08u64 << 32u64)) == 0x0020_0008_0000_0000u64) by (bit_vector);
    assert(0x0020_0008_0000_0000u64 >> 48u64 == 0x20u64) by (bit_vector);
    assert((0x0020_0008_0000_0000u64 >> 32u64) & 0xFFFFu64 == 0x08u64) by (bit_vector);
    r
}

/// The STAR/GDT relationship SYSRETQ needs: user code 0x30, user data
/// 0x28, ring 3 selectors 0x33 / 0x2B, kernel CS 0x08.
pub fn verify_syscall_selectors() -> (r: bool)
    ensures
        r,
{
    let user_code = STAR_USER_CS_BASE + 16;
    let user_data = STAR_USER_CS_BASE + 8;
    user_code as u16 == 0x30 && user_data as u16 == 0x28 && USER_CODE_SELECTOR_R3 == 0x33
        && USER_DATA_SELECTOR_R3 == 0x2B && STAR_KERNEL_CS as u16 == 0x08
}

pub fn syscall_kernel_cs() -> (r: u16)
    ensures
        r == STAR_KERNEL_CS,
{
    STAR_KERNEL_CS as u16
}

pub fn syscall_kernel_ss() -> (r: u16)
    ensures
        r == STAR_KERNEL_CS + 8,
{
    (STAR_KERNEL_CS + 8) as u16
}

pub fn sysret_user_cs() -> (r: u16)
    ensures
        r == 0x33,
{
    let r = (STAR_USER_CS_BASE + 16) as u16 | 0x03;
    assert(0x30u16 | 0x03u16 == 0x33u16) by (bit_vector);
    r
}

pub fn sysret_user_ss() -> (r: u16)
    ensures
        r == 0x2B,
{
    let r = (STAR_USER_CS_BASE + 8) as u16 | 0x03;
    assert(0x28u16 | 0x03u16 == 0x2Bu16) by (bit_vector);
    r
}

/// Whether EFER has SYSCALL/SYSRET enabled.
pub fn syscall_extensions_enabled(efer: u64) -> (r: bool)
    ensures
        r == (efer & EFER_SCE != 0),
{
    (efer & EFER_SCE) != 0
}

/// The EFER value that enables SYSCALL/SYSRET starting from `efer`, or
/// `None` when it is already enabled and nothing needs writing.
pub fn enable_syscall_extensions(efer: u64) -> (r: Option<u64>)
    ensures
        efer & EFER_SCE != 0 ==> r is None,
        efer & EFER_SCE == 0 ==> r == Some(efer | EFER_SCE),
        r matches Some(v) ==> v & EFER_SCE != 0 && v & !EFER_SCE == efer & !EFER_SCE,
{
    if (efer & EFER_SCE) == 0 {
        let v = efer | EFER_SCE;
        assert(v & 1u64 != 0 && v & !1u64 == efer & !1u64) by (bit_vector)
            requires
                v == efer | 1u64,
        ;
        Some(v)
    } else {
        None
    }
}

/// Values of the four SYSCALL MSRs.
#[derive(Clone, Copy, PartialEq, Eq, Structural)]
pub struct SyscallMsrs {
    pub star: u64,
    pub lstar: u64,
    pub cstar: u64,
    pub fmask: u64,
}

/// The values SYSCALL initialisation writes for entry point `lstar`:
/// STAR for the GDT layout, LSTAR the entry, no compatibility-mode entry,
/// IF cleared on entry.
pub fn init_syscall_msrs(lstar: u64) -> (r: SyscallMsrs)
    ensures
        r.star == 0x0020_0008_0000_0000u64,
        r.lstar == lstar,
        r.cstar == 0,
        r.fmask == SYSCALL_FMASK,
{
    SyscallMsrs { star: make_star(), lstar, cstar: 0, fmask: SYSCALL_FMASK }
}

/// Whether the SYSCALL MSRs read back hold what initialisation for entry
/// `lstar` writes.
pub fn verify_syscall_msrs(actual: SyscallMsrs, lstar: u64) -> (r: bool)
    ensures
        r == (actual.star == 0x0020_0008_0000_0000u64 && actual.lstar == lstar && actual.cstar == 0
            && actual.fmask == SYSCALL_FMASK),
{
    if actual.star != make_star() {
        return false;
    }
    if actual.lstar != lstar {
        return false;
    }
    if actual.cstar != 0 {
        return false;
    }
    if actual.fmask != SYSCALL_FMASK {
        return false;
    }
    true
}

} // verus!

//! Verified core of the Unbound kernel: kernel objects, IPC endpoints,
//! physical memory and page tables, the scheduler, x86_64 descriptor
//! encodings and the boot image layout.
use vstd::prelude::*;

pub mod arch;
pub mod boot_info;
pub mod console;
pub mod image;
pub mod ipc;
pub mod memory;
pub mod objects;
pub mod scheduler;
pub mod syscall;

verus! {

} // verus!

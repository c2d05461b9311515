use vstd::prelude::*;

verus! {

/// Boot information the bootloader hands to the kernel.
pub struct BootInfo {
    pub magic: u64,
    pub version: u32,
    pub size: u32,
    pub boot_drive: u8,
    pub _reserved: [u8; 7],
    pub kernel_phys_start: u64,
    pub kernel_phys_end: u64,
    pub memory_map_addr: u64,
    pub memory_map_count: u32,
    pub memory_map_entry_size: u32,
    pub _reserved2: u64,
}

/// One E820 memory map entry.
#[derive(Clone, Copy)]
pub struct MemoryMapEntry {
    pub base_addr: u64,
    pub length: u64,
    pub entry_type: u32,
    pub attributes: u32,
}

pub const BOOT_INFO_MAGIC: u64 = 0x554E424F554E4442;

pub const BOOT_INFO_VERSION: u32 = 2;

/// Size in bytes of a `MemoryMapEntry` as the bootloader lays it out.
pub const MEMORY_MAP_ENTRY_SIZE: u32 = 24;

/// Size in bytes of a `BootInfo` as the bootloader lays it out.
pub const BOOT_INFO_SIZE: u32 = 64;

/// E820 type of memory the kernel may use.
pub const E820_USABLE: u32 = 1;

/// Why the kernel refuses a boot information block.
#[derive(Clone, Copy, PartialEq, Eq, Structural)]
pub enum BootInfoError {
    BadMagic,
    BadVersion,
    BadMemoryMapAddress,
    BadMemoryMapCount,
    BadMemoryMapEntrySize,
    BadSize,
    BadKernelRange,
}

/// The first check a boot information block fails, in the order the
/// kernel checks them.
pub open spec fn boot_info_error(info: BootInfo) -> Option<BootInfoError> {
    if info.magic != BOOT_INFO_MAGIC {
        Some(BootInfoError::BadMagic)
    } else if info.version != BOOT_INFO_VERSION {
        Some(BootInfoError::BadVersion)
    } else if info.memory_map_addr == 0 {
        Some(BootInfoError::BadMemoryMapAddress)
    } else if info.memory_map_count == 0 {
        Some(BootInfoError::BadMemoryMapCount)
    } else if info.memory_map_entry_size != MEMORY_MAP_ENTRY_SIZE {
        Some(BootInfoError::BadMemoryMapEntrySize)
    } else if info.size < BOOT_INFO_SIZE {
        Some(BootInfoError::BadSize)
    } else if info.kernel_phys_end <= info.kernel_phys_start {
        Some(BootInfoError::BadKernelRange)
    } else {
        None
    }
}

impl BootInfoError {
    /// The diagnostic the kernel prints before halting.
    pub fn message(&self) -> (r: &'static str)
        ensures
            r@ == boot_info_error_message(*self),
    {
        match self {
            BootInfoError::BadMagic => "BAD MAGIC",
            BootInfoError::BadVersion => "BAD VERSION",
            BootInfoError::BadMemoryMapAddress => "BAD MEMORY MAP ADDRESS",
            BootInfoError::BadMemoryMapCount => "BAD MEMORY MAP COUNT",
            BootInfoError::BadMemoryMapEntrySize => "BAD MEMORY MAP ENTRY SIZE",
            BootInfoError::BadSize => "BAD SIZE",
            BootInfoError::BadKernelRange => "BAD KERNEL RANGE",
        }
    }
}

pub open spec fn boot_info_error_message(e: BootInfoError) -> Seq<char> {
    match e {
        BootInfoError::BadMagic => "BAD MAGIC"@,
        BootInfoError::BadVersion => "BAD VERSION"@,
        BootInfoError::BadMemoryMapAddress => "BAD MEMORY MAP ADDRESS"@,
        BootInfoError::BadMemoryMapCount => "BAD MEMORY MAP COUNT"@,
        BootInfoError::BadMemoryMapEntrySize => "BAD MEMORY MAP ENTRY SIZE"@,
        BootInfoError::BadSize => "BAD SIZE"@,
        BootInfoError::BadKernelRange => "BAD KERNEL RANGE"@,
    }
}

/// Validate the boot information block the kernel was entered with.
pub fn validate_boot_info(info: &BootInfo) -> (r: Result<(), BootInfoError>)
    ensures
        match boot_info_error(*info) {
            Some(e) => r == Err::<(), BootInfoError>(e),
            None => r is Ok,
        },
{
    if info.magic != BOOT_INFO_MAGIC {
        return Err(BootInfoError::BadMagic);
    }
    if info.version != BOOT_INFO_VERSION {
        return Err(BootInfoError::BadVersion);
    }
    if info.memory_map_addr == 0 {
        return Err(BootInfoError::BadMemoryMapAddress);
    }
    if info.memory_map_count == 0 {
        return Err(BootInfoError::BadMemoryMapCount);
    }
    if info.memory_map_entry_size != MEMORY_MAP_ENTRY_SIZE {
        return Err(BootInfoError::BadMemoryMapEntrySize);
    }
    if info.size < BOOT_INFO_SIZE {
        return Err(BootInfoError::BadSize);
    }
    if info.kernel_phys_end <= info.kernel_phys_start {
        return Err(BootInfoError::BadKernelRange);
    }
    Ok(())
}

} // verus!

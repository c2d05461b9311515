use lib::boot_info::{validate_boot_info, BootInfo, BootInfoError, BOOT_INFO_MAGIC, BOOT_INFO_VERSION};
use lib::console::{hex32, hex64, hex8, hex_digit, transmit_ready};
use lib::image::{
    assemble_image, build_image, kernel_sectors, validate_stage1, validate_stage2, ImageError,
    IMAGE_SIZE, KERNEL_LBA, SECTOR_SIZE, STAGE2_KERNEL_READ_SECTORS,
};
use lib::syscall::{dispatch, SYS_GET_VERSION, UNBOUND_SYSCALL_ABI_VERSION};

fn good_info() -> BootInfo {
    BootInfo {
        magic: BOOT_INFO_MAGIC,
        version: BOOT_INFO_VERSION,
        size: 64,
        boot_drive: 0x80,
        _reserved: [0; 7],
        kernel_phys_start: 0x100000,
        kernel_phys_end: 0x180000,
        memory_map_addr: 0x60000,
        memory_map_count: 3,
        memory_map_entry_size: 24,
        _reserved2: 0,
    }
}

#[test]
fn boot_info_accepted() {
    assert!(validate_boot_info(&good_info()).is_ok());
}

#[test]
fn boot_info_each_refusal() {
    let cases: [(fn(&mut BootInfo), BootInfoError, &str); 7] = [
        (|i| i.magic = 0, BootInfoError::BadMagic, "BAD MAGIC"),
        (|i| i.version = 1, BootInfoError::BadVersion, "BAD VERSION"),
        (|i| i.memory_map_addr = 0, BootInfoError::BadMemoryMapAddress, "BAD MEMORY MAP ADDRESS"),
        (|i| i.memory_map_count = 0, BootInfoError::BadMemoryMapCount, "BAD MEMORY MAP COUNT"),
        (|i| i.memory_map_entry_size = 20, BootInfoError::BadMemoryMapEntrySize, "BAD MEMORY MAP ENTRY SIZE"),
        (|i| i.size = 63, BootInfoError::BadSize, "BAD SIZE"),
        (|i| i.kernel_phys_end = i.kernel_phys_start, BootInfoError::BadKernelRange, "BAD KERNEL RANGE"),
    ];
    for (spoil, expected, message) in cases {
        let mut info = good_info();
        spoil(&mut info);
        let err = validate_boot_info(&info).unwrap_err();
        assert!(err == expected);
        assert_eq!(err.message(), message);
    }
}

#[test]
fn boot_info_checks_in_order() {
    let mut info = good_info();
    info.version = 9;
    info.size = 0;
    assert!(validate_boot_info(&info) == Err(BootInfoError::BadVersion));
}

#[test]
fn syscall_dispatch() {
    assert_eq!(dispatch(SYS_GET_VERSION, 0, 0, 0), UNBOUND_SYSCALL_ABI_VERSION);
    assert_eq!(dispatch(SYS_GET_VERSION, 7, 8, 9), 1);
    assert_eq!(dispatch(0xFFFF, 0, 0, 0), u64::MAX);
    assert_eq!(dispatch(1, 0, 0, 0), u64::MAX);
}

#[test]
fn hex_formatting() {
    assert_eq!(hex_digit(0), b'0');
    assert_eq!(hex_digit(9), b'9');
    assert_eq!(hex_digit(10), b'A');
    assert_eq!(hex_digit(15), b'F');
    assert_eq!(hex8(0x3C), b"3C".to_vec());
    assert_eq!(hex32(0x0010_00AF), b"001000AF".to_vec());
    assert_eq!(hex64(0x0123_4567_89AB_CDEF), b"0123456789ABCDEF".to_vec());
    assert_eq!(hex64(0), b"0000000000000000".to_vec());
    assert!(transmit_ready(0x60));
    assert!(!transmit_ready(0x01));
}

fn stage1() -> Vec<u8> {
    let mut s = vec![0xEBu8; 512];
    s[510] = 0x55;
    s[511] = 0xAA;
    s
}

#[test]
fn image_layout() {
    let s1 = stage1();
    let s2 = vec![0x22u8; 1000];
    let kernel = vec![0x33u8; 700];
    let image = build_image(&s1, &s2, &kernel).unwrap();
    assert_eq!(image.len(), IMAGE_SIZE);
    assert_eq!(IMAGE_SIZE, (33 + 1024) * 512);
    assert_eq!(&image[..512], &s1[..]);
    assert_eq!(&image[512..1512], &s2[..]);
    assert!(image[1512..KERNEL_LBA * SECTOR_SIZE].iter().all(|&b| b == 0));
    assert_eq!(&image[16896..16896 + 700], &kernel[..]);
    assert!(image[16896 + 700..].iter().all(|&b| b == 0));
    assert_eq!(assemble_image(&s1, &s2, &kernel), image);
}

#[test]
fn image_refusals() {
    let s1 = stage1();
    assert_eq!(validate_stage1(&s1[..511]), Err(ImageError::Stage1Size(511)));
    let mut unsigned = s1.clone();
    unsigned[511] = 0;
    assert_eq!(validate_stage1(&unsigned), Err(ImageError::MissingBootSignature));
    assert_eq!(validate_stage1(&s1), Ok(()));

    assert_eq!(validate_stage2(&vec![0u8; 16384]), Ok(()));
    assert_eq!(validate_stage2(&vec![0u8; 16385]), Err(ImageError::Stage2TooLarge(16385)));

    assert_eq!(kernel_sectors(&[]), Err(ImageError::EmptyKernel));
    assert_eq!(kernel_sectors(&[1u8]), Ok(1));
    assert_eq!(kernel_sectors(&vec![1u8; 512]), Ok(1));
    assert_eq!(kernel_sectors(&vec![1u8; 513]), Ok(2));
    let max = vec![1u8; STAGE2_KERNEL_READ_SECTORS * 512];
    assert_eq!(kernel_sectors(&max), Ok(1024));
    let over = vec![1u8; STAGE2_KERNEL_READ_SECTORS * 512 + 1];
    assert_eq!(kernel_sectors(&over), Err(ImageError::KernelTooLarge(1025)));

    // Stage 1 is checked first, then Stage 2, then the kernel.
    assert_eq!(build_image(&unsigned, &vec![0u8; 20000], &[]), Err(ImageError::MissingBootSignature));
    assert_eq!(build_image(&s1, &vec![0u8; 20000], &[]), Err(ImageError::Stage2TooLarge(20000)));
    assert_eq!(build_image(&s1, &[], &[]), Err(ImageError::EmptyKernel));
}

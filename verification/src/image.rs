use vstd::prelude::*;

verus! {

/// Bytes per disk sector.
pub const SECTOR_SIZE: usize = 512;

/// Stage 1 occupies LBA 0.
pub const STAGE1_SECTORS: usize = 1;

/// Stage 2 occupies LBA 1 to 32.
pub const STAGE2_SECTORS: usize = 32;

/// The kernel starts right after Stage 1 and Stage 2.
pub const KERNEL_LBA: usize = STAGE1_SECTORS + STAGE2_SECTORS;

/// Sectors Stage 2 reads for the kernel: 1024 (512 KiB). The image
/// reserves all of them, and a kernel needing more is refused.
pub const STAGE2_KERNEL_READ_SECTORS: usize = 1024;

/// Size of the whole disk image in bytes.
pub const IMAGE_SIZE: usize = (KERNEL_LBA + STAGE2_KERNEL_READ_SECTORS) * SECTOR_SIZE;

/// Why a set of boot files cannot form an image.
#[derive(Clone, Copy, Debug, PartialEq, Eq, Structural)]
pub enum ImageError {
    /// Stage 1 is not exactly one sector; carries its length.
    Stage1Size(usize),
    /// Stage 1 does not end in the BIOS boot signature 0x55 0xAA.
    MissingBootSignature,
    /// Stage 2 does not fit its 32 sectors; carries its length.
    Stage2TooLarge(usize),
    /// The kernel file is empty.
    EmptyKernel,
    /// The kernel needs more sectors than Stage 2 reads; carries the count.
    KernelTooLarge(usize),
}

/// Sectors needed to hold `len` bytes.
pub open spec fn sectors_for(len: int) -> int {
    (len + SECTOR_SIZE - 1) / (SECTOR_SIZE as int)
}

/// What Stage 1 fails, if anything.
pub open spec fn stage1_error(stage1: Seq<u8>) -> Option<ImageError> {
    if stage1.len() != STAGE1_SECTORS * SECTOR_SIZE {
        Some(ImageError::Stage1Size(stage1.len() as usize))
    } else if stage1[510] != 0x55 || stage1[511] != 0xAA {
        Some(ImageError::MissingBootSignature)
    } else {
        None
    }
}

/// What Stage 2 fails, if anything.
pub open spec fn stage2_error(stage2: Seq<u8>) -> Option<ImageError> {
    if stage2.len() > STAGE2_SECTORS * SECTOR_SIZE {
        Some(ImageError::Stage2TooLarge(stage2.len() as usize))
    } else {
        None
    }
}

/// What the kernel fails, if anything.
pub open spec fn kernel_error(kernel: Seq<u8>) -> Option<ImageError> {
    if sectors_for(kernel.len() as int) == 0 {
        Some(ImageError::EmptyKernel)
    } else if sectors_for(kernel.len() as int) > STAGE2_KERNEL_READ_SECTORS {
        Some(ImageError::KernelTooLarge(sectors_for(kernel.len() as int) as usize))
    } else {
        None
    }
}

/// Byte `i` of the image: Stage 1 at LBA 0, Stage 2 from LBA 1, the
/// kernel from `KERNEL_LBA`, zero everywhere else.
pub open spec fn image_byte(stage1: Seq<u8>, stage2: Seq<u8>, kernel: Seq<u8>, i: int) -> u8 {
    let stage2_offset = STAGE1_SECTORS * SECTOR_SIZE;
    let kernel_offset = KERNEL_LBA * SECTOR_SIZE;
    if 0 <= i < stage1.len() {
        stage1[i]
    } else if stage2_offset <= i < stage2_offset + stage2.len() {
        stage2[i - stage2_offset]
    } else if kernel_offset <= i < kernel_offset + kernel.len() {
        kernel[i - kernel_offset]
    } else {
        0
    }
}

/// The image built from three valid boot files.
pub open spec fn image_of(stage1: Seq<u8>, stage2: Seq<u8>, kernel: Seq<u8>) -> Seq<u8> {
    Seq::new(IMAGE_SIZE as nat, |i: int| image_byte(stage1, stage2, kernel, i))
}

/// Check that Stage 1 is one sector ending in the boot signature.
pub fn validate_stage1(stage1: &[u8]) -> (r: Result<(), ImageError>)
    ensures
        match stage1_error(stage1@) {
            Some(e) => r == Err::<(), ImageError>(e),
            None => r is Ok,
        },
{
    if stage1.len() != STAGE1_SECTORS * SECTOR_SIZE {
        return Err(ImageError::Stage1Size(stage1.len()));
    }
    if stage1[510] != 0x55 || stage1[511] != 0xAA {
        return Err(ImageError::MissingBootSignature);
    }
    Ok(())
}

/// Check that Stage 2 fits its sectors.
pub fn validate_stage2(stage2: &[u8]) -> (r: Result<(), ImageError>)
    ensures
        match stage2_error(stage2@) {
            Some(e) => r == Err::<(), ImageError>(e),
            None => r is Ok,
        },
{
    if stage2.len() > STAGE2_SECTORS * SECTOR_SIZE {
        return Err(ImageError::Stage2TooLarge(stage2.len()));
    }
    Ok(())
}

/// The sectors the kernel occupies, when it is neither empty nor larger
/// than what Stage 2 reads.
pub fn kernel_sectors(kernel: &[u8]) -> (r: Result<usize, ImageError>)
    ensures
        match kernel_error(kernel@) {
            Some(e) => r == Err::<usize, ImageError>(e),
            None => r == Ok::<usize, ImageError>(sectors_for(kernel@.len() as int) as usize),
        },
{
    let len = kernel.len();
    let sectors = len / SECTOR_SIZE + if len % SECTOR_SIZE != 0 {
        1
    } else {
        0
    };
    assert(sectors == sectors_for(len as int));
    if sectors == 0 {
        return Err(ImageError::EmptyKernel);
    }
    if sectors > STAGE2_KERNEL_READ_SECTORS {
        return Err(ImageError::KernelTooLarge(sectors));
    }
    Ok(sectors)
}

/// Lay the three files out on a zeroed disk image.
pub fn assemble_image(stage1: &[u8], stage2: &[u8], kernel: &[u8]) -> (image: Vec<u8>)
    requires
        stage1_error(stage1@) is None,
        stage2_error(stage2@) is None,
        kernel_error(kernel@) is None,
    ensures
        image@ == image_of(stage1@, stage2@, kernel@),
{
    let mut image: Vec<u8> = Vec::new();
    while image.len() < IMAGE_SIZE
        invariant
            image.len() <= IMAGE_SIZE,
            forall|i: int| 0 <= i < image.len() ==> #[trigger] image@[i] == 0,
        decreases IMAGE_SIZE - image.len(),
    {
        image.push(0);
    }
    let stage2_offset = STAGE1_SECTORS * SECTOR_SIZE;
    let kernel_offset = KERNEL_LBA * SECTOR_SIZE;
    let mut i: usize = 0;
    while i < stage1.len()
        invariant
            stage1@.len() == 512,
            image.len() == IMAGE_SIZE,
            i <= stage1@.len(),
            forall|j: int| 0 <= j < i ==> #[trigger] image@[j] == stage1@[j],
            forall|j: int| i <= j < IMAGE_SIZE ==> #[trigger] image@[j] == 0,
        decreases stage1@.len() - i,
    {
        image.set(i, stage1[i]);
        i = i + 1;
    }
    let mut i: usize = 0;
    while i < stage2.len()
        invariant
            stage1@.len() == 512,
            stage2@.len() <= 16384,
            image.len() == IMAGE_SIZE,
            stage2_offset == 512,
            i <= stage2@.len(),
            forall|j: int| 0 <= j < 512 ==> #[trigger] image@[j] == stage1@[j],
            forall|j: int| 512 <= j < 512 + i ==> #[trigger] image@[j] == stage2@[j - 512],
            forall|j: int| 512 + i <= j < IMAGE_SIZE ==> #[trigger] image@[j] == 0,
        decreases stage2@.len() - i,
    {
        image.set(stage2_offset + i, stage2[i]);
        i = i + 1;
    }
    let mut i: usize = 0;
    while i < kernel.len()
        invariant
            stage1@.len() == 512,
            stage2@.len() <= 16384,
            kernel@.len() <= 1024 * 512,
            image.len() == IMAGE_SIZE,
            kernel_offset == 16896,
            i <= kernel@.len(),
            forall|j: int| 0 <= j < 512 ==> #[trigger] image@[j] == stage1@[j],
            forall|j: int| 512 <= j < 512 + stage2@.len() ==> #[trigger] image@[j] == stage2@[j - 512],
            forall|j: int| 512 + stage2@.len() <= j < 16896 ==> #[trigger] image@[j] == 0,
            forall|j: int| 16896 <= j < 16896 + i ==> #[trigger] image@[j] == kernel@[j - 16896],
            forall|j: int| 16896 + i <= j < IMAGE_SIZE ==> #[trigger] image@[j] == 0,
        decreases kernel@.len() - i,
    {
        image.set(kernel_offset + i, kernel[i]);
        i = i + 1;
    }
    assert(image@ =~= image_of(stage1@, stage2@, kernel@));
    image
}

/// Validate the boot files in the order the builder reads them and lay
/// them out on a disk image.
pub fn build_image(stage1: &[u8], stage2: &[u8], kernel: &[u8]) -> (r: Result<Vec<u8>, ImageError>)
    ensures
        match stage1_error(stage1@) {
            Some(e) => r == Err::<Vec<u8>, ImageError>(e),
            None => match stage2_error(stage2@) {
                Some(e) => r == Err::<Vec<u8>, ImageError>(e),
                None => match kernel_error(kernel@) {
                    Some(e) => r == Err::<Vec<u8>, ImageError>(e),
                    None => r matches Ok(image) && image@ == image_of(stage1@, stage2@, kernel@),
                },
            },
        },
{
    validate_stage1(stage1)?;
    validate_stage2(stage2)?;
    kernel_sectors(kernel)?;
    Ok(assemble_image(stage1, stage2, kernel))
}

/// The disk layout: Stage 1 at LBA 0, Stage 2 from LBA 1, the kernel
/// from LBA 33, and the whole kernel area reserved, so the image is
/// `(33 + 1024) * 512` bytes.
pub proof fn law_image_layout(stage1: Seq<u8>, stage2: Seq<u8>, kernel: Seq<u8>)
    requires
        stage1_error(stage1) is None,
        stage2_error(stage2) is None,
        kernel_error(kernel) is None,
    ensures
        image_of(stage1, stage2, kernel).len() == (KERNEL_LBA + STAGE2_KERNEL_READ_SECTORS)
            * SECTOR_SIZE,
        image_of(stage1, stage2, kernel).subrange(0, SECTOR_SIZE as int) == stage1,
        image_of(stage1, stage2, kernel).subrange(
            SECTOR_SIZE as int,
            SECTOR_SIZE + stage2.len(),
        ) == stage2,
        image_of(stage1, stage2, kernel).subrange(
            (KERNEL_LBA * SECTOR_SIZE) as int,
            KERNEL_LBA * SECTOR_SIZE + kernel.len(),
        ) == kernel,
{
    let img = image_of(stage1, stage2, kernel);
    assert(img.subrange(0, SECTOR_SIZE as int) =~= stage1);
    assert(img.subrange(SECTOR_SIZE as int, SECTOR_SIZE + stage2.len()) =~= stage2);
    assert(img.subrange((KERNEL_LBA * SECTOR_SIZE) as int, KERNEL_LBA * SECTOR_SIZE + kernel.len())
        =~= kernel);
}

} // verus!

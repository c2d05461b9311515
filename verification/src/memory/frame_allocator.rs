use vstd::prelude::*;

use crate::boot_info::{MemoryMapEntry, E820_USABLE};

verus! {

pub const FRAME_SIZE: u64 = 4096;

/// Physical address space the allocator manages: 4 GiB.
pub const MAX_PHYSICAL_MEMORY: u64 = 0x1_0000_0000;

/// Number of frames in `MAX_PHYSICAL_MEMORY`.
pub const MAX_FRAMES: usize = 1048576;

/// Bytes of one bitmap.
pub const BITMAP_SIZE: usize = 131072;

// ----------------------------------------------------------------------
// Bitmaps
// ----------------------------------------------------------------------

/// Bit `i` of `byte`.
pub open spec fn bit_of(byte: u8, i: u8) -> bool {
    byte & (1u8 << i) != 0
}

/// One flag per frame, read from a bitmap of eight frames per byte.
pub open spec fn frame_flags(bitmap: Seq<u8>) -> Seq<bool> {
    Seq::new(MAX_FRAMES as nat, |f: int| bit_of(bitmap[f / 8], (f % 8) as u8))
}

proof fn lemma_bit_set(b: u8, i: u8, j: u8)
    requires
        i < 8,
        j < 8,
    ensures
        bit_of(b | (1u8 << i), j) == (j == i || bit_of(b, j)),
{
    assert(bit_of(b | (1u8 << i), j) == (j == i || bit_of(b, j))) by (bit_vector)
        requires
            i < 8u8,
            j < 8u8,
    ;
}

proof fn lemma_bit_clear(b: u8, i: u8, j: u8)
    requires
        i < 8,
        j < 8,
    ensures
        bit_of(b & !(1u8 << i), j) == (j != i && bit_of(b, j)),
{
    assert(bit_of(b & !(1u8 << i), j) == (j != i && bit_of(b, j))) by (bit_vector)
        requires
            i < 8u8,
            j < 8u8,
    ;
}

proof fn lemma_bit_constant(j: u8)
    requires
        j < 8,
    ensures
        bit_of(0xFFu8, j),
        !bit_of(0u8, j),
{
    assert(bit_of(0xFFu8, j) && !bit_of(0u8, j)) by (bit_vector)
        requires
            j < 8u8,
    ;
}

/// Setting or clearing one frame's bit changes that frame's flag only.
proof fn lemma_flags_write(bitmap: Seq<u8>, frame: int, byte: u8, value: bool)
    requires
        bitmap.len() == BITMAP_SIZE,
        0 <= frame < MAX_FRAMES,
        value ==> byte == bitmap[frame / 8] | (1u8 << ((frame % 8) as u8)),
        !value ==> byte == bitmap[frame / 8] & !(1u8 << ((frame % 8) as u8)),
    ensures
        frame_flags(bitmap.update(frame / 8, byte)) == frame_flags(bitmap).update(frame, value),
{
    let nb = bitmap.update(frame / 8, byte);
    assert forall|f: int| 0 <= f < MAX_FRAMES implies #[trigger] frame_flags(nb)[f] == frame_flags(
        bitmap,
    ).update(frame, value)[f] by {
        if f / 8 == frame / 8 {
            if value {
                lemma_bit_set(bitmap[frame / 8], (frame % 8) as u8, (f % 8) as u8);
            } else {
                lemma_bit_clear(bitmap[frame / 8], (frame % 8) as u8, (f % 8) as u8);
            }
        }
    }
    assert(frame_flags(nb) =~= frame_flags(bitmap).update(frame, value));
}

/// Number of `false` entries.
pub open spec fn count_false(s: Seq<bool>) -> nat
    decreases s.len(),
{
    if s.len() == 0 {
        0
    } else {
        count_false(s.drop_last()) + if s.last() {
            0nat
        } else {
            1nat
        }
    }
}

pub proof fn lemma_count_false_update(s: Seq<bool>, i: int, v: bool)
    requires
        0 <= i < s.len(),
    ensures
        count_false(s.update(i, v)) + (if s[i] {
            0int
        } else {
            1int
        }) == count_false(s) + (if v {
            0int
        } else {
            1int
        }),
    decreases s.len(),
{
    let u = s.update(i, v);
    if i == s.len() - 1 {
        assert(u.drop_last() =~= s.drop_last());
    } else {
        assert(u.drop_last() =~= s.drop_last().update(i, v));
        lemma_count_false_update(s.drop_last(), i, v);
    }
}

pub proof fn lemma_count_false_bound(s: Seq<bool>)
    ensures
        count_false(s) <= s.len(),
    decreases s.len(),
{
    if s.len() > 0 {
        lemma_count_false_bound(s.drop_last());
    }
}

pub proof fn lemma_count_false_all_true(s: Seq<bool>)
    requires
        forall|i: int| 0 <= i < s.len() ==> #[trigger] s[i],
    ensures
        count_false(s) == 0,
    decreases s.len(),
{
    if s.len() > 0 {
        assert forall|i: int| 0 <= i < s.drop_last().len() implies #[trigger] s.drop_last()[i] by {
            assert(s.drop_last()[i] == s[i]);
        }
        lemma_count_false_all_true(s.drop_last());
    }
}

/// A sequence with a `false` entry counts at least one.
pub proof fn lemma_count_false_positive(s: Seq<bool>, i: int)
    requires
        0 <= i < s.len(),
        !s[i],
    ensures
        count_false(s) >= 1,
{
    lemma_count_false_update(s, i, true);
}

// ----------------------------------------------------------------------
// Alignment
// ----------------------------------------------------------------------

/// `value` rounded up to a multiple of `alignment`.
pub open spec fn spec_align_up(value: u64, alignment: u64) -> int {
    if value % alignment == 0 {
        value as int
    } else {
        value + (alignment - value % alignment)
    }
}

/// `value` rounded down to a multiple of `alignment`.
pub open spec fn spec_align_down(value: u64, alignment: u64) -> int {
    value - value % alignment
}

pub fn align_up(value: u64, alignment: u64) -> (r: u64)
    requires
        alignment > 0,
        spec_align_up(value, alignment) <= u64::MAX,
    ensures
        r == spec_align_up(value, alignment),
        r % alignment == 0,
        value <= r < value + alignment,
{
    if value % alignment == 0 {
        value
    } else {
        let r = value + (alignment - value % alignment);
        assert(r % alignment == 0) by (nonlinear_arith)
            requires
                r == value + (alignment - value % alignment),
                alignment > 0,
        ;
        r
    }
}

pub fn align_down(value: u64, alignment: u64) -> (r: u64)
    requires
        alignment > 0,
    ensures
        r == spec_align_down(value, alignment),
        r % alignment == 0,
        value - alignment < r <= value,
{
    assert(value % alignment <= value) by (nonlinear_arith)
        requires
            alignment > 0,
    ;
    let r = value - (value % alignment);
    assert(r % alignment == 0) by (nonlinear_arith)
        requires
            r == value - value % alignment,
            alignment > 0,
    ;
    r
}

// ----------------------------------------------------------------------
// Initialisation model
// ----------------------------------------------------------------------

/// Rounding up an entry's base does not overflow (the kernel rounds
/// before anything else).
pub open spec fn entry_base_roundable(e: MemoryMapEntry) -> bool {
    e.entry_type != E820_USABLE || spec_align_up(e.base_addr, FRAME_SIZE) <= u64::MAX
}

/// Frame `f` lies wholly inside usable entry `e`, below 4 GiB.
pub open spec fn entry_frees(e: MemoryMapEntry, f: int) -> bool {
    &&& e.entry_type == E820_USABLE
    &&& e.base_addr + e.length <= u64::MAX
    &&& spec_align_up(e.base_addr, FRAME_SIZE) <= f * FRAME_SIZE
    &&& f * FRAME_SIZE < spec_align_down((e.base_addr + e.length) as u64, FRAME_SIZE)
    &&& f * FRAME_SIZE < MAX_PHYSICAL_MEMORY
}

/// Frame `f` is released by one of the first `n` entries of `map`.
pub open spec fn usable_frame(map: Seq<MemoryMapEntry>, n: int, f: int) -> bool {
    exists|k: int| 0 <= k < n && #[trigger] entry_frees(map[k], f)
}

/// Frame `f` meets the page-rounded range `[start, end)`.
pub open spec fn in_reserved(f: int, start: u64, end: u64) -> bool {
    spec_align_down(start, FRAME_SIZE) <= f * FRAME_SIZE < spec_align_up(end, FRAME_SIZE)
}

/// Frame `f` is kept from allocation at boot: the first MiB, the Stage 2
/// image, the kernel ELF buffer, the E820 buffer, BootInfo, the initial
/// kernel stack, and the loaded kernel.
pub open spec fn boot_reserved(f: int, kernel_start: u64, kernel_end: u64) -> bool {
    ||| in_reserved(f, 0x0000_0000, 0x0010_0000)
    ||| in_reserved(f, 0x0000_8000, 0x0000_C000)
    ||| in_reserved(f, 0x0002_0000, 0x0002_4000)
    ||| in_reserved(f, 0x0006_0000, 0x0006_1000)
    ||| in_reserved(f, 0x0007_0000, 0x0007_1000)
    ||| in_reserved(f, 0x0009_0000, 0x0009_1000)
    ||| in_reserved(f, kernel_start, kernel_end)
}

/// Frame flags right after initialisation: free exactly when some usable
/// entry covers the frame and no boot reservation does.
pub open spec fn initial_used(map: Seq<MemoryMapEntry>, kernel_start: u64, kernel_end: u64) -> Seq<
    bool,
> {
    Seq::new(
        MAX_FRAMES as nat,
        |f: int| !usable_frame(map, map.len() as int, f) || boot_reserved(f, kernel_start, kernel_end),
    )
}

/// Freeing a frame right after allocating it restores the allocator's
/// state: the frame was neither used nor allocated before, so clearing
/// both flags gives back the bitmaps as they were, and the free count returns.
pub proof fn law_free_undoes_allocate(used: Seq<bool>, allocated: Seq<bool>, f: int)
    requires
        used.len() == MAX_FRAMES,
        allocated.len() == MAX_FRAMES,
        forall|g: int| 0 <= g < MAX_FRAMES ==> #[trigger] allocated[g] ==> used[g],
        0 <= f < MAX_FRAMES,
        !used[f],
    ensures
        used.update(f, true).update(f, false) == used,
        allocated.update(f, true).update(f, false) == allocated,
        count_false(used.update(f, true)) + 1 == count_false(used),
{
    assert(used.update(f, true).update(f, false) =~= used);
    assert(allocated.update(f, true).update(f, false) =~= allocated);
    lemma_count_false_update(used, f, true);
}

/// Every page that meets the loaded kernel `[kernel_start, kernel_end)`,
/// its last partial page included, stays used after initialisation, so
/// no allocation hands out memory of the kernel image.
pub proof fn law_kernel_pages_stay_used(
    map: Seq<MemoryMapEntry>,
    kernel_start: u64,
    kernel_end: u64,
    f: int,
)
    requires
        0 <= f < MAX_FRAMES,
        kernel_start - kernel_start % 4096 <= f * 4096 < kernel_end,
    ensures
        initial_used(map, kernel_start, kernel_end)[f],
{
    assert(spec_align_up(kernel_end, FRAME_SIZE) >= kernel_end);
}

/// After initialisation a frame is free only if a usable (type 1) entry
/// of the memory map holds the whole frame, below 4 GiB and outside the
/// first MiB and the kernel's pages; memory of any other type stays
/// reserved unless a usable entry covers it.
pub proof fn law_free_frames_are_usable_memory(
    map: Seq<MemoryMapEntry>,
    kernel_start: u64,
    kernel_end: u64,
    f: int,
)
    requires
        0 <= f < MAX_FRAMES,
        !initial_used(map, kernel_start, kernel_end)[f],
    ensures
        exists|k: int|
            0 <= k < map.len() && (#[trigger] map[k]).entry_type == 1 && map[k].base_addr <= f * 4096
                && (f + 1) * 4096 <= map[k].base_addr + map[k].length,
        0x10_0000 <= f * 4096,
        (f + 1) * 4096 <= 0x1_0000_0000,
        !(kernel_start - kernel_start % 4096 <= f * 4096 < kernel_end),
{
    let k = choose|k: int| 0 <= k < map.len() && #[trigger] entry_frees(map[k], f);
    let e = map[k];
    let top = (e.base_addr + e.length) as u64;
    assert(spec_align_up(e.base_addr, FRAME_SIZE) >= e.base_addr);
    assert(spec_align_down(top, FRAME_SIZE) <= top);
    assert(spec_align_down(top, FRAME_SIZE) % 4096 == 0);
    assert(f * 4096 + 4096 <= spec_align_down(top, FRAME_SIZE)) by {
        let d = spec_align_down(top, FRAME_SIZE);
        let q = d / 4096;
        assert(d == q * 4096);
        assert(f < q) by (nonlinear_arith)
            requires
                f * 4096 < q * 4096,
        ;
    }
    if kernel_start - kernel_start % 4096 <= f * 4096 < kernel_end {
        law_kernel_pages_stay_used(map, kernel_start, kernel_end, f);
    }
}

/// A frame is never handed out twice: once allocated it is used, and
/// allocation only ever returns unused frames, until it is freed.
pub proof fn law_allocated_frame_not_reissued(used: Seq<bool>, f: int, g: int)
    requires
        used.len() == MAX_FRAMES,
        0 <= f < MAX_FRAMES,
        0 <= g < MAX_FRAMES,
        !used.update(f, true)[g],
    ensures
        g != f,
{
}

// ----------------------------------------------------------------------
// Allocator
// ----------------------------------------------------------------------

/// Physical frame allocator over 4 GiB: one bitmap of used (reserved or
/// allocated) frames, one of frames handed out by `allocate_frame`, and
/// the number of free frames.
pub struct FrameAllocator {
    free_frames: usize,
    frame_bitmap: Vec<u8>,
    allocated_bitmap: Vec<u8>,
}

impl FrameAllocator {
    /// Per frame: reserved or allocated.
    pub closed spec fn used(&self) -> Seq<bool> {
        frame_flags(self.frame_bitmap@)
    }

    /// Per frame: handed out by `allocate_frame` and not freed since.
    pub closed spec fn allocated(&self) -> Seq<bool> {
        frame_flags(self.allocated_bitmap@)
    }

    pub closed spec fn spec_free_frames(&self) -> usize {
        self.free_frames
    }

    /// The free count is the number of unused frames, and every allocated
    /// frame is used.
    pub closed spec fn wf(&self) -> bool {
        &&& self.frame_bitmap@.len() == BITMAP_SIZE
        &&& self.allocated_bitmap@.len() == BITMAP_SIZE
        &&& self.free_frames == count_false(self.used())
        &&& forall|f: int| 0 <= f < MAX_FRAMES ==> #[trigger] self.allocated()[f] ==> self.used()[f]
    }

    pub proof fn lemma_wf(&self)
        requires
            self.wf(),
        ensures
            self.used().len() == MAX_FRAMES,
            self.allocated().len() == MAX_FRAMES,
            self.spec_free_frames() == count_false(self.used()),
            self.spec_free_frames() <= MAX_FRAMES,
            forall|f: int| 0 <= f < MAX_FRAMES ==> #[trigger] self.allocated()[f] ==> self.used()[f],
    {
        lemma_count_false_bound(self.used());
    }

    /// An allocator that tracks no usable frame: every frame reserved.
    pub fn empty() -> (a: Self)
        ensures
            a.wf(),
            forall|f: int| 0 <= f < MAX_FRAMES ==> #[trigger] a.used()[f],
            forall|f: int| 0 <= f < MAX_FRAMES ==> !#[trigger] a.allocated()[f],
            a.spec_free_frames() == 0,
    {
        let mut frame_bitmap: Vec<u8> = Vec::new();
        let mut allocated_bitmap: Vec<u8> = Vec::new();
        let mut i: usize = 0;
        while i < BITMAP_SIZE
            invariant
                i <= BITMAP_SIZE,
                frame_bitmap@.len() == i,
                allocated_bitmap@.len() == i,
                forall|j: int| 0 <= j < i ==> #[trigger] frame_bitmap@[j] == 0xFFu8,
                forall|j: int| 0 <= j < i ==> #[trigger] allocated_bitmap@[j] == 0u8,
            decreases BITMAP_SIZE - i,
        {
            frame_bitmap.push(0xFF);
            allocated_bitmap.push(0);
            i = i + 1;
        }
        let a = FrameAllocator { free_frames: 0, frame_bitmap, allocated_bitmap };
        proof {
            a.lemma_all_reserved();
        }
        a
    }

    /// With every used byte 0xFF and every allocated byte zero, every
    /// frame is used, none is allocated, and none is free.
    proof fn lemma_all_reserved(&self)
        requires
            self.frame_bitmap@.len() == BITMAP_SIZE,
            self.allocated_bitmap@.len() == BITMAP_SIZE,
            forall|j: int| 0 <= j < BITMAP_SIZE ==> #[trigger] self.frame_bitmap@[j] == 0xFFu8,
            forall|j: int| 0 <= j < BITMAP_SIZE ==> #[trigger] self.allocated_bitmap@[j] == 0u8,
        ensures
            forall|f: int| 0 <= f < MAX_FRAMES ==> #[trigger] self.used()[f],
            forall|f: int| 0 <= f < MAX_FRAMES ==> !#[trigger] self.allocated()[f],
            count_false(self.used()) == 0,
    {
        assert forall|f: int| 0 <= f < MAX_FRAMES implies #[trigger] self.used()[f] by {
            lemma_bit_constant((f % 8) as u8);
            assert(self.frame_bitmap@[f / 8] == 0xFFu8);
        }
        assert forall|f: int| 0 <= f < MAX_FRAMES implies !#[trigger] self.allocated()[f] by {
            lemma_bit_constant((f % 8) as u8);
            assert(self.allocated_bitmap@[f / 8] == 0u8);
        }
        lemma_count_false_all_true(self.used());
    }

    fn is_used(&self, frame: usize) -> (r: bool)
        requires
            self.wf(),
            frame < MAX_FRAMES,
        ensures
            r == self.used()[frame as int],
    {
        let byte = self.frame_bitmap[frame / 8];
        let mask = 1u8 << ((frame % 8) as u8);
        byte & mask != 0
    }

    fn is_allocated(&self, frame: usize) -> (r: bool)
        requires
            self.wf(),
            frame < MAX_FRAMES,
        ensures
            r == self.allocated()[frame as int],
    {
        let byte = self.allocated_bitmap[frame / 8];
        let mask = 1u8 << ((frame % 8) as u8);
        byte & mask != 0
    }

    /// Set or clear a frame's bit in the used bitmap, leaving the free
    /// count to the caller.
    fn write_used(&mut self, frame: usize, value: bool)
        requires
            old(self).frame_bitmap@.len() == BITMAP_SIZE,
            frame < MAX_FRAMES,
        ensures
            final(self).used() == old(self).used().update(frame as int, value),
            final(self).allocated() == old(self).allocated(),
            final(self).frame_bitmap@.len() == BITMAP_SIZE,
            final(self).allocated_bitmap@ == old(self).allocated_bitmap@,
            final(self).free_frames == old(self).free_frames,
    {
        let byte = self.frame_bitmap[frame / 8];
        let new_byte = if value {
            byte | (1u8 << ((frame % 8) as u8))
        } else {
            byte & !(1u8 << ((frame % 8) as u8))
        };
        self.frame_bitmap.set(frame / 8, new_byte);
        proof {
            lemma_flags_write(old(self).frame_bitmap@, frame as int, new_byte, value);
        }
    }

    /// Set or clear a frame's bit in the allocated bitmap.
    fn write_allocated(&mut self, frame: usize, value: bool)
        requires
            old(self).allocated_bitmap@.len() == BITMAP_SIZE,
            frame < MAX_FRAMES,
        ensures
            final(self).allocated() == old(self).allocated().update(frame as int, value),
            final(self).used() == old(self).used(),
            final(self).allocated_bitmap@.len() == BITMAP_SIZE,
            final(self).frame_bitmap@ == old(self).frame_bitmap@,
            final(self).free_frames == old(self).free_frames,
    {
        let byte = self.allocated_bitmap[frame / 8];
        let new_byte = if value {
            byte | (1u8 << ((frame % 8) as u8))
        } else {
            byte & !(1u8 << ((frame % 8) as u8))
        };
        self.allocated_bitmap.set(frame / 8, new_byte);
        proof {
            lemma_flags_write(old(self).allocated_bitmap@, frame as int, new_byte, value);
        }
    }

    fn mark_used(&mut self, frame: usize)
        requires
            old(self).frame_bitmap@.len() == BITMAP_SIZE,
            frame < MAX_FRAMES,
        ensures
            final(self).used() == old(self).used().update(frame as int, true),
            final(self).allocated() == old(self).allocated(),
            final(self).frame_bitmap@.len() == BITMAP_SIZE,
            final(self).allocated_bitmap@ == old(self).allocated_bitmap@,
            final(self).free_frames == old(self).free_frames,
    {
        self.write_used(frame, true);
    }

    fn mark_free(&mut self, frame: usize)
        requires
            old(self).frame_bitmap@.len() == BITMAP_SIZE,
            frame < MAX_FRAMES,
        ensures
            final(self).used() == old(self).used().update(frame as int, false),
            final(self).allocated() == old(self).allocated(),
            final(self).frame_bitmap@.len() == BITMAP_SIZE,
            final(self).allocated_bitmap@ == old(self).allocated_bitmap@,
            final(self).free_frames == old(self).free_frames,
    {
        self.write_used(frame, false);
    }

    fn mark_allocated(&mut self, frame: usize)
        requires
            old(self).allocated_bitmap@.len() == BITMAP_SIZE,
            frame < MAX_FRAMES,
        ensures
            final(self).allocated() == old(self).allocated().update(frame as int, true),
            final(self).used() == old(self).used(),
            final(self).allocated_bitmap@.len() == BITMAP_SIZE,
            final(self).frame_bitmap@ == old(self).frame_bitmap@,
            final(self).free_frames == old(self).free_frames,
    {
        self.write_allocated(frame, true);
    }

    fn mark_unallocated(&mut self, frame: usize)
        requires
            old(self).allocated_bitmap@.len() == BITMAP_SIZE,
            frame < MAX_FRAMES,
        ensures
            final(self).allocated() == old(self).allocated().update(frame as int, false),
            final(self).used() == old(self).used(),
            final(self).allocated_bitmap@.len() == BITMAP_SIZE,
            final(self).frame_bitmap@ == old(self).frame_bitmap@,
            final(self).free_frames == old(self).free_frames,
    {
        self.write_allocated(frame, false);
    }

    /// Hand out the lowest free frame, as a physical address; `None` when
    /// every frame is used.
    pub fn allocate_frame(&mut self) -> (r: Option<u64>)
        requires
            old(self).wf(),
        ensures
            final(self).wf(),
            r is None <==> old(self).spec_free_frames() == 0,
            r is None ==> final(self).used() == old(self).used() && final(self).allocated() == old(
                self,
            ).allocated() && forall|f: int| 0 <= f < MAX_FRAMES ==> #[trigger] old(self).used()[f],
            r matches Some(address) ==> {
                let f = address / FRAME_SIZE;
                &&& address % FRAME_SIZE == 0
                &&& f < MAX_FRAMES
                &&& !old(self).used()[f as int]
                &&& forall|g: int| 0 <= g < f ==> #[trigger] old(self).used()[g]
                &&& final(self).used() == old(self).used().update(f as int, true)
                &&& final(self).allocated() == old(self).allocated().update(f as int, true)
                &&& final(self).spec_free_frames() == old(self).spec_free_frames() - 1
            },
    {
        let mut frame: usize = 0;
        while frame < MAX_FRAMES
            invariant
                frame <= MAX_FRAMES,
                self.wf(),
                self.used() == old(self).used(),
                self.allocated() == old(self).allocated(),
                self.free_frames == old(self).free_frames,
                forall|g: int| 0 <= g < frame ==> #[trigger] old(self).used()[g],
            decreases MAX_FRAMES - frame,
        {
            if !self.is_used(frame) {
                proof {
                    lemma_count_false_positive(self.used(), frame as int);
                    lemma_count_false_update(self.used(), frame as int, true);
                    self.lemma_wf();
                }
                let ghost before = *self;
                self.mark_used(frame);
                self.mark_allocated(frame);
                self.free_frames = self.free_frames - 1;
                proof {
                    assert forall|f: int| 0 <= f < MAX_FRAMES implies #[trigger] self.allocated()[f]
                        ==> self.used()[f] by {
                        if f != frame as int {
                            assert(before.allocated()[f] ==> before.used()[f]);
                        }
                    }
                }
                let address = frame as u64 * FRAME_SIZE;
                assert(address / FRAME_SIZE == frame as u64);
                return Some(address);
            }
            frame = frame + 1;
        }
        proof {
            lemma_count_false_all_true(self.used());
        }
        None
    }

    /// Return a frame obtained from `allocate_frame`. Misaligned
    /// addresses, addresses beyond 4 GiB, and frames this allocator did
    /// not hand out (reserved or already freed) are ignored.
    pub fn free_frame(&mut self, address: u64)
        requires
            old(self).wf(),
        ensures
            final(self).wf(),
            ({
                let f = address / FRAME_SIZE;
                if address % FRAME_SIZE == 0 && f < MAX_FRAMES && old(self).allocated()[f as int] {
                    &&& final(self).used() == old(self).used().update(f as int, false)
                    &&& final(self).allocated() == old(self).allocated().update(f as int, false)
                    &&& final(self).spec_free_frames() == old(self).spec_free_frames() + 1
                } else {
                    &&& final(self).used() == old(self).used()
                    &&& final(self).allocated() == old(self).allocated()
                    &&& final(self).spec_free_frames() == old(self).spec_free_frames()
                }
            }),
    {
        if address % FRAME_SIZE != 0 {
            return;
        }
        if address / FRAME_SIZE >= MAX_FRAMES as u64 {
            return;
        }
        let frame = (address / FRAME_SIZE) as usize;
        if !self.is_allocated(frame) {
            return;
        }
        proof {
            self.lemma_wf();
            lemma_count_false_update(self.used(), frame as int, false);
            lemma_count_false_bound(self.used().update(frame as int, false));
        }
        let ghost before = *self;
        self.mark_free(frame);
        self.mark_unallocated(frame);
        self.free_frames = self.free_frames + 1;
        proof {
            assert forall|f: int| 0 <= f < MAX_FRAMES implies #[trigger] self.allocated()[f]
                ==> self.used()[f] by {
                if f != frame as int {
                    assert(before.allocated()[f] ==> before.used()[f]);
                }
            }
        }
    }

    pub fn free_frames(&self) -> (r: usize)
        ensures
            r == self.spec_free_frames(),
    {
        self.free_frames
    }

    /// Rebuild the allocator from the E820 memory map: every frame starts
    /// reserved, frames wholly inside usable entries (below 4 GiB) are
    /// released, then the boot reservations and the kernel image
    /// `[kernel_start, kernel_end)` are reserved again.
    pub fn initialize(&mut self, memory_map: &[MemoryMapEntry], kernel_start: u64, kernel_end: u64)
        requires
            old(self).wf(),
            forall|k: int| 0 <= k < memory_map@.len() ==> #[trigger] entry_base_roundable(memory_map@[k]),
            spec_align_up(kernel_end, FRAME_SIZE) <= u64::MAX,
        ensures
            final(self).wf(),
            final(self).used() == initial_used(memory_map@, kernel_start, kernel_end),
            forall|f: int| 0 <= f < MAX_FRAMES ==> !#[trigger] final(self).allocated()[f],
            forall|f: int|
                0 <= f < MAX_FRAMES && kernel_start - kernel_start % 4096 <= f * 4096 < kernel_end
                    ==> #[trigger] final(self).used()[f],
            final(self).spec_free_frames() == count_false(initial_used(memory_map@, kernel_start, kernel_end)),
    {
        let mut i: usize = 0;
        while i < BITMAP_SIZE
            invariant
                i <= BITMAP_SIZE,
                self.frame_bitmap@.len() == BITMAP_SIZE,
                self.allocated_bitmap@.len() == BITMAP_SIZE,
                forall|j: int| 0 <= j < i ==> #[trigger] self.frame_bitmap@[j] == 0xFFu8,
                forall|j: int| 0 <= j < i ==> #[trigger] self.allocated_bitmap@[j] == 0u8,
            decreases BITMAP_SIZE - i,
        {
            self.frame_bitmap.set(i, 0xFF);
            self.allocated_bitmap.set(i, 0);
            i = i + 1;
        }
        self.free_frames = 0;
        proof {
            self.lemma_all_reserved();
            assert(self.used() =~= Seq::new(
                MAX_FRAMES as nat,
                |f: int| !usable_frame(memory_map@, 0, f),
            ));
        }
        let mut index: usize = 0;
        while index < memory_map.len()
            invariant
                index <= memory_map@.len(),
                self.wf(),
                forall|f: int| 0 <= f < MAX_FRAMES ==> !#[trigger] self.allocated()[f],
                forall|k: int| 0 <= k < memory_map@.len() ==> #[trigger] entry_base_roundable(memory_map@[k]),
                self.used() == Seq::new(
                    MAX_FRAMES as nat,
                    |f: int| !usable_frame(memory_map@, index as int, f),
                ),
            decreases memory_map@.len() - index,
        {
            let entry = memory_map[index];
            let ghost before = self.used();
            proof {
                assert(entry_base_roundable(memory_map@[index as int]));
            }
            if entry.entry_type == E820_USABLE {
                let region_start = align_up(entry.base_addr, FRAME_SIZE);
                match entry.base_addr.checked_add(entry.length) {
                    Some(end) => {
                        let region_end = align_down(end, FRAME_SIZE);
                        if region_start < region_end {
                            let region_end = if region_end < MAX_PHYSICAL_MEMORY {
                                region_end
                            } else {
                                MAX_PHYSICAL_MEMORY
                            };
                            self.release_region(region_start, region_end);
                        }
                    },
                    None => {},
                }
            }
            proof {
                assert forall|f: int| 0 <= f < MAX_FRAMES implies #[trigger] self.used()[f] == !usable_frame(
                    memory_map@,
                    index as int + 1,
                    f,
                ) by {
                    if entry_frees(memory_map@[index as int], f) {
                        assert(usable_frame(memory_map@, index as int + 1, f));
                    }
                    if usable_frame(memory_map@, index as int + 1, f) && !usable_frame(
                        memory_map@,
                        index as int,
                        f,
                    ) {
                        let k = choose|k: int|
                            0 <= k < index + 1 && #[trigger] entry_frees(memory_map@[k], f);
                        assert(k == index as int);
                    }
                    if usable_frame(memory_map@, index as int, f) {
                        let k = choose|k: int| 0 <= k < index && #[trigger] entry_frees(memory_map@[k], f);
                        assert(usable_frame(memory_map@, index as int + 1, f));
                    }
                }
                assert(self.used() =~= Seq::new(
                    MAX_FRAMES as nat,
                    |f: int| !usable_frame(memory_map@, index as int + 1, f),
                ));
            }
            index = index + 1;
        }
        let ghost released = self.used();
        self.reserve_range(0x0000_0000, 0x0010_0000);
        self.reserve_range(0x0000_8000, 0x0000_C000);
        self.reserve_range(0x0002_0000, 0x0002_4000);
        self.reserve_range(0x0006_0000, 0x0006_1000);
        self.reserve_range(0x0007_0000, 0x0007_1000);
        self.reserve_range(0x0009_0000, 0x0009_1000);
        self.reserve_range(kernel_start, kernel_end);
        proof {
            assert(self.used() =~= initial_used(memory_map@, kernel_start, kernel_end));
            assert forall|f: int|
                0 <= f < MAX_FRAMES && kernel_start - kernel_start % 4096 <= f * 4096 < kernel_end
                    implies #[trigger] self.used()[f] by {
                law_kernel_pages_stay_used(memory_map@, kernel_start, kernel_end, f);
            }
        }
    }

    /// Release every still-used frame of `[region_start, region_end)`.
    fn release_region(&mut self, region_start: u64, region_end: u64)
        requires
            old(self).wf(),
            forall|f: int| 0 <= f < MAX_FRAMES ==> !#[trigger] old(self).allocated()[f],
            region_start % FRAME_SIZE == 0,
            region_end % FRAME_SIZE == 0,
            region_end <= MAX_PHYSICAL_MEMORY,
        ensures
            final(self).wf(),
            forall|f: int| 0 <= f < MAX_FRAMES ==> !#[trigger] final(self).allocated()[f],
            final(self).used() == Seq::new(
                MAX_FRAMES as nat,
                |f: int| old(self).used()[f] && !(region_start <= f * FRAME_SIZE < region_end),
            ),
    {
        let mut address = region_start;
        while address < region_end
            invariant
                self.wf(),
                forall|f: int| 0 <= f < MAX_FRAMES ==> !#[trigger] self.allocated()[f],
                region_start % FRAME_SIZE == 0,
                region_end % FRAME_SIZE == 0,
                region_end <= MAX_PHYSICAL_MEMORY,
                address % FRAME_SIZE == 0,
                region_start <= address,
                region_start < region_end ==> address <= region_end,
                region_start >= region_end ==> address == region_start,
                self.used() == Seq::new(
                    MAX_FRAMES as nat,
                    |f: int| old(self).used()[f] && !(region_start <= f * FRAME_SIZE < address),
                ),
            decreases region_end - address,
        {
            let frame = (address / FRAME_SIZE) as usize;
            if frame < MAX_FRAMES && self.is_used(frame) {
                proof {
                    self.lemma_wf();
                    lemma_count_false_update(self.used(), frame as int, false);
                    lemma_count_false_bound(self.used().update(frame as int, false));
                }
                self.mark_free(frame);
                self.free_frames = self.free_frames + 1;
            }
            let ghost prev = address;
            address = address + FRAME_SIZE;
            proof {
                assert forall|f: int| 0 <= f < MAX_FRAMES implies #[trigger] self.used()[f] == (old(self).used()[f]
                    && !(region_start <= f * FRAME_SIZE < address)) by {
                    if f * FRAME_SIZE == prev {
                        assert(f == prev / FRAME_SIZE);
                    } else if region_start <= f * FRAME_SIZE < address {
                        assert(f * FRAME_SIZE < prev) by (nonlinear_arith)
                            requires
                                f * 4096 != prev,
                                f * 4096 < prev + 4096,
                                prev % 4096 == 0,
                        ;
                    }
                }
                assert(self.used() =~= Seq::new(
                    MAX_FRAMES as nat,
                    |f: int| old(self).used()[f] && !(region_start <= f * FRAME_SIZE < address),
                ));
            }
        }
        proof {
            assert forall|f: int| 0 <= f < MAX_FRAMES implies #[trigger] self.used()[f] == (old(self).used()[f]
                && !(region_start <= f * FRAME_SIZE < region_end)) by {
                assert(self.used()[f] == (old(self).used()[f] && !(region_start <= f * FRAME_SIZE < address)));
            }
            assert(self.used() =~= Seq::new(
                MAX_FRAMES as nat,
                |f: int| old(self).used()[f] && !(region_start <= f * FRAME_SIZE < region_end),
            ));
        }
    }

    /// Mark every frame meeting the page-rounded range `[start, end)` used.
    fn reserve_range(&mut self, start: u64, end: u64)
        requires
            old(self).wf(),
            spec_align_up(end, FRAME_SIZE) <= u64::MAX,
        ensures
            final(self).wf(),
            final(self).allocated() == old(self).allocated(),
            final(self).used() == Seq::new(
                MAX_FRAMES as nat,
                |f: int| old(self).used()[f] || in_reserved(f, start, end),
            ),
    {
        let first = align_down(start, FRAME_SIZE);
        let limit = align_up(end, FRAME_SIZE);
        let mut address = first;
        while address < limit
            invariant
                self.wf(),
                self.allocated() == old(self).allocated(),
                first % FRAME_SIZE == 0,
                limit % FRAME_SIZE == 0,
                address % FRAME_SIZE == 0,
                first <= address,
                first < limit ==> address <= limit,
                first >= limit ==> address == first,
                first == spec_align_down(start, FRAME_SIZE),
                limit == spec_align_up(end, FRAME_SIZE),
                self.used() == Seq::new(
                    MAX_FRAMES as nat,
                    |f: int| old(self).used()[f] || (first <= f * FRAME_SIZE < address),
                ),
            decreases limit - address,
        {
            let frame_number = address / FRAME_SIZE;
            if frame_number < MAX_FRAMES as u64 {
                let frame = frame_number as usize;
                if !self.is_used(frame) {
                    proof {
                        lemma_count_false_positive(self.used(), frame as int);
                        lemma_count_false_update(self.used(), frame as int, true);
                    }
                    let ghost before = *self;
                    self.mark_used(frame);
                    self.free_frames = self.free_frames - 1;
                    proof {
                        assert forall|f: int| 0 <= f < MAX_FRAMES implies #[trigger] self.allocated()[f]
                            ==> self.used()[f] by {
                            if f != frame as int {
                                assert(before.allocated()[f] ==> before.used()[f]);
                            }
                        }
                    }
                }
            }
            let ghost prev = address;
            address = address + FRAME_SIZE;
            proof {
                assert forall|f: int| 0 <= f < MAX_FRAMES implies #[trigger] self.used()[f] == (old(self).used()[f] || (first <= f * FRAME_SIZE < address)) by {
                    if f * FRAME_SIZE == prev {
                        assert(f == prev / FRAME_SIZE);
                    } else if first <= f * FRAME_SIZE < address {
                        assert(f * FRAME_SIZE < prev) by (nonlinear_arith)
                            requires
                                f * 4096 != prev,
                                f * 4096 < prev + 4096,
                                prev % 4096 == 0,
                        ;
                    }
                }
                assert(self.used() =~= Seq::new(
                    MAX_FRAMES as nat,
                    |f: int| old(self).used()[f] || (first <= f * FRAME_SIZE < address),
                ));
            }
        }
        proof {
            assert forall|f: int| 0 <= f < MAX_FRAMES implies #[trigger] self.used()[f] == (old(self).used()[f]
                || in_reserved(f, start, end)) by {
                assert(self.used()[f] == (old(self).used()[f] || (first <= f * FRAME_SIZE < address)));
            }
            assert(self.used() =~= Seq::new(
                MAX_FRAMES as nat,
                |f: int| old(self).used()[f] || in_reserved(f, start, end),
            ));
        }
    }
}

} // verus!

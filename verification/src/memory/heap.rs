use vstd::prelude::*;

use super::frame_allocator::{FrameAllocator, FRAME_SIZE, MAX_FRAMES};
use super::page_table::{
    leaf_entry, lemma_entry_address_aligned, lemma_entry_fields, lemma_frame_address, lemma_same_page_leaf,
    lemma_extends_trans, lemma_extends_walk, lemma_table_index_bound, missing_tables, pd_of, pdpt_of,
    pt_of, same_page, spec_entry, extends,
    spec_entry_address, table_index,
    tables_tracked, tables_wf, unmap, frames_taken_by_tables, MapError, PageTable, PageTableMemory, PAGE_SIZE,
};

verus! {

/// Start of the kernel heap virtual address range (1 GiB).
pub const HEAP_START: u64 = 0x0000_0000_4000_0000;

/// Maximum kernel heap size: 16 MiB.
pub const HEAP_SIZE: u64 = 16 * 1024 * 1024;

/// End of the kernel heap virtual address range.
pub const HEAP_END: u64 = HEAP_START + HEAP_SIZE;

/// Number of 4 KiB pages the heap range holds.
pub const HEAP_PAGES: u64 = 4096;

/// Virtual address of heap page `k`.
pub open spec fn heap_page(k: int) -> u64 {
    (HEAP_START + k * PAGE_SIZE) as u64
}

/// `v` lies in one of the first `pages` pages of the heap range.
pub open spec fn in_heap(v: u64, pages: int) -> bool {
    &&& table_index(v, 0) == 0
    &&& table_index(v, 1) == 1
    &&& table_index(v, 2) * 512 + table_index(v, 3) < pages
}

/// The table indexes of heap page `k`: the PDPT entry of the heap's
/// gigabyte, then `k` split into its PD and PT indexes.
pub proof fn lemma_heap_page(k: u64)
    requires
        k < HEAP_PAGES,
    ensures
        table_index(heap_page(k as int), 0) == 0,
        table_index(heap_page(k as int), 1) == 1,
        table_index(heap_page(k as int), 2) == k / 512,
        table_index(heap_page(k as int), 3) == k % 512,
        forall|v: u64| #[trigger]
            in_heap(v, k + 1) == (in_heap(v, k as int) || same_page(heap_page(k as int), v)),
{
    let va = heap_page(k as int);
    assert(va == 0x4000_0000u64 + k * 4096u64);
    assert((va >> 39u64) & 0x1FFu64 == 0u64 && (va >> 30u64) & 0x1FFu64 == 1u64 && (va >> 21u64)
        & 0x1FFu64 == k / 512u64 && (va >> 12u64) & 0x1FFu64 == k % 512u64) by (bit_vector)
        requires
            k < 4096u64,
            va == 0x4000_0000u64 + k * 4096u64,
    ;
    assert forall|v: u64| #[trigger]
        in_heap(v, k + 1) == (in_heap(v, k as int) || same_page(heap_page(k as int), v)) by {
        lemma_table_index_bound(v);
    }
}

/// The leaf `leaf` maps its page to frame number `f`.
pub open spec fn leaf_frame_is(leaf: Option<u64>, f: int) -> bool {
    match leaf {
        Some(e) => spec_entry_address(e) / FRAME_SIZE == f,
        None => false,
    }
}

/// Frame `f` is the frame one of the first `pages` heap pages maps to.
pub open spec fn heap_frame(pml4: PageTable, mem: Map<u64, PageTable>, pages: int, f: int) -> bool {
    exists|k: int| 0 <= k < pages && leaf_frame_is(#[trigger] leaf_entry(pml4, mem, heap_page(k)), f)
}

proof fn lemma_heap_frame_step(pml4: PageTable, mem: Map<u64, PageTable>, j: int, f: int)
    requires
        0 <= j,
    ensures
        heap_frame(pml4, mem, j + 1, f) == (heap_frame(pml4, mem, j, f) || leaf_frame_is(
            leaf_entry(pml4, mem, heap_page(j)),
            f,
        )),
{
    if heap_frame(pml4, mem, j + 1, f) {
        let k = choose|k: int|
            0 <= k < j + 1 && leaf_frame_is(#[trigger] leaf_entry(pml4, mem, heap_page(k)), f);
        if k < j {
            assert(heap_frame(pml4, mem, j, f));
        }
    }
    if heap_frame(pml4, mem, j, f) {
        let k = choose|k: int|
            0 <= k < j && leaf_frame_is(#[trigger] leaf_entry(pml4, mem, heap_page(k)), f);
        assert(heap_frame(pml4, mem, j + 1, f));
    }
}

/// Distinct heap pages below `HEAP_PAGES` never share their leaf.
proof fn lemma_heap_pages_distinct(j: u64, k: u64)
    requires
        j < k < HEAP_PAGES,
    ensures
        !same_page(heap_page(k as int), heap_page(j as int)),
{
    lemma_heap_page(j);
    lemma_heap_page(k);
}

/// The first `pages` heap pages map to pairwise distinct frames.
pub open spec fn heap_frames_distinct(pml4: PageTable, mem: Map<u64, PageTable>, pages: int) -> bool {
    forall|j: int, k: int|
        #![trigger leaf_entry(pml4, mem, heap_page(j)), leaf_entry(pml4, mem, heap_page(k))]
        0 <= j < k < pages ==> spec_entry_address(leaf_entry(pml4, mem, heap_page(j))->0)
            != spec_entry_address(leaf_entry(pml4, mem, heap_page(k))->0)
}

/// Tables `initialize` creates for heap page `k`, the pages before it
/// mapped: the tables missing on the first page's walk; after that only
/// a page table, where page `k` starts a new one that is missing.
pub open spec fn heap_page_tables(pml4: PageTable, mem: Map<u64, PageTable>, k: int) -> nat {
    if k == 0 {
        missing_tables(pml4, mem, heap_page(0))
    } else if k % 512 == 0 && pt_of(pml4, mem, heap_page(k)) is None {
        1
    } else {
        0
    }
}

/// Tables `initialize` creates for heap pages `k..pages`.
pub open spec fn heap_tables_from(pml4: PageTable, mem: Map<u64, PageTable>, k: int, pages: int) -> nat
    decreases pages - k,
{
    if k >= pages {
        0
    } else {
        heap_page_tables(pml4, mem, k) + heap_tables_from(pml4, mem, k + 1, pages)
    }
}

/// Frames `initialize` takes to map `pages` heap pages: one per page and
/// one per table missing along the range.
pub open spec fn heap_frames_needed(pml4: PageTable, mem: Map<u64, PageTable>, pages: int) -> int {
    pages + heap_tables_from(pml4, mem, 0, pages)
}

/// Once heap page `k - 1` is mapped, page `k` needs a new table only
/// where it starts a new page table, and then only the page table.
proof fn lemma_next_heap_page_tables(pml4: PageTable, mem: Map<u64, PageTable>, k: u64)
    requires
        0 < k < HEAP_PAGES,
        leaf_entry(pml4, mem, heap_page(k - 1)) is Some,
    ensures
        missing_tables(pml4, mem, heap_page(k as int)) <= k / 512 - (k - 1) / 512,
{
    lemma_heap_page((k - 1) as u64);
    lemma_heap_page(k);
    let a = heap_page(k - 1);
    let b = heap_page(k as int);
    assert(pdpt_of(pml4, a) == pdpt_of(pml4, b));
    assert(pd_of(pml4, mem, a) == pd_of(pml4, mem, b));
    if k % 512 != 0 {
        assert(k / 512 == (k - 1) / 512);
        assert(pt_of(pml4, mem, a) == pt_of(pml4, mem, b));
    } else {
        assert(k / 512 == (k - 1) / 512 + 1);
    }
}

/// What `initialize` keeps true of the allocator while it maps: every
/// frame is as before, or holds a new table, or is the frame of a heap
/// page mapped so far.
pub open spec fn heap_frames_accounted(
    u0: Seq<bool>,
    a0: Seq<bool>,
    u: Seq<bool>,
    a: Seq<bool>,
    m0: Map<u64, PageTable>,
    pml4: PageTable,
    mem: Map<u64, PageTable>,
    pages: int,
) -> bool {
    &&& forall|f: int|
        #![trigger u[f]]
        0 <= f < MAX_FRAMES ==> (u[f] == u0[f] && a[f] == a0[f]) || (!u0[f] && u[f] && a[f]
            && mem.contains_key((f * FRAME_SIZE) as u64) && !m0.contains_key((f * FRAME_SIZE) as u64))
            || (heap_frame(pml4, mem, pages, f) && !u0[f] && u[f] && a[f])
    &&& forall|b: u64| #[trigger] mem.contains_key(b) && !m0.contains_key(b) ==> !u0[(b / FRAME_SIZE) as int]
    &&& forall|f: int|
        #![trigger heap_frame(pml4, mem, pages, f)]
        0 <= f < MAX_FRAMES && heap_frame(pml4, mem, pages, f) ==> !u0[f] && a[f]
}

proof fn lemma_heap_frame_same_leaves(
    p1: PageTable,
    m1: Map<u64, PageTable>,
    p2: PageTable,
    m2: Map<u64, PageTable>,
    n: int,
)
    requires
        forall|k: int|
            0 <= k < n ==> #[trigger] leaf_entry(p2, m2, heap_page(k)) == leaf_entry(p1, m1, heap_page(k)),
    ensures
        forall|f: int| #[trigger] heap_frame(p2, m2, n, f) == heap_frame(p1, m1, n, f),
{
    assert forall|f: int| #[trigger] heap_frame(p2, m2, n, f) == heap_frame(p1, m1, n, f) by {
        if heap_frame(p2, m2, n, f) {
            let k = choose|k: int|
                0 <= k < n && leaf_frame_is(#[trigger] leaf_entry(p2, m2, heap_page(k)), f);
            assert(leaf_entry(p1, m1, heap_page(k)) == leaf_entry(p2, m2, heap_page(k)));
        }
        if heap_frame(p1, m1, n, f) {
            let k = choose|k: int|
                0 <= k < n && leaf_frame_is(#[trigger] leaf_entry(p1, m1, heap_page(k)), f);
            assert(leaf_entry(p1, m1, heap_page(k)) == leaf_entry(p2, m2, heap_page(k)));
        }
    }
}

proof fn lemma_frames_taken_at(
    u0: Seq<bool>,
    a0: Seq<bool>,
    u1: Seq<bool>,
    a1: Seq<bool>,
    m0: Map<u64, PageTable>,
    m1: Map<u64, PageTable>,
    f: int,
)
    requires
        frames_taken_by_tables(u0, a0, u1, a1, m0, m1),
        0 <= f < MAX_FRAMES,
    ensures
        (u1[f] == u0[f] && a1[f] == a0[f]) || (!u0[f] && u1[f] && a1[f] && m1.contains_key(
            (f * FRAME_SIZE) as u64,
        ) && !m0.contains_key((f * FRAME_SIZE) as u64)),
{
    assert(u1[f] == u1[f]);
}

proof fn lemma_accounted_at(
    u0: Seq<bool>,
    a0: Seq<bool>,
    u: Seq<bool>,
    a: Seq<bool>,
    m0: Map<u64, PageTable>,
    pml4: PageTable,
    mem: Map<u64, PageTable>,
    pages: int,
    f: int,
)
    requires
        heap_frames_accounted(u0, a0, u, a, m0, pml4, mem, pages),
        0 <= f < MAX_FRAMES,
    ensures
        (u[f] == u0[f] && a[f] == a0[f]) || (!u0[f] && u[f] && a[f] && mem.contains_key(
            (f * FRAME_SIZE) as u64,
        ) && !m0.contains_key((f * FRAME_SIZE) as u64)) || (heap_frame(pml4, mem, pages, f)
            && !u0[f] && u[f] && a[f]),
        heap_frame(pml4, mem, pages, f) ==> !u0[f] && a[f],
{
    assert(u[f] == u[f]);
}

/// The accounting after heap page `mp` was mapped to the fresh frame `z`.
proof fn lemma_accounted_after_map(
    u0: Seq<bool>,
    a0: Seq<bool>,
    uc: Seq<bool>,
    ac: Seq<bool>,
    u2: Seq<bool>,
    a2: Seq<bool>,
    u3: Seq<bool>,
    a3: Seq<bool>,
    m0: Map<u64, PageTable>,
    p1: PageTable,
    m1: Map<u64, PageTable>,
    p3: PageTable,
    m3: Map<u64, PageTable>,
    mp: int,
    z: u64,
)
    requires
        0 <= mp,
        uc.len() == MAX_FRAMES,
        ac.len() == MAX_FRAMES,
        forall|f: int| 0 <= f < MAX_FRAMES ==> #[trigger] ac[f] ==> uc[f],
        heap_frames_accounted(u0, a0, uc, ac, m0, p1, m1, mp),
        m0.dom().subset_of(m1.dom()),
        m1.dom().subset_of(m3.dom()),
        z % FRAME_SIZE == 0,
        z / FRAME_SIZE < MAX_FRAMES,
        !uc[(z / FRAME_SIZE) as int],
        u2 == uc.update((z / FRAME_SIZE) as int, true),
        a2 == ac.update((z / FRAME_SIZE) as int, true),
        frames_taken_by_tables(u2, a2, u3, a3, m1, m3),
        tables_tracked(m3, u3),
        forall|k: int|
            0 <= k < mp ==> #[trigger] leaf_entry(p3, m3, heap_page(k)) == leaf_entry(p1, m1, heap_page(k)),
        leaf_frame_is(leaf_entry(p3, m3, heap_page(mp)), (z / FRAME_SIZE) as int),
    ensures
        heap_frames_accounted(u0, a0, u3, a3, m0, p3, m3, mp + 1),
{
    let fz = (z / FRAME_SIZE) as int;
    lemma_heap_frame_same_leaves(p1, m1, p3, m3, mp);
    assert forall|f: int| #![trigger u3[f]] 0 <= f < MAX_FRAMES implies (u3[f] == u0[f] && a3[f]
        == a0[f]) || (!u0[f] && u3[f] && a3[f] && m3.contains_key((f * FRAME_SIZE) as u64)
        && !m0.contains_key((f * FRAME_SIZE) as u64)) || (heap_frame(p3, m3, mp + 1, f) && !u0[f]
        && u3[f] && a3[f]) by {
        lemma_heap_frame_step(p3, m3, mp, f);
        lemma_accounted_at(u0, a0, uc, ac, m0, p1, m1, mp, f);
        lemma_frames_taken_at(u2, a2, u3, a3, m1, m3, f);
        if f != fz && m1.contains_key((f * FRAME_SIZE) as u64) {
            assert(m3.contains_key((f * FRAME_SIZE) as u64));
        }
    }
    assert forall|b: u64| #[trigger] m3.contains_key(b) && !m0.contains_key(b) implies !u0[(b
        / FRAME_SIZE) as int] by {
        let g = (b / FRAME_SIZE) as int;
        if m1.contains_key(b) {
            assert(!u0[g]);
        } else {
            assert(!u2[g]);
            assert(0 <= g < MAX_FRAMES);
            lemma_accounted_at(u0, a0, uc, ac, m0, p1, m1, mp, g);
        }
    }
    assert forall|f: int|
        #![trigger heap_frame(p3, m3, mp + 1, f)]
        0 <= f < MAX_FRAMES && heap_frame(p3, m3, mp + 1, f) implies !u0[f] && a3[f] by {
        lemma_heap_frame_step(p3, m3, mp, f);
        lemma_accounted_at(u0, a0, uc, ac, m0, p1, m1, mp, f);
        lemma_frames_taken_at(u2, a2, u3, a3, m1, m3, f);
    }
}

/// The accounting after mapping heap page `mp` failed and its fresh frame
/// `z` was freed again.
proof fn lemma_accounted_after_failed_map(
    u0: Seq<bool>,
    a0: Seq<bool>,
    uc: Seq<bool>,
    ac: Seq<bool>,
    u2: Seq<bool>,
    a2: Seq<bool>,
    u3: Seq<bool>,
    a3: Seq<bool>,
    u4: Seq<bool>,
    a4: Seq<bool>,
    m0: Map<u64, PageTable>,
    p1: PageTable,
    m1: Map<u64, PageTable>,
    p3: PageTable,
    m3: Map<u64, PageTable>,
    mp: int,
    z: u64,
)
    requires
        0 <= mp,
        uc.len() == MAX_FRAMES,
        ac.len() == MAX_FRAMES,
        forall|f: int| 0 <= f < MAX_FRAMES ==> #[trigger] ac[f] ==> uc[f],
        heap_frames_accounted(u0, a0, uc, ac, m0, p1, m1, mp),
        m0.dom().subset_of(m1.dom()),
        m1.dom().subset_of(m3.dom()),
        z % FRAME_SIZE == 0,
        z / FRAME_SIZE < MAX_FRAMES,
        !uc[(z / FRAME_SIZE) as int],
        u2 == uc.update((z / FRAME_SIZE) as int, true),
        a2 == ac.update((z / FRAME_SIZE) as int, true),
        frames_taken_by_tables(u2, a2, u3, a3, m1, m3),
        tables_tracked(m3, u3),
        u3.len() == MAX_FRAMES,
        a3.len() == MAX_FRAMES,
        forall|k: int|
            0 <= k < mp ==> #[trigger] leaf_entry(p3, m3, heap_page(k)) == leaf_entry(p1, m1, heap_page(k)),
        a3[(z / FRAME_SIZE) as int] ==> u4 == u3.update((z / FRAME_SIZE) as int, false) && a4
            == a3.update((z / FRAME_SIZE) as int, false),
        !a3[(z / FRAME_SIZE) as int] ==> u4 == u3 && a4 == a3,
    ensures
        heap_frames_accounted(u0, a0, u4, a4, m0, p3, m3, mp),
{
    let fz = (z / FRAME_SIZE) as int;
    lemma_heap_frame_same_leaves(p1, m1, p3, m3, mp);
    lemma_frames_taken_at(u2, a2, u3, a3, m1, m3, fz);
    assert(a3[fz]);
    assert forall|f: int| #![trigger u4[f]] 0 <= f < MAX_FRAMES implies (u4[f] == u0[f] && a4[f]
        == a0[f]) || (!u0[f] && u4[f] && a4[f] && m3.contains_key((f * FRAME_SIZE) as u64)
        && !m0.contains_key((f * FRAME_SIZE) as u64)) || (heap_frame(p3, m3, mp, f) && !u0[f]
        && u4[f] && a4[f]) by {
        lemma_accounted_at(u0, a0, uc, ac, m0, p1, m1, mp, f);
        lemma_frames_taken_at(u2, a2, u3, a3, m1, m3, f);
        if f != fz && m1.contains_key((f * FRAME_SIZE) as u64) {
            assert(m3.contains_key((f * FRAME_SIZE) as u64));
        }
    }
    assert forall|b: u64| #[trigger] m3.contains_key(b) && !m0.contains_key(b) implies !u0[(b
        / FRAME_SIZE) as int] by {
        let g = (b / FRAME_SIZE) as int;
        if m1.contains_key(b) {
            assert(!u0[g]);
        } else {
            assert(!u2[g]);
            assert(0 <= g < MAX_FRAMES);
            lemma_accounted_at(u0, a0, uc, ac, m0, p1, m1, mp, g);
        }
    }
    assert forall|f: int|
        #![trigger heap_frame(p3, m3, mp, f)]
        0 <= f < MAX_FRAMES && heap_frame(p3, m3, mp, f) implies !u0[f] && a4[f] by {
        lemma_accounted_at(u0, a0, uc, ac, m0, p1, m1, mp, f);
        lemma_frames_taken_at(u2, a2, u3, a3, m1, m3, f);
    }
}

/// Unmapping the heap pages and freeing their frames leaves the allocator
/// as it was but for the frames of new tables.
proof fn lemma_rollback_frames(
    u0: Seq<bool>,
    a0: Seq<bool>,
    u1: Seq<bool>,
    a1: Seq<bool>,
    u2: Seq<bool>,
    a2: Seq<bool>,
    m0: Map<u64, PageTable>,
    pml4: PageTable,
    m1: Map<u64, PageTable>,
    m2: Map<u64, PageTable>,
    pages: int,
)
    requires
        forall|f: int| 0 <= f < MAX_FRAMES ==> #[trigger] a0[f] ==> u0[f],
        heap_frames_accounted(u0, a0, u1, a1, m0, pml4, m1, pages),
        m2.dom() == m1.dom(),
        forall|f: int|
            0 <= f < MAX_FRAMES ==> #[trigger] u2[f] == (u1[f] && !(heap_frame(pml4, m1, pages, f)
                && a1[f])) && a2[f] == (a1[f] && !heap_frame(pml4, m1, pages, f)),
    ensures
        frames_taken_by_tables(u0, a0, u2, a2, m0, m2),
{
    assert forall|f: int| #![trigger u2[f]] 0 <= f < MAX_FRAMES implies (u2[f] == u0[f] && a2[f]
        == a0[f]) || (!u0[f] && u2[f] && a2[f] && m2.contains_key((f * FRAME_SIZE) as u64)
        && !m0.contains_key((f * FRAME_SIZE) as u64)) by {
        assert(u1[f] == u1[f]);
        if heap_frame(pml4, m1, pages, f) {
            assert(!u0[f] && a1[f]);
            assert(!a0[f]);
        } else {
            if m1.contains_key((f * FRAME_SIZE) as u64) {
                assert(m2.contains_key((f * FRAME_SIZE) as u64));
            }
        }
    }
    assert forall|b: u64| #[trigger] m2.contains_key(b) && !m0.contains_key(b) implies !u0[(b
        / FRAME_SIZE) as int] by {
        assert(m1.contains_key(b));
    }
}

/// Why `KernelHeap::initialize` refused.
#[derive(Clone, Copy, Debug, PartialEq, Eq, Structural)]
pub enum HeapError {
    AlreadyInitialized,
    ZeroPages,
    SizeOverflow,
    ExceedsSize,
    OutOfMemory,
    Mapping(MapError),
}

impl HeapError {
    /// The diagnostic for this refusal.
    pub fn message(&self) -> (r: &'static str)
        ensures
            r@ == heap_error_message(*self),
    {
        match self {
            HeapError::AlreadyInitialized => "kernel heap already initialized",
            HeapError::ZeroPages => "kernel heap page count is zero",
            HeapError::SizeOverflow => "kernel heap size overflow",
            HeapError::ExceedsSize => "kernel heap exceeds configured size",
            HeapError::OutOfMemory => "out of physical memory for kernel heap",
            HeapError::Mapping(e) => e.message(),
        }
    }
}

pub open spec fn heap_error_message(e: HeapError) -> Seq<char> {
    match e {
        HeapError::AlreadyInitialized => "kernel heap already initialized"@,
        HeapError::ZeroPages => "kernel heap page count is zero"@,
        HeapError::SizeOverflow => "kernel heap size overflow"@,
        HeapError::ExceedsSize => "kernel heap exceeds configured size"@,
        HeapError::OutOfMemory => "out of physical memory for kernel heap"@,
        HeapError::Mapping(m) => super::page_table::map_error_message(m),
    }
}

/// The check `initialize` fails before it maps anything, if any.
pub open spec fn heap_check(initialized: bool, size: u64, pages: u64) -> Option<HeapError> {
    if initialized {
        Some(HeapError::AlreadyInitialized)
    } else if pages == 0 {
        Some(HeapError::ZeroPages)
    } else if pages * PAGE_SIZE > u64::MAX {
        Some(HeapError::SizeOverflow)
    } else if pages * PAGE_SIZE > size {
        Some(HeapError::ExceedsSize)
    } else {
        None
    }
}

/// The kernel heap: a page-backed virtual range at `HEAP_START`.
pub struct KernelHeap {
    start: u64,
    size: u64,
    mapped_pages: u64,
    initialized: bool,
}

impl KernelHeap {
    #[verifier::type_invariant]
    spec fn inv(self) -> bool {
        &&& self.start == HEAP_START
        &&& self.size == HEAP_SIZE
        &&& self.mapped_pages <= HEAP_PAGES
        &&& !self.initialized ==> self.mapped_pages == 0
    }

    pub closed spec fn spec_mapped_pages(&self) -> u64 {
        self.mapped_pages
    }

    pub closed spec fn spec_initialized(&self) -> bool {
        self.initialized
    }

    /// An uninitialized heap over the whole range.
    pub fn new() -> (h: Self)
        ensures
            h.spec_mapped_pages() == 0,
            !h.spec_initialized(),
    {
        KernelHeap { start: HEAP_START, size: HEAP_SIZE, mapped_pages: 0, initialized: false }
    }

    /// Start virtual address of the heap.
    pub fn start(&self) -> (r: u64)
        ensures
            r == HEAP_START,
    {
        proof {
            use_type_invariant(self);
        }
        self.start
    }

    /// End virtual address of the heap.
    pub fn end(&self) -> (r: u64)
        ensures
            r == HEAP_END,
    {
        proof {
            use_type_invariant(self);
        }
        self.start + self.size
    }

    /// Configured heap size in bytes.
    pub fn size(&self) -> (r: u64)
        ensures
            r == HEAP_SIZE,
    {
        proof {
            use_type_invariant(self);
        }
        self.size
    }

    /// Number of currently mapped heap pages.
    pub fn mapped_pages(&self) -> (r: u64)
        ensures
            r == self.spec_mapped_pages(),
            r <= HEAP_PAGES,
            !self.spec_initialized() ==> r == 0,
    {
        proof {
            use_type_invariant(self);
        }
        self.mapped_pages
    }

    /// Whether the heap has been initialized successfully.
    pub fn is_initialized(&self) -> (r: bool)
        ensures
            r == self.spec_initialized(),
    {
        self.initialized
    }

    /// Maximum number of 4 KiB pages available in the heap.
    pub fn page_capacity(&self) -> (r: u64)
        ensures
            r == HEAP_PAGES,
    {
        proof {
            use_type_invariant(self);
        }
        self.size / FRAME_SIZE
    }

    /// Unmap the first `pages` heap pages and free their frames; the heap
    /// is left uninitialized. Pages that are not mapped are skipped.
    fn rollback(
        &mut self,
        pml4: &PageTable,
        mem: &mut PageTableMemory,
        allocator: &mut FrameAllocator,
        pages: u64,
    )
        requires
            tables_wf(*pml4, old(mem)@, old(mem).levels()),
            tables_tracked(old(mem)@, old(allocator).used()),
            old(allocator).wf(),
            pages <= HEAP_PAGES,
            forall|v: u64|
                in_heap(v, pages as int) && #[trigger] leaf_entry(*pml4, old(mem)@, v) is Some
                    ==> !old(mem)@.contains_key(spec_entry_address(leaf_entry(*pml4, old(mem)@, v)->0)),
        ensures
            tables_wf(*pml4, final(mem)@, final(mem).levels()),
            tables_tracked(final(mem)@, final(allocator).used()),
            final(allocator).wf(),
            final(mem).levels() == old(mem).levels(),
            final(mem)@.dom() == old(mem)@.dom(),
            forall|v: u64| #[trigger]
                leaf_entry(*pml4, final(mem)@, v) == if in_heap(v, pages as int) {
                    None
                } else {
                    leaf_entry(*pml4, old(mem)@, v)
                },
            final(self).spec_mapped_pages() == 0,
            !final(self).spec_initialized(),
            forall|f: int|
                0 <= f < MAX_FRAMES ==> #[trigger] final(allocator).used()[f] == (old(
                    allocator,
                ).used()[f] && !(heap_frame(*pml4, old(mem)@, pages as int, f) && old(
                    allocator,
                ).allocated()[f])) && final(allocator).allocated()[f] == (old(allocator).allocated()[f]
                    && !heap_frame(*pml4, old(mem)@, pages as int, f)),
    {
        proof {
            use_type_invariant(&*self);
        }
        let ghost m0 = mem@;
        let mut virtual_address = self.start;
        let mut page: u64 = 0;
        while page < pages
            invariant
                page <= pages <= HEAP_PAGES,
                virtual_address == heap_page(page as int),
                tables_wf(*pml4, mem@, mem.levels()),
                tables_tracked(mem@, allocator.used()),
                allocator.wf(),
                mem.levels() == old(mem).levels(),
                mem@.dom() == m0.dom(),
                forall|v: u64| #[trigger]
                    leaf_entry(*pml4, mem@, v) == if in_heap(v, page as int) {
                        None
                    } else {
                        leaf_entry(*pml4, m0, v)
                    },
                forall|v: u64|
                    in_heap(v, pages as int) && #[trigger] leaf_entry(*pml4, m0, v) is Some
                        ==> !m0.contains_key(spec_entry_address(leaf_entry(*pml4, m0, v)->0)),
                forall|f: int|
                    0 <= f < MAX_FRAMES ==> #[trigger] allocator.used()[f] == (old(allocator).used()[f]
                        && !(heap_frame(*pml4, m0, page as int, f) && old(allocator).allocated()[f]))
                        && allocator.allocated()[f] == (old(allocator).allocated()[f] && !heap_frame(
                        *pml4,
                        m0,
                        page as int,
                        f,
                    )),
            decreases pages - page,
        {
            proof {
                lemma_heap_page(page);
                allocator.lemma_wf();
            }
            let ghost m1 = mem@;
            let ghost u1 = allocator.used();
            let ghost a1 = allocator.allocated();
            match unmap(pml4, mem, virtual_address) {
                Ok(physical_address) => {
                    proof {
                        let e = leaf_entry(*pml4, m1, virtual_address)->0;
                        assert(in_heap(virtual_address, page + 1));
                        assert(leaf_entry(*pml4, m1, virtual_address) == leaf_entry(*pml4, m0, virtual_address));
                        assert(!m0.contains_key(physical_address));
                        lemma_entry_address_aligned(e);
                        allocator.lemma_wf();
                    }
                    allocator.free_frame(physical_address);
                    proof {
                        assert forall|a: u64| #[trigger] mem@.contains_key(a) implies a % FRAME_SIZE == 0
                            && a / FRAME_SIZE < MAX_FRAMES && allocator.used()[(a / FRAME_SIZE) as int] by {
                            assert(m1.contains_key(a));
                            assert(a != physical_address);
                            assert(a / FRAME_SIZE != physical_address / FRAME_SIZE);
                            assert(u1[(a / FRAME_SIZE) as int]);
                        }
                    }
                },
                Err(_) => {},
            }
            proof {
                assert(leaf_entry(*pml4, m1, virtual_address) == leaf_entry(*pml4, m0, virtual_address));
                assert forall|f: int| 0 <= f < MAX_FRAMES implies #[trigger] allocator.used()[f] == (old(
                    allocator,
                ).used()[f] && !(heap_frame(*pml4, m0, page + 1, f) && old(allocator).allocated()[f]))
                    && allocator.allocated()[f] == (old(allocator).allocated()[f] && !heap_frame(
                    *pml4,
                    m0,
                    page + 1,
                    f,
                )) by {
                    lemma_heap_frame_step(*pml4, m0, page as int, f);
                    assert(u1[f] == (old(allocator).used()[f] && !(heap_frame(*pml4, m0, page as int, f)
                        && old(allocator).allocated()[f])));
                    assert(a1[f] == (old(allocator).allocated()[f] && !heap_frame(*pml4, m0, page as int, f)));
                }
                assert forall|v: u64| #[trigger]
                    leaf_entry(*pml4, mem@, v) == if in_heap(v, page + 1) {
                        None
                    } else {
                        leaf_entry(*pml4, m0, v)
                    } by {
                    if same_page(virtual_address, v) {
                        lemma_same_page_leaf(*pml4, m1, virtual_address, v);
                    }
                }
            }
            virtual_address = virtual_address + PAGE_SIZE;
            page = page + 1;
        }
        self.mapped_pages = 0;
        self.initialized = false;
    }

    /// Map `pages` fresh frames at the start of the heap range, writable
    /// and supervisor-only. If the allocator runs dry or a page cannot be
    /// mapped, every page mapped so far is unmapped and its frame freed.
    pub fn initialize(
        &mut self,
        pml4: &mut PageTable,
        mem: &mut PageTableMemory,
        allocator: &mut FrameAllocator,
        pages: u64,
    ) -> (r: Result<(), HeapError>)
        requires
            tables_wf(*old(pml4), old(mem)@, old(mem).levels()),
            tables_tracked(old(mem)@, old(allocator).used()),
            old(allocator).wf(),
        ensures
            tables_wf(*final(pml4), final(mem)@, final(mem).levels()),
            tables_tracked(final(mem)@, final(allocator).used()),
            final(allocator).wf(),
            match heap_check(old(self).spec_initialized(), HEAP_SIZE, pages) {
                Some(e) => {
                    &&& r == Err::<(), HeapError>(e)
                    &&& *final(self) == *old(self)
                    &&& *final(pml4) == *old(pml4)
                    &&& final(mem)@ == old(mem)@
                    &&& final(mem).levels() == old(mem).levels()
                    &&& final(allocator).used() == old(allocator).used()
                    &&& final(allocator).allocated() == old(allocator).allocated()
                    &&& final(allocator).spec_free_frames() == old(allocator).spec_free_frames()
                },
                None => r is Ok || r == Err::<(), HeapError>(HeapError::OutOfMemory) || r == Err::<
                    (),
                    HeapError,
                >(HeapError::Mapping(MapError::AlreadyMapped)) || r == Err::<(), HeapError>(
                    HeapError::Mapping(MapError::OutOfMemory),
                ),
            },
            r is Ok ==> final(self).spec_initialized() && final(self).spec_mapped_pages() == pages,
            r is Ok ==> heap_frames_accounted(
                old(allocator).used(),
                old(allocator).allocated(),
                final(allocator).used(),
                final(allocator).allocated(),
                old(mem)@,
                *final(pml4),
                final(mem)@,
                pages as int,
            ),
            r is Ok ==> forall|v: u64|
                in_heap(v, pages as int) ==> (#[trigger] leaf_entry(*final(pml4), final(mem)@, v) matches Some(e)
                    ==> e == spec_entry(spec_entry_address(e), true, false)),
            r is Ok ==> forall|v: u64|
                in_heap(v, pages as int) ==> #[trigger] leaf_entry(*old(pml4), old(mem)@, v) is None
                    && leaf_entry(*final(pml4), final(mem)@, v) is Some,
            r is Ok ==> forall|v: u64|
                !in_heap(v, pages as int) ==> #[trigger] leaf_entry(*final(pml4), final(mem)@, v)
                    == leaf_entry(*old(pml4), old(mem)@, v),
            r is Err && heap_check(old(self).spec_initialized(), HEAP_SIZE, pages) is None ==> {
                &&& !final(self).spec_initialized()
                &&& final(self).spec_mapped_pages() == 0
                &&& forall|v: u64| #[trigger]
                    leaf_entry(*final(pml4), final(mem)@, v) == leaf_entry(*old(pml4), old(mem)@, v)
            },
            r is Err && heap_check(old(self).spec_initialized(), HEAP_SIZE, pages) is None
                ==> frames_taken_by_tables(
                old(allocator).used(),
                old(allocator).allocated(),
                final(allocator).used(),
                final(allocator).allocated(),
                old(mem)@,
                final(mem)@,
            ),
            r == Err::<(), HeapError>(HeapError::Mapping(MapError::AlreadyMapped)) ==> exists|k: u64|
                k < pages && #[trigger] leaf_entry(*old(pml4), old(mem)@, heap_page(k as int)) is Some,
            r is Ok ==> heap_frames_distinct(*final(pml4), final(mem)@, pages as int),
            r is Ok ==> forall|k: int|
                0 <= k < pages ==> !final(mem)@.contains_key(
                    spec_entry_address(#[trigger] leaf_entry(*final(pml4), final(mem)@, heap_page(k))->0),
                ),
            !old(self).spec_initialized() && 0 < pages <= HEAP_PAGES && old(allocator).spec_free_frames()
                >= heap_frames_needed(*old(pml4), old(mem)@, pages as int) && (forall|v: u64|
                in_heap(v, pages as int) ==> #[trigger] leaf_entry(*old(pml4), old(mem)@, v) is None)
                ==> r is Ok,
    {
        proof {
            use_type_invariant(&*self);
        }
        if self.initialized {
            return Err(HeapError::AlreadyInitialized);
        }
        if pages == 0 {
            return Err(HeapError::ZeroPages);
        }
        let required_size = match pages.checked_mul(PAGE_SIZE) {
            Some(size) => size,
            None => {
                return Err(HeapError::SizeOverflow);
            },
        };
        if required_size > self.size {
            return Err(HeapError::ExceedsSize);
        }
        let ghost p0 = *pml4;
        let ghost m0 = mem@;
        let ghost l0 = mem.levels();
        let ghost fr0 = allocator.spec_free_frames() as int;
        let ghost u0 = allocator.used();
        let ghost a0 = allocator.allocated();
        proof {
            allocator.lemma_wf();
        }
        let mut virtual_address = self.start;
        let mut mapped_pages: u64 = 0;
        while mapped_pages < pages
            invariant
                mapped_pages <= pages <= HEAP_PAGES,
                virtual_address == heap_page(mapped_pages as int),
                *self == *old(self),
                !self.spec_initialized(),
                p0 == *old(pml4),
                m0 == old(mem)@,
                fr0 == old(allocator).spec_free_frames() as int,
                tables_wf(*pml4, mem@, mem.levels()),
                tables_tracked(mem@, allocator.used()),
                allocator.wf(),
                forall|v: u64|
                    !in_heap(v, mapped_pages as int) ==> #[trigger] leaf_entry(*pml4, mem@, v)
                        == leaf_entry(p0, m0, v),
                forall|v: u64|
                    in_heap(v, mapped_pages as int) ==> #[trigger] leaf_entry(p0, m0, v) is None,
                forall|v: u64|
                    in_heap(v, mapped_pages as int) ==> (#[trigger] leaf_entry(*pml4, mem@, v) matches Some(e)
                        && e == spec_entry(spec_entry_address(e), true, false)
                        && !mem@.contains_key(spec_entry_address(e)) && spec_entry_address(e)
                        / FRAME_SIZE < MAX_FRAMES && allocator.used()[(spec_entry_address(e)
                        / FRAME_SIZE) as int]),
                fr0 >= heap_frames_needed(p0, m0, pages as int) ==> allocator.spec_free_frames()
                    >= (pages - mapped_pages) + heap_tables_from(p0, m0, mapped_pages as int, pages as int),
                tables_wf(p0, m0, l0),
                extends(p0, m0, *pml4, mem@),
                heap_frames_distinct(*pml4, mem@, mapped_pages as int),
                mapped_pages == 0 ==> *pml4 == p0 && mem@ == m0,
                u0 == old(allocator).used(),
                a0 == old(allocator).allocated(),
                forall|f: int| 0 <= f < MAX_FRAMES ==> #[trigger] a0[f] ==> u0[f],
                m0.dom().subset_of(mem@.dom()),
                heap_frames_accounted(
                    u0,
                    a0,
                    allocator.used(),
                    allocator.allocated(),
                    m0,
                    *pml4,
                    mem@,
                    mapped_pages as int,
                ),
            decreases pages - mapped_pages,
        {
            proof {
                lemma_heap_page(mapped_pages);
                allocator.lemma_wf();
            }
            let ghost p1 = *pml4;
            let ghost m1 = mem@;
            let ghost uc = allocator.used();
            let ghost ac = allocator.allocated();
            let physical_address = match allocator.allocate_frame() {
                Some(frame) => frame,
                None => {
                    self.rollback(pml4, mem, allocator, mapped_pages);
                    proof {
                        lemma_rollback_frames(
                            u0,
                            a0,
                            uc,
                            ac,
                            allocator.used(),
                            allocator.allocated(),
                            m0,
                            p1,
                            m1,
                            mem@,
                            mapped_pages as int,
                        );
                    }
                    return Err(HeapError::OutOfMemory);
                },
            };
            let ghost u2 = allocator.used();
            let ghost a2 = allocator.allocated();
            proof {
                lemma_frame_address(physical_address);
                lemma_entry_fields(physical_address, true, false);
                if m1.contains_key(physical_address) {
                    assert(old(allocator).used().len() > 0);
                }
                assert(!m1.contains_key(physical_address));
                assert(leaf_entry(*pml4, m1, virtual_address) == leaf_entry(p0, m0, virtual_address));
                assert forall|v: u64|
                    in_heap(v, mapped_pages as int) && #[trigger] leaf_entry(*pml4, m1, v) is Some
                        implies allocator.used()[(spec_entry_address(leaf_entry(*pml4, m1, v)->0)
                        / FRAME_SIZE) as int] by {
                    let f = spec_entry_address(leaf_entry(*pml4, m1, v)->0) / FRAME_SIZE;
                    assert(f != physical_address / FRAME_SIZE);
                }
            }
            proof {
                if mapped_pages > 0 {
                    lemma_heap_page((mapped_pages - 1) as u64);
                    assert(in_heap(heap_page(mapped_pages - 1), mapped_pages as int));
                    lemma_next_heap_page_tables(*pml4, mem@, mapped_pages);
                }
                lemma_extends_walk(p0, m0, l0, *pml4, mem@, virtual_address);
                assert(missing_tables(*pml4, mem@, virtual_address) <= heap_page_tables(
                    p0,
                    m0,
                    mapped_pages as int,
                ));
                assert(heap_tables_from(p0, m0, mapped_pages as int, pages as int) == heap_page_tables(
                    p0,
                    m0,
                    mapped_pages as int,
                ) + heap_tables_from(p0, m0, mapped_pages + 1, pages as int));
            }
            match super::page_table::map(
                pml4,
                mem,
                allocator,
                virtual_address,
                physical_address,
                true,
                false,
            ) {
                Ok(()) => {
                    proof {
                        assert forall|v: u64|
                            in_heap(v, mapped_pages + 1) implies #[trigger] leaf_entry(p0, m0, v) is None by {
                            if same_page(virtual_address, v) {
                                lemma_same_page_leaf(p0, m0, virtual_address, v);
                            }
                        }
                        assert forall|v: u64|
                            in_heap(v, mapped_pages + 1) implies (#[trigger] leaf_entry(*pml4, mem@, v) matches Some(e)
                                && e == spec_entry(spec_entry_address(e), true, false)
                                && !mem@.contains_key(spec_entry_address(e)) && spec_entry_address(e)
                                / FRAME_SIZE < MAX_FRAMES && allocator.used()[(spec_entry_address(e)
                                / FRAME_SIZE) as int]) by {
                            if !same_page(virtual_address, v) {
                                let e = leaf_entry(p1, m1, v)->0;
                                let a = spec_entry_address(e);
                                assert(u2[(a / FRAME_SIZE) as int]);
                                if mem@.contains_key(a) {
                                    assert(!u2[(a / FRAME_SIZE) as int]);
                                }
                            } else {
                                if mem@.contains_key(physical_address) {
                                    assert(!u2[(physical_address / FRAME_SIZE) as int]);
                                }
                            }
                        }
                    }
                    proof {
                        let fz = (physical_address / FRAME_SIZE) as int;
                        let mp = mapped_pages as int;
                        assert forall|k: int| 0 <= k < mp implies #[trigger] leaf_entry(
                            *pml4,
                            mem@,
                            heap_page(k),
                        ) == leaf_entry(p1, m1, heap_page(k)) by {
                            lemma_heap_pages_distinct(k as u64, mapped_pages);
                        }
                        assert(leaf_frame_is(leaf_entry(*pml4, mem@, heap_page(mp)), fz));
                        lemma_extends_trans(p0, m0, p1, m1, *pml4, mem@);
                        assert forall|j: int, k: int|
                            #![trigger leaf_entry(*pml4, mem@, heap_page(j)), leaf_entry(*pml4, mem@, heap_page(k))]
                            0 <= j < k < mp + 1 implies spec_entry_address(
                                leaf_entry(*pml4, mem@, heap_page(j))->0,
                            ) != spec_entry_address(leaf_entry(*pml4, mem@, heap_page(k))->0) by {
                            lemma_heap_page(j as u64);
                            assert(in_heap(heap_page(j), mp));
                            let a = spec_entry_address(leaf_entry(p1, m1, heap_page(j))->0);
                            assert(uc[(a / FRAME_SIZE) as int]);
                            if k < mp {
                                assert(heap_frames_distinct(p1, m1, mp));
                                assert(a != spec_entry_address(leaf_entry(p1, m1, heap_page(k))->0));
                            } else {
                                assert(a / FRAME_SIZE != fz);
                            }
                        }
                        lemma_accounted_after_map(
                            u0,
                            a0,
                            uc,
                            ac,
                            u2,
                            a2,
                            allocator.used(),
                            allocator.allocated(),
                            m0,
                            p1,
                            m1,
                            *pml4,
                            mem@,
                            mp,
                            physical_address,
                        );
                    }
                    mapped_pages = mapped_pages + 1;
                    virtual_address = virtual_address + PAGE_SIZE;
                },
                Err(error) => {
                    let ghost m3 = mem@;
                    let ghost u3e = allocator.used();
                    let ghost a3e = allocator.allocated();
                    proof {
                        allocator.lemma_wf();
                        if m3.contains_key(physical_address) {
                            assert(!u2[(physical_address / FRAME_SIZE) as int]);
                        }
                        assert forall|v: u64|
                            in_heap(v, mapped_pages as int) && #[trigger] leaf_entry(*pml4, m3, v) is Some
                                implies !m3.contains_key(spec_entry_address(leaf_entry(*pml4, m3, v)->0)) by {
                            let a = spec_entry_address(leaf_entry(*pml4, m3, v)->0);
                            if m3.contains_key(a) {
                                assert(!u2[(a / FRAME_SIZE) as int]);
                            }
                        }
                    }
                    allocator.free_frame(physical_address);
                    proof {
                        assert forall|a: u64| #[trigger] mem@.contains_key(a) implies a % FRAME_SIZE == 0
                            && a / FRAME_SIZE < MAX_FRAMES && allocator.used()[(a / FRAME_SIZE) as int] by {
                            assert(a != physical_address);
                            assert(a / FRAME_SIZE != physical_address / FRAME_SIZE);
                        }
                    }
                    let ghost p4 = *pml4;
                    let ghost u4 = allocator.used();
                    let ghost a4 = allocator.allocated();
                    proof {
                        lemma_accounted_after_failed_map(
                            u0,
                            a0,
                            uc,
                            ac,
                            u2,
                            a2,
                            u3e,
                            a3e,
                            u4,
                            a4,
                            m0,
                            p1,
                            m1,
                            p4,
                            m3,
                            mapped_pages as int,
                            physical_address,
                        );
                    }
                    self.rollback(pml4, mem, allocator, mapped_pages);
                    proof {
                        lemma_rollback_frames(
                            u0,
                            a0,
                            u4,
                            a4,
                            allocator.used(),
                            allocator.allocated(),
                            m0,
                            p4,
                            m3,
                            mem@,
                            mapped_pages as int,
                        );
                        if error == MapError::AlreadyMapped {
                            assert(leaf_entry(p0, m0, heap_page(mapped_pages as int)) is Some);
                        }
                    }
                    return Err(HeapError::Mapping(error));
                },
            }
        }
        proof {
            assert forall|k: int| 0 <= k < pages implies !mem@.contains_key(
                spec_entry_address(#[trigger] leaf_entry(*pml4, mem@, heap_page(k))->0),
            ) by {
                lemma_heap_page(k as u64);
                assert(in_heap(heap_page(k), pages as int));
            }
        }
        self.initialized = true;
        self.mapped_pages = mapped_pages;
        Ok(())
    }
}

} // verus!

use vstd::prelude::*;

use super::frame_allocator::{FrameAllocator, FRAME_SIZE, MAX_FRAMES};
use super::page_table::{
    extends, is_zeroed, leaf_entry, lemma_extends_trans, lemma_extends_walk, lemma_same_page_leaf,
    lemma_table_index_bound, missing_tables, pd_of, pdpt_of, pt_of, same_page, spec_entry, tables_tracked, tables_wf, frames_taken_by_tables,
    lemma_frames_taken_trans, MapError, PageTable,
    PageTableMemory, PAGE_SIZE,
};

verus! {

/// Why an address space operation was refused.
#[derive(Clone, Copy, Debug, PartialEq, Eq, Structural)]
pub enum AddressSpaceError {
    StartNotAligned,
    EndNotAligned,
    EmptyRange,
    Mapping(MapError),
}

pub open spec fn address_space_error_message(e: AddressSpaceError) -> Seq<char> {
    match e {
        AddressSpaceError::StartNotAligned => "identity-map start is not page aligned"@,
        AddressSpaceError::EndNotAligned => "identity-map end is not page aligned"@,
        AddressSpaceError::EmptyRange => "identity-map range is empty"@,
        AddressSpaceError::Mapping(m) => super::page_table::map_error_message(m),
    }
}

impl AddressSpaceError {
    /// The diagnostic for this refusal.
    pub fn message(&self) -> (r: &'static str)
        ensures
            r@ == address_space_error_message(*self),
    {
        match self {
            AddressSpaceError::StartNotAligned => "identity-map start is not page aligned",
            AddressSpaceError::EndNotAligned => "identity-map end is not page aligned",
            AddressSpaceError::EmptyRange => "identity-map range is empty",
            AddressSpaceError::Mapping(e) => e.message(),
        }
    }
}

/// Page `k` of the range starting at `start`.
pub open spec fn range_page(start: u64, k: int) -> u64 {
    (start + k * PAGE_SIZE) as u64
}

/// Pages of one range that lie at most 2^48 bytes apart never share
/// their table entries.
proof fn lemma_range_pages_distinct(start: u64, j: int, k: int)
    requires
        start % PAGE_SIZE == 0,
        0 <= j < k,
        start + k * PAGE_SIZE <= u64::MAX,
        (k - j) * PAGE_SIZE < 0x1_0000_0000_0000,
    ensures
        !same_page(range_page(start, j), range_page(start, k)),
{
    let a = range_page(start, j);
    let b = range_page(start, k);
    if same_page(a, b) {
        lemma_table_index_bound(a);
        lemma_table_index_bound(b);
        assert((a >> 39u64) & 0x1FFu64 == (b >> 39u64) & 0x1FFu64);
        assert((a >> 30u64) & 0x1FFu64 == (b >> 30u64) & 0x1FFu64);
        assert((a >> 21u64) & 0x1FFu64 == (b >> 21u64) & 0x1FFu64);
        assert((a >> 12u64) & 0x1FFu64 == (b >> 12u64) & 0x1FFu64);
        assert((a >> 12u64) % 0x10_0000_0000u64 == (b >> 12u64) % 0x10_0000_0000u64
            && a >> 12u64 == a / 4096u64 && b >> 12u64 == b / 4096u64) by (bit_vector)
            requires
                (a >> 39u64) & 0x1FFu64 == (b >> 39u64) & 0x1FFu64,
                (a >> 30u64) & 0x1FFu64 == (b >> 30u64) & 0x1FFu64,
                (a >> 21u64) & 0x1FFu64 == (b >> 21u64) & 0x1FFu64,
                (a >> 12u64) & 0x1FFu64 == (b >> 12u64) & 0x1FFu64,
        ;
        let s = start / 4096;
        assert(a / 4096 == s + j);
        assert(b / 4096 == s + k);
        let m: int = 0x10_0000_0000;
        assert((s + j) % m == (s + k) % m);
        assert(0 < k - j < m);
        assert(false) by (nonlinear_arith)
            requires
                (s + j) % m == (s + k) % m,
                0 < k - j < m,
                m == 0x10_0000_0000,
                0 <= s + j,
        ;
    }
}

/// Levels whose table starts at `a`: one for each 2 MiB, 1 GiB and
/// 512 GiB boundary at `a`.
pub open spec fn boundaries_at(a: u64) -> nat {
    (if a % 0x20_0000 == 0 {
        1nat
    } else {
        0nat
    }) + (if a % 0x4000_0000 == 0 {
        1nat
    } else {
        0nat
    }) + (if a % 0x80_0000_0000 == 0 {
        1nat
    } else {
        0nat
    })
}

/// Tables `identity_map` creates for page `k` of the range from `start`,
/// the pages before it mapped: those missing on the first page's walk;
/// after that those missing among the levels that start at the page.
pub open spec fn range_page_tables(pml4: PageTable, mem: Map<u64, PageTable>, start: u64, k: int) -> nat {
    if k == 0 {
        missing_tables(pml4, mem, start)
    } else {
        let a = range_page(start, k);
        if missing_tables(pml4, mem, a) < boundaries_at(a) {
            missing_tables(pml4, mem, a)
        } else {
            boundaries_at(a)
        }
    }
}

/// Tables `identity_map` creates for pages `k..n` of the range from
/// `start`.
pub open spec fn range_tables_from(
    pml4: PageTable,
    mem: Map<u64, PageTable>,
    start: u64,
    k: int,
    n: int,
) -> nat
    decreases n - k,
{
    if k >= n {
        0
    } else {
        range_page_tables(pml4, mem, start, k) + range_tables_from(pml4, mem, start, k + 1, n)
    }
}

/// Once the page before `a` is mapped, mapping `a` needs tables only for
/// the levels that start at `a`.
proof fn lemma_next_page_tables(pml4: PageTable, mem: Map<u64, PageTable>, a: u64)
    requires
        a % PAGE_SIZE == 0,
        PAGE_SIZE <= a,
        leaf_entry(pml4, mem, (a - PAGE_SIZE) as u64) is Some,
    ensures
        missing_tables(pml4, mem, a) <= boundaries_at(a),
{
    let b = (a - PAGE_SIZE) as u64;
    assert((a % 0x20_0000u64 != 0 ==> (a >> 21u64) & 0x1FFu64 == (b >> 21u64) & 0x1FFu64)
        && (a % 0x4000_0000u64 != 0 ==> (a >> 30u64) & 0x1FFu64 == (b >> 30u64) & 0x1FFu64)
        && (a % 0x80_0000_0000u64 != 0 ==> (a >> 39u64) & 0x1FFu64 == (b >> 39u64) & 0x1FFu64)
        && (a % 0x80_0000_0000u64 == 0 ==> a % 0x4000_0000u64 == 0)
        && (a % 0x4000_0000u64 == 0 ==> a % 0x20_0000u64 == 0)) by (bit_vector)
        requires
            a % 4096u64 == 0,
            a >= 4096u64,
            b == a - 4096u64,
    ;
    if a % 0x80_0000_0000 != 0 {
        assert(pdpt_of(pml4, a) == pdpt_of(pml4, b));
        if a % 0x4000_0000 != 0 {
            assert(pd_of(pml4, mem, a) == pd_of(pml4, mem, b));
            if a % 0x20_0000 != 0 {
                assert(pt_of(pml4, mem, a) == pt_of(pml4, mem, b));
            }
        }
    }
}

/// `identity_map` owes success: an aligned, non-empty range of at most
/// 2^48 bytes whose pages are all unmapped, with a free frame for each
/// table missing along the range. Identity mapping takes no frame for the
/// pages themselves.
pub open spec fn identity_map_owed(
    pml4: PageTable,
    mem: Map<u64, PageTable>,
    free_frames: int,
    start: u64,
    end: u64,
) -> bool {
    &&& start % PAGE_SIZE == 0
    &&& end % PAGE_SIZE == 0
    &&& start < end
    &&& end - start <= 0x1_0000_0000_0000
    &&& free_frames >= range_tables_from(pml4, mem, start, 0, (end - start) / (PAGE_SIZE as int))
    &&& forall|k: int|
        0 <= k && start + k * PAGE_SIZE < end ==> #[trigger] leaf_entry(
            pml4,
            mem,
            range_page(start, k),
        ) is None
}

/// A virtual address space: its PML4, held in the frame `pml4_phys`, and
/// the tables below it.
pub struct AddressSpace {
    pub pml4_phys: u64,
    pub pml4: PageTable,
    pub tables: PageTableMemory,
}

impl AddressSpace {
    /// The PML4 and its tables are consistent.
    pub open spec fn wf(&self) -> bool {
        tables_wf(self.pml4, self.tables@, self.tables.levels())
    }

    /// Create a fresh address space with an empty PML4 in a newly
    /// allocated frame.
    pub fn new(allocator: &mut FrameAllocator) -> (r: Result<Self, AddressSpaceError>)
        requires
            old(allocator).wf(),
        ensures
            final(allocator).wf(),
            r is Err <==> old(allocator).spec_free_frames() == 0,
            r is Err ==> r == Err::<Self, AddressSpaceError>(
                AddressSpaceError::Mapping(MapError::OutOfMemory),
            ) && final(allocator).used() == old(allocator).used() && final(allocator).allocated()
                == old(allocator).allocated(),
            r matches Ok(s) ==> {
                let f = (s.pml4_phys / FRAME_SIZE) as int;
                &&& s.wf()
                &&& is_zeroed(s.pml4)
                &&& s.tables@ == Map::<u64, PageTable>::empty()
                &&& tables_tracked(s.tables@, final(allocator).used())
                &&& s.pml4_phys % FRAME_SIZE == 0 && s.pml4_phys / FRAME_SIZE < MAX_FRAMES
                &&& !old(allocator).used()[f]
                &&& final(allocator).used() == old(allocator).used().update(f, true)
                &&& final(allocator).allocated() == old(allocator).allocated().update(f, true)
            },
    {
        let pml4_phys = match allocator.allocate_frame() {
            Some(frame) => frame,
            None => {
                return Err(AddressSpaceError::Mapping(MapError::OutOfMemory));
            },
        };
        let mut pml4 = PageTable::new();
        pml4.zero();
        let tables = PageTableMemory::new();
        proof {
            super::page_table::lemma_zero_not_present();
        }
        Ok(AddressSpace { pml4_phys, pml4, tables })
    }

    /// Return the physical address of the PML4.
    pub fn pml4_phys(&self) -> (r: u64)
        ensures
            r == self.pml4_phys,
    {
        self.pml4_phys
    }

    /// Identity-map the physical range `[start, end)`: each page maps to
    /// the frame of the same address, supervisor-only. Pages mapped before
    /// a failure stay mapped.
    pub fn identity_map(
        &mut self,
        allocator: &mut FrameAllocator,
        start: u64,
        end: u64,
        writable: bool,
    ) -> (r: Result<(), AddressSpaceError>)
        requires
            old(self).wf(),
            tables_tracked(old(self).tables@, old(allocator).used()),
            old(allocator).wf(),
        ensures
            final(self).wf(),
            tables_tracked(final(self).tables@, final(allocator).used()),
            final(allocator).wf(),
            final(self).pml4_phys == old(self).pml4_phys,
            frames_taken_by_tables(
                old(allocator).used(),
                old(allocator).allocated(),
                final(allocator).used(),
                final(allocator).allocated(),
                old(self).tables@,
                final(self).tables@,
            ),
            start % PAGE_SIZE != 0 ==> r == Err::<(), AddressSpaceError>(
                AddressSpaceError::StartNotAligned,
            ),
            start % PAGE_SIZE == 0 && end % PAGE_SIZE != 0 ==> r == Err::<(), AddressSpaceError>(
                AddressSpaceError::EndNotAligned,
            ),
            start % PAGE_SIZE == 0 && end % PAGE_SIZE == 0 && start >= end ==> r == Err::<
                (),
                AddressSpaceError,
            >(AddressSpaceError::EmptyRange),
            !(start % PAGE_SIZE == 0 && end % PAGE_SIZE == 0 && start < end) ==> {
                &&& final(self).pml4 == old(self).pml4
                &&& final(self).tables@ == old(self).tables@
                &&& final(self).tables.levels() == old(self).tables.levels()
                &&& final(allocator).used() == old(allocator).used()
                &&& final(allocator).allocated() == old(allocator).allocated()
                &&& final(allocator).spec_free_frames() == old(allocator).spec_free_frames()
            },
            start % PAGE_SIZE == 0 && end % PAGE_SIZE == 0 && start < end ==> r is Ok || r == Err::<
                (),
                AddressSpaceError,
            >(AddressSpaceError::Mapping(MapError::AlreadyMapped)) || r == Err::<
                (),
                AddressSpaceError,
            >(AddressSpaceError::Mapping(MapError::OutOfMemory)),
            r is Ok ==> forall|k: int|
                0 <= k && start + k * PAGE_SIZE < end ==> #[trigger] leaf_entry(
                    final(self).pml4,
                    final(self).tables@,
                    range_page(start, k),
                ) == Some(spec_entry(range_page(start, k), writable, false)),
            forall|v: u64|
                #[trigger] leaf_entry(old(self).pml4, old(self).tables@, v) is Some ==> leaf_entry(
                    final(self).pml4,
                    final(self).tables@,
                    v,
                ) == leaf_entry(old(self).pml4, old(self).tables@, v),
            forall|v: u64|
                #[trigger] leaf_entry(final(self).pml4, final(self).tables@, v) != leaf_entry(
                    old(self).pml4,
                    old(self).tables@,
                    v,
                ) ==> exists|k: int|
                    0 <= k && start + k * PAGE_SIZE < end && #[trigger] same_page(
                        range_page(start, k),
                        v,
                    ),
            identity_map_owed(
                old(self).pml4,
                old(self).tables@,
                old(allocator).spec_free_frames() as int,
                start,
                end,
            ) ==> r is Ok,
    {
        proof {
            old(allocator).lemma_wf();
            assert(frames_taken_by_tables(
                allocator.used(),
                allocator.allocated(),
                allocator.used(),
                allocator.allocated(),
                self.tables@,
                self.tables@,
            ));
        }
        if start % PAGE_SIZE != 0 {
            return Err(AddressSpaceError::StartNotAligned);
        }
        if end % PAGE_SIZE != 0 {
            return Err(AddressSpaceError::EndNotAligned);
        }
        if start >= end {
            return Err(AddressSpaceError::EmptyRange);
        }
        let ghost p0 = self.pml4;
        let ghost m0 = self.tables@;
        let ghost n: int = (end - start) / PAGE_SIZE as int;
        let ghost suff: bool = identity_map_owed(p0, m0, old(allocator).spec_free_frames() as int, start, end);
        let ghost mut i: int = 0;
        let mut address = start;
        while address < end
            invariant
                start % PAGE_SIZE == 0,
                end % PAGE_SIZE == 0,
                start < end,
                n == (end - start) / PAGE_SIZE as int,
                0 <= i <= n,
                address == start + i * PAGE_SIZE,
                address == range_page(start, i),
                self.wf(),
                tables_tracked(self.tables@, allocator.used()),
                allocator.wf(),
                self.pml4_phys == old(self).pml4_phys,
                p0 == old(self).pml4,
                m0 == old(self).tables@,
                suff == identity_map_owed(p0, m0, old(allocator).spec_free_frames() as int, start, end),
                m0.dom().subset_of(self.tables@.dom()),
                frames_taken_by_tables(
                    old(allocator).used(),
                    old(allocator).allocated(),
                    allocator.used(),
                    allocator.allocated(),
                    m0,
                    self.tables@,
                ),
                forall|k: int|
                    0 <= k < i ==> #[trigger] leaf_entry(self.pml4, self.tables@, range_page(start, k))
                        == Some(spec_entry(range_page(start, k), writable, false)),
                forall|v: u64|
                    #[trigger] leaf_entry(p0, m0, v) is Some ==> leaf_entry(self.pml4, self.tables@, v)
                        == leaf_entry(p0, m0, v),
                forall|v: u64|
                    #[trigger] leaf_entry(self.pml4, self.tables@, v) != leaf_entry(p0, m0, v)
                        ==> exists|k: int| 0 <= k < i && #[trigger] same_page(range_page(start, k), v),
                suff ==> end - start <= 0x1_0000_0000_0000,
                suff ==> allocator.spec_free_frames() >= range_tables_from(p0, m0, start, i, n),
                tables_wf(p0, m0, old(self).tables.levels()),
                extends(p0, m0, self.pml4, self.tables@),
                i == 0 ==> self.pml4 == p0 && self.tables@ == m0,
                suff ==> forall|k: int|
                    i <= k < n ==> #[trigger] leaf_entry(self.pml4, self.tables@, range_page(start, k))
                        is None,
            decreases end - address,
        {
            let ghost p1 = self.pml4;
            let ghost m1 = self.tables@;
            let ghost u1 = allocator.used();
            let ghost a1 = allocator.allocated();
            proof {
                if suff {
                    assert(i < n);
                    assert(leaf_entry(p1, m1, range_page(start, i)) is None);
                    assert(super::page_table::translation(p1, m1, address) is None);
                    lemma_extends_walk(p0, m0, old(self).tables.levels(), p1, m1, address);
                    if i > 0 {
                        assert(leaf_entry(p1, m1, range_page(start, i - 1)) is Some);
                        assert(range_page(start, i - 1) == (address - PAGE_SIZE) as u64);
                        lemma_next_page_tables(p1, m1, address);
                    }
                    assert(missing_tables(p1, m1, address) <= range_page_tables(p0, m0, start, i));
                    assert(range_tables_from(p0, m0, start, i, n) == range_page_tables(p0, m0, start, i)
                        + range_tables_from(p0, m0, start, i + 1, n));
                }
            }
            match super::page_table::map(
                &mut self.pml4,
                &mut self.tables,
                allocator,
                address,
                address,
                writable,
                false,
            ) {
                Ok(()) => {},
                Err(e) => {
                    proof {
                        lemma_frames_taken_trans(
                            old(allocator).used(),
                            old(allocator).allocated(),
                            u1,
                            a1,
                            allocator.used(),
                            allocator.allocated(),
                            m0,
                            m1,
                            self.tables@,
                        );
                    }
                    return Err(AddressSpaceError::Mapping(e));
                },
            }
            proof {
                lemma_extends_trans(p0, m0, p1, m1, self.pml4, self.tables@);
                lemma_frames_taken_trans(
                    old(allocator).used(),
                    old(allocator).allocated(),
                    u1,
                    a1,
                    allocator.used(),
                    allocator.allocated(),
                    m0,
                    m1,
                    self.tables@,
                );
                assert forall|k: int| 0 <= k < i + 1 implies #[trigger] leaf_entry(
                    self.pml4,
                    self.tables@,
                    range_page(start, k),
                ) == Some(spec_entry(range_page(start, k), writable, false)) by {
                    if k < i && same_page(address, range_page(start, k)) {
                        lemma_same_page_leaf(p1, m1, address, range_page(start, k));
                    }
                }
                assert forall|v: u64| #[trigger] leaf_entry(p0, m0, v) is Some implies leaf_entry(
                    self.pml4,
                    self.tables@,
                    v,
                ) == leaf_entry(p0, m0, v) by {
                    if same_page(address, v) {
                        lemma_same_page_leaf(p1, m1, address, v);
                    }
                }
                assert forall|v: u64| #[trigger] leaf_entry(self.pml4, self.tables@, v) != leaf_entry(
                    p0,
                    m0,
                    v,
                ) implies exists|k: int| 0 <= k < i + 1 && #[trigger] same_page(range_page(start, k), v) by {
                    if same_page(address, v) {
                        assert(same_page(range_page(start, i), v));
                    }
                }
                if suff {
                    assert forall|k: int| i + 1 <= k < n implies #[trigger] leaf_entry(
                        self.pml4,
                        self.tables@,
                        range_page(start, k),
                    ) is None by {
                        lemma_range_pages_distinct(start, i, k);
                    }
                }
                i = i + 1;
            }
            address = address + PAGE_SIZE;
        }
        Ok(())
    }
}

} // verus!

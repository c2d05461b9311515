use vstd::prelude::*;

use std::collections::HashMap;

use super::frame_allocator::{FrameAllocator, FRAME_SIZE, MAX_FRAMES};

verus! {

broadcast use vstd::std_specs::hash::group_hash_axioms;

pub const PAGE_SIZE: u64 = 4096;

pub const PRESENT: u64 = 1;

pub const WRITABLE: u64 = 2;

/// User-accessible: set on every level of a user mapping.
pub const USER: u64 = 4;

/// Bits 12..51 of an entry: the physical frame address.
pub const ADDRESS_MASK: u64 = 0x000F_FFFF_FFFF_F000;

/// Entries per table.
pub const ENTRY_COUNT: usize = 512;

/// One 4 KiB page table: 512 64-bit entries.
#[derive(Clone, Copy)]
pub struct PageTable {
    pub entries: [u64; ENTRY_COUNT],
}

impl PageTable {
    pub fn new() -> (t: Self)
        ensures
            forall|i: int| 0 <= i < ENTRY_COUNT ==> #[trigger] t.entries@[i] == 0,
    {
        PageTable { entries: [0u64; ENTRY_COUNT] }
    }

    pub fn zero(&mut self)
        ensures
            forall|i: int| 0 <= i < ENTRY_COUNT ==> #[trigger] final(self).entries@[i] == 0,
    {
        let mut i: usize = 0;
        while i < ENTRY_COUNT
            invariant
                i <= ENTRY_COUNT,
                forall|j: int| 0 <= j < i ==> #[trigger] self.entries@[j] == 0,
            decreases ENTRY_COUNT - i,
        {
            self.entries[i] = 0;
            i = i + 1;
        }
    }
}

/// The table index of `va` at `level` (0 = PML4, 1 = PDPT, 2 = PD, 3 = PT).
pub open spec fn table_index(va: u64, level: int) -> usize {
    if level == 0 {
        ((va >> 39u64) & 0x1FFu64) as usize
    } else if level == 1 {
        ((va >> 30u64) & 0x1FFu64) as usize
    } else if level == 2 {
        ((va >> 21u64) & 0x1FFu64) as usize
    } else {
        ((va >> 12u64) & 0x1FFu64) as usize
    }
}

/// Convert a virtual address into its PML4, PDPT, PD and PT indexes.
pub fn indexes(virtual_address: u64) -> (r: [usize; 4])
    ensures
        r@ == seq![
            table_index(virtual_address, 0),
            table_index(virtual_address, 1),
            table_index(virtual_address, 2),
            table_index(virtual_address, 3),
        ],
        forall|l: int| 0 <= l < 4 ==> #[trigger] r@[l] < ENTRY_COUNT,
{
    let va = virtual_address;
    proof {
        lemma_table_index_bound(va);
    }
    let r = [
        ((va >> 39u64) & 0x1FF) as usize,
        ((va >> 30u64) & 0x1FF) as usize,
        ((va >> 21u64) & 0x1FF) as usize,
        ((va >> 12u64) & 0x1FF) as usize,
    ];
    assert(r@ =~= seq![
        table_index(virtual_address, 0),
        table_index(virtual_address, 1),
        table_index(virtual_address, 2),
        table_index(virtual_address, 3),
    ]);
    r
}

pub open spec fn spec_entry_address(entry: u64) -> u64 {
    entry & ADDRESS_MASK
}

pub open spec fn is_present(entry: u64) -> bool {
    entry & PRESENT != 0
}

/// The frame address an entry points to.
pub fn entry_address(entry: u64) -> (r: u64)
    ensures
        r == spec_entry_address(entry),
{
    entry & ADDRESS_MASK
}

/// A present entry for frame `address` with the given access bits.
pub open spec fn spec_entry(address: u64, writable: bool, user: bool) -> u64 {
    (address & ADDRESS_MASK) | PRESENT | (if writable {
        WRITABLE
    } else {
        0
    }) | (if user {
        USER
    } else {
        0
    })
}

pub proof fn lemma_entry_fields(address: u64, writable: bool, user: bool)
    ensures
        is_present(spec_entry(address, writable, user)),
        spec_entry_address(spec_entry(address, writable, user)) == address & ADDRESS_MASK,
        spec_entry(address, writable, user) & WRITABLE != 0 <==> writable,
        spec_entry(address, writable, user) & USER != 0 <==> user,
{
    let w: u64 = if writable {
        2
    } else {
        0
    };
    let u: u64 = if user {
        4
    } else {
        0
    };
    assert((((address & 0x000F_FFFF_FFFF_F000u64) | 1u64 | w | u) & 1u64 != 0) && (((address
        & 0x000F_FFFF_FFFF_F000u64) | 1u64 | w | u) & 0x000F_FFFF_FFFF_F000u64) == address
        & 0x000F_FFFF_FFFF_F000u64 && ((((address & 0x000F_FFFF_FFFF_F000u64) | 1u64 | w | u) & 2u64
        != 0) == (w == 2u64)) && ((((address & 0x000F_FFFF_FFFF_F000u64) | 1u64 | w | u) & 4u64
        != 0) == (u == 4u64))) by (bit_vector)
        requires
            w == 0u64 || w == 2u64,
            u == 0u64 || u == 4u64,
    ;
}

/// Rebuilding an entry from its own frame address gives the same entry.
proof fn lemma_entry_rebuild(address: u64, writable: bool, user: bool)
    ensures
        spec_entry(spec_entry_address(spec_entry(address, writable, user)), writable, user)
            == spec_entry(address, writable, user),
{
    lemma_entry_fields(address, writable, user);
    assert((address & 0x000F_FFFF_FFFF_F000u64) & 0x000F_FFFF_FFFF_F000u64 == address
        & 0x000F_FFFF_FFFF_F000u64) by (bit_vector);
}

/// A present, supervisor-only entry for frame `address`.
pub fn make_entry(address: u64, writable: bool) -> (r: u64)
    ensures
        r == spec_entry(address, writable, false),
        is_present(r),
        spec_entry_address(r) == address & ADDRESS_MASK,
{
    make_entry_with_access(address, writable, false)
}

/// A present entry for frame `address`, user-accessible when `user`.
fn make_entry_with_access(address: u64, writable: bool, user: bool) -> (r: u64)
    ensures
        r == spec_entry(address, writable, user),
        is_present(r),
        spec_entry_address(r) == address & ADDRESS_MASK,
{
    proof {
        lemma_entry_fields(address, writable, user);
    }
    let mut entry = address & ADDRESS_MASK;
    entry = entry | PRESENT;
    if writable {
        entry = entry | WRITABLE;
    }
    if user {
        entry = entry | USER;
    }
    proof {
        let w: u64 = if writable {
            2
        } else {
            0
        };
        let u: u64 = if user {
            4
        } else {
            0
        };
        assert(entry == (address & ADDRESS_MASK) | PRESENT | w | u) by (bit_vector)
            requires
                writable ==> w == 2u64,
                !writable ==> w == 0u64,
                user ==> u == 4u64,
                !user ==> u == 0u64,
                (writable && user) ==> entry == ((((address & 0x000F_FFFF_FFFF_F000u64) | 1u64)
                    | 2u64) | 4u64),
                (writable && !user) ==> entry == (((address & 0x000F_FFFF_FFFF_F000u64) | 1u64)
                    | 2u64),
                (!writable && user) ==> entry == (((address & 0x000F_FFFF_FFFF_F000u64) | 1u64)
                    | 4u64),
                (!writable && !user) ==> entry == ((address & 0x000F_FFFF_FFFF_F000u64) | 1u64),
        ;
    }
    entry
}

/// The page tables below a PML4, keyed by the physical address of the
/// frame that holds each one, each with the level it serves at (1 = PDPT,
/// 2 = PD, 3 = PT).
pub struct PageTableMemory {
    tables: HashMap<u64, PageTable>,
    levels: Ghost<Map<u64, nat>>,
}

impl View for PageTableMemory {
    type V = Map<u64, PageTable>;

    closed spec fn view(&self) -> Map<u64, PageTable> {
        self.tables@
    }
}

impl PageTableMemory {
    /// Level each held table serves at.
    pub closed spec fn levels(&self) -> Map<u64, nat> {
        self.levels@
    }

    pub fn new() -> (m: Self)
        ensures
            m@ == Map::<u64, PageTable>::empty(),
            m.levels() == Map::<u64, nat>::empty(),
            mem_wf(m@, m.levels()),
    {
        PageTableMemory { tables: HashMap::new(), levels: Ghost(Map::empty()) }
    }

    pub fn contains(&self, address: u64) -> (r: bool)
        ensures
            r == self@.contains_key(address),
    {
        self.tables.contains_key(&address)
    }

    /// A copy of the table held in frame `address`.
    pub fn table(&self, address: u64) -> (t: PageTable)
        requires
            self@.contains_key(address),
        ensures
            t == self@[address],
    {
        *self.tables.get(&address).unwrap()
    }

    /// Entry `index` of the table held in frame `address`.
    pub fn entry(&self, address: u64, index: usize) -> (e: u64)
        requires
            self@.contains_key(address),
            index < ENTRY_COUNT,
        ensures
            e == self@[address].entries@[index as int],
    {
        self.tables.get(&address).unwrap().entries[index]
    }

    /// Overwrite the table held in frame `address`, keeping its level.
    fn store(&mut self, address: u64, table: PageTable)
        requires
            old(self)@.contains_key(address),
        ensures
            final(self)@ == old(self)@.insert(address, table),
            final(self).levels() == old(self).levels(),
    {
        self.tables.insert(address, table);
    }

    /// Add a table held in a new frame `address`, serving at `level`.
    fn add(&mut self, address: u64, table: PageTable, level: Ghost<nat>)
        ensures
            final(self)@ == old(self)@.insert(address, table),
            final(self).levels() == old(self).levels().insert(address, level@),
    {
        self.tables.insert(address, table);
        self.levels = Ghost(self.levels@.insert(address, level@));
    }
}

/// Entry `i` of the table held in frame `a`.
pub open spec fn mem_entry(mem: Map<u64, PageTable>, a: u64, i: usize) -> u64 {
    mem[a].entries@[i as int]
}

/// A present entry leads to a held table serving at `level`.
pub open spec fn leads_to(mem: Map<u64, PageTable>, levels: Map<u64, nat>, e: u64, level: nat) -> bool {
    is_present(e) ==> mem.contains_key(spec_entry_address(e)) && levels[spec_entry_address(e)] == level
}

/// Held tables are consistent: every table serves at level 1, 2 or 3,
/// and the present entries of PDPTs and PDs lead to tables one level down.
pub open spec fn mem_wf(mem: Map<u64, PageTable>, levels: Map<u64, nat>) -> bool {
    &&& mem.dom() == levels.dom()
    &&& forall|a: u64| #[trigger] mem.contains_key(a) ==> 1 <= levels[a] <= 3
    &&& forall|a: u64, i: usize|
        mem.contains_key(a) && i < ENTRY_COUNT && levels[a] < 3 ==> leads_to(
            mem,
            levels,
            #[trigger] mem_entry(mem, a, i),
            levels[a] + 1,
        )
}

/// No table is reached from two present entries: below the PML4 the
/// tables form a tree.
pub open spec fn unshared(pml4: PageTable, mem: Map<u64, PageTable>, levels: Map<u64, nat>) -> bool {
    &&& forall|i: int, j: int|
        0 <= i < ENTRY_COUNT && 0 <= j < ENTRY_COUNT && is_present(#[trigger] pml4.entries@[i])
            && is_present(#[trigger] pml4.entries@[j]) && spec_entry_address(pml4.entries@[i])
            == spec_entry_address(pml4.entries@[j]) ==> i == j
    &&& forall|a: u64, i: usize, b: u64, j: usize|
        mem.contains_key(a) && mem.contains_key(b) && i < ENTRY_COUNT && j < ENTRY_COUNT && levels[a]
            < 3 && levels[b] < 3 && is_present(#[trigger] mem_entry(mem, a, i)) && is_present(
            #[trigger] mem_entry(mem, b, j),
        ) && spec_entry_address(mem_entry(mem, a, i)) == spec_entry_address(mem_entry(mem, b, j))
            ==> a == b && i == j
}

/// The PML4's present entries lead to PDPTs, the held tables are
/// consistent, and no table is shared.
pub open spec fn tables_wf(pml4: PageTable, mem: Map<u64, PageTable>, levels: Map<u64, nat>) -> bool {
    &&& mem_wf(mem, levels)
    &&& forall|i: int| 0 <= i < ENTRY_COUNT ==> leads_to(mem, levels, #[trigger] pml4.entries@[i], 1)
    &&& unshared(pml4, mem, levels)
}

/// Every table frame is a frame the allocator considers used.
pub open spec fn tables_tracked(mem: Map<u64, PageTable>, used: Seq<bool>) -> bool {
    forall|a: u64|
        #[trigger] mem.contains_key(a) ==> a % FRAME_SIZE == 0 && a / FRAME_SIZE < MAX_FRAMES
            && used[(a / FRAME_SIZE) as int]
}

/// The table below entry `e`, when `e` is present.
pub open spec fn next_table(e: u64) -> Option<u64> {
    if is_present(e) {
        Some(spec_entry_address(e))
    } else {
        None
    }
}

/// The PDPT on the walk of `va`.
pub open spec fn pdpt_of(pml4: PageTable, va: u64) -> Option<u64> {
    next_table(pml4.entries@[table_index(va, 0) as int])
}

/// The PD on the walk of `va`.
pub open spec fn pd_of(pml4: PageTable, mem: Map<u64, PageTable>, va: u64) -> Option<u64> {
    match pdpt_of(pml4, va) {
        Some(a) => next_table(mem_entry(mem, a, table_index(va, 1))),
        None => None,
    }
}

/// The PT on the walk of `va`.
pub open spec fn pt_of(pml4: PageTable, mem: Map<u64, PageTable>, va: u64) -> Option<u64> {
    match pd_of(pml4, mem, va) {
        Some(a) => next_table(mem_entry(mem, a, table_index(va, 2))),
        None => None,
    }
}

/// The present PT entry that maps the page of `va`, if the walk gets
/// that far.
pub open spec fn leaf_entry(pml4: PageTable, mem: Map<u64, PageTable>, va: u64) -> Option<u64> {
    match pt_of(pml4, mem, va) {
        Some(a) => {
            let e = mem_entry(mem, a, table_index(va, 3));
            if is_present(e) {
                Some(e)
            } else {
                None
            }
        },
        None => None,
    }
}

/// The physical frame the MMU finds for `va`, walking all four levels.
pub open spec fn translation(pml4: PageTable, mem: Map<u64, PageTable>, va: u64) -> Option<u64> {
    match leaf_entry(pml4, mem, va) {
        Some(e) => Some(spec_entry_address(e)),
        None => None,
    }
}

/// Number of tables `map` has to create for `va`: the levels below the
/// first entry on its walk that is not present.
pub open spec fn missing_tables(pml4: PageTable, mem: Map<u64, PageTable>, va: u64) -> nat {
    if pdpt_of(pml4, va) is None {
        3
    } else if pd_of(pml4, mem, va) is None {
        2
    } else if pt_of(pml4, mem, va) is None {
        1
    } else {
        0
    }
}

/// `va` and `vb` select the same entry at every level: the same page.
pub open spec fn same_page(va: u64, vb: u64) -> bool {
    &&& table_index(va, 0) == table_index(vb, 0)
    &&& table_index(va, 1) == table_index(vb, 1)
    &&& table_index(va, 2) == table_index(vb, 2)
    &&& table_index(va, 3) == table_index(vb, 3)
}

/// `new` only adds to `old`: present entries are kept, tables are kept,
/// and their present entries are kept.
pub open spec fn extends(
    old_pml4: PageTable,
    old_mem: Map<u64, PageTable>,
    new_pml4: PageTable,
    new_mem: Map<u64, PageTable>,
) -> bool {
    &&& forall|i: int|
        0 <= i < ENTRY_COUNT && is_present(#[trigger] old_pml4.entries@[i]) ==> new_pml4.entries@[i]
            == old_pml4.entries@[i]
    &&& forall|a: u64| #[trigger] old_mem.contains_key(a) ==> new_mem.contains_key(a)
    &&& forall|a: u64, i: usize|
        old_mem.contains_key(a) && i < ENTRY_COUNT && is_present(#[trigger] mem_entry(old_mem, a, i))
            ==> mem_entry(new_mem, a, i) == mem_entry(old_mem, a, i)
}

/// `new` only removes from `old`: the same tables, and every entry
/// present in `new` is the same in `old`.
pub open spec fn restricts(
    old_pml4: PageTable,
    old_mem: Map<u64, PageTable>,
    new_pml4: PageTable,
    new_mem: Map<u64, PageTable>,
) -> bool {
    &&& forall|i: int|
        0 <= i < ENTRY_COUNT && is_present(#[trigger] new_pml4.entries@[i]) ==> new_pml4.entries@[i]
            == old_pml4.entries@[i]
    &&& forall|a: u64| #[trigger] new_mem.contains_key(a) <==> old_mem.contains_key(a)
    &&& forall|a: u64, i: usize|
        new_mem.contains_key(a) && i < ENTRY_COUNT && is_present(#[trigger] mem_entry(new_mem, a, i))
            ==> mem_entry(new_mem, a, i) == mem_entry(old_mem, a, i)
}

pub proof fn lemma_table_index_bound(va: u64)
    ensures
        (va >> 39u64) & 0x1FFu64 < 512u64,
        (va >> 30u64) & 0x1FFu64 < 512u64,
        (va >> 21u64) & 0x1FFu64 < 512u64,
        (va >> 12u64) & 0x1FFu64 < 512u64,
        table_index(va, 0) < ENTRY_COUNT,
        table_index(va, 1) < ENTRY_COUNT,
        table_index(va, 2) < ENTRY_COUNT,
        table_index(va, 3) < ENTRY_COUNT,
{
    assert((va >> 39u64) & 0x1FFu64 < 512u64 && (va >> 30u64) & 0x1FFu64 < 512u64 && (va >> 21u64)
        & 0x1FFu64 < 512u64 && (va >> 12u64) & 0x1FFu64 < 512u64) by (bit_vector);
}

/// An all-zero entry is not present.
pub proof fn lemma_zero_not_present()
    ensures
        !is_present(0u64),
{
    assert(0u64 & 1u64 == 0u64) by (bit_vector);
}

/// The tables on a walk are held, at their levels.
proof fn lemma_walk_levels(pml4: PageTable, mem: Map<u64, PageTable>, levels: Map<u64, nat>, va: u64)
    requires
        tables_wf(pml4, mem, levels),
    ensures
        pdpt_of(pml4, va) matches Some(a) ==> mem.contains_key(a) && levels[a] == 1,
        pd_of(pml4, mem, va) matches Some(a) ==> mem.contains_key(a) && levels[a] == 2,
        pt_of(pml4, mem, va) matches Some(a) ==> mem.contains_key(a) && levels[a] == 3,
{
    lemma_table_index_bound(va);
    let e0 = pml4.entries@[table_index(va, 0) as int];
    assert(leads_to(mem, levels, e0, 1));
    if let Some(a) = pdpt_of(pml4, va) {
        assert(leads_to(mem, levels, mem_entry(mem, a, table_index(va, 1)), 2));
        if let Some(b) = pd_of(pml4, mem, va) {
            assert(leads_to(mem, levels, mem_entry(mem, b, table_index(va, 2)), 3));
        }
    }
}

/// Tables only get added: a walk that reaches a table before an
/// extension reaches the same table after it, so no more tables are
/// missing on it.
pub proof fn lemma_extends_walk(
    p0: PageTable,
    m0: Map<u64, PageTable>,
    l0: Map<u64, nat>,
    p1: PageTable,
    m1: Map<u64, PageTable>,
    va: u64,
)
    requires
        tables_wf(p0, m0, l0),
        extends(p0, m0, p1, m1),
    ensures
        pdpt_of(p0, va) is Some ==> pdpt_of(p1, va) == pdpt_of(p0, va),
        pd_of(p0, m0, va) is Some ==> pd_of(p1, m1, va) == pd_of(p0, m0, va),
        pt_of(p0, m0, va) is Some ==> pt_of(p1, m1, va) == pt_of(p0, m0, va),
        missing_tables(p1, m1, va) <= missing_tables(p0, m0, va),
{
    lemma_walk_levels(p0, m0, l0, va);
    lemma_table_index_bound(va);
    let i0 = table_index(va, 0) as int;
    if is_present(p0.entries@[i0]) {
        assert(p1.entries@[i0] == p0.entries@[i0]);
        let a = pdpt_of(p0, va)->0;
        let e1 = mem_entry(m0, a, table_index(va, 1));
        if is_present(e1) {
            assert(mem_entry(m1, a, table_index(va, 1)) == e1);
            let b = pd_of(p0, m0, va)->0;
            let e2 = mem_entry(m0, b, table_index(va, 2));
            if is_present(e2) {
                assert(mem_entry(m1, b, table_index(va, 2)) == e2);
            }
        }
    }
}

/// Extensions compose.
pub proof fn lemma_extends_trans(
    p0: PageTable,
    m0: Map<u64, PageTable>,
    p1: PageTable,
    m1: Map<u64, PageTable>,
    p2: PageTable,
    m2: Map<u64, PageTable>,
)
    requires
        extends(p0, m0, p1, m1),
        extends(p1, m1, p2, m2),
    ensures
        extends(p0, m0, p2, m2),
{
    assert forall|i: int|
        0 <= i < ENTRY_COUNT && is_present(#[trigger] p0.entries@[i]) implies p2.entries@[i]
        == p0.entries@[i] by {
        assert(p1.entries@[i] == p0.entries@[i]);
    }
    assert forall|a: u64, i: usize|
        m0.contains_key(a) && i < ENTRY_COUNT && is_present(#[trigger] mem_entry(m0, a, i)) implies mem_entry(
        m2,
        a,
        i,
    ) == mem_entry(m0, a, i) by {
        assert(mem_entry(m1, a, i) == mem_entry(m0, a, i));
        assert(m1.contains_key(a));
    }
}

/// Two walks that reach the same PT took the same path to it.
proof fn lemma_walk_unique(
    pml4: PageTable,
    mem: Map<u64, PageTable>,
    levels: Map<u64, nat>,
    va: u64,
    vb: u64,
)
    requires
        tables_wf(pml4, mem, levels),
        pt_of(pml4, mem, va) is Some,
        pt_of(pml4, mem, va) == pt_of(pml4, mem, vb),
    ensures
        table_index(va, 0) == table_index(vb, 0),
        table_index(va, 1) == table_index(vb, 1),
        table_index(va, 2) == table_index(vb, 2),
{
    lemma_table_index_bound(va);
    lemma_table_index_bound(vb);
    lemma_walk_levels(pml4, mem, levels, va);
    lemma_walk_levels(pml4, mem, levels, vb);
    let pa = pdpt_of(pml4, va)->0;
    let pb = pdpt_of(pml4, vb)->0;
    let da = pd_of(pml4, mem, va)->0;
    let db = pd_of(pml4, mem, vb)->0;
    assert(is_present(mem_entry(mem, da, table_index(va, 2))));
    assert(is_present(mem_entry(mem, db, table_index(vb, 2))));
    assert(da == db && table_index(va, 2) == table_index(vb, 2));
    assert(is_present(mem_entry(mem, pa, table_index(va, 1))));
    assert(is_present(mem_entry(mem, pb, table_index(vb, 1))));
    assert(pa == pb && table_index(va, 1) == table_index(vb, 1));
    assert(is_present(pml4.entries@[table_index(va, 0) as int]));
    assert(is_present(pml4.entries@[table_index(vb, 0) as int]));
}


/// Every entry of `t` is zero.
pub open spec fn is_zeroed(t: PageTable) -> bool {
    forall|j: int| 0 <= j < ENTRY_COUNT ==> #[trigger] t.entries@[j] == 0
}

/// Hanging a fresh zeroed table `z` under a non-present PML4 entry keeps
/// the tables consistent and changes no leaf.
proof fn lemma_add_root_table(
    pml4: PageTable,
    mem: Map<u64, PageTable>,
    levels: Map<u64, nat>,
    i: usize,
    e: u64,
    z: u64,
    zt: PageTable,
    new_pml4: PageTable,
    va: u64,
)
    requires
        tables_wf(pml4, mem, levels),
        i < ENTRY_COUNT,
        !is_present(pml4.entries@[i as int]),
        is_present(e),
        spec_entry_address(e) == z,
        !mem.contains_key(z),
        is_zeroed(zt),
        new_pml4.entries@ == pml4.entries@.update(i as int, e),
        table_index(va, 0) == i,
    ensures
        tables_wf(new_pml4, mem.insert(z, zt), levels.insert(z, 1)),
        extends(pml4, mem, new_pml4, mem.insert(z, zt)),
        forall|v: u64| #[trigger]
            leaf_entry(new_pml4, mem.insert(z, zt), v) == leaf_entry(pml4, mem, v),
        pdpt_of(new_pml4, va) == Some(z),
        pd_of(new_pml4, mem.insert(z, zt), va) is None,
{
    let nm = mem.insert(z, zt);
    let nl = levels.insert(z, 1);
    assert(nm.dom() =~= nl.dom());
    assert forall|b: u64| #[trigger] nm.contains_key(b) implies 1 <= nl[b] <= 3 by {
        if b != z {
            assert(mem.contains_key(b));
        }
    }
    assert forall|b: u64, j: usize| nm.contains_key(b) && j < ENTRY_COUNT && nl[b] < 3 implies leads_to(
        nm,
        nl,
        #[trigger] mem_entry(nm, b, j),
        nl[b] + 1,
    ) by {
        if b == z {
            assert(mem_entry(nm, b, j) == 0);
            lemma_zero_not_present();
        } else {
            assert(mem_entry(nm, b, j) == mem_entry(mem, b, j));
            assert(leads_to(mem, levels, mem_entry(mem, b, j), levels[b] + 1));
        }
    }
    assert forall|k: int| 0 <= k < ENTRY_COUNT implies leads_to(nm, nl, #[trigger] new_pml4.entries@[k], 1) by {
        if k != i as int {
            assert(leads_to(mem, levels, pml4.entries@[k], 1));
        }
    }
    assert forall|k: int, j: int|
        0 <= k < ENTRY_COUNT && 0 <= j < ENTRY_COUNT && is_present(#[trigger] new_pml4.entries@[k])
            && is_present(#[trigger] new_pml4.entries@[j]) && spec_entry_address(new_pml4.entries@[k])
            == spec_entry_address(new_pml4.entries@[j]) implies k == j by {
        if k != i as int && j != i as int {
            assert(pml4.entries@[k] == new_pml4.entries@[k]);
            assert(pml4.entries@[j] == new_pml4.entries@[j]);
        } else if k == i as int && j != i as int {
            assert(leads_to(mem, levels, pml4.entries@[j], 1));
        } else if k != i as int && j == i as int {
            assert(leads_to(mem, levels, pml4.entries@[k], 1));
        }
    }
    assert forall|a: u64, k: usize, b: u64, j: usize|
        nm.contains_key(a) && nm.contains_key(b) && k < ENTRY_COUNT && j < ENTRY_COUNT && nl[a] < 3
            && nl[b] < 3 && is_present(#[trigger] mem_entry(nm, a, k)) && is_present(
            #[trigger] mem_entry(nm, b, j),
        ) && spec_entry_address(mem_entry(nm, a, k)) == spec_entry_address(mem_entry(nm, b, j))
            implies a == b && k == j by {
        lemma_zero_not_present();
        if a == z {
            assert(mem_entry(nm, a, k) == 0);
        } else if b == z {
            assert(mem_entry(nm, b, j) == 0);
        } else {
            assert(mem_entry(nm, a, k) == mem_entry(mem, a, k));
            assert(mem_entry(nm, b, j) == mem_entry(mem, b, j));
        }
    }
    assert forall|v: u64| #[trigger] leaf_entry(new_pml4, nm, v) == leaf_entry(pml4, mem, v) by {
        lemma_table_index_bound(v);
        lemma_walk_levels(pml4, mem, levels, v);
        lemma_zero_not_present();
        if table_index(v, 0) == i {
            assert(pdpt_of(pml4, v) is None);
            assert(mem_entry(nm, z, table_index(v, 1)) == 0);
        } else {
            assert(pdpt_of(new_pml4, v) == pdpt_of(pml4, v));
            if let Some(p) = pdpt_of(pml4, v) {
                assert(mem_entry(nm, p, table_index(v, 1)) == mem_entry(mem, p, table_index(v, 1)));
                if let Some(q) = pd_of(pml4, mem, v) {
                    assert(mem_entry(nm, q, table_index(v, 2)) == mem_entry(mem, q, table_index(v, 2)));
                    if let Some(t) = pt_of(pml4, mem, v) {
                        assert(mem_entry(nm, t, table_index(v, 3)) == mem_entry(mem, t, table_index(v, 3)));
                    }
                }
            }
        }
    }
    lemma_table_index_bound(va);
    lemma_zero_not_present();
    assert(mem_entry(nm, z, table_index(va, 1)) == 0);
}

/// Hanging a fresh zeroed table `z` under a non-present entry of the
/// held PDPT or PD `a` keeps the tables consistent and changes no leaf.
proof fn lemma_add_inner_table(
    pml4: PageTable,
    mem: Map<u64, PageTable>,
    levels: Map<u64, nat>,
    a: u64,
    i: usize,
    e: u64,
    z: u64,
    zt: PageTable,
    np: PageTable,
    va: u64,
)
    requires
        tables_wf(pml4, mem, levels),
        mem.contains_key(a),
        levels[a] < 3,
        i < ENTRY_COUNT,
        !is_present(mem_entry(mem, a, i)),
        is_present(e),
        spec_entry_address(e) == z,
        !mem.contains_key(z),
        is_zeroed(zt),
        np.entries@ == mem[a].entries@.update(i as int, e),
    ensures
        tables_wf(pml4, mem.insert(z, zt).insert(a, np), levels.insert(z, levels[a] + 1)),
        extends(pml4, mem, pml4, mem.insert(z, zt).insert(a, np)),
        forall|v: u64| #[trigger]
            leaf_entry(pml4, mem.insert(z, zt).insert(a, np), v) == leaf_entry(pml4, mem, v),
        levels[a] == 1 && pdpt_of(pml4, va) == Some(a) && table_index(va, 1) == i ==> pd_of(
            pml4,
            mem.insert(z, zt).insert(a, np),
            va,
        ) == Some(z) && pt_of(pml4, mem.insert(z, zt).insert(a, np), va) is None,
        levels[a] == 2 && pd_of(pml4, mem, va) == Some(a) && table_index(va, 2) == i ==> pd_of(
            pml4,
            mem.insert(z, zt).insert(a, np),
            va,
        ) == Some(a) && pt_of(pml4, mem.insert(z, zt).insert(a, np), va) == Some(z) && leaf_entry(
            pml4,
            mem.insert(z, zt).insert(a, np),
            va,
        ) is None,
{
    let nm = mem.insert(z, zt).insert(a, np);
    let nl = levels.insert(z, (levels[a] + 1) as nat);
    lemma_zero_not_present();
    assert(a != z);
    assert(nm.dom() =~= nl.dom());
    assert forall|b: u64| #[trigger] nm.contains_key(b) implies 1 <= nl[b] <= 3 by {
        if b != z {
            assert(mem.contains_key(b));
        }
    }
    assert forall|b: u64, j: usize| nm.contains_key(b) && j < ENTRY_COUNT && nl[b] < 3 implies leads_to(
        nm,
        nl,
        #[trigger] mem_entry(nm, b, j),
        nl[b] + 1,
    ) by {
        if b == z {
            assert(mem_entry(nm, b, j) == 0);
        } else if b == a && j == i {
            assert(mem_entry(nm, b, j) == e);
        } else {
            assert(mem_entry(nm, b, j) == mem_entry(mem, b, j));
            assert(leads_to(mem, levels, mem_entry(mem, b, j), levels[b] + 1));
        }
    }
    assert forall|k: int| 0 <= k < ENTRY_COUNT implies leads_to(nm, nl, #[trigger] pml4.entries@[k], 1) by {
        assert(leads_to(mem, levels, pml4.entries@[k], 1));
    }
    assert forall|b: u64, k: usize, c: u64, j: usize|
        nm.contains_key(b) && nm.contains_key(c) && k < ENTRY_COUNT && j < ENTRY_COUNT && nl[b] < 3
            && nl[c] < 3 && is_present(#[trigger] mem_entry(nm, b, k)) && is_present(
            #[trigger] mem_entry(nm, c, j),
        ) && spec_entry_address(mem_entry(nm, b, k)) == spec_entry_address(mem_entry(nm, c, j))
            implies b == c && k == j by {
        if b == z {
            assert(mem_entry(nm, b, k) == 0);
        } else if c == z {
            assert(mem_entry(nm, c, j) == 0);
        } else if b == a && k == i && !(c == a && j == i) {
            assert(mem_entry(nm, c, j) == mem_entry(mem, c, j));
            assert(leads_to(mem, levels, mem_entry(mem, c, j), levels[c] + 1));
        } else if c == a && j == i && !(b == a && k == i) {
            assert(mem_entry(nm, b, k) == mem_entry(mem, b, k));
            assert(leads_to(mem, levels, mem_entry(mem, b, k), levels[b] + 1));
        } else if !(b == a && k == i) && !(c == a && j == i) {
            assert(mem_entry(nm, b, k) == mem_entry(mem, b, k));
            assert(mem_entry(nm, c, j) == mem_entry(mem, c, j));
        }
    }
    assert forall|b: u64, k: usize|
        mem.contains_key(b) && k < ENTRY_COUNT && is_present(#[trigger] mem_entry(mem, b, k))
            implies mem_entry(nm, b, k) == mem_entry(mem, b, k) by {
        if b == a {
            assert(k != i);
        }
    }
    assert forall|v: u64| #[trigger] leaf_entry(pml4, nm, v) == leaf_entry(pml4, mem, v) by {
        lemma_table_index_bound(v);
        lemma_walk_levels(pml4, mem, levels, v);
        if let Some(p) = pdpt_of(pml4, v) {
            if p == a && table_index(v, 1) == i {
                assert(mem_entry(nm, z, table_index(v, 2)) == 0);
            } else {
                assert(mem_entry(nm, p, table_index(v, 1)) == mem_entry(mem, p, table_index(v, 1)));
                if let Some(q) = pd_of(pml4, mem, v) {
                    if q == a && table_index(v, 2) == i {
                        assert(mem_entry(nm, z, table_index(v, 3)) == 0);
                    } else {
                        assert(mem_entry(nm, q, table_index(v, 2)) == mem_entry(mem, q, table_index(v, 2)));
                        if let Some(t) = pt_of(pml4, mem, v) {
                            assert(mem_entry(nm, t, table_index(v, 3)) == mem_entry(mem, t, table_index(v, 3)));
                        }
                    }
                }
            }
        }
    }
    lemma_table_index_bound(va);
    lemma_walk_levels(pml4, mem, levels, va);
    if levels[a] == 1 && pdpt_of(pml4, va) == Some(a) && table_index(va, 1) == i {
        assert(mem_entry(nm, a, i) == e);
        assert(mem_entry(nm, z, table_index(va, 2)) == 0);
    }
    if levels[a] == 2 && pd_of(pml4, mem, va) == Some(a) && table_index(va, 2) == i {
        let p = pdpt_of(pml4, va)->0;
        assert(mem_entry(nm, p, table_index(va, 1)) == mem_entry(mem, p, table_index(va, 1)));
        assert(mem_entry(nm, a, i) == e);
        assert(mem_entry(nm, z, table_index(va, 3)) == 0);
    }
}

/// Writing entry `i` of the PT `t` that the walk of `va` reaches changes
/// the leaf of exactly the page of `va`.
proof fn lemma_set_leaf(
    pml4: PageTable,
    mem: Map<u64, PageTable>,
    levels: Map<u64, nat>,
    t: u64,
    e: u64,
    nt: PageTable,
    va: u64,
)
    requires
        tables_wf(pml4, mem, levels),
        pt_of(pml4, mem, va) == Some(t),
        nt.entries@ == mem[t].entries@.update(table_index(va, 3) as int, e),
    ensures
        tables_wf(pml4, mem.insert(t, nt), levels),
        !is_present(mem_entry(mem, t, table_index(va, 3))) ==> extends(pml4, mem, pml4, mem.insert(t, nt)),
        !is_present(e) ==> restricts(pml4, mem, pml4, mem.insert(t, nt)),
        forall|v: u64| #[trigger]
            leaf_entry(pml4, mem.insert(t, nt), v) == if same_page(va, v) {
                if is_present(e) {
                    Some(e)
                } else {
                    None
                }
            } else {
                leaf_entry(pml4, mem, v)
            },
{
    let nm = mem.insert(t, nt);
    let i = table_index(va, 3);
    lemma_table_index_bound(va);
    lemma_walk_levels(pml4, mem, levels, va);
    assert(mem.contains_key(t) && levels[t] == 3);
    assert(nm.dom() =~= mem.dom());
    assert forall|b: u64, j: usize| nm.contains_key(b) && j < ENTRY_COUNT && levels[b] < 3 implies leads_to(
        nm,
        levels,
        #[trigger] mem_entry(nm, b, j),
        levels[b] + 1,
    ) by {
        assert(mem_entry(nm, b, j) == mem_entry(mem, b, j));
        assert(leads_to(mem, levels, mem_entry(mem, b, j), levels[b] + 1));
    }
    assert forall|k: int| 0 <= k < ENTRY_COUNT implies leads_to(nm, levels, #[trigger] pml4.entries@[k], 1) by {
        assert(leads_to(mem, levels, pml4.entries@[k], 1));
    }
    assert forall|b: u64, k: usize, c: u64, j: usize|
        nm.contains_key(b) && nm.contains_key(c) && k < ENTRY_COUNT && j < ENTRY_COUNT && levels[b] < 3
            && levels[c] < 3 && is_present(#[trigger] mem_entry(nm, b, k)) && is_present(
            #[trigger] mem_entry(nm, c, j),
        ) && spec_entry_address(mem_entry(nm, b, k)) == spec_entry_address(mem_entry(nm, c, j))
            implies b == c && k == j by {
        assert(mem_entry(nm, b, k) == mem_entry(mem, b, k));
        assert(mem_entry(nm, c, j) == mem_entry(mem, c, j));
    }
    if !is_present(mem_entry(mem, t, i)) {
        assert forall|b: u64, k: usize|
            mem.contains_key(b) && k < ENTRY_COUNT && is_present(#[trigger] mem_entry(mem, b, k))
                implies mem_entry(nm, b, k) == mem_entry(mem, b, k) by {
            if b == t {
                assert(k != i);
            }
        }
    }
    if !is_present(e) {
        assert forall|b: u64, k: usize|
            nm.contains_key(b) && k < ENTRY_COUNT && is_present(#[trigger] mem_entry(nm, b, k))
                implies mem_entry(nm, b, k) == mem_entry(mem, b, k) by {
            if b == t {
                assert(k != i);
            }
        }
    }
    assert forall|v: u64| #[trigger]
        leaf_entry(pml4, nm, v) == if same_page(va, v) {
            if is_present(e) {
                Some(e)
            } else {
                None
            }
        } else {
            leaf_entry(pml4, mem, v)
        } by {
        lemma_table_index_bound(v);
        lemma_walk_levels(pml4, mem, levels, v);
        if let Some(p) = pdpt_of(pml4, v) {
            assert(mem_entry(nm, p, table_index(v, 1)) == mem_entry(mem, p, table_index(v, 1)));
            if let Some(q) = pd_of(pml4, mem, v) {
                assert(mem_entry(nm, q, table_index(v, 2)) == mem_entry(mem, q, table_index(v, 2)));
                if let Some(s) = pt_of(pml4, mem, v) {
                    if s == t {
                        lemma_walk_unique(pml4, mem, levels, va, v);
                    }
                    if s != t || table_index(v, 3) != i {
                        assert(mem_entry(nm, s, table_index(v, 3)) == mem_entry(mem, s, table_index(v, 3)));
                    }
                }
            }
        }
        if same_page(va, v) {
            assert(pt_of(pml4, mem, v) == Some(t));
            assert(mem_entry(nm, t, i) == e);
        }
    }
}


/// The table at `level` (1 = PDPT, 2 = PD, 3 = PT) on the walk of `va`.
pub open spec fn table_at(pml4: PageTable, mem: Map<u64, PageTable>, va: u64, level: int) -> Option<u64> {
    if level == 1 {
        pdpt_of(pml4, va)
    } else if level == 2 {
        pd_of(pml4, mem, va)
    } else {
        pt_of(pml4, mem, va)
    }
}

/// The allocator changed only by handing out, as used and allocated, the
/// frames of the tables that `new_mem` adds to `old_mem`.
pub open spec fn frames_taken_by_tables(
    old_used: Seq<bool>,
    old_allocated: Seq<bool>,
    new_used: Seq<bool>,
    new_allocated: Seq<bool>,
    old_mem: Map<u64, PageTable>,
    new_mem: Map<u64, PageTable>,
) -> bool {
    &&& forall|f: int|
        #![trigger new_used[f]]
        0 <= f < MAX_FRAMES ==> (new_used[f] == old_used[f] && new_allocated[f] == old_allocated[f])
            || (!old_used[f] && new_used[f] && new_allocated[f] && new_mem.contains_key(
            (f * FRAME_SIZE) as u64,
        ) && !old_mem.contains_key((f * FRAME_SIZE) as u64))
    &&& forall|a: u64|
        #[trigger] new_mem.contains_key(a) && !old_mem.contains_key(a) ==> !old_used[(a
            / FRAME_SIZE) as int]
}

pub proof fn lemma_frames_taken_trans(
    u0: Seq<bool>,
    a0: Seq<bool>,
    u1: Seq<bool>,
    a1: Seq<bool>,
    u2: Seq<bool>,
    a2: Seq<bool>,
    m0: Map<u64, PageTable>,
    m1: Map<u64, PageTable>,
    m2: Map<u64, PageTable>,
)
    requires
        frames_taken_by_tables(u0, a0, u1, a1, m0, m1),
        frames_taken_by_tables(u1, a1, u2, a2, m1, m2),
        m0.dom().subset_of(m1.dom()),
        m1.dom().subset_of(m2.dom()),
        tables_tracked(m2, u2),
    ensures
        frames_taken_by_tables(u0, a0, u2, a2, m0, m2),
{
    assert forall|f: int| 0 <= f < MAX_FRAMES implies (#[trigger] u2[f] == u0[f] && a2[f] == a0[f])
        || (!u0[f] && u2[f] && a2[f] && m2.contains_key((f * FRAME_SIZE) as u64)
        && !m0.contains_key((f * FRAME_SIZE) as u64)) by {
        assert(frames_taken_by_tables(u0, a0, u1, a1, m0, m1));
        assert(0 <= f < MAX_FRAMES);
        assert(u1[f] == u0[f] || !u0[f]);
        assert((u1[f] == u0[f] && a1[f] == a0[f]) || (!u0[f] && u1[f] && a1[f] && m1.contains_key((f * FRAME_SIZE) as u64) && !m0.contains_key((f * FRAME_SIZE) as u64)));
        assert(u2[f] == u1[f] && a2[f] == a1[f] || !u1[f] && u2[f]);
        if m1.contains_key((f * FRAME_SIZE) as u64) {
            assert(m2.contains_key((f * FRAME_SIZE) as u64));
        }
        if m0.contains_key((f * FRAME_SIZE) as u64) {
            assert(m1.contains_key((f * FRAME_SIZE) as u64));
        }
    }
    assert forall|a: u64| #[trigger] m2.contains_key(a) && !m0.contains_key(a) implies !u0[(a
        / FRAME_SIZE) as int] by {
        let f = (a / FRAME_SIZE) as int;
        assert(0 <= f < MAX_FRAMES);
        if m1.contains_key(a) {
        } else {
            assert(!u1[f]);
            assert(u1[f] == u0[f] && a1[f] == a0[f] || !u0[f] && u1[f]);
        }
    }
}

/// Why `map` or `unmap` refused a request.
#[derive(Clone, Copy, Debug, PartialEq, Eq, Structural)]
pub enum MapError {
    VirtualNotAligned,
    PhysicalNotAligned,
    OutOfMemory,
    AlreadyMapped,
    NotMapped,
}

pub open spec fn map_error_message(e: MapError) -> Seq<char> {
    match e {
        MapError::VirtualNotAligned => "virtual address is not page aligned"@,
        MapError::PhysicalNotAligned => "physical address is not page aligned"@,
        MapError::OutOfMemory => "out of physical memory"@,
        MapError::AlreadyMapped => "virtual page is already mapped"@,
        MapError::NotMapped => "virtual page is not mapped"@,
    }
}

impl MapError {
    /// The diagnostic for this refusal.
    pub fn message(&self) -> (r: &'static str)
        ensures
            r@ == map_error_message(*self),
    {
        match self {
            MapError::VirtualNotAligned => "virtual address is not page aligned",
            MapError::PhysicalNotAligned => "physical address is not page aligned",
            MapError::OutOfMemory => "out of physical memory",
            MapError::AlreadyMapped => "virtual page is already mapped",
            MapError::NotMapped => "virtual page is not mapped",
        }
    }
}

/// What `map` answers for a request on the given tables when `free_frames`
/// frames are free.
pub open spec fn map_result(
    pml4: PageTable,
    mem: Map<u64, PageTable>,
    free_frames: nat,
    va: u64,
    pa: u64,
) -> Result<(), MapError> {
    if va % PAGE_SIZE != 0 {
        Err(MapError::VirtualNotAligned)
    } else if pa % PAGE_SIZE != 0 {
        Err(MapError::PhysicalNotAligned)
    } else if translation(pml4, mem, va) is Some {
        Err(MapError::AlreadyMapped)
    } else if free_frames < missing_tables(pml4, mem, va) {
        Err(MapError::OutOfMemory)
    } else {
        Ok(())
    }
}

pub proof fn lemma_frame_address(a: u64)
    requires
        a % FRAME_SIZE == 0,
        a / FRAME_SIZE < MAX_FRAMES,
    ensures
        a & ADDRESS_MASK == a,
        ((a / FRAME_SIZE) * FRAME_SIZE) as u64 == a,
{
    assert(a < 0x1_0000_0000u64);
    assert(a % 4096u64 == 0 && a < 0x1_0000_0000u64 ==> a & 0x000F_FFFF_FFFF_F000u64 == a)
        by (bit_vector);
}

/// Get the child table behind entry `index` of `parent`, or allocate a
/// zeroed one, register it at `child_level`, and point the entry at it.
fn get_or_create_table(
    parent: &mut PageTable,
    index: usize,
    mem: &mut PageTableMemory,
    allocator: &mut FrameAllocator,
    child_level: Ghost<nat>,
    writable: bool,
    user: bool,
) -> (r: Result<u64, MapError>)
    requires
        index < ENTRY_COUNT,
        old(allocator).wf(),
        tables_tracked(old(mem)@, old(allocator).used()),
    ensures
        final(allocator).wf(),
        tables_tracked(final(mem)@, final(allocator).used()),
        is_present(old(parent).entries@[index as int]) ==> {
            &&& r == Ok::<u64, MapError>(spec_entry_address(old(parent).entries@[index as int]))
            &&& *final(parent) == *old(parent)
            &&& final(mem)@ == old(mem)@
            &&& final(mem).levels() == old(mem).levels()
            &&& final(allocator).used() == old(allocator).used()
            &&& final(allocator).allocated() == old(allocator).allocated()
            &&& final(allocator).spec_free_frames() == old(allocator).spec_free_frames()
        },
        !is_present(old(parent).entries@[index as int]) && old(allocator).spec_free_frames() == 0
            ==> {
            &&& r == Err::<u64, MapError>(MapError::OutOfMemory)
            &&& *final(parent) == *old(parent)
            &&& final(mem)@ == old(mem)@
            &&& final(mem).levels() == old(mem).levels()
            &&& final(allocator).used() == old(allocator).used()
            &&& final(allocator).allocated() == old(allocator).allocated()
            &&& final(allocator).spec_free_frames() == old(allocator).spec_free_frames()
        },
        !is_present(old(parent).entries@[index as int]) && old(allocator).spec_free_frames() > 0
            ==> (r matches Ok(z) && {
            let f = (z / FRAME_SIZE) as int;
            &&& !old(mem)@.contains_key(z)
            &&& z % FRAME_SIZE == 0 && z / FRAME_SIZE < MAX_FRAMES
            &&& final(mem)@ == old(mem)@.insert(z, final(mem)@[z])
            &&& is_zeroed(final(mem)@[z])
            &&& final(mem).levels() == old(mem).levels().insert(z, child_level@)
            &&& final(parent).entries@ == old(parent).entries@.update(
                index as int,
                spec_entry(z, writable, user),
            )
            &&& is_present(spec_entry(z, writable, user))
            &&& spec_entry_address(spec_entry(z, writable, user)) == z
            &&& !old(allocator).used()[f]
            &&& final(allocator).used() == old(allocator).used().update(f, true)
            &&& final(allocator).allocated() == old(allocator).allocated().update(f, true)
            &&& final(allocator).spec_free_frames() == old(allocator).spec_free_frames() - 1
        }),
{
    let entry = parent.entries[index];
    if entry & PRESENT != 0 {
        return Ok(entry_address(entry));
    }
    proof {
        old(allocator).lemma_wf();
    }
    let frame = match allocator.allocate_frame() {
        Some(frame) => frame,
        None => {
            proof {
                allocator.lemma_wf();
            }
            return Err(MapError::OutOfMemory);
        },
    };
    proof {
        lemma_frame_address(frame);
        if old(mem)@.contains_key(frame) {
            assert(old(allocator).used()[(frame / FRAME_SIZE) as int]);
        }
    }
    let table = PageTable::new();
    mem.add(frame, table, child_level);
    parent.entries[index] = make_entry_with_access(frame, writable, user);
    proof {
        assert(is_zeroed(mem@[frame]));
        assert forall|a: u64| #[trigger] mem@.contains_key(a) implies a % FRAME_SIZE == 0 && a
            / FRAME_SIZE < MAX_FRAMES && allocator.used()[(a / FRAME_SIZE) as int] by {
            if a != frame {
                assert(old(mem)@.contains_key(a));
            }
        }
    }
    Ok(frame)
}


/// Every entry that is present in the new tables but was not present in
/// the old ones points where it points with exactly the access bits
/// `writable` and `user`.
pub open spec fn fresh_entries_carry(
    old_pml4: PageTable,
    old_mem: Map<u64, PageTable>,
    new_pml4: PageTable,
    new_mem: Map<u64, PageTable>,
    writable: bool,
    user: bool,
) -> bool {
    &&& forall|i: int|
        0 <= i < ENTRY_COUNT && !is_present(old_pml4.entries@[i]) && is_present(
            #[trigger] new_pml4.entries@[i],
        ) ==> new_pml4.entries@[i] == spec_entry(
            spec_entry_address(new_pml4.entries@[i]),
            writable,
            user,
        )
    &&& forall|a: u64, i: usize|
        new_mem.contains_key(a) && i < ENTRY_COUNT && is_present(#[trigger] mem_entry(new_mem, a, i))
            && !(old_mem.contains_key(a) && is_present(mem_entry(old_mem, a, i))) ==> mem_entry(
            new_mem,
            a,
            i,
        ) == spec_entry(spec_entry_address(mem_entry(new_mem, a, i)), writable, user)
}

proof fn lemma_fresh_entries_trans(
    p0: PageTable,
    m0: Map<u64, PageTable>,
    p1: PageTable,
    m1: Map<u64, PageTable>,
    p2: PageTable,
    m2: Map<u64, PageTable>,
    writable: bool,
    user: bool,
)
    requires
        fresh_entries_carry(p0, m0, p1, m1, writable, user),
        fresh_entries_carry(p1, m1, p2, m2, writable, user),
        extends(p1, m1, p2, m2),
        m0.dom().subset_of(m1.dom()),
    ensures
        fresh_entries_carry(p0, m0, p2, m2, writable, user),
{
    assert forall|i: int|
        0 <= i < ENTRY_COUNT && !is_present(p0.entries@[i]) && is_present(
            #[trigger] p2.entries@[i],
        ) implies p2.entries@[i] == spec_entry(spec_entry_address(p2.entries@[i]), writable, user) by {
        if is_present(p1.entries@[i]) {
            assert(p2.entries@[i] == p1.entries@[i]);
        }
    }
    assert forall|a: u64, i: usize|
        m2.contains_key(a) && i < ENTRY_COUNT && is_present(#[trigger] mem_entry(m2, a, i)) && !(
        m0.contains_key(a) && is_present(mem_entry(m0, a, i))) implies mem_entry(m2, a, i)
        == spec_entry(spec_entry_address(mem_entry(m2, a, i)), writable, user) by {
        if m1.contains_key(a) && is_present(mem_entry(m1, a, i)) {
            assert(mem_entry(m2, a, i) == mem_entry(m1, a, i));
        }
    }
}

/// One step of `map`'s descent: from state 0 to state 1, the table at
/// `level` on the walk of `va` was found or created.
pub open spec fn descent(
    p0: PageTable,
    m0: Map<u64, PageTable>,
    l0: Map<u64, nat>,
    u0: Seq<bool>,
    al0: Seq<bool>,
    fr0: int,
    p1: PageTable,
    m1: Map<u64, PageTable>,
    l1: Map<u64, nat>,
    u1: Seq<bool>,
    al1: Seq<bool>,
    fr1: int,
    va: u64,
    level: int,
    writable: bool,
    user: bool,
    r: Result<u64, MapError>,
) -> bool {
    &&& tables_wf(p1, m1, l1)
    &&& fresh_entries_carry(p0, m0, p1, m1, writable, user)
    &&& tables_tracked(m1, u1)
    &&& extends(p0, m0, p1, m1)
    &&& m0.dom().subset_of(m1.dom())
    &&& forall|v: u64| #[trigger] leaf_entry(p1, m1, v) == leaf_entry(p0, m0, v)
    &&& frames_taken_by_tables(u0, al0, u1, al1, m0, m1)
    &&& table_at(p0, m0, va, level) is Some ==> (p1 == p0 && m1 == m0 && l1 == l0 && u1 == u0 && al1
        == al0 && fr1 == fr0)
    &&& match r {
        Ok(a) => table_at(p1, m1, va, level) == Some(a) && fr0 - missing_tables(p0, m0, va) == fr1
            - missing_tables(p1, m1, va),
        Err(e) => e == MapError::OutOfMemory && table_at(p0, m0, va, level) is None && fr0 == 0
            && p1 == p0 && m1 == m0 && l1 == l0 && u1 == u0 && al1 == al0 && fr1 == fr0,
    }
}

/// Handing out the frame of one new table `z` is a change of the kind
/// `frames_taken_by_tables` allows.
proof fn lemma_frames_take_one(
    u0: Seq<bool>,
    al0: Seq<bool>,
    m0: Map<u64, PageTable>,
    m1: Map<u64, PageTable>,
    z: u64,
)
    requires
        u0.len() == MAX_FRAMES,
        al0.len() == MAX_FRAMES,
        z % FRAME_SIZE == 0,
        z / FRAME_SIZE < MAX_FRAMES,
        !u0[(z / FRAME_SIZE) as int],
        !m0.contains_key(z),
        forall|a: u64| #[trigger] m1.contains_key(a) <==> m0.contains_key(a) || a == z,
    ensures
        frames_taken_by_tables(
            u0,
            al0,
            u0.update((z / FRAME_SIZE) as int, true),
            al0.update((z / FRAME_SIZE) as int, true),
            m0,
            m1,
        ),
{
    let f = (z / FRAME_SIZE) as int;
    lemma_frame_address(z);
    let u1 = u0.update(f, true);
    let al1 = al0.update(f, true);
    assert forall|g: int| #![trigger u1[g]] 0 <= g < MAX_FRAMES implies (u1[g] == u0[g] && al1[g]
        == al0[g]) || (!u0[g] && u1[g] && al1[g] && m1.contains_key((g * FRAME_SIZE) as u64)
        && !m0.contains_key((g * FRAME_SIZE) as u64)) by {
        if g == f {
            assert((g * FRAME_SIZE) as u64 == z);
        }
    }
}

/// Find or create the PDPT on the walk of `virtual_address`.
fn descend_root(
    pml4: &mut PageTable,
    mem: &mut PageTableMemory,
    allocator: &mut FrameAllocator,
    virtual_address: u64,
    writable: bool,
    user: bool,
) -> (r: Result<u64, MapError>)
    requires
        tables_wf(*old(pml4), old(mem)@, old(mem).levels()),
        tables_tracked(old(mem)@, old(allocator).used()),
        old(allocator).wf(),
    ensures
        final(allocator).wf(),
        descent(
            *old(pml4),
            old(mem)@,
            old(mem).levels(),
            old(allocator).used(),
            old(allocator).allocated(),
            old(allocator).spec_free_frames() as int,
            *final(pml4),
            final(mem)@,
            final(mem).levels(),
            final(allocator).used(),
            final(allocator).allocated(),
            final(allocator).spec_free_frames() as int,
            virtual_address,
            1,
            writable,
            user,
            r,
        ),
{
    let idx = indexes(virtual_address);
    let ghost p0 = *pml4;
    let ghost m0 = mem@;
    let ghost l0 = mem.levels();
    let r = get_or_create_table(pml4, idx[0], mem, allocator, Ghost(1nat), writable, user);
    proof {
        let va = virtual_address;
        let i = idx[0];
        lemma_table_index_bound(va);
        if !is_present(p0.entries@[i as int]) && r is Ok {
            let z = r->Ok_0;
            lemma_add_root_table(
                p0,
                m0,
                l0,
                i,
                spec_entry(z, writable, user),
                z,
                mem@[z],
                *pml4,
                va,
            );
            old(allocator).lemma_wf();
            lemma_frames_take_one(old(allocator).used(), old(allocator).allocated(), m0, mem@, z);
            assert(m0.dom().subset_of(mem@.dom()));
        } else {
            assert(m0.dom().subset_of(mem@.dom()));
        }
    }
    r
}

/// Find or create the table at `level` (2 = PD, 3 = PT) on the walk of
/// `virtual_address`, below the held table `parent` one level up.
fn descend_inner(
    pml4: &PageTable,
    mem: &mut PageTableMemory,
    allocator: &mut FrameAllocator,
    parent: u64,
    virtual_address: u64,
    level: usize,
    writable: bool,
    user: bool,
) -> (r: Result<u64, MapError>)
    requires
        tables_wf(*pml4, old(mem)@, old(mem).levels()),
        tables_tracked(old(mem)@, old(allocator).used()),
        old(allocator).wf(),
        level == 2 || level == 3,
        table_at(*pml4, old(mem)@, virtual_address, level - 1) == Some(parent),
    ensures
        final(allocator).wf(),
        descent(
            *pml4,
            old(mem)@,
            old(mem).levels(),
            old(allocator).used(),
            old(allocator).allocated(),
            old(allocator).spec_free_frames() as int,
            *pml4,
            final(mem)@,
            final(mem).levels(),
            final(allocator).used(),
            final(allocator).allocated(),
            final(allocator).spec_free_frames() as int,
            virtual_address,
            level as int,
            writable,
            user,
            r,
        ),
{
    let idx = indexes(virtual_address);
    let ghost m0 = mem@;
    let ghost l0 = mem.levels();
    proof {
        lemma_walk_levels(*pml4, m0, l0, virtual_address);
        lemma_table_index_bound(virtual_address);
    }
    let mut table = mem.table(parent);
    let ghost t0 = table;
    let i = idx[level - 1];
    let r = get_or_create_table(&mut table, i, mem, allocator, Ghost(level as nat), writable, user);
    match r {
        Ok(a) => {
            let ghost m1 = mem@;
            mem.store(parent, table);
            proof {
                let va = virtual_address;
                if !is_present(t0.entries@[i as int]) {
                    lemma_add_inner_table(
                        *pml4,
                        m0,
                        l0,
                        parent,
                        i,
                        spec_entry(a, writable, user),
                        a,
                        m1[a],
                        table,
                        va,
                    );
                    lemma_frame_address(a);
                    assert(mem@ == m0.insert(a, m1[a]).insert(parent, table));
                    assert(mem.levels() == l0.insert(a, (l0[parent] + 1) as nat));
                    assert forall|b: u64| #[trigger] mem@.contains_key(b) implies b % FRAME_SIZE == 0
                        && b / FRAME_SIZE < MAX_FRAMES && allocator.used()[(b / FRAME_SIZE) as int] by {
                        assert(m1.contains_key(b));
                    }
                    assert(m0.dom().subset_of(mem@.dom()));
                    old(allocator).lemma_wf();
                    lemma_frames_take_one(old(allocator).used(), old(allocator).allocated(), m0, mem@, a);
                } else {
                    assert(mem@ =~= m0);
                    assert(m0.dom().subset_of(mem@.dom()));
                }
            }
            Ok(a)
        },
        Err(e) => {
            proof {
                assert(m0.dom().subset_of(mem@.dom()));
            }
            Err(e)
        },
    }
}


/// Map the 4 KiB page of `virtual_address` to the frame at
/// `physical_address`, user-accessible when `user`. Missing intermediate
/// tables are allocated from `allocator`; a table created before the
/// allocator runs dry stays in place, empty.
pub fn map(
    pml4: &mut PageTable,
    mem: &mut PageTableMemory,
    allocator: &mut FrameAllocator,
    virtual_address: u64,
    physical_address: u64,
    writable: bool,
    user: bool,
) -> (r: Result<(), MapError>)
    requires
        tables_wf(*old(pml4), old(mem)@, old(mem).levels()),
        tables_tracked(old(mem)@, old(allocator).used()),
        old(allocator).wf(),
    ensures
        tables_wf(*final(pml4), final(mem)@, final(mem).levels()),
        tables_tracked(final(mem)@, final(allocator).used()),
        final(allocator).wf(),
        r == map_result(
            *old(pml4),
            old(mem)@,
            old(allocator).spec_free_frames() as nat,
            virtual_address,
            physical_address,
        ),
        extends(*old(pml4), old(mem)@, *final(pml4), final(mem)@),
        fresh_entries_carry(*old(pml4), old(mem)@, *final(pml4), final(mem)@, writable, user),
        forall|v: u64| #[trigger]
            leaf_entry(*final(pml4), final(mem)@, v) == if r is Ok && same_page(virtual_address, v) {
                Some(spec_entry(physical_address, writable, user))
            } else {
                leaf_entry(*old(pml4), old(mem)@, v)
            },
        frames_taken_by_tables(
            old(allocator).used(),
            old(allocator).allocated(),
            final(allocator).used(),
            final(allocator).allocated(),
            old(mem)@,
            final(mem)@,
        ),
        r is Ok ==> final(allocator).spec_free_frames() == old(allocator).spec_free_frames()
            - missing_tables(*old(pml4), old(mem)@, virtual_address),
        r == Err::<(), MapError>(MapError::OutOfMemory) ==> final(allocator).spec_free_frames() == 0,
        r is Err && r != Err::<(), MapError>(MapError::OutOfMemory) ==> {
            &&& *final(pml4) == *old(pml4)
            &&& final(mem)@ == old(mem)@
            &&& final(mem).levels() == old(mem).levels()
            &&& final(allocator).used() == old(allocator).used()
            &&& final(allocator).allocated() == old(allocator).allocated()
            &&& final(allocator).spec_free_frames() == old(allocator).spec_free_frames()
        },
{
    if virtual_address % PAGE_SIZE != 0 {
        return Err(MapError::VirtualNotAligned);
    }
    if physical_address % PAGE_SIZE != 0 {
        return Err(MapError::PhysicalNotAligned);
    }
    let ghost va = virtual_address;
    let ghost p0 = *pml4;
    let ghost m0 = mem@;
    let ghost l0 = mem.levels();
    let ghost u0 = allocator.used();
    let ghost al0 = allocator.allocated();
    let ghost fr0 = allocator.spec_free_frames() as int;
    proof {
        lemma_table_index_bound(va);
    }

    let pdpt_address = match descend_root(pml4, mem, allocator, virtual_address, writable, user) {
        Ok(a) => a,
        Err(e) => {
            return Err(e);
        },
    };
    let ghost p1 = *pml4;
    let ghost m1 = mem@;
    let ghost u1 = allocator.used();
    let ghost al1 = allocator.allocated();
    let ghost fr1 = allocator.spec_free_frames() as int;

    let pd_address = match descend_inner(
        pml4,
        mem,
        allocator,
        pdpt_address,
        virtual_address,
        2,
        writable,
        user,
    ) {
        Ok(a) => a,
        Err(e) => {
            return Err(e);
        },
    };
    let ghost m2 = mem@;
    let ghost u2 = allocator.used();
    let ghost al2 = allocator.allocated();
    let ghost fr2 = allocator.spec_free_frames() as int;
    proof {
        lemma_frames_taken_trans(u0, al0, u1, al1, u2, al2, m0, m1, m2);
        lemma_fresh_entries_trans(p0, m0, p1, m1, p1, m2, writable, user);
    }

    let pt_address = match descend_inner(
        pml4,
        mem,
        allocator,
        pd_address,
        virtual_address,
        3,
        writable,
        user,
    ) {
        Ok(a) => a,
        Err(e) => {
            return Err(e);
        },
    };
    let ghost p3 = *pml4;
    let ghost m3 = mem@;
    let ghost l3 = mem.levels();
    let ghost u3 = allocator.used();
    let ghost al3 = allocator.allocated();
    proof {
        lemma_frames_taken_trans(u0, al0, u2, al2, u3, al3, m0, m2, m3);
        lemma_fresh_entries_trans(p0, m0, p1, m2, p3, m3, writable, user);
        lemma_walk_levels(p3, m3, l3, va);
    }

    let idx = indexes(virtual_address);
    let mut pt = mem.table(pt_address);
    if pt.entries[idx[3]] & PRESENT != 0 {
        proof {
            assert(leaf_entry(p3, m3, va) is Some);
            assert(leaf_entry(p0, m0, va) is Some);
        }
        return Err(MapError::AlreadyMapped);
    }
    let entry = make_entry_with_access(physical_address, writable, user);
    pt.entries[idx[3]] = entry;
    mem.store(pt_address, pt);
    proof {
        lemma_set_leaf(p3, m3, l3, pt_address, entry, pt, va);
        lemma_entry_fields(physical_address, writable, user);
        lemma_entry_rebuild(physical_address, writable, user);
        lemma_fresh_entries_trans(p0, m0, p3, m3, p3, mem@, writable, user);
        assert(mem@ == m3.insert(pt_address, pt));
        assert(m0.dom().subset_of(mem@.dom()));
        assert(m3.dom() =~= mem@.dom());
    }
    Ok(())
}


/// The frame `virtual_address` is mapped to, walking all four levels;
/// `None` when an entry on the way is not present.
pub fn translate(pml4: &PageTable, mem: &PageTableMemory, virtual_address: u64) -> (r: Option<u64>)
    requires
        tables_wf(*pml4, mem@, mem.levels()),
    ensures
        r == translation(*pml4, mem@, virtual_address),
{
    let idx = indexes(virtual_address);
    proof {
        lemma_walk_levels(*pml4, mem@, mem.levels(), virtual_address);
    }
    let e0 = pml4.entries[idx[0]];
    if e0 & PRESENT == 0 {
        return None;
    }
    let e1 = mem.entry(entry_address(e0), idx[1]);
    if e1 & PRESENT == 0 {
        return None;
    }
    let e2 = mem.entry(entry_address(e1), idx[2]);
    if e2 & PRESENT == 0 {
        return None;
    }
    let e3 = mem.entry(entry_address(e2), idx[3]);
    if e3 & PRESENT == 0 {
        return None;
    }
    Some(entry_address(e3))
}

/// Remove the mapping of the page of `virtual_address` and give back the
/// frame it was mapped to. The tables themselves stay.
pub fn unmap(pml4: &PageTable, mem: &mut PageTableMemory, virtual_address: u64) -> (r: Result<
    u64,
    MapError,
>)
    requires
        tables_wf(*pml4, old(mem)@, old(mem).levels()),
    ensures
        tables_wf(*pml4, final(mem)@, final(mem).levels()),
        final(mem).levels() == old(mem).levels(),
        final(mem)@.dom() == old(mem)@.dom(),
        restricts(*pml4, old(mem)@, *pml4, final(mem)@),
        match translation(*pml4, old(mem)@, virtual_address) {
            Some(frame) => r == Ok::<u64, MapError>(frame),
            None => r == Err::<u64, MapError>(MapError::NotMapped) && final(mem)@ == old(mem)@,
        },
        forall|v: u64| #[trigger]
            leaf_entry(*pml4, final(mem)@, v) == if r is Ok && same_page(virtual_address, v) {
                None
            } else {
                leaf_entry(*pml4, old(mem)@, v)
            },
{
    let idx = indexes(virtual_address);
    let ghost m0 = mem@;
    proof {
        lemma_walk_levels(*pml4, m0, mem.levels(), virtual_address);
    }
    let e0 = pml4.entries[idx[0]];
    if e0 & PRESENT == 0 {
        return Err(MapError::NotMapped);
    }
    let e1 = mem.entry(entry_address(e0), idx[1]);
    if e1 & PRESENT == 0 {
        return Err(MapError::NotMapped);
    }
    let e2 = mem.entry(entry_address(e1), idx[2]);
    if e2 & PRESENT == 0 {
        return Err(MapError::NotMapped);
    }
    let pt_address = entry_address(e2);
    let mut pt = mem.table(pt_address);
    let e3 = pt.entries[idx[3]];
    if e3 & PRESENT == 0 {
        return Err(MapError::NotMapped);
    }
    pt.entries[idx[3]] = 0;
    mem.store(pt_address, pt);
    proof {
        lemma_zero_not_present();
        lemma_set_leaf(*pml4, m0, mem.levels(), pt_address, 0, pt, virtual_address);
        assert(mem@.dom() =~= m0.dom());
    }
    Ok(entry_address(e3))
}

/// An address is canonical when bits 47 to 63 are all equal.
pub fn is_canonical(address: u64) -> (r: bool)
    ensures
        r == (address >> 47u64 == 0 || address >> 47u64 == 0x1FFFFu64),
{
    let upper = address >> 47u64;
    upper == 0 || upper == 0x1FFFF
}

/// Allocate a physical frame for a page table.
pub fn allocate_page_table_frame(allocator: &mut FrameAllocator) -> (r: Option<u64>)
    requires
        old(allocator).wf(),
    ensures
        final(allocator).wf(),
        r is None <==> old(allocator).spec_free_frames() == 0,
        r is None ==> final(allocator).used() == old(allocator).used() && final(allocator).allocated()
            == old(allocator).allocated(),
        r matches Some(address) ==> {
            let f = address / FRAME_SIZE;
            &&& address % FRAME_SIZE == 0
            &&& f < MAX_FRAMES
            &&& !old(allocator).used()[f as int]
            &&& forall|g: int| 0 <= g < f ==> #[trigger] old(allocator).used()[g]
            &&& final(allocator).used() == old(allocator).used().update(f as int, true)
            &&& final(allocator).allocated() == old(allocator).allocated().update(f as int, true)
            &&& final(allocator).spec_free_frames() == old(allocator).spec_free_frames() - 1
        },
{
    allocator.allocate_frame()
}


/// Addresses in the same page share their leaf.
pub proof fn lemma_same_page_leaf(pml4: PageTable, mem: Map<u64, PageTable>, va: u64, vb: u64)
    requires
        same_page(va, vb),
    ensures
        leaf_entry(pml4, mem, va) == leaf_entry(pml4, mem, vb),
{
}

/// A page whose leaf `map` wrote for an aligned frame `pa` (below the
/// 52-bit physical limit) translates to exactly `pa`: what `translate`
/// reads back is what `map` wrote.
pub proof fn law_mapped_page_translates(
    pml4: PageTable,
    mem: Map<u64, PageTable>,
    va: u64,
    pa: u64,
    writable: bool,
    user: bool,
)
    requires
        leaf_entry(pml4, mem, va) == Some(spec_entry(pa, writable, user)),
        pa % PAGE_SIZE == 0,
        pa <= ADDRESS_MASK,
    ensures
        translation(pml4, mem, va) == Some(pa),
{
    lemma_entry_fields(pa, writable, user);
    assert(pa % 4096u64 == 0 && pa <= 0x000F_FFFF_FFFF_F000u64 ==> pa & 0x000F_FFFF_FFFF_F000u64
        == pa) by (bit_vector);
}

/// Unmapping a page right after mapping it, where it was unmapped
/// before, gives back every page's leaf as it was before the map.
pub proof fn law_unmap_undoes_map(
    p0: PageTable,
    m0: Map<u64, PageTable>,
    p1: PageTable,
    m1: Map<u64, PageTable>,
    m2: Map<u64, PageTable>,
    va: u64,
    e: u64,
)
    requires
        leaf_entry(p0, m0, va) is None,
        forall|v: u64| #[trigger]
            leaf_entry(p1, m1, v) == if same_page(va, v) {
                Some(e)
            } else {
                leaf_entry(p0, m0, v)
            },
        forall|v: u64| #[trigger]
            leaf_entry(p1, m2, v) == if same_page(va, v) {
                None
            } else {
                leaf_entry(p1, m1, v)
            },
    ensures
        forall|v: u64| #[trigger] leaf_entry(p1, m2, v) == leaf_entry(p0, m0, v),
{
    assert forall|v: u64| #[trigger] leaf_entry(p1, m2, v) == leaf_entry(p0, m0, v) by {
        if same_page(va, v) {
            lemma_same_page_leaf(p0, m0, va, v);
        } else {
            assert(leaf_entry(p1, m1, v) == leaf_entry(p0, m0, v));
        }
    }
}


/// The frame address of any entry is page aligned.
pub proof fn lemma_entry_address_aligned(e: u64)
    ensures
        spec_entry_address(e) % PAGE_SIZE == 0,
{
    assert((e & 0x000F_FFFF_FFFF_F000u64) % 4096u64 == 0) by (bit_vector);
}

} // verus!

use vstd::prelude::*;

use super::object::{
    empty_slot, encode_handle, handle_generation, handle_index, lemma_handle_roundtrip, next_generation, ObjectHandle, ObjectRecord, ObjectSlot, ObjectType,
};

verus! {

pub const MAX_KERNEL_OBJECTS: usize = 64;

/// A slot after it has been cleared: free, no record, next generation.
pub open spec fn cleared_slot(s: ObjectSlot) -> ObjectSlot {
    ObjectSlot { occupied: false, generation: next_generation(s.generation), record: None }
}

/// A slot freshly occupied by a new object of type `t` with one reference.
pub open spec fn created_slot(s: ObjectSlot, t: ObjectType) -> ObjectSlot {
    ObjectSlot {
        occupied: true,
        generation: s.generation,
        record: Some(ObjectRecord { object_type: t, references: 1 }),
    }
}

/// A slot after one reference has been dropped: the object goes away with
/// its last reference.
pub open spec fn released_slot(s: ObjectSlot) -> ObjectSlot {
    let refs = s.record.unwrap().references;
    if refs == 1 {
        cleared_slot(s)
    } else {
        ObjectSlot {
            occupied: s.occupied,
            generation: s.generation,
            record: Some(
                ObjectRecord {
                    object_type: s.record.unwrap().object_type,
                    references: (refs - 1) as u32,
                },
            ),
        }
    }
}

/// A slot after one more reference has been taken.
pub open spec fn retained_slot(s: ObjectSlot) -> ObjectSlot {
    ObjectSlot {
        occupied: s.occupied,
        generation: s.generation,
        record: Some(
            ObjectRecord {
                object_type: s.record.unwrap().object_type,
                references: (s.record.unwrap().references + 1) as u32,
            },
        ),
    }
}

/// Whether `h` names the object currently living in its slot.
pub open spec fn resolves(slots: Seq<ObjectSlot>, h: ObjectHandle) -> bool {
    &&& h@ != 0
    &&& h.spec_index() < MAX_KERNEL_OBJECTS
    &&& slots[h.spec_index() as int].occupied
    &&& slots[h.spec_index() as int].generation == h.spec_generation()
}

/// Number of occupied slots.
pub open spec fn occupied_count(slots: Seq<ObjectSlot>) -> nat
    decreases slots.len(),
{
    if slots.len() == 0 {
        0
    } else {
        occupied_count(slots.drop_last()) + if slots.last().occupied {
            1nat
        } else {
            0nat
        }
    }
}

/// Invariant of every slot: generation never zero; occupied exactly when a
/// record is present; a live record holds at least one reference.
pub open spec fn slot_wf(s: ObjectSlot) -> bool {
    &&& s.generation != 0
    &&& s.occupied <==> s.record.is_some()
    &&& s.occupied ==> s.record.unwrap().references >= 1
}

pub open spec fn slots_wf(slots: Seq<ObjectSlot>) -> bool {
    &&& slots.len() == MAX_KERNEL_OBJECTS
    &&& forall|i: int| 0 <= i < slots.len() ==> #[trigger] slot_wf(slots[i])
}

/// Replacing one slot changes the occupied count by the difference of the
/// two slots' occupancy.
pub proof fn lemma_occupied_count_update(slots: Seq<ObjectSlot>, i: int, s: ObjectSlot)
    requires
        0 <= i < slots.len(),
    ensures
        occupied_count(slots.update(i, s)) + (if slots[i].occupied {
            1int
        } else {
            0int
        }) == occupied_count(slots) + (if s.occupied {
            1int
        } else {
            0int
        }),
        occupied_count(slots) <= slots.len(),
    decreases slots.len(),
{
    let u = slots.update(i, s);
    if i == slots.len() - 1 {
        assert(u.drop_last() =~= slots.drop_last());
        lemma_occupied_count_bound(slots.drop_last());
    } else {
        assert(u.drop_last() =~= slots.drop_last().update(i, s));
        lemma_occupied_count_update(slots.drop_last(), i, s);
    }
}

pub proof fn lemma_occupied_count_bound(slots: Seq<ObjectSlot>)
    ensures
        occupied_count(slots) <= slots.len(),
    decreases slots.len(),
{
    if slots.len() > 0 {
        lemma_occupied_count_bound(slots.drop_last());
    }
}

/// A freshly created object is reachable through the handle `create`
/// returns, with the requested type and a single reference.
pub proof fn law_created_handle_resolves(slots: Seq<ObjectSlot>, i: int, t: ObjectType)
    requires
        slots_wf(slots),
        0 <= i < MAX_KERNEL_OBJECTS,
        !slots[i].occupied,
    ensures
        ({
            let after = slots.update(i, created_slot(slots[i], t));
            let h_raw = encode_handle(i as usize, slots[i].generation);
            &&& h_raw != 0
            &&& handle_index(h_raw) == i
            &&& handle_generation(h_raw) == slots[i].generation
            &&& after[i].occupied
            &&& after[i].record == Some(ObjectRecord { object_type: t, references: 1 })
            &&& slots_wf(after)
            &&& occupied_count(after) == occupied_count(slots) + 1
        }),
{
    assert(slot_wf(slots[i]));
    lemma_handle_roundtrip(i as usize, slots[i].generation);
    let after = slots.update(i, created_slot(slots[i], t));
    assert forall|j: int| 0 <= j < after.len() implies #[trigger] slot_wf(after[j]) by {
        if j != i {
            assert(slot_wf(slots[j]));
        }
    }
    lemma_occupied_count_update(slots, i, created_slot(slots[i], t));
}

/// Once an object is destroyed (explicitly or by its last release), the
/// handle that named it no longer resolves, and the next object created in
/// the same slot gets a handle with a different generation.
pub proof fn law_cleared_handle_is_stale(slots: Seq<ObjectSlot>, h: ObjectHandle, t: ObjectType)
    requires
        slots_wf(slots),
        resolves(slots, h),
    ensures
        ({
            let i = h.spec_index() as int;
            let after = slots.update(i, cleared_slot(slots[i]));
            let reused = after.update(i, created_slot(after[i], t));
            &&& !resolves(after, h)
            &&& !resolves(reused, h)
            &&& reused[i].generation != h.spec_generation()
            &&& slots_wf(after)
            &&& occupied_count(after) + 1 == occupied_count(slots)
        }),
{
    let i = h.spec_index() as int;
    assert(slot_wf(slots[i]));
    let after = slots.update(i, cleared_slot(slots[i]));
    assert forall|j: int| 0 <= j < after.len() implies #[trigger] slot_wf(after[j]) by {
        if j != i {
            assert(slot_wf(slots[j]));
        }
    }
    lemma_occupied_count_update(slots, i, cleared_slot(slots[i]));
}

/// Releasing a reference undoes taking one.
pub proof fn law_release_undoes_retain(slots: Seq<ObjectSlot>, h: ObjectHandle)
    requires
        slots_wf(slots),
        resolves(slots, h),
        slots[h.spec_index() as int].record.unwrap().references < u32::MAX,
    ensures
        ({
            let i = h.spec_index() as int;
            let retained = slots.update(i, retained_slot(slots[i]));
            &&& resolves(retained, h)
            &&& retained.update(i, released_slot(retained[i])) == slots
        }),
{
    let i = h.spec_index() as int;
    assert(slot_wf(slots[i]));
    let retained = slots.update(i, retained_slot(slots[i]));
    assert(retained.update(i, released_slot(retained[i])) =~= slots);
}

/// Releasing the only reference of an object destroys it.
pub proof fn law_last_release_destroys(slots: Seq<ObjectSlot>, h: ObjectHandle)
    requires
        slots_wf(slots),
        resolves(slots, h),
        slots[h.spec_index() as int].record.unwrap().references == 1,
    ensures
        released_slot(slots[h.spec_index() as int]) == cleared_slot(slots[h.spec_index() as int]),
{
}

/// An operation on the object table.
#[derive(Clone, Copy)]
pub enum TableOp {
    Create(ObjectType),
    Retain(ObjectHandle),
    Release(ObjectHandle),
    Destroy(ObjectHandle),
}

/// `i` is the lowest free slot: where `create` puts its object.
pub open spec fn lowest_free(slots: Seq<ObjectSlot>, i: int) -> bool {
    &&& 0 <= i < MAX_KERNEL_OBJECTS
    &&& !slots[i].occupied
    &&& forall|j: int| 0 <= j < i ==> #[trigger] slots[j].occupied
}

/// The slots after `op`, as `create`, `retain`, `release` and `destroy`
/// leave them.
pub open spec fn table_after(slots: Seq<ObjectSlot>, op: TableOp) -> Seq<ObjectSlot> {
    match op {
        TableOp::Create(t) => if exists|i: int| lowest_free(slots, i) {
            let i = choose|i: int| lowest_free(slots, i);
            slots.update(i, created_slot(slots[i], t))
        } else {
            slots
        },
        TableOp::Retain(h) => if resolves(slots, h) && slots[h.spec_index() as int].record.unwrap().references
            < u32::MAX {
            slots.update(h.spec_index() as int, retained_slot(slots[h.spec_index() as int]))
        } else {
            slots
        },
        TableOp::Release(h) => if resolves(slots, h) {
            slots.update(h.spec_index() as int, released_slot(slots[h.spec_index() as int]))
        } else {
            slots
        },
        TableOp::Destroy(h) => if resolves(slots, h) {
            slots.update(h.spec_index() as int, cleared_slot(slots[h.spec_index() as int]))
        } else {
            slots
        },
    }
}

/// The slots after the operations `ops`, in order.
pub open spec fn table_run(slots: Seq<ObjectSlot>, ops: Seq<TableOp>) -> Seq<ObjectSlot>
    decreases ops.len(),
{
    if ops.len() == 0 {
        slots
    } else {
        table_after(table_run(slots, ops.drop_last()), ops.last())
    }
}

/// `op` frees the object in the slot of `h`: a `destroy` through a live
/// handle of it, or the `release` of its last reference.
pub open spec fn frees(slots: Seq<ObjectSlot>, op: TableOp, h: ObjectHandle) -> bool {
    match op {
        TableOp::Release(g) => resolves(slots, g) && g.spec_index() == h.spec_index()
            && slots[g.spec_index() as int].record.unwrap().references == 1,
        TableOp::Destroy(g) => resolves(slots, g) && g.spec_index() == h.spec_index(),
        _ => false,
    }
}

/// `op` is a `create` that fills the slot of `h` with the generation of
/// `h`.
pub open spec fn revives(slots: Seq<ObjectSlot>, op: TableOp, h: ObjectHandle) -> bool {
    &&& op is Create
    &&& lowest_free(slots, h.spec_index() as int)
    &&& slots[h.spec_index() as int].generation == h.spec_generation()
}

proof fn lemma_lowest_free_unique(slots: Seq<ObjectSlot>, i: int, j: int)
    requires
        lowest_free(slots, i),
        lowest_free(slots, j),
    ensures
        i == j,
{
    if i < j {
        assert(slots[i].occupied);
    } else if j < i {
        assert(slots[j].occupied);
    }
}

/// One operation keeps a live handle live unless it frees its object, and
/// keeps a stale handle stale unless it revives it.
proof fn lemma_handle_step(slots: Seq<ObjectSlot>, op: TableOp, h: ObjectHandle)
    requires
        slots.len() == MAX_KERNEL_OBJECTS,
    ensures
        resolves(slots, h) && !frees(slots, op, h) ==> resolves(table_after(slots, op), h),
        !resolves(slots, h) && !revives(slots, op, h) ==> !resolves(table_after(slots, op), h),
        table_after(slots, op).len() == MAX_KERNEL_OBJECTS,
{
    if let TableOp::Create(t) = op {
        if exists|i: int| lowest_free(slots, i) {
            let i = choose|i: int| lowest_free(slots, i);
            if lowest_free(slots, h.spec_index() as int) {
                lemma_lowest_free_unique(slots, i, h.spec_index() as int);
            }
        }
    }
}

/// A handle stays valid from the moment it names a live object until an
/// operation frees that object, whatever else happens to the table.
pub proof fn law_handle_lives_until_freed(slots: Seq<ObjectSlot>, ops: Seq<TableOp>, h: ObjectHandle)
    requires
        slots_wf(slots),
        resolves(slots, h),
        forall|k: int| 0 <= k < ops.len() ==> !frees(table_run(slots, ops.take(k)), #[trigger] ops[k], h),
    ensures
        resolves(table_run(slots, ops), h),
        table_run(slots, ops).len() == MAX_KERNEL_OBJECTS,
    decreases ops.len(),
{
    if ops.len() > 0 {
        let d = ops.drop_last();
        assert forall|k: int| 0 <= k < d.len() implies !frees(table_run(slots, d.take(k)), #[trigger] d[k], h) by {
            assert(d.take(k) =~= ops.take(k));
            assert(d[k] == ops[k]);
        }
        law_handle_lives_until_freed(slots, d, h);
        let k = ops.len() - 1;
        assert(ops.take(k) =~= d);
        assert(!frees(table_run(slots, ops.take(k)), ops[k], h));
        lemma_handle_step(table_run(slots, d), ops.last(), h);
    }
}

/// The handle `create` returns is valid after it and stays valid through
/// any later operations until one of them frees its object.
pub proof fn law_created_handle_lives_until_freed(
    slots: Seq<ObjectSlot>,
    t: ObjectType,
    i: int,
    h: ObjectHandle,
    ops: Seq<TableOp>,
)
    requires
        slots_wf(slots),
        lowest_free(slots, i),
        h@ == encode_handle(i as usize, slots[i].generation),
        forall|k: int|
            0 <= k < ops.len() ==> !frees(
                table_run(table_after(slots, TableOp::Create(t)), ops.take(k)),
                #[trigger] ops[k],
                h,
            ),
    ensures
        resolves(table_after(slots, TableOp::Create(t)), h),
        resolves(table_run(table_after(slots, TableOp::Create(t)), ops), h),
{
    let c = choose|c: int| lowest_free(slots, c);
    lemma_lowest_free_unique(slots, c, i);
    law_created_handle_resolves(slots, i, t);
    let after = table_after(slots, TableOp::Create(t));
    assert(after == slots.update(i, created_slot(slots[i], t)));
    law_handle_lives_until_freed(after, ops, h);
}

/// A handle that is not valid stays invalid until a `create` fills its
/// slot with its generation. A freed object's slot has moved on to the
/// next generation, so its old handles come back only when the slot's
/// generation wraps around.
pub proof fn law_stale_handle_stays_stale(slots: Seq<ObjectSlot>, ops: Seq<TableOp>, h: ObjectHandle)
    requires
        slots_wf(slots),
        !resolves(slots, h),
        forall|k: int| 0 <= k < ops.len() ==> !revives(table_run(slots, ops.take(k)), #[trigger] ops[k], h),
    ensures
        !resolves(table_run(slots, ops), h),
        table_run(slots, ops).len() == MAX_KERNEL_OBJECTS,
    decreases ops.len(),
{
    if ops.len() > 0 {
        let d = ops.drop_last();
        assert forall|k: int| 0 <= k < d.len() implies !revives(table_run(slots, d.take(k)), #[trigger] d[k], h) by {
            assert(d.take(k) =~= ops.take(k));
            assert(d[k] == ops[k]);
        }
        law_stale_handle_stays_stale(slots, d, h);
        let k = ops.len() - 1;
        assert(ops.take(k) =~= d);
        assert(!revives(table_run(slots, ops.take(k)), ops[k], h));
        lemma_handle_step(table_run(slots, d), ops.last(), h);
    }
}

/// Global kernel object table: a fixed number of slots, each holding at
/// most one live object, addressed by generation-checked handles.
pub struct ObjectTable {
    slots: Vec<ObjectSlot>,
}

impl View for ObjectTable {
    type V = Seq<ObjectSlot>;

    closed spec fn view(&self) -> Seq<ObjectSlot> {
        self.slots@
    }
}

impl ObjectTable {
    pub open spec fn wf(&self) -> bool {
        slots_wf(self@)
    }

    pub fn new() -> (t: Self)
        ensures
            t.wf(),
            forall|i: int|
                0 <= i < MAX_KERNEL_OBJECTS ==> #[trigger] t@[i] == empty_slot(),
    {
        let mut slots: Vec<ObjectSlot> = Vec::new();
        let mut i: usize = 0;
        while i < MAX_KERNEL_OBJECTS
            invariant
                i <= MAX_KERNEL_OBJECTS,
                slots@.len() == i,
                forall|j: int|
                    0 <= j < i ==> #[trigger] slots@[j] == empty_slot(),
            decreases MAX_KERNEL_OBJECTS - i,
        {
            slots.push(ObjectSlot::empty());
            i = i + 1;
        }
        ObjectTable { slots }
    }

    /// Create a new kernel object in the lowest free slot and return its
    /// handle; `None` when every slot is occupied.
    pub fn create(&mut self, object_type: ObjectType) -> (r: Option<ObjectHandle>)
        requires
            old(self).wf(),
        ensures
            final(self).wf(),
            final(self)@ == table_after(old(self)@, TableOp::Create(object_type)),
            match r {
                Some(h) => {
                    let i = h.spec_index() as int;
                    &&& 0 <= i < MAX_KERNEL_OBJECTS
                    &&& !old(self)@[i].occupied
                    &&& forall|j: int| 0 <= j < i ==> #[trigger] old(self)@[j].occupied
                    &&& h@ == encode_handle(i as usize, old(self)@[i].generation)
                    &&& h.spec_generation() == old(self)@[i].generation
                    &&& final(self)@ == old(self)@.update(
                        i,
                        created_slot(old(self)@[i], object_type),
                    )
                },
                None => {
                    &&& forall|j: int| 0 <= j < MAX_KERNEL_OBJECTS ==> #[trigger] old(self)@[j].occupied
                    &&& final(self)@ == old(self)@
                },
            },
    {
        let mut index: usize = 0;
        while index < MAX_KERNEL_OBJECTS
            invariant
                index <= MAX_KERNEL_OBJECTS,
                self.wf(),
                self@ == old(self)@,
                forall|j: int| 0 <= j < index ==> #[trigger] old(self)@[j].occupied,
            decreases MAX_KERNEL_OBJECTS - index,
        {
            let slot = self.slots[index];
            if slot.is_free() {
                let generation = slot.generation;
                let new_slot = ObjectSlot {
                    occupied: true,
                    generation,
                    record: Some(ObjectRecord::new(object_type)),
                };
                self.slots.set(index, new_slot);
                assert(slot_wf(old(self)@[index as int]));
                assert forall|j: int| 0 <= j < self@.len() implies #[trigger] slot_wf(self@[j]) by {
                    if j != index as int {
                        assert(slot_wf(old(self)@[j]));
                    }
                }
                proof {
                    assert(lowest_free(old(self)@, index as int));
                    let c = choose|i: int| lowest_free(old(self)@, i);
                    lemma_lowest_free_unique(old(self)@, c, index as int);
                }
                return Some(ObjectHandle::new(index, generation));
            }
            index = index + 1;
        }
        proof {
            assert forall|i: int| !lowest_free(old(self)@, i) by {
                if 0 <= i < MAX_KERNEL_OBJECTS {
                    assert(old(self)@[i].occupied);
                }
            }
        }
        None
    }

    /// Check whether a handle refers to a currently valid object.
    pub fn is_valid(&self, handle: ObjectHandle) -> (r: bool)
        requires
            self.wf(),
        ensures
            r == resolves(self@, handle),
    {
        if !handle.is_valid() {
            return false;
        }
        let index = handle.index();
        if index >= MAX_KERNEL_OBJECTS {
            return false;
        }
        let slot = &self.slots[index];
        slot.occupied && slot.generation == handle.generation()
    }

    /// Get the object type associated with a handle.
    pub fn get_type(&self, handle: ObjectHandle) -> (r: Option<ObjectType>)
        requires
            self.wf(),
        ensures
            r == if resolves(self@, handle) {
                Some(self@[handle.spec_index() as int].record.unwrap().object_type)
            } else {
                None
            },
    {
        if !handle.is_valid() {
            return None;
        }
        let index = handle.index();
        if index >= MAX_KERNEL_OBJECTS {
            return None;
        }
        let slot = &self.slots[index];
        if !slot.occupied || slot.generation != handle.generation() {
            return None;
        }
        assert(slot_wf(self@[index as int]));
        match slot.record {
            Some(record) => Some(record.object_type),
            None => None,
        }
    }

    /// Increase the reference count; fails on a stale handle or when the
    /// count is already at its maximum.
    pub fn retain(&mut self, handle: ObjectHandle) -> (r: bool)
        requires
            old(self).wf(),
        ensures
            final(self).wf(),
            final(self)@ == table_after(old(self)@, TableOp::Retain(handle)),
            r == (resolves(old(self)@, handle) && old(self)@[handle.spec_index() as int].record.unwrap().references
                < u32::MAX),
            r ==> final(self)@ == old(self)@.update(
                handle.spec_index() as int,
                retained_slot(old(self)@[handle.spec_index() as int]),
            ),
            !r ==> final(self)@ == old(self)@,
    {
        if !handle.is_valid() {
            return false;
        }
        let index = handle.index();
        if index >= MAX_KERNEL_OBJECTS {
            return false;
        }
        let slot = self.slots[index];
        if !slot.occupied || slot.generation != handle.generation() {
            return false;
        }
        assert(slot_wf(old(self)@[index as int]));
        match slot.record {
            Some(record) => {
                if record.references == u32::MAX {
                    return false;
                }
                let new_slot = ObjectSlot {
                    occupied: slot.occupied,
                    generation: slot.generation,
                    record: Some(
                        ObjectRecord {
                            object_type: record.object_type,
                            references: record.references + 1,
                        },
                    ),
                };
                self.slots.set(index, new_slot);
                assert forall|j: int| 0 <= j < self@.len() implies #[trigger] slot_wf(self@[j]) by {
                    if j != index as int {
                        assert(slot_wf(old(self)@[j]));
                    }
                }
                true
            },
            None => false,
        }
    }

    /// Decrease the reference count; when it reaches zero the slot is
    /// released and its generation advances.
    pub fn release(&mut self, handle: ObjectHandle) -> (r: bool)
        requires
            old(self).wf(),
        ensures
            final(self).wf(),
            final(self)@ == table_after(old(self)@, TableOp::Release(handle)),
            r == resolves(old(self)@, handle),
            r ==> final(self)@ == old(self)@.update(
                handle.spec_index() as int,
                released_slot(old(self)@[handle.spec_index() as int]),
            ),
            !r ==> final(self)@ == old(self)@,
    {
        if !handle.is_valid() {
            return false;
        }
        let index = handle.index();
        if index >= MAX_KERNEL_OBJECTS {
            return false;
        }
        let mut slot = self.slots[index];
        if !slot.occupied || slot.generation != handle.generation() {
            return false;
        }
        assert(slot_wf(old(self)@[index as int]));
        let should_destroy = match slot.record {
            Some(record) => {
                if record.references == 0 {
                    return false;
                }
                let references = record.references - 1;
                slot.record = Some(
                    ObjectRecord { object_type: record.object_type, references },
                );
                references == 0
            },
            None => false,
        };
        if should_destroy {
            slot.clear();
        }
        self.slots.set(index, slot);
        assert forall|j: int| 0 <= j < self@.len() implies #[trigger] slot_wf(self@[j]) by {
            if j != index as int {
                assert(slot_wf(old(self)@[j]));
            }
        }
        true
    }

    /// Explicitly destroy an object, whatever its reference count.
    pub fn destroy(&mut self, handle: ObjectHandle) -> (r: bool)
        requires
            old(self).wf(),
        ensures
            final(self).wf(),
            final(self)@ == table_after(old(self)@, TableOp::Destroy(handle)),
            r == resolves(old(self)@, handle),
            r ==> final(self)@ == old(self)@.update(
                handle.spec_index() as int,
                cleared_slot(old(self)@[handle.spec_index() as int]),
            ),
            !r ==> final(self)@ == old(self)@,
    {
        if !handle.is_valid() {
            return false;
        }
        let index = handle.index();
        if index >= MAX_KERNEL_OBJECTS {
            return false;
        }
        let mut slot = self.slots[index];
        if !slot.occupied || slot.generation != handle.generation() {
            return false;
        }
        assert(slot_wf(old(self)@[index as int]));
        slot.clear();
        self.slots.set(index, slot);
        assert forall|j: int| 0 <= j < self@.len() implies #[trigger] slot_wf(self@[j]) by {
            if j != index as int {
                assert(slot_wf(old(self)@[j]));
            }
        }
        true
    }

    /// Number of currently occupied object slots.
    pub fn count(&self) -> (r: usize)
        requires
            self.wf(),
        ensures
            r == occupied_count(self@),
    {
        let mut n: usize = 0;
        let mut i: usize = 0;
        while i < MAX_KERNEL_OBJECTS
            invariant
                i <= MAX_KERNEL_OBJECTS,
                self.wf(),
                n == occupied_count(self@.subrange(0, i as int)),
                n <= i,
            decreases MAX_KERNEL_OBJECTS - i,
        {
            assert(self@.subrange(0, i as int + 1).drop_last() =~= self@.subrange(0, i as int));
            if self.slots[i].occupied {
                n = n + 1;
            }
            i = i + 1;
        }
        assert(self@.subrange(0, MAX_KERNEL_OBJECTS as int) =~= self@);
        n
    }
}

} // verus!

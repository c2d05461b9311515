use vstd::prelude::*;

use super::task::{TaskId, TaskState};

verus! {

pub const MAX_TASKS: usize = 64;

/// Number of occupied slots.
pub open spec fn id_count(slots: Seq<Option<TaskId>>) -> nat
    decreases slots.len(),
{
    if slots.len() == 0 {
        0
    } else {
        id_count(slots.drop_last()) + if slots.last() is Some {
            1nat
        } else {
            0nat
        }
    }
}

/// Whether some slot holds `id`.
pub open spec fn holds(slots: Seq<Option<TaskId>>, id: TaskId) -> bool {
    exists|i: int| 0 <= i < slots.len() && slots[i] == Some(id)
}

/// No identifier occupies two slots.
pub open spec fn ids_distinct(slots: Seq<Option<TaskId>>) -> bool {
    forall|i: int, j: int|
        0 <= i < slots.len() && 0 <= j < slots.len() && i != j && slots[i] is Some ==> slots[i]
            != slots[j]
}

/// `i` is the lowest free slot.
pub open spec fn is_first_free(slots: Seq<Option<TaskId>>, i: int) -> bool {
    &&& 0 <= i < slots.len()
    &&& slots[i] is None
    &&& forall|j: int| 0 <= j < i ==> #[trigger] slots[j] is Some
}

/// The identifier in the lowest occupied slot, if any.
pub open spec fn first_id(slots: Seq<Option<TaskId>>) -> Option<TaskId>
    decreases slots.len(),
{
    if slots.len() == 0 {
        None
    } else if slots[0] is Some {
        slots[0]
    } else {
        first_id(slots.drop_first())
    }
}

/// The queued identifiers, in slot order.
pub open spec fn ids_of(slots: Seq<Option<TaskId>>) -> Seq<TaskId>
    decreases slots.len(),
{
    if slots.len() == 0 {
        Seq::empty()
    } else {
        match slots.last() {
            Some(id) => ids_of(slots.drop_last()).push(id),
            None => ids_of(slots.drop_last()),
        }
    }
}

/// `ids` in the first slots of `n`, the rest free.
pub open spec fn packed(ids: Seq<TaskId>, n: nat) -> Seq<Option<TaskId>> {
    Seq::new(n, |i: int| if i < ids.len() { Some(ids[i]) } else { None::<TaskId> })
}

/// One round-robin step over a sequence of identifiers: the first goes to
/// the back.
pub open spec fn rotate_ids(ids: Seq<TaskId>) -> Seq<TaskId> {
    ids.drop_first().push(ids[0])
}

/// Slots after one round-robin step: the queued identifiers, the first
/// moved behind the others, packed at the front.
pub open spec fn rotated(slots: Seq<Option<TaskId>>) -> Seq<Option<TaskId>> {
    packed(rotate_ids(ids_of(slots)), slots.len())
}

pub proof fn lemma_id_count_update(slots: Seq<Option<TaskId>>, i: int, v: Option<TaskId>)
    requires
        0 <= i < slots.len(),
    ensures
        id_count(slots.update(i, v)) + (if slots[i] is Some {
            1int
        } else {
            0int
        }) == id_count(slots) + (if v is Some {
            1int
        } else {
            0int
        }),
    decreases slots.len(),
{
    let u = slots.update(i, v);
    if i == slots.len() - 1 {
        assert(u.drop_last() =~= slots.drop_last());
    } else {
        assert(u.drop_last() =~= slots.drop_last().update(i, v));
        lemma_id_count_update(slots.drop_last(), i, v);
    }
}

/// The count never exceeds the number of slots, and equals it only when
/// every slot is occupied.
pub proof fn lemma_id_count_full(slots: Seq<Option<TaskId>>)
    ensures
        id_count(slots) <= slots.len(),
        id_count(slots) == slots.len() ==> forall|j: int|
            0 <= j < slots.len() ==> #[trigger] slots[j] is Some,
    decreases slots.len(),
{
    if slots.len() > 0 {
        lemma_id_count_full(slots.drop_last());
        if id_count(slots) == slots.len() {
            assert forall|j: int| 0 <= j < slots.len() implies #[trigger] slots[j] is Some by {
                if j < slots.len() - 1 {
                    assert(slots.drop_last()[j] == slots[j]);
                }
            }
        }
    }
}

/// The first occupied slot of a sequence, characterised by position.
pub proof fn lemma_first_id(slots: Seq<Option<TaskId>>)
    ensures
        first_id(slots) is None <==> forall|j: int|
            0 <= j < slots.len() ==> #[trigger] slots[j] is None,
        first_id(slots) is Some ==> exists|i: int|
            0 <= i < slots.len() && slots[i] == first_id(slots) && forall|j: int|
                0 <= j < i ==> #[trigger] slots[j] is None,
    decreases slots.len(),
{
    if slots.len() > 0 {
        lemma_first_id(slots.drop_first());
        if slots[0] is None {
            if first_id(slots) is None {
                assert forall|j: int| 0 <= j < slots.len() implies #[trigger] slots[j] is None by {
                    if j > 0 {
                        assert(slots.drop_first()[j - 1] == slots[j]);
                    }
                }
            } else {
                let k = choose|k: int|
                    0 <= k < slots.drop_first().len() && slots.drop_first()[k] == first_id(
                        slots.drop_first(),
                    ) && forall|j: int| 0 <= j < k ==> #[trigger] slots.drop_first()[j] is None;
                assert forall|j: int| 0 <= j < k + 1 implies #[trigger] slots[j] is None by {
                    if j > 0 {
                        assert(slots.drop_first()[j - 1] == slots[j]);
                    }
                }
                assert(slots[k + 1] == first_id(slots));
            }
        } else {
            assert(slots[0] is Some);
        }
    }
}

/// A fixed-size queue of runnable task identifiers.
pub struct RunQueue {
    tasks: [Option<TaskId>; MAX_TASKS],
    count: usize,
}

impl View for RunQueue {
    type V = Seq<Option<TaskId>>;

    closed spec fn view(&self) -> Seq<Option<TaskId>> {
        self.tasks@
    }
}

impl RunQueue {
    pub closed spec fn wf(&self) -> bool {
        &&& self.count == id_count(self.tasks@)
        &&& ids_distinct(self.tasks@)
    }

    /// Number of queued identifiers.
    pub open spec fn spec_len(&self) -> nat {
        id_count(self@)
    }

    pub proof fn lemma_wf(&self)
        requires
            self.wf(),
        ensures
            self@.len() == MAX_TASKS,
            ids_distinct(self@),
            self.spec_len() <= MAX_TASKS,
    {
        lemma_id_count_full(self@);
    }

    /// However `push`, `remove` and `rotate` filled it, a queue holds each
    /// queued task in one slot: its length is the number of distinct
    /// identifiers it holds, at most `MAX_TASKS`, and it is empty exactly
    /// when it has no first task.
    pub proof fn law_len_counts_queued_ids(&self)
        requires
            self.wf(),
        ensures
            self.spec_len() == ids_of(self@).len(),
            ids_of(self@).no_duplicates(),
            ids_of(self@).to_set() == Set::new(|id: TaskId| holds(self@, id)),
            self.spec_len() == Set::new(|id: TaskId| holds(self@, id)).len(),
            self.spec_len() <= MAX_TASKS,
            (self.spec_len() == 0) == (first_id(self@) is None),
    {
        self.lemma_wf();
        let slots = self@;
        let ids = ids_of(slots);
        lemma_ids_of(slots);
        lemma_first_id(slots);
        ids.unique_seq_to_set();
        assert(ids.to_set() =~= Set::new(|id: TaskId| holds(slots, id)));
        if ids.len() == 0 {
            assert forall|j: int| 0 <= j < slots.len() implies #[trigger] slots[j] is None by {
                if let Some(id) = slots[j] {
                    assert(holds(slots, id));
                    assert(ids.contains(id));
                }
            }
        } else {
            assert(ids.contains(ids[0]));
            assert(holds(slots, ids[0]));
        }
    }

    pub fn new() -> (q: Self)
        ensures
            q.wf(),
            q@ == Seq::new(MAX_TASKS as nat, |i: int| None::<TaskId>),
    {
        let q = RunQueue { tasks: [None; MAX_TASKS], count: 0 };
        assert(q@ =~= Seq::new(MAX_TASKS as nat, |i: int| None::<TaskId>));
        proof {
            lemma_count_none(q@);
        }
        q
    }

    /// Add a task in the lowest free slot; refused when the queue is full
    /// or already holds the task.
    pub fn push(&mut self, task_id: TaskId) -> (r: bool)
        requires
            old(self).wf(),
        ensures
            final(self).wf(),
            r == (old(self).spec_len() < MAX_TASKS && !holds(old(self)@, task_id)),
            r ==> exists|i: int|
                is_first_free(old(self)@, i) && final(self)@ == old(self)@.update(i, Some(task_id)),
            !r ==> final(self)@ == old(self)@,
    {
        proof {
            lemma_id_count_full(self@);
        }
        if self.count >= MAX_TASKS {
            return false;
        }
        let mut i: usize = 0;
        while i < MAX_TASKS
            invariant
                i <= MAX_TASKS,
                self@ == old(self)@,
                self.wf(),
                forall|j: int| 0 <= j < i ==> #[trigger] self@[j] != Some(task_id),
            decreases MAX_TASKS - i,
        {
            if self.tasks[i] == Some(task_id) {
                return false;
            }
            i = i + 1;
        }
        let mut i: usize = 0;
        while i < MAX_TASKS
            invariant
                i <= MAX_TASKS,
                self@ == old(self)@,
                self.wf(),
                self.count < MAX_TASKS,
                !holds(self@, task_id),
                forall|j: int| 0 <= j < i ==> #[trigger] self@[j] is Some,
            decreases MAX_TASKS - i,
        {
            if self.tasks[i].is_none() {
                self.tasks[i] = Some(task_id);
                proof {
                    lemma_id_count_update(old(self)@, i as int, Some(task_id));
                }
                self.count = self.count + 1;
                assert(is_first_free(old(self)@, i as int));
                return true;
            }
            i = i + 1;
        }
        proof {
            lemma_count_all_some(self@);
        }
        false
    }

    /// Remove a task; `false` when it is not queued.
    pub fn remove(&mut self, task_id: TaskId) -> (r: bool)
        requires
            old(self).wf(),
        ensures
            final(self).wf(),
            r == holds(old(self)@, task_id),
            r ==> exists|i: int|
                0 <= i < MAX_TASKS && old(self)@[i] == Some(task_id) && final(self)@ == old(self)@.update(i, None),
            !r ==> final(self)@ == old(self)@,
            !holds(final(self)@, task_id),
    {
        let mut i: usize = 0;
        while i < MAX_TASKS
            invariant
                i <= MAX_TASKS,
                self@ == old(self)@,
                self.wf(),
                forall|j: int| 0 <= j < i ==> #[trigger] self@[j] != Some(task_id),
            decreases MAX_TASKS - i,
        {
            if self.tasks[i] == Some(task_id) {
                self.tasks[i] = None;
                proof {
                    lemma_id_count_update(old(self)@, i as int, None);
                }
                self.count = self.count - 1;
                assert(!holds(self@, task_id)) by {
                    if holds(self@, task_id) {
                        let k = choose|k: int| 0 <= k < self@.len() && self@[k] == Some(task_id);
                        assert(k != i);
                        assert(old(self)@[k] == old(self)@[i as int]);
                    }
                }
                return true;
            }
            i = i + 1;
        }
        false
    }

    pub fn contains(&self, task_id: TaskId) -> (r: bool)
        requires
            self.wf(),
        ensures
            r == holds(self@, task_id),
    {
        let mut i: usize = 0;
        while i < MAX_TASKS
            invariant
                i <= MAX_TASKS,
                forall|j: int| 0 <= j < i ==> #[trigger] self@[j] != Some(task_id),
            decreases MAX_TASKS - i,
        {
            if self.tasks[i] == Some(task_id) {
                return true;
            }
            i = i + 1;
        }
        false
    }

    pub fn len(&self) -> (r: usize)
        requires
            self.wf(),
        ensures
            r == self.spec_len(),
    {
        self.count
    }

    pub fn is_empty(&self) -> (r: bool)
        requires
            self.wf(),
        ensures
            r == (self.spec_len() == 0),
    {
        self.count == 0
    }

    /// The task in the lowest occupied slot.
    pub fn first(&self) -> (r: Option<TaskId>)
        requires
            self.wf(),
        ensures
            r == first_id(self@),
    {
        proof {
            lemma_first_id(self@);
        }
        assert(self@.subrange(0, MAX_TASKS as int) =~= self@);
        let mut i: usize = 0;
        while i < MAX_TASKS
            invariant
                i <= MAX_TASKS,
                forall|j: int| 0 <= j < i ==> #[trigger] self@[j] is None,
                first_id(self@) == first_id(self@.subrange(i as int, MAX_TASKS as int)),
            decreases MAX_TASKS - i,
        {
            assert(self@.subrange(i as int, MAX_TASKS as int).drop_first() =~= self@.subrange(
                i as int + 1,
                MAX_TASKS as int,
            ));
            if let Some(task_id) = self.tasks[i] {
                return Some(task_id);
            }
            i = i + 1;
        }
        assert(self@.subrange(MAX_TASKS as int, MAX_TASKS as int).len() == 0);
        None
    }

    /// Round-robin step, when more than one task is queued: the first
    /// queued task goes behind the last one, and the queued tasks are
    /// packed at the front in that order.
    pub fn rotate(&mut self)
        requires
            old(self).wf(),
        ensures
            final(self).wf(),
            old(self).spec_len() <= 1 ==> final(self)@ == old(self)@,
            old(self).spec_len() > 1 ==> final(self)@ == rotated(old(self)@),
    {
        if self.count <= 1 {
            return;
        }
        proof {
            lemma_ids_of(old(self)@);
        }
        let mut slots: [Option<TaskId>; MAX_TASKS] = [None; MAX_TASKS];
        let mut first: Option<TaskId> = None;
        let mut n: usize = 0;
        let mut i: usize = 0;
        while i < MAX_TASKS
            invariant
                i <= MAX_TASKS,
                self@ == old(self)@,
                self@.len() == MAX_TASKS,
                slots@.len() == MAX_TASKS,
                first is None ==> ids_of(self@.subrange(0, i as int)).len() == 0,
                first is Some ==> ids_of(self@.subrange(0, i as int)).len() > 0 && first == Some(
                    ids_of(self@.subrange(0, i as int))[0],
                ) && n + 1 == ids_of(self@.subrange(0, i as int)).len(),
                first is None ==> n == 0,
                forall|j: int|
                    0 <= j < MAX_TASKS ==> #[trigger] slots@[j] == if j < n {
                        Some(ids_of(self@.subrange(0, i as int))[j + 1])
                    } else {
                        None::<TaskId>
                    },
                ids_of(self@.subrange(0, i as int)).len() <= i,
            decreases MAX_TASKS - i,
        {
            let ghost prefix = self@.subrange(0, i as int);
            assert(self@.subrange(0, i + 1).drop_last() =~= prefix);
            assert(self@.subrange(0, i + 1).last() == self@[i as int]);
            if let Some(id) = self.tasks[i] {
                if first.is_none() {
                    first = Some(id);
                } else {
                    slots[n] = Some(id);
                    n = n + 1;
                }
            }
            i = i + 1;
        }
        assert(self@.subrange(0, MAX_TASKS as int) =~= old(self)@);
        slots[n] = first;
        let ghost ids = ids_of(old(self)@);
        self.tasks = slots;
        assert(self@ =~= rotated(old(self)@));
        proof {
            lemma_rotated_wf(old(self)@);
        }
    }

    /// `Ready` for a queued task, `None` otherwise.
    pub fn state_for(&self, task_id: TaskId) -> (r: Option<TaskState>)
        requires
            self.wf(),
        ensures
            r == if holds(self@, task_id) {
                Some(TaskState::Ready)
            } else {
                None
            },
    {
        if self.contains(task_id) {
            Some(TaskState::Ready)
        } else {
            None
        }
    }
}

pub proof fn lemma_count_none(slots: Seq<Option<TaskId>>)
    requires
        forall|j: int| 0 <= j < slots.len() ==> #[trigger] slots[j] is None,
    ensures
        id_count(slots) == 0,
        ids_distinct(slots),
    decreases slots.len(),
{
    if slots.len() > 0 {
        assert forall|j: int| 0 <= j < slots.drop_last().len() implies #[trigger] slots.drop_last()[j] is None by {
            assert(slots.drop_last()[j] == slots[j]);
        }
        lemma_count_none(slots.drop_last());
    }
}

/// A sequence whose slots are all occupied counts every slot.
pub proof fn lemma_count_all_some(slots: Seq<Option<TaskId>>)
    requires
        forall|j: int| 0 <= j < slots.len() ==> #[trigger] slots[j] is Some,
    ensures
        id_count(slots) == slots.len(),
    decreases slots.len(),
{
    if slots.len() > 0 {
        assert forall|j: int| 0 <= j < slots.drop_last().len() implies #[trigger] slots.drop_last()[j] is Some by {
            assert(slots.drop_last()[j] == slots[j]);
        }
        lemma_count_all_some(slots.drop_last());
    }
}

/// The queued identifiers: as many as the occupied slots, exactly the
/// held ones, and distinct when the slots are.
pub proof fn lemma_ids_of(slots: Seq<Option<TaskId>>)
    ensures
        ids_of(slots).len() == id_count(slots),
        ids_of(slots).len() <= slots.len(),
        forall|id: TaskId| holds(slots, id) <==> ids_of(slots).contains(id),
        ids_distinct(slots) ==> ids_of(slots).no_duplicates(),
    decreases slots.len(),
{
    if slots.len() > 0 {
        let d = slots.drop_last();
        lemma_ids_of(d);
        assert forall|id: TaskId| holds(slots, id) <==> ids_of(slots).contains(id) by {
            if holds(slots, id) {
                let k = choose|k: int| 0 <= k < slots.len() && slots[k] == Some(id);
                if k < slots.len() - 1 {
                    assert(d[k] == Some(id));
                    assert(holds(d, id));
                    let m = choose|m: int| 0 <= m < ids_of(d).len() && ids_of(d)[m] == id;
                    assert(ids_of(slots)[m] == id);
                } else {
                    assert(ids_of(slots)[ids_of(slots).len() - 1] == id);
                }
            }
            if ids_of(slots).contains(id) {
                let m = choose|m: int| 0 <= m < ids_of(slots).len() && ids_of(slots)[m] == id;
                if m < ids_of(d).len() {
                    assert(ids_of(d)[m] == id);
                    assert(ids_of(d).contains(id));
                    assert(holds(d, id));
                    let k = choose|k: int| 0 <= k < d.len() && d[k] == Some(id);
                    assert(slots[k] == d[k]);
                    assert(holds(slots, id));
                } else {
                    assert(slots[slots.len() - 1] == Some(id));
                }
            }
        }
        if ids_distinct(slots) {
            assert forall|i: int, j: int| 0 <= i < d.len() && 0 <= j < d.len() && i != j && d[i] is Some implies d[i] != d[j] by {
                assert(d[i] == slots[i] && d[j] == slots[j]);
            }
            if let Some(id) = slots.last() {
                assert(!ids_of(d).contains(id)) by {
                    if ids_of(d).contains(id) {
                        assert(holds(d, id));
                        let k = choose|k: int| 0 <= k < d.len() && d[k] == Some(id);
                        assert(slots[k] == d[k]);
                        assert(slots[k] == slots[slots.len() - 1]);
                        assert(k != slots.len() - 1);
                    }
                }
                let s = ids_of(slots);
                assert forall|i: int, j: int| 0 <= i < s.len() && 0 <= j < s.len() && i != j implies s[i] != s[j] by {
                    if i < s.len() - 1 && j < s.len() - 1 {
                        assert(s[i] == ids_of(d)[i] && s[j] == ids_of(d)[j]);
                    } else if i < s.len() - 1 {
                        assert(s[i] == ids_of(d)[i]);
                    } else if j < s.len() - 1 {
                        assert(s[j] == ids_of(d)[j]);
                    }
                }
            }
        }
    }
}

/// Packed identifiers: their count, which identifiers are held, the
/// lowest occupied slot, and that reading them back gives them again.
pub proof fn lemma_packed(ids: Seq<TaskId>, n: nat)
    requires
        ids.len() <= n,
    ensures
        ids_of(packed(ids, n)) == ids,
        id_count(packed(ids, n)) == ids.len(),
        forall|id: TaskId| holds(packed(ids, n), id) <==> ids.contains(id),
        ids.no_duplicates() ==> ids_distinct(packed(ids, n)),
        ids.len() > 0 ==> first_id(packed(ids, n)) == Some(ids[0]),
    decreases n,
{
    let p = packed(ids, n);
    if n > 0 {
        if ids.len() == n {
            lemma_packed(ids.drop_last(), (n - 1) as nat);
            assert(p.drop_last() =~= packed(ids.drop_last(), (n - 1) as nat));
            assert(p.last() == Some(ids[n - 1]));
            assert(ids_of(p) =~= ids);
        } else {
            lemma_packed(ids, (n - 1) as nat);
            assert(p.drop_last() =~= packed(ids, (n - 1) as nat));
            assert(p.last() is None);
        }
    } else {
        assert(ids_of(p) =~= ids);
    }
    lemma_ids_of(p);
    if ids.no_duplicates() {
        assert forall|i: int, j: int| 0 <= i < p.len() && 0 <= j < p.len() && i != j && p[i] is Some implies p[i] != p[j] by {
            if j < ids.len() {
                assert(ids[i] != ids[j]);
            }
        }
    }
    if ids.len() > 0 {
        assert(p[0] == Some(ids[0]));
    }
}

/// Rotating the identifiers keeps them, their number and their
/// distinctness.
proof fn lemma_rotate_ids(ids: Seq<TaskId>)
    requires
        ids.len() > 0,
    ensures
        rotate_ids(ids).len() == ids.len(),
        forall|id: TaskId| rotate_ids(ids).contains(id) <==> ids.contains(id),
        ids.no_duplicates() ==> rotate_ids(ids).no_duplicates(),
{
    let r = rotate_ids(ids);
    let last = ids.len() - 1;
    assert forall|k: int| 0 <= k < r.len() implies #[trigger] r[k] == ids[if k == last { 0 } else { k + 1 }] by {}
    assert forall|id: TaskId| r.contains(id) <==> ids.contains(id) by {
        if r.contains(id) {
            let k = choose|k: int| 0 <= k < r.len() && r[k] == id;
            assert(ids[if k == last { 0 } else { k + 1 }] == id);
        }
        if ids.contains(id) {
            let k = choose|k: int| 0 <= k < ids.len() && ids[k] == id;
            assert(r[if k == 0 { last } else { k - 1 }] == id);
        }
    }
    if ids.no_duplicates() {
        assert forall|i: int, j: int| 0 <= i < r.len() && 0 <= j < r.len() && i != j implies r[i] != r[j] by {
            assert(r[i] == ids[if i == last { 0 } else { i + 1 }]);
            assert(r[j] == ids[if j == last { 0 } else { j + 1 }]);
        }
    }
}

/// A round-robin step keeps the count, the held identifiers and their
/// distinctness.
pub proof fn lemma_rotated_wf(slots: Seq<Option<TaskId>>)
    requires
        id_count(slots) > 0,
        ids_distinct(slots),
    ensures
        id_count(rotated(slots)) == id_count(slots),
        ids_distinct(rotated(slots)),
        forall|id: TaskId| holds(rotated(slots), id) <==> holds(slots, id),
        ids_of(rotated(slots)) == rotate_ids(ids_of(slots)),
{
    let ids = ids_of(slots);
    lemma_ids_of(slots);
    lemma_rotate_ids(ids);
    lemma_packed(rotate_ids(ids), slots.len());
}

/// Counting from the front agrees with counting from the back.
pub proof fn lemma_id_count_first(slots: Seq<Option<TaskId>>)
    requires
        slots.len() > 0,
    ensures
        id_count(slots) == id_count(slots.drop_first()) + if slots[0] is Some {
            1nat
        } else {
            0nat
        },
    decreases slots.len(),
{
    if slots.len() == 1 {
        assert(slots.drop_first().len() == 0);
        assert(slots.drop_last().len() == 0);
        assert(slots.last() == slots[0]);
        assert(id_count(slots.drop_last()) == 0);
        assert(id_count(slots.drop_first()) == 0);
    } else {
        let dl = slots.drop_last();
        let df = slots.drop_first();
        lemma_id_count_first(dl);
        assert(dl.drop_first() =~= df.drop_last());
        assert(df.last() == slots.last());
        assert(dl[0] == slots[0]);
        assert(id_count(slots) == id_count(dl) + if slots.last() is Some {
            1nat
        } else {
            0nat
        });
        assert(id_count(df) == id_count(df.drop_last()) + if df.last() is Some {
            1nat
        } else {
            0nat
        });
    }
}

/// Rotation keeps the queued tasks and their number, and is round robin:
/// the identifiers come out in queue order with the first moved behind
/// the others, so the next task is the one queued after the first.
pub proof fn law_rotate_keeps_tasks(slots: Seq<Option<TaskId>>)
    requires
        slots.len() == MAX_TASKS,
        ids_distinct(slots),
        id_count(slots) > 1,
    ensures
        id_count(rotated(slots)) == id_count(slots),
        forall|id: TaskId| holds(rotated(slots), id) <==> holds(slots, id),
        ids_of(rotated(slots)) == rotate_ids(ids_of(slots)),
        first_id(rotated(slots)) == Some(ids_of(slots)[1]),
{
    lemma_rotated_wf(slots);
    lemma_ids_of(slots);
    lemma_rotate_ids(ids_of(slots));
    lemma_packed(rotate_ids(ids_of(slots)), slots.len());
}

/// `ids` after `n` round-robin steps.
pub open spec fn rotate_ids_n(ids: Seq<TaskId>, n: nat) -> Seq<TaskId>
    decreases n,
{
    if n == 0 {
        ids
    } else {
        rotate_ids(rotate_ids_n(ids, (n - 1) as nat))
    }
}

/// After `k` round-robin steps over `ids` (at most one full turn), the
/// identifiers from position `k` come first, then the ones before it:
/// each task reaches the front once per turn, in queue order.
pub proof fn law_round_robin_cycle(ids: Seq<TaskId>, k: nat)
    requires
        k <= ids.len(),
        ids.len() > 0,
    ensures
        rotate_ids_n(ids, k) == ids.subrange(k as int, ids.len() as int) + ids.subrange(0, k as int),
        k < ids.len() ==> rotate_ids_n(ids, k)[0] == ids[k as int],
    decreases k,
{
    if k == 0 {
        assert(ids.subrange(0, ids.len() as int) + ids.subrange(0, 0) =~= ids);
    } else {
        law_round_robin_cycle(ids, (k - 1) as nat);
        let prev = rotate_ids_n(ids, (k - 1) as nat);
        assert(rotate_ids(prev) =~= ids.subrange(k as int, ids.len() as int) + ids.subrange(0, k as int));
    }
}

/// Removing a task right after queueing it restores the queue.
pub proof fn law_remove_undoes_push(slots: Seq<Option<TaskId>>, i: int, id: TaskId)
    requires
        slots.len() == MAX_TASKS,
        ids_distinct(slots),
        is_first_free(slots, i),
        !holds(slots, id),
    ensures
        holds(slots.update(i, Some(id)), id),
        slots.update(i, Some(id)).update(i, None) == slots,
        forall|k: int|
            0 <= k < MAX_TASKS && slots.update(i, Some(id))[k] == Some(id) ==> k == i,
{
    assert(slots.update(i, Some(id))[i] == Some(id));
    assert(slots.update(i, Some(id)).update(i, None) =~= slots);
}

} // verus!

use vstd::prelude::*;

use super::queue::{
    first_id, holds, id_count, ids_distinct, is_first_free, lemma_count_none, lemma_first_id,
    lemma_rotated_wf, rotated, RunQueue, MAX_TASKS,
};
use super::task::{Task, TaskId, TaskState};

verus! {

pub const MAX_SCHEDULER_TASKS: usize = 8;

pub const DEFAULT_TIME_SLICE_TICKS: u64 = 5;

/// `i` is the lowest slot holding a task with identifier `id`.
pub open spec fn is_first_with_id(tasks: Seq<Option<Task>>, id: TaskId, i: int) -> bool {
    &&& 0 <= i < tasks.len()
    &&& tasks[i] is Some
    &&& tasks[i].unwrap().id == id
    &&& forall|j: int|
        0 <= j < i ==> !(#[trigger] tasks[j] is Some && tasks[j].unwrap().id == id)
}

/// Whether some slot holds a task with identifier `id`.
pub open spec fn has_task(tasks: Seq<Option<Task>>, id: TaskId) -> bool {
    exists|i: int| 0 <= i < tasks.len() && tasks[i] is Some && tasks[i].unwrap().id == id
}

/// The slot found when looking a task up by identifier.
pub open spec fn task_index(tasks: Seq<Option<Task>>, id: TaskId) -> int {
    choose|i: int| is_first_with_id(tasks, id, i)
}

/// `i` is the lowest empty task slot.
pub open spec fn is_first_empty(tasks: Seq<Option<Task>>, i: int) -> bool {
    &&& 0 <= i < tasks.len()
    &&& tasks[i] is None
    &&& forall|j: int| 0 <= j < i ==> #[trigger] tasks[j] is Some
}

/// Number of occupied task slots.
pub open spec fn stored_count(tasks: Seq<Option<Task>>) -> nat
    decreases tasks.len(),
{
    if tasks.len() == 0 {
        0
    } else {
        stored_count(tasks.drop_last()) + if tasks.last() is Some {
            1nat
        } else {
            0nat
        }
    }
}

/// No two stored tasks share an identifier.
pub open spec fn task_ids_distinct(tasks: Seq<Option<Task>>) -> bool {
    forall|i: int, j: int|
        0 <= i < tasks.len() && 0 <= j < tasks.len() && i != j && tasks[i] is Some
            && tasks[j] is Some ==> tasks[i].unwrap().id != tasks[j].unwrap().id
}

/// The run queue and the task table describe the same set of tasks, and
/// the task count is their number.
pub open spec fn synced(queue: Seq<Option<TaskId>>, tasks: Seq<Option<Task>>, count: usize) -> bool {
    &&& count == stored_count(tasks)
    &&& task_ids_distinct(tasks)
    &&& forall|id: TaskId| #[trigger] holds(queue, id) <==> has_task(tasks, id)
}

/// The identifiers of the stored tasks.
pub open spec fn stored_ids(tasks: Seq<Option<Task>>) -> Set<TaskId> {
    Set::new(|id: TaskId| has_task(tasks, id))
}

/// With distinct identifiers, the stored tasks are as many as their
/// identifiers.
proof fn lemma_stored_ids(tasks: Seq<Option<Task>>)
    requires
        task_ids_distinct(tasks),
    ensures
        stored_ids(tasks).finite(),
        stored_ids(tasks).len() == stored_count(tasks),
    decreases tasks.len(),
{
    if tasks.len() == 0 {
        assert(stored_ids(tasks) =~= Set::<TaskId>::empty());
    } else {
        let d = tasks.drop_last();
        let n = tasks.len() - 1;
        assert forall|i: int, j: int|
            0 <= i < d.len() && 0 <= j < d.len() && i != j && d[i] is Some && d[j] is Some implies d[i].unwrap().id
            != d[j].unwrap().id by {
            assert(d[i] == tasks[i] && d[j] == tasks[j]);
        }
        lemma_stored_ids(d);
        assert forall|id: TaskId| has_task(d, id) implies has_task(tasks, id) by {
            let k = choose|k: int| 0 <= k < d.len() && d[k] is Some && d[k].unwrap().id == id;
            assert(tasks[k] == d[k]);
        }
        assert forall|id: TaskId| has_task(tasks, id) && !has_task(d, id) implies tasks[n] is Some
            && tasks[n].unwrap().id == id by {
            let k = choose|k: int| 0 <= k < tasks.len() && tasks[k] is Some && tasks[k].unwrap().id == id;
            if k < n {
                assert(d[k] == tasks[k]);
            }
        }
        if tasks[n] is None {
            assert(stored_ids(tasks) =~= stored_ids(d));
        } else {
            let id = tasks[n].unwrap().id;
            assert(has_task(tasks, id));
            assert(!has_task(d, id)) by {
                if has_task(d, id) {
                    let k = choose|k: int| 0 <= k < d.len() && d[k] is Some && d[k].unwrap().id == id;
                    assert(tasks[k] == d[k]);
                }
            }
            assert(stored_ids(tasks) =~= stored_ids(d).insert(id));
        }
    }
}

/// A task after one timer tick was charged to it.
pub open spec fn ticked_task(t: Task) -> Task {
    Task {
        total_ticks: t.total_ticks.wrapping_add(1),
        time_slice_ticks: t.time_slice_ticks.wrapping_add(1),
        ..t
    }
}

/// A task that was interrupted with its frame at `rsp`.
pub open spec fn interrupted_task(t: Task, rsp: u64) -> Task {
    Task { interrupt_rsp: rsp, state: TaskState::Running, ..t }
}

/// A task that keeps (or takes) the CPU with a fresh time slice.
pub open spec fn running_task(t: Task) -> Task {
    Task { state: TaskState::Running, time_slice_ticks: 0, ..t }
}

/// A task with a different state.
pub open spec fn task_in_state(t: Task, s: TaskState) -> Task {
    Task { state: s, ..t }
}

/// Apply `f` to the first task with identifier `id`, when there is one.
pub open spec fn map_task(tasks: Seq<Option<Task>>, id: TaskId, f: spec_fn(Task) -> Task) -> Seq<
    Option<Task>,
> {
    if has_task(tasks, id) {
        let i = task_index(tasks, id);
        tasks.update(i, Some(f(tasks[i].unwrap())))
    } else {
        tasks
    }
}

pub proof fn lemma_task_index(tasks: Seq<Option<Task>>, id: TaskId)
    requires
        has_task(tasks, id),
    ensures
        is_first_with_id(tasks, id, task_index(tasks, id)),
{
    let k = choose|k: int| 0 <= k < tasks.len() && tasks[k] is Some && tasks[k].unwrap().id == id;
    lemma_first_with_id_exists(tasks, id, k);
}

proof fn lemma_first_with_id_exists(tasks: Seq<Option<Task>>, id: TaskId, k: int)
    requires
        0 <= k < tasks.len(),
        tasks[k] is Some,
        tasks[k].unwrap().id == id,
    ensures
        exists|i: int| is_first_with_id(tasks, id, i),
    decreases k,
{
    if forall|j: int| 0 <= j < k ==> !(#[trigger] tasks[j] is Some && tasks[j].unwrap().id == id) {
        assert(is_first_with_id(tasks, id, k));
    } else {
        let j = choose|j: int| 0 <= j < k && (#[trigger] tasks[j] is Some && tasks[j].unwrap().id == id);
        lemma_first_with_id_exists(tasks, id, j);
    }
}

pub proof fn lemma_first_with_id_unique(tasks: Seq<Option<Task>>, id: TaskId, i: int, j: int)
    requires
        is_first_with_id(tasks, id, i),
        is_first_with_id(tasks, id, j),
    ensures
        i == j,
{
    if i < j {
        assert(tasks[i] is Some && tasks[i].unwrap().id == id);
    } else if j < i {
        assert(tasks[j] is Some && tasks[j].unwrap().id == id);
    }
}

pub proof fn lemma_stored_count_update(tasks: Seq<Option<Task>>, i: int, v: Option<Task>)
    requires
        0 <= i < tasks.len(),
    ensures
        stored_count(tasks.update(i, v)) + (if tasks[i] is Some {
            1int
        } else {
            0int
        }) == stored_count(tasks) + (if v is Some {
            1int
        } else {
            0int
        }),
    decreases tasks.len(),
{
    let u = tasks.update(i, v);
    if i == tasks.len() - 1 {
        assert(u.drop_last() =~= tasks.drop_last());
    } else {
        assert(u.drop_last() =~= tasks.drop_last().update(i, v));
        lemma_stored_count_update(tasks.drop_last(), i, v);
    }
}

pub proof fn lemma_stored_count_bound(tasks: Seq<Option<Task>>)
    ensures
        stored_count(tasks) <= tasks.len(),
    decreases tasks.len(),
{
    if tasks.len() > 0 {
        lemma_stored_count_bound(tasks.drop_last());
    }
}

/// Replacing a stored task by one with the same identifier changes no
/// lookup result.
pub proof fn lemma_update_same_id(tasks: Seq<Option<Task>>, i: int, t: Task, id: TaskId)
    requires
        0 <= i < tasks.len(),
        tasks[i] is Some,
        tasks[i].unwrap().id == t.id,
    ensures
        has_task(tasks.update(i, Some(t)), id) == has_task(tasks, id),
        has_task(tasks, id) ==> task_index(tasks.update(i, Some(t)), id) == task_index(tasks, id),
{
    let u = tasks.update(i, Some(t));
    if has_task(u, id) {
        let m = choose|m: int| 0 <= m < u.len() && u[m] is Some && u[m].unwrap().id == id;
        assert(tasks[m] is Some && tasks[m].unwrap().id == id);
    }
    if has_task(tasks, id) {
        let m = choose|m: int| 0 <= m < tasks.len() && tasks[m] is Some && tasks[m].unwrap().id == id;
        assert(u[m] is Some && u[m].unwrap().id == id);
        lemma_task_index(tasks, id);
        lemma_task_index(u, id);
        let a = task_index(tasks, id);
        let b = task_index(u, id);
        assert(is_first_with_id(u, id, a)) by {
            assert forall|j: int| 0 <= j < a implies !(#[trigger] u[j] is Some && u[j].unwrap().id == id) by {
                assert(!(tasks[j] is Some && tasks[j].unwrap().id == id));
            }
        }
        lemma_first_with_id_unique(u, id, a, b);
    }
}

/// A task switch the timer interrupt proposes: the task that was running,
/// the task chosen next, and the address of the next task's saved frame.
#[derive(Clone, Copy, PartialEq, Eq, Structural)]
pub struct PreemptCandidate {
    pub current: TaskId,
    pub next: TaskId,
    pub next_rsp: u64,
}

/// `new` holds a task where `old` does, each with the same total tick
/// count.
pub open spec fn total_ticks_kept(old: Seq<Option<Task>>, new: Seq<Option<Task>>) -> bool {
    &&& new.len() == old.len()
    &&& forall|j: int|
        0 <= j < old.len() ==> (#[trigger] new[j] is Some) == (old[j] is Some) && (old[j] is Some
            ==> new[j].unwrap().total_ticks == old[j].unwrap().total_ticks)
}

/// Giving a task the CPU, or taking it away, changes its state and
/// possibly its time slice, never its total tick count or anything else
/// about it; a timer tick adds one (wrapping) to both tick counts.
pub proof fn law_cpu_handover_keeps_total_ticks(t: Task, s: TaskState)
    ensures
        running_task(t).total_ticks == t.total_ticks,
        running_task(t).time_slice_ticks == 0,
        running_task(t).state == TaskState::Running,
        running_task(t).id == t.id && running_task(t).interrupt_rsp == t.interrupt_rsp
            && running_task(t).context == t.context && running_task(t).priority == t.priority,
        task_in_state(t, s).total_ticks == t.total_ticks,
        task_in_state(t, s).time_slice_ticks == t.time_slice_ticks,
        task_in_state(t, s).state == s && task_in_state(t, s).id == t.id,
        t.total_ticks < u64::MAX ==> ticked_task(t).total_ticks == t.total_ticks + 1,
        t.time_slice_ticks < u64::MAX ==> ticked_task(t).time_slice_ticks == t.time_slice_ticks + 1,
        ticked_task(t).id == t.id && ticked_task(t).state == t.state,
{
}

/// Changing one task by a step that keeps its total tick count keeps
/// every task's total tick count.
proof fn lemma_map_task_keeps_total_ticks(tasks: Seq<Option<Task>>, id: TaskId, f: spec_fn(Task) -> Task)
    requires
        forall|t: Task| #[trigger] f(t).total_ticks == t.total_ticks,
    ensures
        total_ticks_kept(tasks, map_task(tasks, id, f)),
{
    if has_task(tasks, id) {
        lemma_task_index(tasks, id);
        let i = task_index(tasks, id);
        assert(f(tasks[i].unwrap()).total_ticks == tasks[i].unwrap().total_ticks);
    }
}

/// Tasks after the interrupted task `id` keeps the CPU with a fresh slice.
pub open spec fn keep_running(tasks: Seq<Option<Task>>, id: TaskId) -> Seq<Option<Task>> {
    map_task(tasks, id, |t: Task| running_task(t))
}

/// Tasks after the timer interrupt saved `rsp` into the current task `id`
/// and charged it one tick.
pub open spec fn interrupted_tasks(tasks: Seq<Option<Task>>, id: TaskId, rsp: u64) -> Seq<
    Option<Task>,
> {
    map_task(tasks, id, |t: Task| ticked_task(interrupted_task(t, rsp)))
}

/// The queue after a scheduling step.
pub open spec fn scheduled_queue(queue: Seq<Option<TaskId>>) -> Seq<Option<TaskId>> {
    if id_count(queue) > 1 {
        rotated(queue)
    } else {
        queue
    }
}

/// Round-robin scheduler over a fixed task table.
pub struct Scheduler {
    run_queue: RunQueue,
    current_task: Option<TaskId>,
    task_count: usize,
    scheduler_ticks: u64,
    tasks: Vec<Option<Task>>,
}

impl Scheduler {
    /// Slots of the run queue.
    pub closed spec fn queue(&self) -> Seq<Option<TaskId>> {
        self.run_queue@
    }

    /// The task table.
    pub closed spec fn tasks(&self) -> Seq<Option<Task>> {
        self.tasks@
    }

    pub closed spec fn spec_current(&self) -> Option<TaskId> {
        self.current_task
    }

    pub closed spec fn spec_task_count(&self) -> usize {
        self.task_count
    }

    pub closed spec fn spec_ticks(&self) -> u64 {
        self.scheduler_ticks
    }

    pub closed spec fn wf(&self) -> bool {
        &&& self.run_queue.wf()
        &&& self.tasks@.len() == MAX_SCHEDULER_TASKS
        &&& self.task_count <= MAX_SCHEDULER_TASKS
    }

    /// Shape facts every well-formed scheduler satisfies.
    pub proof fn lemma_wf(&self)
        requires
            self.wf(),
        ensures
            self.queue().len() == MAX_TASKS,
            ids_distinct(self.queue()),
            id_count(self.queue()) <= MAX_TASKS,
            self.tasks().len() == MAX_SCHEDULER_TASKS,
            self.spec_task_count() <= MAX_SCHEDULER_TASKS,
    {
        self.run_queue.lemma_wf();
    }

    pub open spec fn is_synced(&self) -> bool {
        synced(self.queue(), self.tasks(), self.spec_task_count())
    }

    /// The current task, if any, is queued.
    pub open spec fn current_queued(&self) -> bool {
        self.spec_current() matches Some(id) ==> holds(self.queue(), id)
    }

    /// Every operation keeps the run queue and the task table in step and
    /// the current task queued (`finish_preemption` when handed a
    /// candidate of `begin_preemption`), so from `new` on: the task count
    /// is the number of stored tasks, no identifier is stored twice, a task
    /// can be made current exactly when it is stored, there is a task to
    /// run exactly when one is stored, and the current task is stored.
    pub proof fn law_synced_scheduler(&self)
        requires
            self.wf(),
            self.is_synced(),
            self.current_queued(),
        ensures
            stored_ids(self.tasks()).finite(),
            self.spec_task_count() == stored_ids(self.tasks()).len(),
            self.spec_task_count() <= MAX_SCHEDULER_TASKS,
            task_ids_distinct(self.tasks()),
            forall|id: TaskId| holds(self.queue(), id) <==> #[trigger] has_task(self.tasks(), id),
            (id_count(self.queue()) > 0) == (self.spec_task_count() > 0),
            self.spec_current() matches Some(id) ==> has_task(self.tasks(), id),
    {
        self.lemma_wf();
        lemma_stored_ids(self.tasks());
        assert forall|id: TaskId| holds(self.queue(), id) <==> #[trigger] has_task(self.tasks(), id) by {
            assert(holds(self.queue(), id) <==> has_task(self.tasks(), id));
        }
        super::queue::lemma_ids_of(self.queue());
        let ids = super::queue::ids_of(self.queue());
        if id_count(self.queue()) > 0 {
            assert(ids.contains(ids[0]));
            assert(holds(self.queue(), ids[0]));
            assert(stored_ids(self.tasks()).contains(ids[0]));
        }
        if self.spec_task_count() > 0 {
            let id = stored_ids(self.tasks()).choose();
            assert(stored_ids(self.tasks()).contains(id));
            assert(holds(self.queue(), id));
            assert(ids.contains(id));
        }
    }

    pub fn new() -> (s: Self)
        ensures
            s.wf(),
            s.is_synced(),
            s.queue() == Seq::new(MAX_TASKS as nat, |i: int| None::<TaskId>),
            s.tasks() == Seq::new(MAX_SCHEDULER_TASKS as nat, |i: int| None::<Task>),
            s.spec_current() is None,
            s.current_queued(),
            s.spec_task_count() == 0,
            s.spec_ticks() == 0,
    {
        let mut tasks: Vec<Option<Task>> = Vec::new();
        let mut i: usize = 0;
        while i < MAX_SCHEDULER_TASKS
            invariant
                i <= MAX_SCHEDULER_TASKS,
                tasks@.len() == i,
                forall|j: int| 0 <= j < i ==> #[trigger] tasks@[j] is None,
            decreases MAX_SCHEDULER_TASKS - i,
        {
            tasks.push(None);
            i = i + 1;
        }
        let s = Scheduler {
            run_queue: RunQueue::new(),
            current_task: None,
            task_count: 0,
            scheduler_ticks: 0,
            tasks,
        };
        assert(s.tasks() =~= Seq::new(MAX_SCHEDULER_TASKS as nat, |i: int| None::<Task>));
        proof {
            lemma_none_tasks(s.tasks());
            assert forall|id: TaskId| #[trigger] holds(s.queue(), id) <==> has_task(s.tasks(), id) by {
                if holds(s.queue(), id) {
                    let k = choose|k: int| 0 <= k < s.queue().len() && s.queue()[k] == Some(id);
                    assert(s.queue()[k] is None);
                }
            }
        }
        s
    }

    /// Store a task and queue it; `None` when the table is full, the queue
    /// refuses it (full, or its identifier already queued), or no slot is
    /// free.
    pub fn create_task(&mut self, task: Task) -> (r: Option<TaskId>)
        requires
            old(self).wf(),
        ensures
            final(self).wf(),
            final(self).spec_current() == old(self).spec_current(),
            final(self).spec_ticks() == old(self).spec_ticks(),
            r is Some ==> {
                &&& r == Some(task.id)
                &&& old(self).spec_task_count() < MAX_SCHEDULER_TASKS
                &&& !holds(old(self).queue(), task.id)
                &&& final(self).spec_task_count() == old(self).spec_task_count() + 1
                &&& exists|q: int|
                    is_first_free(old(self).queue(), q) && final(self).queue() == old(self).queue().update(q, Some(task.id))
                &&& exists|i: int|
                    is_first_empty(old(self).tasks(), i) && final(self).tasks() == old(self).tasks().update(i, Some(task))
            },
            r is None ==> {
                &&& final(self).queue() == old(self).queue()
                &&& final(self).tasks() == old(self).tasks()
                &&& final(self).spec_task_count() == old(self).spec_task_count()
                &&& (old(self).spec_task_count() >= MAX_SCHEDULER_TASKS || id_count(
                    old(self).queue(),
                ) >= MAX_TASKS || holds(old(self).queue(), task.id) || forall|j: int|
                    0 <= j < MAX_SCHEDULER_TASKS ==> #[trigger] old(self).tasks()[j] is Some)
            },
            old(self).is_synced() ==> final(self).is_synced(),
            old(self).current_queued() ==> final(self).current_queued(),
    {
        if self.task_count >= MAX_SCHEDULER_TASKS {
            return None;
        }
        let task_id = task.id;
        if !self.run_queue.push(task_id) {
            return None;
        }
        let ghost q = choose|q: int|
            is_first_free(old(self).queue(), q) && self.queue() == old(self).queue().update(
                q,
                Some(task_id),
            );
        let mut i: usize = 0;
        while i < MAX_SCHEDULER_TASKS
            invariant
                i <= MAX_SCHEDULER_TASKS,
                self.tasks@ == old(self).tasks@,
                self.task_count == old(self).task_count,
                self.current_task == old(self).current_task,
                self.scheduler_ticks == old(self).scheduler_ticks,
                self.wf(),
                self.task_count < MAX_SCHEDULER_TASKS,
                is_first_free(old(self).queue(), q),
                self.queue() == old(self).queue().update(q, Some(task_id)),
                !holds(old(self).queue(), task_id),
                task_id == task.id,
                forall|j: int| 0 <= j < i ==> #[trigger] self.tasks@[j] is Some,
            decreases MAX_SCHEDULER_TASKS - i,
        {
            if self.tasks[i].is_none() {
                self.tasks.set(i, Some(task));
                self.task_count = self.task_count + 1;
                assert(is_first_empty(old(self).tasks@, i as int));
                proof {
                    if let Some(c) = self.current_task {
                        if holds(old(self).queue(), c) {
                            let k = choose|k: int| 0 <= k < old(self).queue().len() && old(self).queue()[k] == Some(c);
                            assert(self.queue()[k] == Some(c));
                        }
                    }
                }
                proof {
                    if old(self).is_synced() {
                        self.lemma_create_keeps_sync(old(self).queue(), old(self).tasks(), q, i as int, task);
                    }
                }
                return Some(task_id);
            }
            i = i + 1;
        }
        let ghost pushed = self.queue();
        assert(pushed[q] == Some(task_id));
        assert(holds(pushed, task_id));
        self.run_queue.remove(task_id);
        proof {
            old(self).run_queue.lemma_wf();
            let k = choose|k: int|
                0 <= k < MAX_TASKS && pushed[k] == Some(task_id) && self.queue() == pushed.update(
                    k,
                    None,
                );
            if k != q {
                assert(old(self).queue()[k] == Some(task_id));
                assert(holds(old(self).queue(), task_id));
            }
            assert(self.queue() =~= old(self).queue());
        }
        None
    }

    proof fn lemma_create_keeps_sync(
        &self,
        old_queue: Seq<Option<TaskId>>,
        old_tasks: Seq<Option<Task>>,
        q: int,
        i: int,
        task: Task,
    )
        requires
            synced(old_queue, old_tasks, (self.spec_task_count() - 1) as usize),
            self.spec_task_count() >= 1,
            is_first_free(old_queue, q),
            !holds(old_queue, task.id),
            self.queue() == old_queue.update(q, Some(task.id)),
            is_first_empty(old_tasks, i),
            self.tasks() == old_tasks.update(i, Some(task)),
        ensures
            self.is_synced(),
    {
        lemma_stored_count_update(old_tasks, i, Some(task));
        let nq = self.queue();
        let nt = self.tasks();
        assert(!has_task(old_tasks, task.id));
        assert forall|a: int, b: int|
            0 <= a < nt.len() && 0 <= b < nt.len() && a != b && nt[a] is Some
                && nt[b] is Some implies nt[a].unwrap().id != nt[b].unwrap().id by {
            if a == i {
                assert(!(old_tasks[b] is Some && old_tasks[b].unwrap().id == task.id));
            } else if b == i {
                assert(!(old_tasks[a] is Some && old_tasks[a].unwrap().id == task.id));
            }
        }
        assert forall|id: TaskId| #[trigger] holds(nq, id) <==> has_task(nt, id) by {
            if holds(nq, id) {
                let k = choose|k: int| 0 <= k < nq.len() && nq[k] == Some(id);
                if k == q {
                    assert(nt[i] is Some && nt[i].unwrap().id == id);
                } else {
                    assert(holds(old_queue, id));
                    assert(has_task(old_tasks, id));
                    let m = choose|m: int|
                        0 <= m < old_tasks.len() && old_tasks[m] is Some && old_tasks[m].unwrap().id
                            == id;
                    assert(nt[m] == old_tasks[m]);
                }
            }
            if has_task(nt, id) {
                let m = choose|m: int| 0 <= m < nt.len() && nt[m] is Some && nt[m].unwrap().id == id;
                if m == i {
                    assert(nq[q] == Some(id));
                } else {
                    assert(has_task(old_tasks, id));
                    assert(holds(old_queue, id));
                    let k = choose|k: int| 0 <= k < old_queue.len() && old_queue[k] == Some(id);
                    assert(nq[k] == Some(id));
                }
            }
        }
    }

    /// Slot of the first stored task with the given identifier.
    fn find_task_index(&self, task_id: TaskId) -> (r: Option<usize>)
        requires
            self.wf(),
        ensures
            r is None <==> !has_task(self.tasks(), task_id),
            r is Some ==> r.unwrap() as int == task_index(self.tasks(), task_id) && is_first_with_id(
                self.tasks(),
                task_id,
                r.unwrap() as int,
            ),
    {
        let mut i: usize = 0;
        while i < MAX_SCHEDULER_TASKS
            invariant
                i <= MAX_SCHEDULER_TASKS,
                self.wf(),
                forall|j: int|
                    0 <= j < i ==> !(#[trigger] self.tasks@[j] is Some && self.tasks@[j].unwrap().id
                        == task_id),
            decreases MAX_SCHEDULER_TASKS - i,
        {
            let found = match &self.tasks[i] {
                Some(task) => task.id == task_id,
                None => false,
            };
            if found {
                proof {
                    assert(is_first_with_id(self.tasks(), task_id, i as int));
                    lemma_task_index(self.tasks(), task_id);
                    lemma_first_with_id_unique(
                        self.tasks(),
                        task_id,
                        i as int,
                        task_index(self.tasks(), task_id),
                    );
                }
                return Some(i);
            }
            i = i + 1;
        }
        None
    }

    /// The first stored task with the given identifier.
    pub fn task(&self, task_id: TaskId) -> (r: Option<&Task>)
        requires
            self.wf(),
        ensures
            r is None <==> !has_task(self.tasks(), task_id),
            r is Some ==> {
                &&& is_first_with_id(self.tasks(), task_id, task_index(self.tasks(), task_id))
                &&& *r.unwrap() == self.tasks()[task_index(self.tasks(), task_id)].unwrap()
            },
    {
        match self.find_task_index(task_id) {
            Some(i) => self.tasks[i].as_ref(),
            None => None,
        }
    }

    /// The first stored task with the given identifier, for modification.
    pub fn task_mut(&mut self, task_id: TaskId) -> (r: Option<&mut Task>)
        requires
            old(self).wf(),
        ensures
            r is None <==> !has_task(old(self).tasks(), task_id),
            r is None ==> final(self).tasks() == old(self).tasks(),
            r is Some ==> {
                let i = task_index(old(self).tasks(), task_id);
                &&& is_first_with_id(old(self).tasks(), task_id, i)
                &&& *r.unwrap() == old(self).tasks()[i].unwrap()
                &&& final(self).tasks() == old(self).tasks().update(i, Some(*final(r.unwrap())))
            },
            final(self).queue() == old(self).queue(),
            final(self).spec_current() == old(self).spec_current(),
            final(self).spec_task_count() == old(self).spec_task_count(),
            final(self).spec_ticks() == old(self).spec_ticks(),
            final(self).wf(),
            old(self).current_queued() ==> final(self).current_queued(),
    {
        match self.find_task_index(task_id) {
            Some(i) => self.tasks[i].as_mut(),
            None => None,
        }
    }

    /// Make a queued task the current one; `false` when it is not queued.
    pub fn set_current(&mut self, task_id: TaskId) -> (r: bool)
        requires
            old(self).wf(),
        ensures
            final(self).wf(),
            r == holds(old(self).queue(), task_id),
            final(self).spec_current() == if r {
                Some(task_id)
            } else {
                old(self).spec_current()
            },
            final(self).queue() == old(self).queue(),
            final(self).tasks() == old(self).tasks(),
            final(self).spec_task_count() == old(self).spec_task_count(),
            final(self).spec_ticks() == old(self).spec_ticks(),
            old(self).current_queued() ==> final(self).current_queued(),
    {
        if !self.run_queue.contains(task_id) {
            return false;
        }
        self.current_task = Some(task_id);
        true
    }

    pub fn current(&self) -> (r: Option<TaskId>)
        ensures
            r == self.spec_current(),
    {
        self.current_task
    }

    /// Count one timer tick, charging it to the current task.
    pub fn tick(&mut self)
        requires
            old(self).wf(),
        ensures
            final(self).wf(),
            final(self).spec_ticks() == old(self).spec_ticks().wrapping_add(1),
            final(self).tasks() == match old(self).spec_current() {
                Some(id) => map_task(old(self).tasks(), id, |t: Task| ticked_task(t)),
                None => old(self).tasks(),
            },
            final(self).queue() == old(self).queue(),
            final(self).spec_current() == old(self).spec_current(),
            final(self).spec_task_count() == old(self).spec_task_count(),
            old(self).current_queued() ==> final(self).current_queued(),
    {
        self.scheduler_ticks = self.scheduler_ticks.wrapping_add(1);
        if let Some(task_id) = self.current_task {
            if let Some(task) = self.task_mut(task_id) {
                task.total_ticks = task.total_ticks.wrapping_add(1);
                task.time_slice_ticks = task.time_slice_ticks.wrapping_add(1);
            }
        }
    }

    pub fn ticks(&self) -> (r: u64)
        ensures
            r == self.spec_ticks(),
    {
        self.scheduler_ticks
    }

    pub fn task_count(&self) -> (r: usize)
        ensures
            r == self.spec_task_count(),
    {
        self.task_count
    }

    /// Advance the round robin: rotate the queue and run its first task;
    /// with an empty queue nothing runs.
    pub fn schedule(&mut self)
        requires
            old(self).wf(),
        ensures
            final(self).wf(),
            id_count(old(self).queue()) == 0 ==> final(self).queue() == old(self).queue()
                && final(self).spec_current() is None,
            id_count(old(self).queue()) == 1 ==> final(self).queue() == old(self).queue()
                && final(self).spec_current() == first_id(old(self).queue()),
            id_count(old(self).queue()) > 1 ==> final(self).queue() == rotated(old(self).queue())
                && final(self).spec_current() == first_id(rotated(old(self).queue())),
            id_count(old(self).queue()) > 0 ==> final(self).spec_current() is Some,
            forall|id: TaskId| #[trigger] holds(final(self).queue(), id) <==> holds(old(self).queue(), id),
            final(self).current_queued(),
            final(self).tasks() == old(self).tasks(),
            final(self).spec_task_count() == old(self).spec_task_count(),
            final(self).spec_ticks() == old(self).spec_ticks(),
    {
        if self.run_queue.is_empty() {
            self.current_task = None;
            return;
        }
        self.run_queue.rotate();
        self.current_task = self.run_queue.first();
        proof {
            lemma_first_id(self.queue());
            if id_count(self.queue()) > 0 && first_id(self.queue()) is None {
                lemma_count_none(self.queue());
            }
            old(self).run_queue.lemma_wf();
            if id_count(old(self).queue()) > 1 {
                lemma_rotated_wf(old(self).queue());
            }
            if let Some(c) = self.current_task {
                let k = choose|k: int|
                    0 <= k < self.queue().len() && self.queue()[k] == first_id(self.queue()) && forall|j: int|
                        0 <= j < k ==> #[trigger] self.queue()[j] is None;
                assert(self.queue()[k] == Some(c));
            }
        }
    }

    pub fn has_runnable_task(&self) -> (r: bool)
        requires
            self.wf(),
        ensures
            r == (id_count(self.queue()) > 0),
    {
        !self.run_queue.is_empty()
    }

    /// Dequeue a task and drop it from the table; when it was current, the
    /// first queued task becomes current. `false` when it is not queued.
    pub fn remove_task(&mut self, task_id: TaskId) -> (r: bool)
        requires
            old(self).wf(),
        ensures
            final(self).wf(),
            r == holds(old(self).queue(), task_id),
            !r ==> final(self).queue() == old(self).queue() && final(self).tasks() == old(self).tasks() && final(self).spec_task_count() == old(self).spec_task_count()
                && final(self).spec_current() == old(self).spec_current(),
            r ==> {
                &&& exists|q: int|
                    0 <= q < MAX_TASKS && old(self).queue()[q] == Some(task_id) && final(self).queue() == old(self).queue().update(q, None)
                &&& final(self).tasks() == if has_task(old(self).tasks(), task_id) {
                    old(self).tasks().update(task_index(old(self).tasks(), task_id), None)
                } else {
                    old(self).tasks()
                }
                &&& final(self).spec_task_count() == if old(self).spec_task_count() > 0 {
                    (old(self).spec_task_count() - 1) as usize
                } else {
                    0
                }
                &&& final(self).spec_current() == if old(self).spec_current() == Some(task_id) {
                    first_id(final(self).queue())
                } else {
                    old(self).spec_current()
                }
            },
            !holds(final(self).queue(), task_id),
            final(self).spec_ticks() == old(self).spec_ticks(),
            old(self).is_synced() ==> final(self).is_synced() && !has_task(
                final(self).tasks(),
                task_id,
            ),
            old(self).current_queued() ==> final(self).current_queued(),
    {
        if !self.run_queue.remove(task_id) {
            return false;
        }
        if let Some(i) = self.find_task_index(task_id) {
            self.tasks.set(i, None);
        }
        if self.task_count > 0 {
            self.task_count = self.task_count - 1;
        }
        if self.current_task == Some(task_id) {
            self.current_task = self.run_queue.first();
        }
        proof {
            old(self).run_queue.lemma_wf();
            lemma_first_id(self.queue());
            if let Some(c) = self.current_task {
                if c == task_id || old(self).spec_current() == Some(task_id) {
                    if first_id(self.queue()) is Some {
                        let k = choose|k: int|
                            0 <= k < self.queue().len() && self.queue()[k] == first_id(self.queue()) && forall|j: int|
                                0 <= j < k ==> #[trigger] self.queue()[j] is None;
                        assert(holds(self.queue(), first_id(self.queue()).unwrap()));
                    }
                } else if holds(old(self).queue(), c) {
                    let k = choose|k: int| 0 <= k < old(self).queue().len() && old(self).queue()[k] == Some(c);
                    let q = choose|q: int|
                        0 <= q < MAX_TASKS && old(self).queue()[q] == Some(task_id) && self.queue()
                            == old(self).queue().update(q, None);
                    assert(self.queue()[k] == Some(c));
                }
            }
            if old(self).is_synced() {
                self.lemma_remove_keeps_sync(
                    old(self).queue(),
                    old(self).tasks(),
                    old(self).spec_task_count(),
                    task_id,
                );
            }
        }
        true
    }

    proof fn lemma_remove_keeps_sync(
        &self,
        old_queue: Seq<Option<TaskId>>,
        old_tasks: Seq<Option<Task>>,
        old_count: usize,
        id: TaskId,
    )
        requires
            synced(old_queue, old_tasks, old_count),
            self.spec_task_count() == if old_count > 0 {
                (old_count - 1) as usize
            } else {
                0
            },
            holds(old_queue, id),
            !holds(self.queue(), id),
            exists|q: int|
                0 <= q < old_queue.len() && old_queue[q] == Some(id) && self.queue()
                    == old_queue.update(q, None),
            has_task(old_tasks, id) ==> self.tasks() == old_tasks.update(
                task_index(old_tasks, id),
                None,
            ),
        ensures
            self.is_synced(),
            !has_task(self.tasks(), id),
    {
        let q = choose|q: int|
            0 <= q < old_queue.len() && old_queue[q] == Some(id) && self.queue() == old_queue.update(
                q,
                None,
            );
        assert(has_task(old_tasks, id));
        lemma_task_index(old_tasks, id);
        let i = task_index(old_tasks, id);
        let nt = self.tasks();
        let nq = self.queue();
        lemma_stored_count_update(old_tasks, i, None);
        assert(!has_task(nt, id)) by {
            if has_task(nt, id) {
                let m = choose|m: int| 0 <= m < nt.len() && nt[m] is Some && nt[m].unwrap().id == id;
                assert(m != i);
                assert(old_tasks[m] is Some && old_tasks[m].unwrap().id == id);
            }
        }
        assert forall|x: TaskId| #[trigger] holds(nq, x) <==> has_task(nt, x) by {
            if x != id {
                if holds(nq, x) {
                    let k = choose|k: int| 0 <= k < nq.len() && nq[k] == Some(x);
                    assert(old_queue[k] == Some(x));
                    assert(holds(old_queue, x));
                    assert(has_task(old_tasks, x));
                    let m = choose|m: int|
                        0 <= m < old_tasks.len() && old_tasks[m] is Some && old_tasks[m].unwrap().id
                            == x;
                    assert(nt[m] == old_tasks[m]);
                }
                if has_task(nt, x) {
                    let m = choose|m: int| 0 <= m < nt.len() && nt[m] is Some && nt[m].unwrap().id == x;
                    assert(old_tasks[m] == nt[m]);
                    assert(holds(old_queue, x));
                    let k = choose|k: int| 0 <= k < old_queue.len() && old_queue[k] == Some(x);
                    assert(nq[k] == Some(x));
                }
            }
        }
    }

    /// First half of the timer interrupt: record the interrupted frame
    /// `current_interrupt_rsp` in the current task, count the tick, and
    /// when the current time slice is used up, advance the round robin.
    /// Returns the proposed switch, or `None` when the current task keeps
    /// running (no current task, slice not used up, nothing else to run,
    /// or the chosen task is not stored).
    pub fn begin_preemption(&mut self, current_interrupt_rsp: u64) -> (r: Option<PreemptCandidate>)
        requires
            old(self).wf(),
        ensures
            final(self).wf(),
            final(self).spec_task_count() == old(self).spec_task_count(),
            old(self).current_queued() ==> final(self).current_queued(),
            old(self).current_queued() ==> (r matches Some(c) ==> holds(final(self).queue(), c.current)),
            old(self).spec_current() is None || !has_task(old(self).tasks(), old(self).spec_current().unwrap())
                ==> r is None && final(self).tasks() == old(self).tasks() && final(self).queue()
                == old(self).queue() && final(self).spec_current() == old(self).spec_current()
                && final(self).spec_ticks() == old(self).spec_ticks(),
            old(self).spec_current() is Some && has_task(old(self).tasks(), old(self).spec_current().unwrap())
                ==> {
                let cur = old(self).spec_current().unwrap();
                let i = task_index(old(self).tasks(), cur);
                let tasks1 = interrupted_tasks(old(self).tasks(), cur, current_interrupt_rsp);
                let expired = tasks1[i].unwrap().time_slice_ticks >= DEFAULT_TIME_SLICE_TICKS;
                let q2 = scheduled_queue(old(self).queue());
                let next = first_id(q2);
                &&& final(self).spec_ticks() == old(self).spec_ticks().wrapping_add(1)
                &&& !expired ==> r is None && final(self).tasks() == tasks1 && final(self).queue()
                    == old(self).queue() && final(self).spec_current() == Some(cur)
                &&& expired && id_count(old(self).queue()) == 0 ==> r is None && final(self).tasks()
                    == keep_running(tasks1, cur) && final(self).queue() == old(self).queue()
                    && final(self).spec_current() is None
                &&& expired && id_count(old(self).queue()) > 0 ==> {
                    &&& next is Some
                    &&& final(self).queue() == q2
                    &&& next == Some(cur) || !has_task(tasks1, next.unwrap()) ==> r is None
                        && final(self).tasks() == keep_running(tasks1, cur) && final(self).spec_current()
                        == Some(cur)
                    &&& next != Some(cur) && has_task(tasks1, next.unwrap()) ==> r == Some(
                        PreemptCandidate {
                            current: cur,
                            next: next.unwrap(),
                            next_rsp: tasks1[task_index(tasks1, next.unwrap())].unwrap().interrupt_rsp,
                        },
                    ) && final(self).tasks() == tasks1 && final(self).spec_current() == next
                }
            },
    {
        let current_id = match self.current_task {
            Some(id) => id,
            None => {
                return None;
            },
        };
        let ghost tasks0 = self.tasks();
        match self.task_mut(current_id) {
            Some(task) => {
                task.interrupt_rsp = current_interrupt_rsp;
                task.state = TaskState::Running;
            },
            None => {
                return None;
            },
        }
        let ghost i = task_index(tasks0, current_id);
        proof {
            lemma_task_index(tasks0, current_id);
            lemma_update_same_id(tasks0, i, interrupted_task(tasks0[i].unwrap(), current_interrupt_rsp), current_id);
        }
        self.tick();
        proof {
            let t1 = ticked_task(interrupted_task(tasks0[i].unwrap(), current_interrupt_rsp));
            assert(self.tasks() =~= interrupted_tasks(tasks0, current_id, current_interrupt_rsp));
            lemma_update_same_id(tasks0, i, t1, current_id);
        }
        let slice_expired = match self.task(current_id) {
            Some(task) => task.time_slice_ticks >= DEFAULT_TIME_SLICE_TICKS,
            None => false,
        };
        if !slice_expired {
            return None;
        }
        let ghost tasks1 = self.tasks();
        self.schedule();
        let next_id = match self.current_task {
            Some(id) => id,
            None => {
                self.reset_current_task(current_id);
                return None;
            },
        };
        if next_id == current_id {
            self.reset_current_task(current_id);
            return None;
        }
        let next_rsp = match self.task(next_id) {
            Some(task) => task.interrupt_rsp,
            None => {
                self.current_task = Some(current_id);
                self.reset_current_task(current_id);
                return None;
            },
        };
        Some(PreemptCandidate { current: current_id, next: next_id, next_rsp })
    }

    /// Give the task `id` the CPU again with a fresh time slice.
    fn reset_current_task(&mut self, id: TaskId)
        requires
            old(self).wf(),
        ensures
            final(self).wf(),
            total_ticks_kept(old(self).tasks(), final(self).tasks()),
            final(self).tasks() == keep_running(old(self).tasks(), id),
            final(self).queue() == old(self).queue(),
            final(self).spec_current() == old(self).spec_current(),
            final(self).spec_task_count() == old(self).spec_task_count(),
            final(self).spec_ticks() == old(self).spec_ticks(),
    {
        if let Some(task) = self.task_mut(id) {
            task.state = TaskState::Running;
            task.time_slice_ticks = 0;
        }
        proof {
            if has_task(old(self).tasks(), id) {
                let i = task_index(old(self).tasks(), id);
                assert(self.tasks() =~= keep_running(old(self).tasks(), id));
            }
            lemma_map_task_keeps_total_ticks(old(self).tasks(), id, |t: Task| running_task(t));
        }
    }

    /// Second half of the timer interrupt, once the candidate's saved frame
    /// has been checked: switch (returning the frame to resume) or, for an
    /// unusable frame, keep the current task running and return 0.
    pub fn finish_preemption(&mut self, candidate: PreemptCandidate, frame_valid: bool) -> (r: u64)
        requires
            old(self).wf(),
        ensures
            final(self).wf(),
            final(self).queue() == old(self).queue(),
            final(self).spec_task_count() == old(self).spec_task_count(),
            final(self).spec_ticks() == old(self).spec_ticks(),
            old(self).current_queued() && holds(old(self).queue(), candidate.current)
                ==> final(self).current_queued(),
            total_ticks_kept(old(self).tasks(), final(self).tasks()),
            !frame_valid ==> r == 0 && final(self).spec_current() == Some(candidate.current)
                && final(self).tasks() == map_task(
                keep_running(old(self).tasks(), candidate.current),
                candidate.next,
                |t: Task| task_in_state(t, TaskState::Ready),
            ),
            frame_valid ==> r == candidate.next_rsp && final(self).spec_current() == old(
                self,
            ).spec_current() && final(self).tasks() == map_task(
                map_task(
                    old(self).tasks(),
                    candidate.current,
                    |t: Task| task_in_state(t, TaskState::Ready),
                ),
                candidate.next,
                |t: Task| running_task(t),
            ),
    {
        if !frame_valid {
            self.current_task = Some(candidate.current);
            self.reset_current_task(candidate.current);
            self.set_task_state(candidate.next, TaskState::Ready);
            return 0;
        }
        self.set_task_state(candidate.current, TaskState::Ready);
        self.reset_current_task(candidate.next);
        candidate.next_rsp
    }

    /// Change the state of the task `id`, when it is stored.
    fn set_task_state(&mut self, id: TaskId, state: TaskState)
        requires
            old(self).wf(),
        ensures
            final(self).wf(),
            total_ticks_kept(old(self).tasks(), final(self).tasks()),
            final(self).tasks() == map_task(old(self).tasks(), id, |t: Task| task_in_state(t, state)),
            final(self).queue() == old(self).queue(),
            final(self).spec_current() == old(self).spec_current(),
            final(self).spec_task_count() == old(self).spec_task_count(),
            final(self).spec_ticks() == old(self).spec_ticks(),
    {
        if let Some(task) = self.task_mut(id) {
            task.state = state;
        }
        proof {
            if has_task(old(self).tasks(), id) {
                assert(self.tasks() =~= map_task(old(self).tasks(), id, |t: Task| task_in_state(t, state)));
            }
            lemma_map_task_keeps_total_ticks(old(self).tasks(), id, |t: Task| task_in_state(t, state));
        }
    }

    /// Current state of the first stored task with the given identifier.
    pub fn task_state(&self, task_id: TaskId) -> (r: Option<TaskState>)
        requires
            self.wf(),
        ensures
            r == if has_task(self.tasks(), task_id) {
                Some(self.tasks()[task_index(self.tasks(), task_id)].unwrap().state)
            } else {
                None
            },
    {
        match self.task(task_id) {
            Some(task) => Some(task.state),
            None => None,
        }
    }
}

pub proof fn lemma_none_tasks(tasks: Seq<Option<Task>>)
    requires
        forall|j: int| 0 <= j < tasks.len() ==> #[trigger] tasks[j] is None,
    ensures
        stored_count(tasks) == 0,
        task_ids_distinct(tasks),
        forall|id: TaskId| !has_task(tasks, id),
    decreases tasks.len(),
{
    if tasks.len() > 0 {
        lemma_none_tasks(tasks.drop_last());
    }
}

} // verus!

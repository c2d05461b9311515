use lib::arch::idt::IrqFrame;
use lib::scheduler::preempt::{is_canonical_address, validate_interrupt_frame};
use lib::scheduler::task::{
    INITIAL_STACK_RESERVE, INTERRUPT_CONTEXT_SIZE, INTERRUPT_FRAME_OFFSET, RETURN_SLOT_OFFSET,
};
use lib::scheduler::{
    allocate_task_id, KernelStack, RunQueue, Scheduler, Task, TaskContext, TaskIdAllocator,
    TaskState, DEFAULT_TIME_SLICE_TICKS, MAX_SCHEDULER_TASKS, MAX_TASKS,
};

#[test]
fn run_queue_push_remove_rotate() {
    let mut q = RunQueue::new();
    assert!(q.is_empty());
    assert!(q.push(1));
    assert!(q.push(2));
    assert!(q.push(3));
    assert!(!q.push(2));
    assert_eq!(q.len(), 3);
    assert_eq!(q.first(), Some(1));
    q.rotate();
    assert_eq!(q.first(), Some(2));
    assert!(q.contains(1));
    assert!(q.remove(2));
    assert!(!q.contains(2));
    assert!(!q.remove(2));
    assert_eq!(q.len(), 2);
}

#[test]
fn run_queue_capacity() {
    let mut q = RunQueue::new();
    for id in 0..MAX_TASKS as u64 {
        assert!(q.push(id + 1));
    }
    assert!(!q.push(1000));
    assert_eq!(q.len(), MAX_TASKS);
}

#[test]
fn remove_undoes_push_on_concrete_queue() {
    let mut q = RunQueue::new();
    assert!(q.push(7));
    assert!(q.push(9));
    assert!(q.remove(9));
    assert_eq!(q.len(), 1);
    assert_eq!(q.first(), Some(7));
}

#[test]
fn scheduler_round_robin() {
    let mut ids = TaskIdAllocator::new();
    let mut s = Scheduler::new();
    assert_eq!(s.current(), None);
    let a = allocate_task_id(&mut ids);
    let b = allocate_task_id(&mut ids);
    assert_eq!((a, b), (1, 2));
    assert_eq!(s.create_task(Task::new(a, 0)), Some(a));
    assert_eq!(s.create_task(Task::new(b, 0)), Some(b));
    assert_eq!(s.task_count(), 2);
    assert!(s.has_runnable_task());

    s.schedule();
    assert_eq!(s.current(), Some(b));
    s.schedule();
    assert_eq!(s.current(), Some(a));

    assert!(s.remove_task(b));
    assert_eq!(s.task_count(), 1);
    s.schedule();
    assert_eq!(s.current(), Some(a));
    assert!(!s.remove_task(b));
}

#[test]
fn scheduler_table_limit() {
    let mut s = Scheduler::new();
    for id in 1..=MAX_SCHEDULER_TASKS as u64 {
        assert_eq!(s.create_task(Task::new(id, 0)), Some(id));
    }
    assert_eq!(s.create_task(Task::new(100, 0)), None);
    // The same identifier twice is refused.
    let mut t = Scheduler::new();
    assert_eq!(t.create_task(Task::new(5, 0)), Some(5));
    assert_eq!(t.create_task(Task::new(5, 0)), None);
}

#[test]
fn scheduler_ticks_charge_current_task() {
    let mut s = Scheduler::new();
    s.create_task(Task::new(1, 0));
    s.tick();
    assert_eq!(s.ticks(), 1);
    assert!(s.set_current(1));
    assert!(!s.set_current(42));
    s.tick();
    s.tick();
    assert_eq!(s.ticks(), 3);
    let t = s.task(1).unwrap();
    assert_eq!(t.total_ticks, 2);
    assert_eq!(t.time_slice_ticks, 2);
    assert!(s.task_state(1) == Some(TaskState::Ready));
    assert!(s.task_state(9).is_none());
}

#[test]
fn preemption_after_time_slice() {
    let mut s = Scheduler::new();
    let mut a = Task::new(1, 0);
    a.interrupt_rsp = 0x1000;
    let mut b = Task::new(2, 0);
    b.interrupt_rsp = 0x2000;
    s.create_task(a);
    s.create_task(b);
    assert!(s.set_current(1));

    for _ in 1..DEFAULT_TIME_SLICE_TICKS {
        assert!(s.begin_preemption(0x1111).is_none());
    }
    let candidate = s.begin_preemption(0x1234).expect("slice used up");
    assert_eq!(candidate.current, 1);
    assert_eq!(candidate.next, 2);
    assert_eq!(candidate.next_rsp, 0x2000);
    assert_eq!(s.task(1).unwrap().interrupt_rsp, 0x1234);

    assert_eq!(s.finish_preemption(candidate, true), 0x2000);
    assert_eq!(s.current(), Some(2));
    assert!(s.task_state(1) == Some(TaskState::Ready));
    assert!(s.task_state(2) == Some(TaskState::Running));
}

#[test]
fn preemption_rejected_frame_keeps_current() {
    let mut s = Scheduler::new();
    s.create_task(Task::new(1, 0));
    s.create_task(Task::new(2, 0));
    assert!(s.set_current(1));
    let mut candidate = None;
    for _ in 0..DEFAULT_TIME_SLICE_TICKS {
        candidate = s.begin_preemption(0x5000);
    }
    let candidate = candidate.unwrap();
    assert_eq!(s.finish_preemption(candidate, false), 0);
    assert_eq!(s.current(), Some(1));
    assert!(s.task_state(1) == Some(TaskState::Running));
    assert!(s.task_state(2) == Some(TaskState::Ready));
    assert_eq!(s.task(1).unwrap().time_slice_ticks, 0);
}

#[test]
fn no_preemption_without_current_task() {
    let mut s = Scheduler::new();
    s.create_task(Task::new(1, 0));
    assert!(s.begin_preemption(0x1000).is_none());
    assert_eq!(s.ticks(), 0);
}

#[test]
fn task_state_names() {
    assert_eq!(TaskState::Ready.name(), b"READY");
    assert_eq!(TaskState::Running.name(), b"RUNNING");
    assert_eq!(TaskState::Blocked.name(), b"BLOCKED");
    assert_eq!(TaskState::Terminated.name(), b"TERMINATED");
    let mut t = Task::new(3, 1);
    assert!(t.is_runnable());
    t.set_state(TaskState::Blocked);
    assert!(!t.is_runnable());
    t.set_state(TaskState::Running);
    assert!(t.is_runnable());
}

#[test]
fn task_contexts() {
    let mut t = Task::new(4, 0);
    let top = 0x0010_8000u64;
    t.initialize_context(0x0010_1000, top, 0x0010_2000);
    assert!(t.context == TaskContext { rsp: top - 8, rbp: 0, rbx: 0, r12: 0, r13: 0, r14: 0, r15: 0, rip: 0x0010_1000 });
    assert_eq!(t.kernel_stack.read_word(RETURN_SLOT_OFFSET), 0x0010_2000);

    t.initialize_interrupt_context(0x0010_3000, top);
    assert_eq!(t.interrupt_rsp, top - INITIAL_STACK_RESERVE - INTERRUPT_CONTEXT_SIZE);
    for w in 0..15 {
        assert_eq!(t.interrupt_frame_word(w), 0);
    }
    assert_eq!(t.interrupt_frame_word(15), 0x20);
    assert_eq!(t.interrupt_frame_word(16), 0x0010_3000);
    assert_eq!(t.interrupt_frame_word(17), 0x08);
    assert_eq!(t.interrupt_frame_word(18), 0x202);
    assert_eq!(INTERRUPT_FRAME_OFFSET, 16384 - 2048 - 152);

    t.prepare_preemptive_start(0x0010_4000);
    assert_eq!(t.context.rsp, t.interrupt_rsp);
    assert_eq!(t.context.rip, 0x0010_4000);
}

#[test]
fn stack_words_roundtrip() {
    let mut s = KernelStack::new();
    s.write_word(8, 0x0123_4567_89AB_CDEF);
    assert_eq!(s.read_word(8), 0x0123_4567_89AB_CDEF);
    assert_eq!(s.data[8], 0xEF);
    assert_eq!(s.data[15], 0x01);
    assert_eq!(s.read_word(0), 0);
}

#[test]
fn task_id_allocator_wraps() {
    let mut ids = TaskIdAllocator::new();
    assert_eq!(allocate_task_id(&mut ids), 1);
    assert_eq!(allocate_task_id(&mut ids), 2);
}

#[test]
fn interrupt_frame_validation() {
    let good = IrqFrame { vector: 0x20, rip: 0x0010_5000, cs: 0x08, rflags: 0x202 };
    assert!(validate_interrupt_frame(0x9000, &good));
    assert!(!validate_interrupt_frame(0, &good));
    assert!(!validate_interrupt_frame(0x9000, &IrqFrame { vector: 0x21, ..good }));
    assert!(!validate_interrupt_frame(0x9000, &IrqFrame { cs: 0x1B, ..good }));
    assert!(!validate_interrupt_frame(0x9000, &IrqFrame { rflags: 0x200, ..good }));
    assert!(!validate_interrupt_frame(0x9000, &IrqFrame { rip: 0x0030_0000, ..good }));
    assert!(is_canonical_address(0x0000_7FFF_FFFF_FFFF));
    assert!(is_canonical_address(0xFFFF_8000_0000_0000));
    assert!(!is_canonical_address(0x0001_0000_0000_0000));
}

#[test]
fn rotation_is_round_robin_over_queued_tasks() {
    let mut q = RunQueue::new();
    assert!(q.push(1));
    assert!(q.push(2));
    q.rotate();
    assert_eq!(q.first(), Some(2));
    q.rotate();
    assert_eq!(q.first(), Some(1));
    q.rotate();
    assert_eq!(q.first(), Some(2));
    assert_eq!(q.len(), 2);
    assert!(q.contains(1) && q.contains(2));

    let mut r = RunQueue::new();
    for id in [4, 5, 6] {
        assert!(r.push(id));
    }
    assert!(r.remove(5));
    assert!(r.push(7));
    // Queue order is 4, 7, 6: 7 took the freed slot.
    let mut order = Vec::new();
    for _ in 0..6 {
        order.push(r.first().unwrap());
        r.rotate();
    }
    assert_eq!(order, vec![4, 7, 6, 4, 7, 6]);
}

#[test]
fn scheduler_alternates_two_tasks_under_preemption() {
    let mut s = Scheduler::new();
    s.create_task(Task::new(1, 0));
    s.create_task(Task::new(2, 0));
    assert!(s.set_current(1));
    let mut switches = Vec::new();
    for _ in 0..(4 * DEFAULT_TIME_SLICE_TICKS) {
        if let Some(c) = s.begin_preemption(0x1000) {
            switches.push(c.next);
            s.finish_preemption(c, true);
        }
    }
    assert_eq!(switches, vec![2, 1, 2, 1]);
}

#[test]
fn queue_length_counts_distinct_queued_tasks() {
    let mut q = RunQueue::new();
    assert!(q.is_empty() && q.first().is_none());
    for id in [5u64, 9, 5, 2, 9] {
        q.push(id);
    }
    assert_eq!(q.len(), 3);
    assert!(!q.is_empty() && q.first().is_some());
    q.rotate();
    assert!(q.remove(9));
    assert_eq!(q.len(), 2);
    assert!(q.remove(5) && q.remove(2));
    assert_eq!(q.len(), 0);
    assert!(q.is_empty() && q.first().is_none());
}

#[test]
fn current_task_stays_stored() {
    let mut s = Scheduler::new();
    for id in 1..=3u64 {
        s.create_task(Task::new(id, 0));
    }
    assert!(s.set_current(2));
    assert!(!s.set_current(7));
    assert_eq!(s.current(), Some(2));
    // Removing the current task hands the CPU to the first queued one.
    assert!(s.remove_task(2));
    let current = s.current().unwrap();
    assert!(s.task(current).is_some());
    assert_eq!(s.task_count(), 2);
    assert!(s.task(1).is_some() && s.task(3).is_some() && s.task(2).is_none());
    assert!(s.remove_task(1) && s.remove_task(3));
    assert_eq!(s.task_count(), 0);
    assert!(!s.has_runnable_task());
    assert_eq!(s.current(), None);
}

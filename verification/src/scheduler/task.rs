use vstd::prelude::*;

verus! {

pub type TaskId = u64;

/// Lifecycle state of a kernel task.
#[derive(Clone, Copy, PartialEq, Eq, Structural)]
pub enum TaskState {
    Ready,
    Running,
    Blocked,
    Terminated,
}

/// ASCII name of a task state.
pub open spec fn task_state_name(s: TaskState) -> Seq<u8> {
    match s {
        TaskState::Ready => seq![82u8, 69u8, 65u8, 68u8, 89u8],
        TaskState::Running => seq![82u8, 85u8, 78u8, 78u8, 73u8, 78u8, 71u8],
        TaskState::Blocked => seq![66u8, 76u8, 79u8, 67u8, 75u8, 69u8, 68u8],
        TaskState::Terminated => seq![
            84u8,
            69u8,
            82u8,
            77u8,
            73u8,
            78u8,
            65u8,
            84u8,
            69u8,
            68u8,
        ],
    }
}

impl TaskState {
    /// Upper-case ASCII name used in diagnostics.
    pub fn name(self) -> (r: &'static [u8])
        ensures
            r@ == task_state_name(self),
    {
        match self {
            TaskState::Ready => {
                proof {
                    reveal_strlit("READY");
                    vstd::string::is_ascii_spec_bytes("READY");
                }
                "READY".as_bytes()
            },
            TaskState::Running => {
                proof {
                    reveal_strlit("RUNNING");
                    vstd::string::is_ascii_spec_bytes("RUNNING");
                }
                "RUNNING".as_bytes()
            },
            TaskState::Blocked => {
                proof {
                    reveal_strlit("BLOCKED");
                    vstd::string::is_ascii_spec_bytes("BLOCKED");
                }
                "BLOCKED".as_bytes()
            },
            TaskState::Terminated => {
                proof {
                    reveal_strlit("TERMINATED");
                    vstd::string::is_ascii_spec_bytes("TERMINATED");
                }
                "TERMINATED".as_bytes()
            },
        }
    }
}

pub const KERNEL_STACK_SIZE: usize = 16384;

/// A task's private kernel stack.
pub struct KernelStack {
    pub data: [u8; KERNEL_STACK_SIZE],
}

impl KernelStack {
    pub fn new() -> (s: Self)
        ensures
            forall|i: int| 0 <= i < KERNEL_STACK_SIZE ==> #[trigger] s.data@[i] == 0,
    {
        KernelStack { data: [0u8; KERNEL_STACK_SIZE] }
    }

    /// Store `value` little-endian at byte `offset`.
    pub fn write_word(&mut self, offset: usize, value: u64)
        requires
            offset + 8 <= KERNEL_STACK_SIZE,
        ensures
            word_at(final(self).data@, offset as int) == value,
            forall|i: int|
                0 <= i < KERNEL_STACK_SIZE && !(offset <= i < offset + 8) ==> #[trigger] final(self).data@[i] == old(self).data@[i],
    {
        let b0 = (value & 0xFF) as u8;
        let b1 = ((value >> 8u64) & 0xFF) as u8;
        let b2 = ((value >> 16u64) & 0xFF) as u8;
        let b3 = ((value >> 24u64) & 0xFF) as u8;
        let b4 = ((value >> 32u64) & 0xFF) as u8;
        let b5 = ((value >> 40u64) & 0xFF) as u8;
        let b6 = ((value >> 48u64) & 0xFF) as u8;
        let b7 = ((value >> 56u64) & 0xFF) as u8;
        self.data[offset] = b0;
        self.data[offset + 1] = b1;
        self.data[offset + 2] = b2;
        self.data[offset + 3] = b3;
        self.data[offset + 4] = b4;
        self.data[offset + 5] = b5;
        self.data[offset + 6] = b6;
        self.data[offset + 7] = b7;
        assert((b0 as u64) | ((b1 as u64) << 8u64) | ((b2 as u64) << 16u64) | ((b3 as u64) << 24u64)
            | ((b4 as u64) << 32u64) | ((b5 as u64) << 40u64) | ((b6 as u64) << 48u64) | ((
        b7 as u64) << 56u64) == value) by (bit_vector)
            requires
                b0 == (value & 0xFF) as u8,
                b1 == ((value >> 8u64) & 0xFF) as u8,
                b2 == ((value >> 16u64) & 0xFF) as u8,
                b3 == ((value >> 24u64) & 0xFF) as u8,
                b4 == ((value >> 32u64) & 0xFF) as u8,
                b5 == ((value >> 40u64) & 0xFF) as u8,
                b6 == ((value >> 48u64) & 0xFF) as u8,
                b7 == ((value >> 56u64) & 0xFF) as u8,
        ;
    }

    /// The little-endian word at byte `offset`.
    pub fn read_word(&self, offset: usize) -> (r: u64)
        requires
            offset + 8 <= KERNEL_STACK_SIZE,
        ensures
            r == word_at(self.data@, offset as int),
    {
        (self.data[offset] as u64) | ((self.data[offset + 1] as u64) << 8u64) | ((self.data[offset
            + 2] as u64) << 16u64) | ((self.data[offset + 3] as u64) << 24u64) | ((self.data[offset
            + 4] as u64) << 32u64) | ((self.data[offset + 5] as u64) << 40u64) | ((self.data[offset
            + 6] as u64) << 48u64) | ((self.data[offset + 7] as u64) << 56u64)
    }
}

/// The little-endian 64-bit word stored at byte `offset` of `data`.
pub open spec fn word_at(data: Seq<u8>, offset: int) -> u64 {
    (data[offset] as u64) | ((data[offset + 1] as u64) << 8u64) | ((data[offset + 2] as u64)
        << 16u64) | ((data[offset + 3] as u64) << 24u64) | ((data[offset + 4] as u64) << 32u64) | ((
    data[offset + 5] as u64) << 40u64) | ((data[offset + 6] as u64) << 48u64) | ((data[offset
        + 7] as u64) << 56u64)
}

/// Callee-saved CPU state used by the cooperative context switch.
#[derive(Clone, Copy, PartialEq, Eq, Structural)]
pub struct TaskContext {
    pub rsp: u64,
    pub rbp: u64,
    pub rbx: u64,
    pub r12: u64,
    pub r13: u64,
    pub r14: u64,
    pub r15: u64,
    pub rip: u64,
}

/// A context with every register zero.
pub open spec fn zero_context() -> TaskContext {
    TaskContext { rsp: 0, rbp: 0, rbx: 0, r12: 0, r13: 0, r14: 0, r15: 0, rip: 0 }
}

/// A context that starts executing at `rip` with stack pointer `rsp` and
/// every other register zero.
pub open spec fn entry_context(rsp: u64, rip: u64) -> TaskContext {
    TaskContext { rsp, rbp: 0, rbx: 0, r12: 0, r13: 0, r14: 0, r15: 0, rip }
}

impl TaskContext {
    pub fn empty() -> (c: Self)
        ensures
            c == zero_context(),
    {
        TaskContext { rsp: 0, rbp: 0, rbx: 0, r12: 0, r13: 0, r14: 0, r15: 0, rip: 0 }
    }
}

/// Bytes of the synthetic IRQ frame: 15 general registers, the vector,
/// RIP, CS and RFLAGS.
pub const INTERRUPT_CONTEXT_SIZE: u64 = 152;

/// Stack space kept free above the synthetic frame for the task's first
/// function calls.
pub const INITIAL_STACK_RESERVE: u64 = 2048;

/// Words in the synthetic IRQ frame.
pub const INTERRUPT_FRAME_WORDS: usize = 19;

/// Byte offset of the synthetic IRQ frame inside the kernel stack.
pub const INTERRUPT_FRAME_OFFSET: usize = 14184;

/// Byte offset of the return address a new cooperative task finds on
/// its stack.
pub const RETURN_SLOT_OFFSET: usize = 16376;

/// Word `w` of the synthetic IRQ0 frame for a task entered at `entry`:
/// R15 down to RAX zero, the vector 0x20, then the IRET frame with RIP
/// `entry`, the kernel code selector 0x08 and RFLAGS 0x202 (reserved bit
/// and IF).
pub open spec fn interrupt_frame_word(entry: u64, w: int) -> u64 {
    if w < 15 {
        0
    } else if w == 15 {
        0x20
    } else if w == 16 {
        entry
    } else if w == 17 {
        0x08
    } else {
        0x202
    }
}

/// A kernel task.
pub struct Task {
    pub id: TaskId,
    pub state: TaskState,
    pub priority: u8,
    pub _reserved: [u8; 6],
    pub time_slice_ticks: u64,
    pub total_ticks: u64,
    /// Cooperative CPU context.
    pub context: TaskContext,
    /// Saved interrupt frame address; zero until the task has one.
    pub interrupt_rsp: u64,
    /// Private kernel stack.
    pub kernel_stack: KernelStack,
}

impl Task {
    pub fn new(id: TaskId, priority: u8) -> (t: Self)
        ensures
            t.id == id,
            t.priority == priority,
            t.state == TaskState::Ready,
            t.time_slice_ticks == 0,
            t.total_ticks == 0,
            t.context == zero_context(),
            t.interrupt_rsp == 0,
            forall|i: int| 0 <= i < 6 ==> #[trigger] t._reserved@[i] == 0,
            forall|i: int| 0 <= i < KERNEL_STACK_SIZE ==> #[trigger] t.kernel_stack.data@[i] == 0,
    {
        Task {
            id,
            state: TaskState::Ready,
            priority,
            _reserved: [0u8; 6],
            time_slice_ticks: 0,
            total_ticks: 0,
            context: TaskContext::empty(),
            interrupt_rsp: 0,
            kernel_stack: KernelStack::new(),
        }
    }

    pub fn set_state(&mut self, state: TaskState)
        ensures
            final(self).state == state,
            final(self).id == old(self).id,
            final(self).priority == old(self).priority,
            final(self).time_slice_ticks == old(self).time_slice_ticks,
            final(self).total_ticks == old(self).total_ticks,
            final(self).context == old(self).context,
            final(self).interrupt_rsp == old(self).interrupt_rsp,
    {
        self.state = state;
    }

    /// A task may be scheduled when it is ready or already running.
    pub fn is_runnable(&self) -> (r: bool)
        ensures
            r == (self.state == TaskState::Ready || self.state == TaskState::Running),
    {
        match self.state {
            TaskState::Ready | TaskState::Running => true,
            _ => false,
        }
    }

    /// Set up a cooperative start at `entry`: the stack, whose top is the
    /// address `stack_top`, gets the address `exit_address` as return
    /// address, and the context starts with RSP just below it.
    pub fn initialize_context(&mut self, entry: u64, stack_top: u64, exit_address: u64)
        requires
            stack_top >= 8,
        ensures
            final(self).context == entry_context((stack_top - 8) as u64, entry),
            word_at(final(self).kernel_stack.data@, RETURN_SLOT_OFFSET as int) == exit_address,
            forall|i: int|
                0 <= i < RETURN_SLOT_OFFSET ==> #[trigger] final(self).kernel_stack.data@[i] == old(self).kernel_stack.data@[i],
            final(self).id == old(self).id,
            final(self).state == old(self).state,
            final(self).priority == old(self).priority,
            final(self).time_slice_ticks == old(self).time_slice_ticks,
            final(self).total_ticks == old(self).total_ticks,
            final(self).interrupt_rsp == old(self).interrupt_rsp,
    {
        let initial_rsp = stack_top - 8;
        self.kernel_stack.write_word(RETURN_SLOT_OFFSET, exit_address);
        self.context = TaskContext {
            rsp: initial_rsp,
            rbp: 0,
            rbx: 0,
            r12: 0,
            r13: 0,
            r14: 0,
            r15: 0,
            rip: entry,
        };
    }

    /// Build a synthetic IRQ0 frame for a preemptive start at `entry`,
    /// `INITIAL_STACK_RESERVE` bytes below the stack top (the address
    /// `stack_top`), and record its address as the saved interrupt frame.
    pub fn initialize_interrupt_context(&mut self, entry: u64, stack_top: u64)
        requires
            stack_top >= INITIAL_STACK_RESERVE + INTERRUPT_CONTEXT_SIZE,
        ensures
            final(self).interrupt_rsp == stack_top - INITIAL_STACK_RESERVE - INTERRUPT_CONTEXT_SIZE,
            forall|w: int|
                0 <= w < INTERRUPT_FRAME_WORDS ==> #[trigger] word_at(
                    final(self).kernel_stack.data@,
                    INTERRUPT_FRAME_OFFSET + 8 * w,
                ) == interrupt_frame_word(entry, w),
            forall|i: int|
                0 <= i < KERNEL_STACK_SIZE && !(INTERRUPT_FRAME_OFFSET <= i < INTERRUPT_FRAME_OFFSET
                    + INTERRUPT_CONTEXT_SIZE) ==> #[trigger] final(self).kernel_stack.data@[i] == old(self).kernel_stack.data@[i],
            final(self).id == old(self).id,
            final(self).state == old(self).state,
            final(self).priority == old(self).priority,
            final(self).time_slice_ticks == old(self).time_slice_ticks,
            final(self).total_ticks == old(self).total_ticks,
            final(self).context == old(self).context,
    {
        let context_rsp = stack_top - INITIAL_STACK_RESERVE - INTERRUPT_CONTEXT_SIZE;
        let mut w: usize = 0;
        while w < INTERRUPT_FRAME_WORDS
            invariant
                w <= INTERRUPT_FRAME_WORDS,
                self.id == old(self).id,
                self.state == old(self).state,
                self.priority == old(self).priority,
                self.time_slice_ticks == old(self).time_slice_ticks,
                self.total_ticks == old(self).total_ticks,
                self.context == old(self).context,
                self.interrupt_rsp == old(self).interrupt_rsp,
                forall|v: int|
                    0 <= v < w ==> #[trigger] word_at(self.kernel_stack.data@, INTERRUPT_FRAME_OFFSET + 8 * v)
                        == interrupt_frame_word(entry, v),
                forall|i: int|
                    0 <= i < KERNEL_STACK_SIZE && !(INTERRUPT_FRAME_OFFSET <= i < INTERRUPT_FRAME_OFFSET
                        + 8 * w) ==> #[trigger] self.kernel_stack.data@[i] == old(self).kernel_stack.data@[i],
            decreases INTERRUPT_FRAME_WORDS - w,
        {
            let value: u64 = if w < 15 {
                0
            } else if w == 15 {
                0x20
            } else if w == 16 {
                entry
            } else if w == 17 {
                0x08
            } else {
                0x202
            };
            let ghost before = self.kernel_stack.data@;
            self.kernel_stack.write_word(INTERRUPT_FRAME_OFFSET + 8 * w, value);
            proof {
                assert forall|v: int| 0 <= v < w + 1 implies #[trigger] word_at(
                    self.kernel_stack.data@,
                    INTERRUPT_FRAME_OFFSET + 8 * v,
                ) == interrupt_frame_word(entry, v) by {
                    if v < w {
                        let o = INTERRUPT_FRAME_OFFSET + 8 * v;
                        assert(self.kernel_stack.data@[o] == before[o]);
                        assert(self.kernel_stack.data@[o + 1] == before[o + 1]);
                        assert(self.kernel_stack.data@[o + 2] == before[o + 2]);
                        assert(self.kernel_stack.data@[o + 3] == before[o + 3]);
                        assert(self.kernel_stack.data@[o + 4] == before[o + 4]);
                        assert(self.kernel_stack.data@[o + 5] == before[o + 5]);
                        assert(self.kernel_stack.data@[o + 6] == before[o + 6]);
                        assert(self.kernel_stack.data@[o + 7] == before[o + 7]);
                        assert(word_at(before, o) == interrupt_frame_word(entry, v));
                    } else {
                        assert(v == w);
                        assert(value == interrupt_frame_word(entry, v));
                        assert(word_at(self.kernel_stack.data@, INTERRUPT_FRAME_OFFSET + 8 * w) == value);
                    }
                }
            }
            w = w + 1;
        }
        self.interrupt_rsp = context_rsp;
    }

    /// Word `index` of the synthetic IRQ frame in the task's stack.
    pub fn interrupt_frame_word(&self, index: usize) -> (r: u64)
        requires
            index < INTERRUPT_FRAME_WORDS,
        ensures
            r == word_at(self.kernel_stack.data@, INTERRUPT_FRAME_OFFSET + 8 * index),
    {
        self.kernel_stack.read_word(INTERRUPT_FRAME_OFFSET + 8 * index)
    }

    /// Point the cooperative context at the interrupt-context trampoline
    /// (whose address is `trampoline`), with the saved interrupt frame as
    /// stack, so that switching to the task restores the frame and IRETs.
    pub fn prepare_preemptive_start(&mut self, trampoline: u64)
        requires
            old(self).interrupt_rsp != 0,
        ensures
            final(self).context == entry_context(old(self).interrupt_rsp, trampoline),
            final(self).kernel_stack == old(self).kernel_stack,
            final(self).id == old(self).id,
            final(self).state == old(self).state,
            final(self).priority == old(self).priority,
            final(self).time_slice_ticks == old(self).time_slice_ticks,
            final(self).total_ticks == old(self).total_ticks,
            final(self).interrupt_rsp == old(self).interrupt_rsp,
    {
        self.context = TaskContext {
            rsp: self.interrupt_rsp,
            rbp: 0,
            rbx: 0,
            r12: 0,
            r13: 0,
            r14: 0,
            r15: 0,
            rip: trampoline,
        };
    }
}

/// The source of fresh task identifiers, starting at 1.
pub struct TaskIdAllocator {
    next: u64,
}

impl View for TaskIdAllocator {
    type V = u64;

    closed spec fn view(&self) -> u64 {
        self.next
    }
}

impl TaskIdAllocator {
    pub fn new() -> (a: Self)
        ensures
            a@ == 1,
    {
        TaskIdAllocator { next: 1 }
    }
}

/// Hand out the next task identifier; the counter wraps like an atomic
/// fetch-add.
pub fn allocate_task_id(ids: &mut TaskIdAllocator) -> (id: TaskId)
    ensures
        id == old(ids)@,
        final(ids)@ == old(ids)@.wrapping_add(1),
{
    let id = ids.next;
    ids.next = ids.next.wrapping_add(1);
    id
}

} // verus!

//! Kernel tasks, the run queue and the round-robin scheduler.
pub mod preempt;
pub mod queue;
pub mod scheduler;
pub mod task;

pub use queue::{RunQueue, MAX_TASKS};
pub use scheduler::{Scheduler, DEFAULT_TIME_SLICE_TICKS, MAX_SCHEDULER_TASKS};
pub use task::{allocate_task_id, KernelStack, Task, TaskContext, TaskId, TaskIdAllocator, TaskState};

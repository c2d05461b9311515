//! Inter-process communication: fixed-size messages and generation-checked
//! endpoints with bounded FIFO queues.
pub mod endpoint;
pub mod message;

pub use endpoint::{IpcHandle, IpcManager, IPC_QUEUE_CAPACITY, MAX_IPC_ENDPOINTS};
pub use message::{IpcMessage, IPC_MESSAGE_SIZE};

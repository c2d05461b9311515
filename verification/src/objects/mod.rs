//! Kernel object handles, slots and the global object table.
pub mod object;
pub mod table;

pub use object::{ObjectHandle, ObjectRecord, ObjectSlot, ObjectType};
pub use table::{ObjectTable, MAX_KERNEL_OBJECTS};

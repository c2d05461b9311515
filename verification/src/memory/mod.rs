//! Physical frames, page tables, address spaces and the kernel heap.
pub mod address;
pub mod address_space;
pub mod frame_allocator;
pub mod heap;
pub mod page_table;

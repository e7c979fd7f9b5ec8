//! Memory: the physical memory model, frame allocation,
//! memory layout and virtual memory.

pub mod phys_mem;
pub mod memory_layout;
pub mod frame_alloc;
pub mod virtual_memory;
pub mod types;

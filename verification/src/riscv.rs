//! Low-level RISC-V mechanisms: memory types for the Sv32
//! paging scheme and the logic of the supervisor registers.

pub mod memory_types;
pub mod supervisor_mode;
pub mod machine_mode;

//! POLVOSS kernel core: the verified logic of a small RISC-V (Sv32)
//! teaching kernel. Hardware access (CSRs, MMIO, linker symbols) is kept
//! outside; the physical memory, the frame bitmap and the process table
//! are modelled by the types of this crate.

pub mod config;
pub mod riscv;
pub mod memory;
pub mod file;
pub mod trap;
pub mod proc;
pub mod mmio;
pub mod io;
pub mod kernel;
pub mod boot;

//! Physical memory layout.
//!
//! This module contains data and mechanisms about the physical
//! memory layout such as the first and last frame addresses. The
//! kernel's start and end addresses are linker symbols; they are
//! handed to these functions as plain values.

use vstd::prelude::*;
use crate::config::constants::{RAM_SIZE, PAGE_SIZE};
use crate::riscv::memory_types::MAX_VIRT_ADDR;

verus! {

/// Virtual address of uservec. The uservec is the user trap
/// vector that saves the user registers and changes from the
/// process page table to the kernel page table. It is mapped in
/// the same location in the kernel and users address spaces.
pub const USERVEC: usize = MAX_VIRT_ADDR - PAGE_SIZE;

/// Virtual address of trapframe. The trapframe is the region
/// of memory where the user data is stored when performing a trap.
pub const TRAPFRAME: usize = USERVEC - PAGE_SIZE;

/// Virtual address of a process' stack.
pub const PSTACK: usize = TRAPFRAME - PAGE_SIZE;

/// Last frame address: the end of RAM, which starts where the
/// kernel starts (`skernel`).
pub fn last_addr(skernel: u64) -> (r: u64)
    requires
        skernel + RAM_SIZE <= u64::MAX,
    ensures
        r == skernel + RAM_SIZE,
{
    // Last physical address in RAM
    skernel + RAM_SIZE as u64
}

/// First frame address: the first multiple of PAGE_SIZE at or
/// after the end of the kernel (`ekernel`).
pub fn first_addr(ekernel: u64) -> (r: u64)
    requires
        ekernel + 4095 <= u64::MAX,
    ensures
        r % 4096 == 0,
        ekernel <= r < ekernel + 4096,
{
    let page_size: u64 = PAGE_SIZE as u64;
    // First multiple of PAGE_SIZE after ekernel
    let mut q: u64 = ekernel / page_size;
    if ekernel % page_size != 0 {
        q = q + 1;
    }
    q * page_size
}

} // verus!

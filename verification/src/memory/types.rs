//! Type definitions for memory management.

use vstd::prelude::*;

verus! {

/// Wrapper for a usize that represents physical memory
pub struct PhysAddr(usize);

impl View for PhysAddr {
    type V = usize;

    closed spec fn view(&self) -> usize {
        self.0
    }
}

impl PhysAddr {
    /// Constructor
    pub fn new(addr: usize) -> (r: Self)
        ensures
            r@ == addr,
    {
        PhysAddr(addr)
    }

    /// Get the address
    pub fn get_addr(&self) -> (r: usize)
        ensures
            r == self@,
    {
        self.0
    }
}

} // verus!

//! Machine mode registers.

use vstd::prelude::*;

verus! {

/// MPP Machine mode code
pub const MPP_M: usize = 0x1800;

/// MPP Supervisor mode code
pub const MPP_S: usize = 0x800;

/// MPP User mode code
pub const MPP_U: usize = 0;

/// mie supervisor timer interrupts enable code
pub const MIE_STIE: usize = 0x20;

} // verus!

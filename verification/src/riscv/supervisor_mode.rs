//! Supervisor mode registers.
//!
//! The values of the supervisor status register (sstatus) and of the
//! interrupt enable register (sie) that the kernel reads and writes.
//! Reading and writing the registers themselves is done by the
//! caller.

use vstd::prelude::*;

verus! {

/// SPP Supervisor mode code
pub const SPP_S: usize = 0x100;

/// SPP User mode code
pub const SPP_U: usize = 0;

/// Global enable bit for interrupts
pub const SSTATUS_SIE: usize = 0x2;

/// sie software interrupts enable code
pub const SIE_SSIE: usize = 0x2;

/// sie timer interrupts enable code
pub const SIE_STIE: usize = 0x20;

/// sie external interrupts enable code
pub const SIE_SEIE: usize = 0x200;

/// No translation or protection
pub const SATP_BARE: usize = 0;

/// Interrupts are enabled in this value of sstatus: its SIE bit is set.
pub open spec fn sie_set(sstatus: usize) -> bool {
    sstatus & SSTATUS_SIE == SSTATUS_SIE
}

/// Check if interrupts are enabled
pub fn intr_enabled(sstatus: usize) -> (r: bool)
    ensures
        r == sie_set(sstatus),
{
    if sstatus & SSTATUS_SIE == SSTATUS_SIE {
        return true;
    }
    false
}

/// Enable interrupts globally: the value of sstatus with its SIE
/// bit set.
pub fn intr_on(sstatus: usize) -> (r: usize)
    ensures
        r == sstatus | SSTATUS_SIE,
        sie_set(r),
        r & !SSTATUS_SIE == sstatus & !SSTATUS_SIE,
{
    let r: usize = sstatus | SSTATUS_SIE;
    proof {
        assert((sstatus | 2usize) & 2usize == 2usize) by (bit_vector);
        assert((sstatus | 2usize) & !2usize == sstatus & !2usize) by (bit_vector);
    }
    r
}

/// Disable interrupts globally: the value of sstatus with its SIE
/// bit cleared.
pub fn intr_off(sstatus: usize) -> (r: usize)
    ensures
        r == sstatus & !SSTATUS_SIE,
        !sie_set(r),
        r & !SSTATUS_SIE == sstatus & !SSTATUS_SIE,
{
    let r: usize = sstatus & !SSTATUS_SIE;
    proof {
        assert((sstatus & !2usize) & 2usize == 0usize) by (bit_vector);
        assert((sstatus & !2usize) & !2usize == sstatus & !2usize) by (bit_vector);
    }
    r
}

/// Turning interrupts off then on again gives the same value as
/// turning them on, and the other way around: only the SIE bit
/// changes.
pub proof fn lemma_intr_on_off(sstatus: usize)
    ensures
        (sstatus & !SSTATUS_SIE) | SSTATUS_SIE == sstatus | SSTATUS_SIE,
        (sstatus | SSTATUS_SIE) & !SSTATUS_SIE == sstatus & !SSTATUS_SIE,
        sie_set(sstatus) ==> sstatus | SSTATUS_SIE == sstatus,
        !sie_set(sstatus) ==> sstatus & !SSTATUS_SIE == sstatus,
{
    assert((sstatus & !2usize) | 2usize == sstatus | 2usize) by (bit_vector);
    assert((sstatus | 2usize) & !2usize == sstatus & !2usize) by (bit_vector);
    assert(sstatus & 2usize == 2usize ==> sstatus | 2usize == sstatus) by (bit_vector);
    assert(sstatus & 2usize != 2usize ==> sstatus & !2usize == sstatus) by (bit_vector);
}

} // verus!

//! Configure hardware for the kernel startup.
//!
//! Delegate all interrupts and exceptions to Supervisor mode, enable
//! interrupts, grant access to all physical memory to Supervisor mode
//! and switch from Machine to Supervisor mode calling the start
//! function. The values to write in the registers are computed here
//! from the values read; reading and writing the registers, and the
//! `mret` that switches modes, are done by the caller.

use vstd::prelude::*;
use crate::riscv::machine_mode::{MPP_M, MPP_S, MIE_STIE};
use crate::riscv::supervisor_mode::{SIE_STIE, SIE_SEIE, SIE_SSIE};

verus! {

/// Register values of the clock configuration.
pub struct ClockConfig {
    /// Machine interrupt enable register
    pub mie: usize,
    /// Upper half of the machine environment configuration register
    pub menvcfgh: usize,
    /// Machine counter enable register
    pub mcounteren: usize,
    /// Time of the first clock interrupt
    pub stimecmp: u64,
}

/// Configure clock: enable timer interrupts, allow Supervisor mode to
/// use stimecmp and program the first clock interrupt one tick
/// (`tick`, in time units) after `time`.
pub fn clock_init(mie: usize, menvcfgh: usize, mcounteren: usize, time: u64, tick: u64) -> (r: ClockConfig)
    requires
        time + tick <= u64::MAX,
    ensures
        r.mie == mie | MIE_STIE,
        r.menvcfgh == menvcfgh | 0x8000_0000usize,
        r.mcounteren == mcounteren | 2usize,
        r.stimecmp == time + tick,
{
    ClockConfig {
        // Enable timer interrupts
        mie: mie | MIE_STIE,
        // Allow Supervisor mode to use stimecmp
        menvcfgh: menvcfgh | 0x8000_0000usize,
        mcounteren: mcounteren | 2usize,
        // First clock interrupt
        stimecmp: time + tick,
    }
}

/// Register values of the hardware configuration.
pub struct HardConfig {
    /// Machine status: previous mode Supervisor
    pub mstatus: usize,
    /// Interrupts delegated to Supervisor mode
    pub mideleg: usize,
    /// Exceptions delegated to Supervisor mode
    pub medeleg: usize,
    /// Supervisor interrupts enabled
    pub sie: usize,
    /// Physical memory protection configuration
    pub pmpcfg0: usize,
    /// Physical memory protection address
    pub pmpaddr0: usize,
    /// CPU id kept in the tp register
    pub tp: usize,
}

/// Hardware configuration: switch from Machine to Supervisor mode,
/// delegate all interrupts and exceptions to S mode, enable timer,
/// external and software interrupts in S mode, allow S mode access to
/// all physical memory, and keep the CPU id (`mhartid`) in tp.
pub fn hard_config(mstatus: usize, sie: usize, mhartid: usize) -> (r: HardConfig)
    ensures
        r.mstatus == (mstatus & !MPP_M) | MPP_S,
        r.mideleg == 0xffff,
        r.medeleg == 0xffff,
        r.sie == sie | SIE_STIE | SIE_SEIE | SIE_SSIE,
        r.pmpcfg0 == 0xf,
        r.pmpaddr0 == 0xffff_ffff,
        r.tp == mhartid,
{
    // Switch from Machine to Supervisor mode
    let mut ms: usize = mstatus;
    ms = ms & !MPP_M; // Overwrite previous MPP
    ms = ms | MPP_S; // Set MPP to Supervisor
    // Enable interrupts in S mode
    let mut s: usize = sie;
    s = s | SIE_STIE; // Enable timer interrupts
    s = s | SIE_SEIE; // Enable external interrupts
    s = s | SIE_SSIE; // Enable software interrupts
    HardConfig {
        mstatus: ms,
        // Delegate all interrupts and exeptions to S mode
        mideleg: 0xffff,
        medeleg: 0xffff,
        sie: s,
        // Read, Write, Execute and TOR matching
        pmpcfg0: 0xf,
        // All addresses such that 0 <= addr < 0xffffffff are valid
        pmpaddr0: 0xffff_ffff,
        // Save CPU id in the tp register because mhartid will become
        // inaccessible in S mode
        tp: mhartid,
    }
}

/// After the configuration the previous mode is Supervisor and the
/// other bits of mstatus are kept.
pub proof fn lemma_previous_mode_supervisor(mstatus: usize)
    ensures
        ((mstatus & !MPP_M) | MPP_S) & MPP_M == MPP_S,
        ((mstatus & !MPP_M) | MPP_S) & !MPP_M == mstatus & !MPP_M,
{
    assert(((mstatus & !0x1800usize) | 0x800usize) & 0x1800usize == 0x800usize) by (bit_vector);
    assert(((mstatus & !0x1800usize) | 0x800usize) & !0x1800usize == mstatus & !0x1800usize) by (bit_vector);
}

} // verus!

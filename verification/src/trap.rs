//! Trap (interrupts and exceptions) mechanisms.

pub mod trap_types;
pub mod trap_codes;

pub mod syscall_file;
pub mod clock;
pub mod syscall_proc;
pub mod syscall_handler;
pub mod device;
pub mod trap_handlers;

//! Input and output of the processes and of the kernel.

pub mod console;

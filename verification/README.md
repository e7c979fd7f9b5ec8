# polvoss

A small RISC-V (Sv32) teaching kernel whose logic is written in Verus
and proved against its contracts.

## Layout

- `src/` — the verified library. The hardware it runs on is modelled
  by plain values: physical memory (`memory::phys_mem::PhysMem`), the
  frame allocator's bitmap, the process table, the console and the
  bytes sent to the UART. Register values come in as arguments and go
  out as results.
  - `riscv` — addresses, PTEs, page tables, walking, copying and
    freeing address spaces; supervisor and machine mode register bits.
  - `memory` — frame allocation, the kernel and user mappings,
    `copyin`/`copyout`, process images.
  - `proc` — process control blocks, the process table, round robin
    scheduling, condition variables, the lock nesting stack.
  - `trap` — trap causes, system calls, the timer and device
    interrupts, the user and kernel trap handlers.
  - `mmio` — the UART byte protocol and the text monitor.
  - `io` — the console: keyboard input, line editing, ANSI codes, output.
  - `boot` — machine mode configuration values.
  - `file` — ELF header checks.
- `app/` — the program around the library: CSR and MMIO access, the
  spin lock, printing, the boot sequence, the trap entry points and
  the scheduler loop. The library's physical memory is a model kept in
  the program's own memory: the page tables it builds are not the
  ones the MMU walks, so on a RISC-V board the satp value that
  `install_page_table` writes names memory the model never wrote.
- `tests/` — tests of the library on concrete values.

## Limits

- There is no program loader. Loading an ELF image needs a routine
  that grows a process image page by page and a conversion of segment
  flags to page permissions, and the kernel defines neither; the
  header checks a loader would make are in `file::elf`.
- The kernel's state is one value, borrowed for the whole of a trap.
  A system call therefore runs with interrupts off: a device or clock
  interrupt taken during the call would have to enter that same state.
  `trap::trap_handlers::usertrap` states nothing about interrupts
  during the call.

use polvoss::boot::hard_config::{clock_init, hard_config};
use polvoss::file::elf::{validate_elf_header, validate_program_header, Elf32_Ehdr, Elf32_Phdr, PT_R, PT_W};
use polvoss::riscv::supervisor_mode::{intr_enabled, intr_off, intr_on};
use polvoss::trap::trap_codes::{desc_exception, desc_interrupt};

#[test]
fn interrupt_enable_bit() {
    assert!(!intr_enabled(0x100));
    assert_eq!(intr_on(0x100), 0x102);
    assert!(intr_enabled(intr_on(0x100)));
    assert_eq!(intr_off(0x102), 0x100);
    assert!(!intr_enabled(intr_off(0xffff)));
    assert_eq!(intr_on(intr_off(0x1234)), intr_on(0x1234));
}

#[test]
fn machine_mode_configuration() {
    let c = hard_config(0x1888, 0, 3);
    assert_eq!(c.mstatus, 0x0888);
    assert_eq!(c.mideleg, 0xffff);
    assert_eq!(c.medeleg, 0xffff);
    assert_eq!(c.sie, 0x222);
    assert_eq!(c.pmpcfg0, 0xf);
    assert_eq!(c.pmpaddr0, 0xffff_ffff);
    assert_eq!(c.tp, 3);
    let k = clock_init(0, 0, 0, 1000, 250);
    assert_eq!(k.mie, 0x20);
    assert_eq!(k.menvcfgh, 0x8000_0000);
    assert_eq!(k.mcounteren, 2);
    assert_eq!(k.stimecmp, 1250);
}

#[test]
fn trap_descriptions() {
    assert_eq!(desc_exception(8), "Environment call from U-mode");
    assert_eq!(desc_exception(13), "Load page fault");
    assert_eq!(desc_exception(10), "Unknown exception");
    assert_eq!(desc_interrupt(5), "Supervisor timer interrupt");
    assert_eq!(desc_interrupt(9), "Supervisor external interrupt");
    assert_eq!(desc_interrupt(2), "Unknown interrupt");
}

fn riscv_header() -> Elf32_Ehdr {
    let mut ident = [0u8; 16];
    ident[0] = 0x7f;
    ident[1] = b'E';
    ident[2] = b'L';
    ident[3] = b'F';
    ident[4] = 1;
    ident[5] = 1;
    ident[6] = 1;
    Elf32_Ehdr {
        e_ident: ident,
        e_type: 2,
        e_machine: 0xF3,
        e_version: 1,
        e_entry: 0x1000,
        e_phoff: 52,
        e_shoff: 0,
        e_flags: 0,
        e_ehsize: 52,
        e_phentsize: 32,
        e_phnum: 1,
        e_shentsize: 0,
        e_shnum: 0,
        e_shstrndx: 0,
    }
}

#[test]
fn elf_header_validation() {
    let h = riscv_header();
    assert!(validate_elf_header(h));
    let mut bad = riscv_header();
    bad.e_ident[1] = b'X';
    assert!(!validate_elf_header(bad));
    let mut bad = riscv_header();
    bad.e_machine = 0x3E;
    assert!(!validate_elf_header(bad));
    let mut bad = riscv_header();
    bad.e_type = 3;
    assert!(!validate_elf_header(bad));
    let mut bad = riscv_header();
    bad.e_ident[4] = 2;
    assert!(!validate_elf_header(bad));
}

#[test]
fn program_header_validation() {
    let p = Elf32_Phdr {
        p_type: 1,
        p_offset: 0x1000,
        p_vaddr: 0x1_0000,
        p_paddr: 0,
        p_filesz: 0x800,
        p_memsz: 0x1000,
        p_flags: PT_R,
        p_align: 4096,
    };
    assert!(validate_program_header(p));
    assert!(!validate_program_header(Elf32_Phdr { p_flags: PT_R | PT_W, ..p }));
    assert!(!validate_program_header(Elf32_Phdr { p_vaddr: 0x1_0010, ..p }));
    assert!(!validate_program_header(Elf32_Phdr { p_memsz: 0x400, ..p }));
    assert!(!validate_program_header(Elf32_Phdr { p_memsz: 0, p_filesz: 0, ..p }));
    assert!(!validate_program_header(Elf32_Phdr { p_type: 2, ..p }));
    assert!(!validate_program_header(Elf32_Phdr { p_align: 8, ..p }));
}

//! Executable and Linkable Format (ELF).
//!
//! The Executable and Linkable Format (ELF) is the standard format
//! for object files in UNIX-like systems. It contains information
//! about a program's sections and entry point and how to load these
//! sections into segments in memory.

use vstd::prelude::*;
use crate::config::constants::PAGE_SIZE;

verus! {

/********************|TYPES|********************/

/// Unsigned program address
#[allow(non_camel_case_types)]
pub type Elf32_Addr = u32;
/// Unsigned medium integer
#[allow(non_camel_case_types)]
pub type Elf32_Half = u16;
/// Unsigned file offset
#[allow(non_camel_case_types)]
pub type Elf32_Off = u32;
/// Signed large integer
#[allow(non_camel_case_types)]
pub type Elf32_Sword = i32;
/// Unsigned large integer
#[allow(non_camel_case_types)]
pub type Elf32_Word = u32;

/*****************|ELF HEADER|*****************/

/// Size of the ELF identification array
pub const EI_NIDENT: usize = 16;

/// ELF file header. This is used as a "road map"
/// describing the file's organization.
#[allow(non_camel_case_types)]
#[derive(Clone, Copy)]
pub struct Elf32_Ehdr {
    pub e_ident: [u8; EI_NIDENT],   // Magic number and other info
    pub e_type: Elf32_Half,         // Object file type
    pub e_machine: Elf32_Half,      // Architecture
    pub e_version: Elf32_Word,      // Object file version
    pub e_entry: Elf32_Addr,        // Entry point virtual address
    pub e_phoff: Elf32_Off,         // Program header table file offset
    pub e_shoff: Elf32_Off,         // Section header table file offset
    pub e_flags: Elf32_Word,        // Processor-specific flags
    pub e_ehsize: Elf32_Half,       // ELF header size in bytes
    pub e_phentsize: Elf32_Half,    // Program header table entry size
    pub e_phnum: Elf32_Half,        // Program header table entry count
    pub e_shentsize: Elf32_Half,    // Section header table entry size
    pub e_shnum: Elf32_Half,        // Section header table entry count
    pub e_shstrndx: Elf32_Half,     // Section header string table index
}

// e_ident offsets
pub const EI_MAG0: usize = 0;  // 0x7F
pub const EI_MAG1: usize = 1;  // 'E'
pub const EI_MAG2: usize = 2;  // 'L'
pub const EI_MAG3: usize = 3;  // 'F'
pub const EI_CLASS: usize = 4;  // Class (32 bit/64 bit)
pub const EI_DATA: usize = 5;  // Byte Order
pub const EI_VERSION: usize = 6;  // ELF Version
pub const EI_PAD: usize = 7;  // Padding

// The first 4 bytes of e_ident identify the file
// as an ELF object using the magic number
pub const ELFMAG0: u8 = 0x7f;  // e_ident[EI_MAG0]
pub const ELFMAG1: u8 = 0x45;  // e_ident[EI_MAG1], 'E'
pub const ELFMAG2: u8 = 0x4c;  // e_ident[EI_MAG2], 'L'
pub const ELFMAG3: u8 = 0x46;  // e_ident[EI_MAG3], 'F'
pub const ELFCLASS32: u8 = 1;  // e_ident[EI_CLASS] value for 32 bit
pub const ELFDATA2LSB: u8 = 1;  // e_ident[EI_DATA] value for LSB
pub const EV_CURRENT: u8 = 1;  // e_ident[EI_VERSION] value for version

/// e_type value of an absolute addresses executable file
pub const ET_EXEC: Elf32_Half = 2;

/// RISC-V e_machine value
pub const EM_RISCV: Elf32_Half = 0xF3;

/// A header of a 32-bit little-endian RISC-V executable of the
/// current ELF version.
pub open spec fn elf_header_ok(hdr: Elf32_Ehdr) -> bool {
    &&& hdr.e_ident[EI_MAG0 as int] == ELFMAG0
    &&& hdr.e_ident[EI_MAG1 as int] == ELFMAG1
    &&& hdr.e_ident[EI_MAG2 as int] == ELFMAG2
    &&& hdr.e_ident[EI_MAG3 as int] == ELFMAG3
    &&& hdr.e_ident[EI_CLASS as int] == ELFCLASS32
    &&& hdr.e_ident[EI_DATA as int] == ELFDATA2LSB
    &&& hdr.e_ident[EI_VERSION as int] == EV_CURRENT
    &&& hdr.e_machine == EM_RISCV
    &&& hdr.e_type == ET_EXEC
}

/// Check whether or not the ELF is valid
/// # Arguments
/// - `hdr`: ELF header of the file
/// # Return
/// `true` if the file is valid, `false` otherwise
pub fn validate_elf_header(hdr: Elf32_Ehdr) -> (r: bool)
    ensures
        r == elf_header_ok(hdr),
{
    // Check magic number
    if hdr.e_ident[EI_MAG0] != ELFMAG0 || hdr.e_ident[EI_MAG1] != ELFMAG1
        || hdr.e_ident[EI_MAG2] != ELFMAG2 || hdr.e_ident[EI_MAG3] != ELFMAG3 {
        return false;
    }
    // Check OS support for this ELF file
    if hdr.e_ident[EI_CLASS] != ELFCLASS32 || hdr.e_ident[EI_DATA] != ELFDATA2LSB
        || hdr.e_ident[EI_VERSION] != EV_CURRENT || hdr.e_machine != EM_RISCV {
        return false;
    }
    // Check if the type is valid
    if hdr.e_type != ET_EXEC {
        return false;
    }
    true
}

/***************|PROGRAM HEADER|***************/

/// Program header. The program header describes
/// segments and information for program execution
#[allow(non_camel_case_types)]
#[derive(Clone, Copy)]
pub struct Elf32_Phdr {
    pub p_type: Elf32_Word,    // Type of segment
    pub p_offset: Elf32_Off,   // Segment's offset from the beginning of the file
    pub p_vaddr: Elf32_Addr,   // Virtual address where the segment starts
    pub p_paddr: Elf32_Addr,   // Physical address where the segment starts (optional)
    pub p_filesz: Elf32_Word,  // Size of the file image of the segment
    pub p_memsz: Elf32_Word,   // Size of the memory image of the segment
    pub p_flags: Elf32_Word,   // Flags for segment permissions (R/W/E)
    pub p_align: Elf32_Word,   // Alignment requirement for p_vaddr and p_offset
}

/// p_type value of a loadable segment
pub const PT_LOAD: Elf32_Word = 1;

/// Execute permission
pub const PT_X: Elf32_Word = 0x1;
/// Write permission
pub const PT_W: Elf32_Word = 0x2;
/// Read permission
pub const PT_R: Elf32_Word = 0x4;

/// A loadable segment, aligned to pages in memory and in the file,
/// with a non-empty memory image at least as large as its file
/// image and exactly one of the permissions.
pub open spec fn program_header_ok(hdr: Elf32_Phdr) -> bool {
    &&& hdr.p_type == PT_LOAD
    &&& hdr.p_align == PAGE_SIZE
    &&& hdr.p_vaddr % (PAGE_SIZE as u32) == 0
    &&& hdr.p_offset % (PAGE_SIZE as u32) == 0
    &&& hdr.p_memsz != 0
    &&& hdr.p_memsz >= hdr.p_filesz
    &&& (hdr.p_flags == PT_X || hdr.p_flags == PT_W || hdr.p_flags == PT_R)
}

/// Check whether or not the ELF segment indicated by
/// the program header is supported
/// # Arguments
/// - `hdr`: ELF program header
/// # Return
/// `true` if the file is valid, `false` otherwise
pub fn validate_program_header(hdr: Elf32_Phdr) -> (r: bool)
    ensures
        r == program_header_ok(hdr),
{
    // Check the type
    if hdr.p_type != PT_LOAD {
        return false;
    }
    let psz: u32 = PAGE_SIZE as u32;
    // Check the alignment
    if hdr.p_align != psz || hdr.p_vaddr % psz != 0 || hdr.p_offset % psz != 0 {
        return false;
    }
    // Check sizes
    if hdr.p_memsz == 0 || hdr.p_memsz < hdr.p_filesz {
        return false;
    }
    // Check permissions
    if hdr.p_flags != PT_X && hdr.p_flags != PT_W && hdr.p_flags != PT_R {
        return false;
    }
    true
}

/// An ELF file header is accepted exactly when it starts with the magic
/// number `0x7F 'E' 'L' 'F'`, is a 32 bit (class 1), little endian
/// (data 1), version 1 file, is made for RISC-V (machine `0xF3`) and is
/// an executable (type 2).
pub proof fn lemma_elf_header_accepted(hdr: Elf32_Ehdr)
    ensures
        elf_header_ok(hdr) <==> {
            &&& hdr.e_ident[0] == 0x7f && hdr.e_ident[1] == 0x45
            &&& hdr.e_ident[2] == 0x4c && hdr.e_ident[3] == 0x46
            &&& hdr.e_ident[4] == 1
            &&& hdr.e_ident[5] == 1
            &&& hdr.e_ident[6] == 1
            &&& hdr.e_machine == 0xF3
            &&& hdr.e_type == 2
        },
{
}

/// A program header is accepted exactly when it describes a loadable
/// segment (type 1), aligned on pages of 4096 bytes in memory and in
/// the file, not empty in memory and at least as large there as in the
/// file, with one of the permissions execute (1), write (2) or read (4).
pub proof fn lemma_program_header_accepted(hdr: Elf32_Phdr)
    ensures
        program_header_ok(hdr) <==> {
            &&& hdr.p_type == 1
            &&& hdr.p_align == 4096
            &&& hdr.p_vaddr % 4096 == 0
            &&& hdr.p_offset % 4096 == 0
            &&& hdr.p_memsz > 0
            &&& hdr.p_filesz <= hdr.p_memsz
            &&& (hdr.p_flags == 1 || hdr.p_flags == 2 || hdr.p_flags == 4)
        },
{
}

} // verus!

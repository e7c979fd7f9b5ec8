use polvoss::memory::frame_alloc::{FrameAllocator, init_frame_alloc, kmalloc, kfree};
use polvoss::memory::memory_layout::{first_addr, last_addr, USERVEC, TRAPFRAME, PSTACK};
use polvoss::memory::phys_mem::PhysMem;
use polvoss::memory::types::PhysAddr;
use polvoss::memory::virtual_memory::{
    copyin, copyout, copyout_word, copy_proc_image, create_kstack, init_virtual_memory, walkaddr,
};
use polvoss::proc::control_types::Pcb;
use polvoss::riscv::memory_types::{
    copy_addr_space, find_index, prev_page, satp_format, walk, Addr, PageTable, PageTableEntry, PTE_R, PTE_U,
    PTE_V, PTE_W, PTE_X,
};

const SKERNEL: u64 = 0x8000_0000;
const EKERNEL: u64 = 0x8001_0800;

fn allocator() -> FrameAllocator {
    let mut a = FrameAllocator::new(SKERNEL, EKERNEL);
    init_frame_alloc(&mut a);
    a
}

fn zeroed_table(mem: &mut PhysMem, falloc: &mut FrameAllocator) -> PageTable {
    let frame = kmalloc(falloc).unwrap();
    let pgt = PageTable::new(frame);
    pgt.pageset(0, mem);
    pgt
}

#[test]
fn memory_layout_addresses() {
    assert_eq!(last_addr(SKERNEL), SKERNEL + 128 * 1024 * 1024);
    assert_eq!(first_addr(0x8001_0000), 0x8001_0000);
    assert_eq!(first_addr(0x8001_0001), 0x8001_1000);
    assert_eq!(USERVEC, 0xFFFF_E000);
    assert_eq!(TRAPFRAME, 0xFFFF_D000);
    assert_eq!(PSTACK, 0xFFFF_C000);
}

#[test]
fn phys_mem_bytes_and_words() {
    let mut mem = PhysMem::new();
    assert_eq!(mem.read_u8(0x1234), 0);
    mem.write_u32(0x1000, 0x1122_3344);
    assert_eq!(mem.read_u8(0x1000), 0x44);
    assert_eq!(mem.read_u8(0x1003), 0x11);
    assert_eq!(mem.read_u32(0x1000), 0x1122_3344);
    mem.memset(0x2000, 7, 16);
    assert_eq!(mem.read_u8(0x200f), 7);
    assert_eq!(mem.read_u8(0x2010), 0);
    // Overlapping copy behaves as a move
    mem.write_u8(0x3000, 1);
    mem.write_u8(0x3001, 2);
    mem.write_u8(0x3002, 3);
    mem.copy(0x3001, 0x3000, 3);
    assert_eq!(mem.read_u8(0x3001), 1);
    assert_eq!(mem.read_u8(0x3002), 2);
    assert_eq!(mem.read_u8(0x3003), 3);
}

#[test]
fn kmalloc_hands_out_the_first_frames_in_order() {
    let mut a = allocator();
    let f1 = kmalloc(&mut a).unwrap();
    let f2 = kmalloc(&mut a).unwrap();
    // The first frame after the end of the kernel is skipped: the
    // search starts at the page after `latest`, which is that frame.
    assert_eq!(f1.as_integer(), 0x8001_2000);
    assert_eq!(f2.as_integer(), 0x8001_3000);
    kfree(&mut a, f1);
    // The page after the latest is taken when free.
    let f3 = kmalloc(&mut a).unwrap();
    assert_eq!(f3.as_integer(), 0x8001_4000);
}

#[test]
fn kmalloc_kfree_gives_the_frame_again() {
    let mut a = allocator();
    let f1 = kmalloc(&mut a).unwrap();
    kfree(&mut a, f1);
    let mut a2 = allocator();
    let g1 = kmalloc(&mut a2).unwrap();
    assert_eq!(f1.as_integer(), g1.as_integer());
}

#[test]
fn pte_fields_and_address() {
    let mut pte = PageTableEntry::new(0);
    pte.set_addr(Addr::new(0x8002_3456));
    assert_eq!(pte.get_addr().as_integer(), 0x8002_3000);
    pte.write_fields(PTE_V | PTE_R);
    assert!(pte.check_fields(PTE_V));
    assert!(!pte.check_fields(PTE_W));
    assert_eq!(pte.read_fields(), PTE_V | PTE_R);
    // A new address replaces the old one and keeps the flags
    let mut pte = PageTableEntry::new(0x1C01);
    pte.set_addr(Addr::new(0x8000));
    assert_eq!(pte.get_addr().as_integer(), 0x8000);
    assert_eq!(pte.read_fields(), 0x01);
}

#[test]
fn page_helpers() {
    assert_eq!(prev_page(Addr::new(0x1234)).as_integer(), 0x1000);
    assert_eq!(prev_page(Addr::new(0x2000)).as_integer(), 0x2000);
    assert_eq!(find_index(0, Addr::new(0x0040_3000)), 3);
    assert_eq!(find_index(1, Addr::new(0x0040_3000)), 1);
    assert_eq!(satp_format(0x8001_2000), 0x8000_0000 | 0x80012);
    let p = PhysAddr::new(0x42);
    assert_eq!(p.get_addr(), 0x42);
}

#[test]
fn walk_allocates_the_level_zero_table() {
    let mut mem = PhysMem::new();
    let mut falloc = allocator();
    let pgt = zeroed_table(&mut mem, &mut falloc);
    assert!(walk(pgt, Addr::new(0x1000), false, &mut mem, &mut falloc).is_none());
    let (leaf, i) = walk(pgt, Addr::new(0x1000), true, &mut mem, &mut falloc).unwrap();
    assert_eq!(i, 1);
    assert_ne!(leaf.as_integer(), pgt.as_integer());
    let (leaf2, j) = walk(pgt, Addr::new(0x1000), false, &mut mem, &mut falloc).unwrap();
    assert_eq!(leaf2.as_integer(), leaf.as_integer());
    assert_eq!(j, 1);
}

#[test]
fn map_then_walkaddr_gives_the_frame() {
    let mut mem = PhysMem::new();
    let mut falloc = allocator();
    let pgt = zeroed_table(&mut mem, &mut falloc);
    assert!(polvoss::memory::virtual_memory::map(pgt, Addr::new(0x4000), Addr::new(0x8100_0000), 0x2000, PTE_R | PTE_W | PTE_U, &mut mem,
        &mut falloc));
    let pa = walkaddr(pgt, Addr::new(0x5000), &mut mem, &mut falloc).unwrap();
    assert_eq!(pa.as_integer(), 0x8100_1000);
    // Unmapped page
    assert!(walkaddr(pgt, Addr::new(0x6000), &mut mem, &mut falloc).is_none());
    // A kernel page (no user bit) is no user page
    assert!(polvoss::memory::virtual_memory::map(pgt, Addr::new(0x8000), Addr::new(0x8200_0000), 0x1000, PTE_R, &mut mem, &mut falloc));
    assert!(walkaddr(pgt, Addr::new(0x8000), &mut mem, &mut falloc).is_none());
    // Above the Sv32 limit
    assert!(walkaddr(pgt, Addr::new(0xFFFF_F001), &mut mem, &mut falloc).is_none());
}

#[test]
fn copyout_then_copyin_round_trip() {
    let mut mem = PhysMem::new();
    let mut falloc = allocator();
    let pgt = zeroed_table(&mut mem, &mut falloc);
    assert!(polvoss::memory::virtual_memory::map(pgt, Addr::new(0x4000), Addr::new(0x8100_0000), 0x2000, PTE_R | PTE_W | PTE_U, &mut mem,
        &mut falloc));
    // Kernel source buffer, crossing the page boundary of the user buffer
    let src: u64 = 0x8300_0000;
    for k in 0..10u64 {
        mem.write_u8(src + k, (k as u8) + 100);
    }
    assert!(copyout(pgt, Addr::new(0x4ffb), Addr::new(src), 10, &mut mem, &mut falloc));
    assert_eq!(mem.read_u8(0x8100_0ffb), 100);
    assert_eq!(mem.read_u8(0x8100_1000), 105);
    let dst: u64 = 0x8400_0000;
    assert!(copyin(pgt, Addr::new(dst), Addr::new(0x4ffb), 10, &mut mem, &mut falloc));
    for k in 0..10u64 {
        assert_eq!(mem.read_u8(dst + k), (k as u8) + 100);
    }
    // Unmapped destination
    assert!(!copyout(pgt, Addr::new(0x6000), Addr::new(src), 4, &mut mem, &mut falloc));
    assert!(!copyin(pgt, Addr::new(dst), Addr::new(0x5ffe), 4, &mut mem, &mut falloc));
}

#[test]
fn copyout_word_stores_little_endian() {
    let mut mem = PhysMem::new();
    let mut falloc = allocator();
    let pgt = zeroed_table(&mut mem, &mut falloc);
    assert!(polvoss::memory::virtual_memory::map(pgt, Addr::new(0x4000), Addr::new(0x8100_0000), 0x1000, PTE_R | PTE_W | PTE_U, &mut mem,
        &mut falloc));
    assert!(copyout_word(pgt, Addr::new(0x4010), 0xA1B2_C3D4, &mut mem, &mut falloc));
    assert_eq!(mem.read_u32(0x8100_0010), 0xA1B2_C3D4);
    assert_eq!(mem.read_u8(0x8100_0010), 0xD4);
    assert!(!copyout_word(pgt, Addr::new(0x4ffe), 1, &mut mem, &mut falloc));
}

#[test]
fn kernel_page_table_maps_every_region() {
    let mut mem = PhysMem::new();
    let mut falloc = allocator();
    let etext: u64 = 0x8000_8000;
    let uvec: u64 = 0x8000_7000;
    let pgt = init_virtual_memory(SKERNEL, etext, uvec, &mut mem, &mut falloc).unwrap();
    // Kernel pages carry no user bit: check the leaf PTEs directly.
    let (leaf, i) = walk(pgt, Addr::new(0x1000_0000), false, &mut mem, &mut falloc).unwrap();
    let pte = leaf.read_pte(i, &mem);
    assert_eq!(pte.get_addr().as_integer(), 0x1000_0000);
    assert!(pte.check_fields(PTE_R) && pte.check_fields(PTE_W) && !pte.check_fields(PTE_X));
    let (leaf, i) = walk(pgt, Addr::new(SKERNEL + 0x1000), false, &mut mem, &mut falloc).unwrap();
    let pte = leaf.read_pte(i, &mem);
    assert_eq!(pte.get_addr().as_integer(), SKERNEL + 0x1000);
    assert!(pte.check_fields(PTE_X) && !pte.check_fields(PTE_W));
    let (leaf, i) = walk(pgt, Addr::new(USERVEC as u64), false, &mut mem, &mut falloc).unwrap();
    let pte = leaf.read_pte(i, &mem);
    assert_eq!(pte.get_addr().as_integer(), uvec);
    let (leaf, i) = walk(pgt, Addr::new(etext + 0x10_0000), false, &mut mem, &mut falloc).unwrap();
    let pte = leaf.read_pte(i, &mem);
    assert_eq!(pte.get_addr().as_integer(), etext + 0x10_0000);
    assert!(pte.check_fields(PTE_W));
}

#[test]
fn create_kstack_gives_the_process_a_frame() {
    let mut falloc = allocator();
    let mut pcb = Pcb::new();
    assert!(create_kstack(&mut pcb, &mut falloc));
    assert_eq!(pcb.kstack().as_integer(), 0x8001_2000);
}

#[test]
fn copy_addr_space_maps_the_same_pages_to_copies() {
    let mut mem = PhysMem::new();
    let mut falloc = allocator();
    let pgt = zeroed_table(&mut mem, &mut falloc);
    let page = kmalloc(&mut falloc).unwrap();
    for k in 0..4096u64 {
        mem.write_u8(page.as_integer() + k, (k % 251) as u8);
    }
    assert!(polvoss::memory::virtual_memory::map(pgt, Addr::new(0x4000), page, 0x1000, PTE_R | PTE_W | PTE_U,
        &mut mem, &mut falloc));
    let copy = copy_addr_space(pgt, &mut mem, &mut falloc).unwrap();
    assert_ne!(copy.as_integer(), pgt.as_integer());
    let old_pa = walkaddr(pgt, Addr::new(0x4000), &mut mem, &mut falloc).unwrap();
    let new_pa = walkaddr(copy, Addr::new(0x4000), &mut mem, &mut falloc).unwrap();
    assert_eq!(old_pa.as_integer(), page.as_integer());
    assert_ne!(new_pa.as_integer(), old_pa.as_integer());
    for k in 0..4096u64 {
        assert_eq!(mem.read_u8(new_pa.as_integer() + k), (k % 251) as u8);
    }
    // The level 1 and level 0 PTEs keep their flags
    let old_leaf = walk(pgt, Addr::new(0x4000), false, &mut mem, &mut falloc).unwrap();
    let new_leaf = walk(copy, Addr::new(0x4000), false, &mut mem, &mut falloc).unwrap();
    assert_eq!(old_leaf.0.read_pte(old_leaf.1, &mem).read_fields(), new_leaf.0.read_pte(new_leaf.1, &mem).read_fields());
    // Not mapped in the copy either
    assert!(walkaddr(copy, Addr::new(0x5000), &mut mem, &mut falloc).is_none());
}

#[test]
fn copy_proc_image_gives_the_copy_of_the_trapframe() {
    let mut mem = PhysMem::new();
    let mut falloc = allocator();
    let pgt = zeroed_table(&mut mem, &mut falloc);
    let tf = kmalloc(&mut falloc).unwrap();
    mem.write_u8(tf.as_integer() + 12, 77);
    assert!(polvoss::memory::virtual_memory::map(pgt, Addr::new(TRAPFRAME as u64), tf, 0x1000, PTE_R | PTE_W,
        &mut mem, &mut falloc));
    let mut src = Pcb::new();
    src.init_pagetable(pgt);
    let mut dst = Pcb::new();
    assert!(copy_proc_image(&mut dst, &src, &mut mem, &mut falloc));
    let new_tf = dst.trapframe_addr().as_integer();
    assert_ne!(new_tf, tf.as_integer());
    assert_eq!(mem.read_u8(new_tf + 12), 77);
    assert_ne!(dst.pagetable().as_integer(), pgt.as_integer());
}

#[test]
fn copy_proc_image_without_a_trapframe_fails() {
    let mut mem = PhysMem::new();
    let mut falloc = allocator();
    let pgt = zeroed_table(&mut mem, &mut falloc);
    let page = kmalloc(&mut falloc).unwrap();
    assert!(polvoss::memory::virtual_memory::map(pgt, Addr::new(0x4000), page, 0x1000, PTE_R | PTE_U,
        &mut mem, &mut falloc));
    let mut src = Pcb::new();
    src.init_pagetable(pgt);
    let mut dst = Pcb::new();
    assert!(!copy_proc_image(&mut dst, &src, &mut mem, &mut falloc));
    assert!(dst.trapframe.is_none());
    assert!(dst.pagetable.is_none());
}

#[test]
fn copy_addr_space_without_pages_gives_none() {
    let mut mem = PhysMem::new();
    let mut falloc = allocator();
    let pgt = zeroed_table(&mut mem, &mut falloc);
    assert!(copy_addr_space(pgt, &mut mem, &mut falloc).is_none());
}

#[test]
fn copy_addr_space_frees_what_it_took_when_memory_runs_out() {
    let mut mem = PhysMem::new();
    let mut falloc = allocator();
    let pgt = zeroed_table(&mut mem, &mut falloc);
    let page = kmalloc(&mut falloc).unwrap();
    assert!(polvoss::memory::virtual_memory::map(pgt, Addr::new(0x4000), page, 0x1000, PTE_R | PTE_U,
        &mut mem, &mut falloc));
    // Take every frame but one
    let mut last: Option<Addr> = None;
    while let Some(a) = kmalloc(&mut falloc) {
        last = Some(a);
    }
    kfree(&mut falloc, last.unwrap());
    // The copy needs three frames: it fails and gives its frame back
    assert!(copy_addr_space(pgt, &mut mem, &mut falloc).is_none());
    assert!(kmalloc(&mut falloc).is_some());
    assert!(kmalloc(&mut falloc).is_none());
}

#[test]
fn copy_proc_image_frees_the_copy_it_drops() {
    let mut mem = PhysMem::new();
    let mut falloc = allocator();
    let pgt = zeroed_table(&mut mem, &mut falloc);
    let page = kmalloc(&mut falloc).unwrap();
    assert!(polvoss::memory::virtual_memory::map(pgt, Addr::new(0x4000), page, 0x1000, PTE_R | PTE_U,
        &mut mem, &mut falloc));
    // Keep five frames free
    let mut taken: Vec<Addr> = Vec::new();
    while let Some(a) = kmalloc(&mut falloc) {
        taken.push(a);
    }
    for _ in 0..5 {
        kfree(&mut falloc, taken.pop().unwrap());
    }
    let mut src = Pcb::new();
    src.init_pagetable(pgt);
    let mut dst = Pcb::new();
    // No trapframe in the copy: it is dropped and its frames freed
    assert!(!copy_proc_image(&mut dst, &src, &mut mem, &mut falloc));
    let mut n = 0;
    while kmalloc(&mut falloc).is_some() {
        n += 1;
    }
    assert_eq!(n, 5);
}

#[test]
fn copyout_stops_at_the_first_unmapped_page() {
    let mut mem = PhysMem::new();
    let mut falloc = allocator();
    let pgt = zeroed_table(&mut mem, &mut falloc);
    assert!(polvoss::memory::virtual_memory::map(pgt, Addr::new(0x4000), Addr::new(0x8100_0000), 0x1000,
        PTE_R | PTE_W | PTE_U, &mut mem, &mut falloc));
    let src: u64 = 0x8300_0000;
    for k in 0..4u64 {
        mem.write_u8(src + k, 50 + k as u8);
    }
    // The first two bytes land in the mapped page, the next page is not mapped
    assert!(!copyout(pgt, Addr::new(0x4ffe), Addr::new(src), 4, &mut mem, &mut falloc));
    assert_eq!(mem.read_u8(0x8100_0ffe), 50);
    assert_eq!(mem.read_u8(0x8100_0fff), 51);
}

use polvoss::io::console::{
    backspace, clear, console_init, console_intr, console_write, page_down, page_up, process_ansi, putc, read_byte,
    read_line, write_string, CTRL_A, CTRL_H, CTRL_Q, CTRL_U,
};
use polvoss::memory::frame_alloc::{init_frame_alloc, kmalloc, FrameAllocator};
use polvoss::memory::phys_mem::PhysMem;
use polvoss::riscv::memory_types::{Addr, PageTable, PTE_R, PTE_U, PTE_W};
use polvoss::mmio::monitor::{write_at, Monitor, COLS, LINES};
use polvoss::mmio::uart::{uart_input_fits, uart_intr};
use polvoss::proc::control_types::ProcState;
use polvoss::proc::processing::{alloc_pcb, ProcTable};

fn cursor(row: usize, col: usize) -> Vec<u8> {
    format!("\x1B[{};{}H", row + 1, col + 1).into_bytes()
}

#[test]
fn monitor_starts_blank() {
    let m = Monitor::new(true);
    assert_eq!(m.chars.len(), LINES * COLS);
    assert_eq!(LINES, 250);
    assert!(m.chars.iter().all(|c| *c == b' '));
    assert_eq!((m.row, m.col, m.r_offset, m.w_offset), (0, 0, 0, 0));
    assert!(m.scroll);
}

#[test]
fn write_at_only_on_screen() {
    let mut out: Vec<u8> = Vec::new();
    write_at(b'a', 2, 3, &mut out);
    let mut expected = cursor(2, 3);
    expected.push(b'a');
    assert_eq!(out, expected);
    out.clear();
    write_at(b'a', 25, 0, &mut out);
    write_at(b'a', 0, 80, &mut out);
    assert!(out.is_empty());
}

#[test]
fn putc_stores_shows_and_moves_the_cursor() {
    let mut m = Monitor::new(true);
    let mut out: Vec<u8> = Vec::new();
    m.putc(b'H', &mut out);
    let mut expected = cursor(0, 0);
    expected.push(b'H');
    expected.extend(cursor(0, 1));
    assert_eq!(out, expected);
    assert_eq!(m.chars[0], b'H');
    assert_eq!(m.col, 1);
}

#[test]
fn control_characters_move_the_cursor() {
    let mut m = Monitor::new(true);
    let mut out: Vec<u8> = Vec::new();
    m.write_string("ab\tc", &mut out);
    assert_eq!(m.col, 9);
    m.putc(b'\r', &mut out);
    assert_eq!(m.col, 0);
    m.putc(b'\n', &mut out);
    assert_eq!(m.row, 1);
    assert_eq!(m.chars[8], b'c');
    // A tab at column 0 goes to column 8
    m.putc(b'\t', &mut out);
    assert_eq!(m.col, 8);
    m.putc(b'\t', &mut out);
    assert_eq!(m.col, 16);
}

#[test]
fn line_wraps_at_the_end_of_a_line() {
    let mut m = Monitor::new(true);
    let mut out: Vec<u8> = Vec::new();
    for _ in 0..80 {
        m.putc(b'x', &mut out);
    }
    assert_eq!((m.row, m.col), (1, 0));
}

#[test]
fn scrolling_after_the_last_line() {
    let mut m = Monitor::new(true);
    let mut out: Vec<u8> = Vec::new();
    for _ in 0..25 {
        m.putc(b'\n', &mut out);
    }
    // The screen scrolled: both offsets advanced and the cursor stays
    // on the last line.
    assert_eq!(m.row, 24);
    assert_eq!(m.w_offset, 1);
    assert_eq!(m.r_offset, 1);
    // The new last line of the buffer was cleared with zeros.
    let line = (24 + 1) % 250;
    assert!(m.chars[line * 80..line * 80 + 80].iter().all(|c| *c == 0));
}

#[test]
fn page_up_then_page_down_restores() {
    let mut m = Monitor::new(true);
    let mut out: Vec<u8> = Vec::new();
    for _ in 0..26 {
        m.putc(b'\n', &mut out);
    }
    assert_eq!((m.r_offset, m.w_offset), (2, 2));
    m.page_up(&mut out);
    assert_eq!(m.r_offset, 1);
    m.page_up(&mut out);
    m.page_down(&mut out);
    m.page_down(&mut out);
    assert_eq!(m.r_offset, 2);
    // Cannot go past the write offset
    m.page_down(&mut out);
    assert_eq!(m.r_offset, 2);
}

#[test]
fn clear_blanks_the_screen() {
    let mut m = Monitor::new(true);
    let mut out: Vec<u8> = Vec::new();
    m.write_string("hello", &mut out);
    out.clear();
    m.clear(&mut out);
    assert!(m.chars.iter().all(|c| *c == b' '));
    assert_eq!((m.row, m.col), (0, 0));
    // Cursor home then a blank at every screen position
    let mut expected = cursor(0, 0);
    for i in 0..25 {
        for j in 0..80 {
            expected.extend(cursor(i, j));
            expected.push(b' ');
        }
    }
    assert_eq!(out, expected);
}

#[test]
fn console_echoes_and_reads_a_line() {
    let mut c = console_init();
    let mut table = ProcTable::new();
    let mut out: Vec<u8> = Vec::new();
    for ch in b"hi\n" {
        console_intr(&mut c, *ch, &mut table, &mut out);
    }
    assert_eq!((c.input.e_offset, c.input.w_offset, c.input.r_offset), (3, 3, 0));
    // Characters are stored at the edit offset.
    assert_eq!(c.input.chars[0], b'h');
    assert_eq!(c.input.chars[1], b'i');
    assert_eq!(c.input.chars[2], b'\n');
    // Echoed on the monitor
    assert_eq!(c.monitor.chars[0], b'h');
    // Reading gives the characters back in order
    let mut byte: u8 = 7;
    assert_eq!(read_byte(&mut c, &mut byte), 1);
    assert_eq!(byte, b'h');
    assert_eq!(read_byte(&mut c, &mut byte), 1);
    assert_eq!(byte, b'i');
    assert_eq!(read_byte(&mut c, &mut byte), 1);
    assert_eq!(byte, b'\n');
    assert_eq!(read_byte(&mut c, &mut byte), 0);
    assert_eq!(byte, b'\n');
}

#[test]
fn read_line_reads_the_line() {
    let mut c = console_init();
    let mut table = ProcTable::new();
    let mut out: Vec<u8> = Vec::new();
    for ch in b"hi\nab\n" {
        console_intr(&mut c, *ch, &mut table, &mut out);
    }
    let mut buf: Vec<u8> = vec![9; 6];
    assert_eq!(read_line(&mut c, &mut buf), 3);
    assert_eq!(buf, vec![b'h', b'i', b'\n', 9, 9, 9]);
    // The next line
    assert_eq!(read_line(&mut c, &mut buf), 3);
    assert_eq!(&buf[..3], b"ab\n");
    // Nothing left
    assert_eq!(read_line(&mut c, &mut buf), 0);
    // A buffer smaller than the line
    for ch in b"long\n" {
        console_intr(&mut c, *ch, &mut table, &mut out);
    }
    let mut small: Vec<u8> = vec![0; 2];
    assert_eq!(read_line(&mut c, &mut small), 2);
    assert_eq!(small, b"lo".to_vec());
}

#[test]
fn line_editing_in_canonical_mode() {
    let mut c = console_init();
    let mut table = ProcTable::new();
    let mut out: Vec<u8> = Vec::new();
    for ch in b"abc" {
        console_intr(&mut c, *ch, &mut table, &mut out);
    }
    console_intr(&mut c, CTRL_H, &mut table, &mut out);
    assert_eq!(c.input.e_offset, 2);
    assert_eq!(c.monitor.col, 2);
    console_intr(&mut c, CTRL_U, &mut table, &mut out);
    assert_eq!(c.input.e_offset, 0);
    assert_eq!(c.monitor.col, 0);
    // Nothing to erase
    console_intr(&mut c, CTRL_H, &mut table, &mut out);
    assert_eq!(c.input.e_offset, 0);
    // 0 is not stored
    console_intr(&mut c, 0, &mut table, &mut out);
    assert_eq!(c.input.e_offset, 0);
    assert_eq!(CTRL_Q, 17);
    assert_eq!(CTRL_A, 1);
}

#[test]
fn raw_mode_makes_input_readable_at_once() {
    let mut c = console_init();
    let mut table = ProcTable::new();
    let mut out: Vec<u8> = Vec::new();
    let mut buf: Vec<u8> = vec![b'a', 0x1B, b'[', b'T', b'b'];
    assert_eq!(process_ansi(&mut c, &mut buf, &mut out), 0);
    assert!(!c.canonical);
    assert!(!c.monitor.scroll);
    assert_eq!(buf, vec![b'a', 0, 0, 0, b'b']);
    console_intr(&mut c, b'x', &mut table, &mut out);
    assert_eq!((c.input.e_offset, c.input.w_offset), (1, 1));
    assert!(out.is_empty());
}

#[test]
fn ansi_codes() {
    let mut c = console_init();
    let mut out: Vec<u8> = Vec::new();
    // No escape character
    let mut buf: Vec<u8> = b"plain".to_vec();
    assert_eq!(process_ansi(&mut c, &mut buf, &mut out), 0);
    // A code cut by the end of the buffer
    let mut buf: Vec<u8> = vec![b'a', b'b', 0x1B, b'['];
    assert_eq!(process_ansi(&mut c, &mut buf, &mut out), 2);
    let mut buf: Vec<u8> = vec![b'a', 0x1B];
    assert_eq!(process_ansi(&mut c, &mut buf, &mut out), 1);
    // Unknown code: left alone
    let mut buf: Vec<u8> = vec![0x1B, b'[', b'Z'];
    assert_eq!(process_ansi(&mut c, &mut buf, &mut out), 0);
    assert_eq!(buf, vec![0x1B, b'[', b'Z']);
    assert!(out.is_empty());
    // Clear screen
    write_string(&mut c, "text", &mut out);
    let mut buf: Vec<u8> = vec![0x1B, b'[', b'H', b'q'];
    out.clear();
    assert_eq!(process_ansi(&mut c, &mut buf, &mut out), 0);
    assert_eq!(buf, vec![0, 0, 0, b'q']);
    assert_eq!(c.monitor.col, 0);
    assert!(out.starts_with(&cursor(0, 0)));
}

#[test]
fn console_wrappers_reach_the_monitor() {
    let mut c = console_init();
    let mut out: Vec<u8> = Vec::new();
    putc(&mut c, b'z', &mut out);
    assert_eq!(c.monitor.col, 1);
    backspace(&mut c);
    assert_eq!(c.monitor.col, 0);
    page_up(&mut c, &mut out);
    page_down(&mut c, &mut out);
    assert_eq!(c.monitor.r_offset, 0);
    clear(&mut c, &mut out);
    assert_eq!(c.monitor.w_offset, 0);
}

#[test]
fn uart_interrupt_feeds_the_console() {
    let mut c = console_init();
    let mut table = ProcTable::new();
    let mut out: Vec<u8> = Vec::new();
    uart_intr(&mut c, b"ok\n", &mut table, &mut out);
    assert_eq!(c.input.w_offset, 3);
    assert_eq!(c.monitor.chars[0], b'o');
    assert_eq!(c.monitor.chars[1], b'k');
}

#[test]
fn uart_line_feed_wakes_only_the_waiting_reader() {
    let mut c = console_init();
    let mut table = ProcTable::new();
    let reader = alloc_pcb(&mut table).unwrap();
    let other = alloc_pcb(&mut table).unwrap();
    c.input_cvar.wait_self(&mut table, reader);
    assert_eq!(table.pcbs[other].state, ProcState::New);
    let mut out: Vec<u8> = Vec::new();
    uart_intr(&mut c, b"ab", &mut table, &mut out);
    assert_eq!(table.pcbs[reader].state, ProcState::Waiting);
    assert_eq!(table.pcbs[other].state, ProcState::New);
    uart_intr(&mut c, b"c\nd", &mut table, &mut out);
    assert_eq!(table.pcbs[reader].state, ProcState::Ready);
    assert_eq!(table.pcbs[other].state, ProcState::New);
    assert_eq!(c.input.w_offset, 4);
    assert_eq!(c.input.e_offset, 5);
}

#[test]
fn uart_input_fits_checks_each_character() {
    let mut c = console_init();
    assert!(uart_input_fits(&c, b"hello\n"));
    assert!(uart_input_fits(&c, &[]));
    // A line kill with the cursor left of the edited line does not fit.
    let mut table = ProcTable::new();
    let mut out: Vec<u8> = Vec::new();
    uart_intr(&mut c, b"ab", &mut table, &mut out);
    c.monitor.col = 1;
    assert!(!uart_input_fits(&c, &[CTRL_U]));
    assert!(!uart_input_fits(&c, &[b'x', CTRL_U, CTRL_U]));
    c.monitor.col = 2;
    assert!(uart_input_fits(&c, &[CTRL_U]));
    // The check leaves the console as it was.
    assert_eq!(c.input.e_offset, 2);
}

const KBUF: u64 = 0x8700_0000;
const KSRC: u64 = 0x8600_0000;

fn kernel_write(src: &[u8]) -> (polvoss::io::console::Console, Vec<u8>) {
    let mut c = console_init();
    let table = ProcTable::new();
    let mut mem = PhysMem::new();
    let mut falloc = FrameAllocator::new(0x8000_0000, 0x8001_0800);
    init_frame_alloc(&mut falloc);
    for (k, b) in src.iter().enumerate() {
        mem.write_u8(KSRC + k as u64, *b);
    }
    let mut out: Vec<u8> = Vec::new();
    console_write(&mut c, &table, 0, false, Addr::new(KSRC), src.len(), Addr::new(KBUF), &mut mem, &mut falloc,
        &mut out);
    (c, out)
}

#[test]
fn console_write_prints_the_source_bytes() {
    let (c, out) = kernel_write(b"hi");
    // Exactly the bytes of the source reach the monitor
    let mut reference = console_init();
    let mut expected: Vec<u8> = Vec::new();
    reference.monitor.write_slice(b"hi", &mut expected);
    assert_eq!(out, expected);
    assert_eq!(c.monitor.chars[0], b'h');
    assert_eq!(c.monitor.chars[1], b'i');
    assert_eq!(c.monitor.col, 2);
}

#[test]
fn console_write_goes_through_several_batches() {
    // 40 bytes: a full batch, then 8 bytes
    let src: Vec<u8> = vec![b'x'; 40];
    let (c, out) = kernel_write(&src);
    assert_eq!(c.monitor.col, 40);
    assert_eq!(c.monitor.chars[39], b'x');
    let mut reference = console_init();
    let mut expected: Vec<u8> = Vec::new();
    reference.monitor.write_slice(&src, &mut expected);
    assert_eq!(out, expected);
}

#[test]
fn console_write_processes_escape_codes() {
    let (c, _out) = kernel_write(b"ab\x1B[Hcd");
    // The screen was cleared, then the batch with the code erased written
    assert_eq!(c.monitor.chars[0], b'a');
    assert_eq!(c.monitor.chars[1], b'b');
    assert_eq!(c.monitor.chars[2], 0);
    assert_eq!(c.monitor.chars[5], b'c');
    assert_eq!(c.monitor.col, 7);
}

#[test]
fn console_write_does_not_cut_escape_codes() {
    // The code starts at the last byte of the first batch: the next
    // batch starts at it
    let mut src: Vec<u8> = vec![b'a'; 31];
    src.push(0x1B);
    src.push(b'[');
    src.push(b'H');
    src.extend_from_slice(b"bbbbbb");
    let (c, _out) = kernel_write(&src);
    // Cleared by the second batch: the erased code and the six b
    assert_eq!(c.monitor.chars[3], b'b');
    assert_eq!(c.monitor.chars[8], b'b');
    assert_eq!(c.monitor.col, 9);
}

#[test]
fn console_write_from_a_user_buffer() {
    let mut c = console_init();
    let mut table = ProcTable::new();
    let mut mem = PhysMem::new();
    let mut falloc = FrameAllocator::new(0x8000_0000, 0x8001_0800);
    init_frame_alloc(&mut falloc);
    let root = kmalloc(&mut falloc).unwrap();
    let pgt = PageTable::new(root);
    pgt.pageset(0, &mut mem);
    let page = kmalloc(&mut falloc).unwrap();
    assert!(polvoss::memory::virtual_memory::map(pgt, Addr::new(0x4000), page, 0x1000, PTE_R | PTE_W | PTE_U,
        &mut mem, &mut falloc));
    mem.write_u8(page.as_integer() + 0x10, b'u');
    table.pcbs[0].pagetable = Some(pgt);
    table.cpus[0].proc = Some(0);
    let mut out: Vec<u8> = Vec::new();
    console_write(&mut c, &table, 0, true, Addr::new(0x4010), 1, Addr::new(KBUF), &mut mem, &mut falloc, &mut out);
    assert_eq!(c.monitor.chars[0], b'u');
    assert_eq!(c.monitor.col, 1);
    // An address that is not mapped: nothing is written
    let mut c2 = console_init();
    let mut out2: Vec<u8> = Vec::new();
    console_write(&mut c2, &table, 0, true, Addr::new(0x9000), 4, Addr::new(KBUF), &mut mem, &mut falloc, &mut out2);
    assert!(out2.is_empty());
    assert_eq!(c2.monitor.col, 0);
}

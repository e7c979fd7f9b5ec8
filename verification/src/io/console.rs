//! Console for IO.
//!
//! When a process reads or writes to the console, it is responsible
//! for reading the keyboard input or writing the output to the
//! monitor. The keyboard input is kept in a circular buffer with an
//! edit, a write and a read offset: the characters up to the write
//! offset can be read, those between the write and the edit offsets
//! are still being edited.

use vstd::prelude::*;
use vstd::string::StringSliceAdditionalSpecFns;
use crate::mmio::monitor::{Monitor, MonitorView, refresh_bytes};
use crate::mmio::uart::{move_cursor_bytes, ESC};
use crate::proc::sync::{Condvar, woken};
use crate::proc::processing::{ProcTable, either_copyin};
use crate::config::constants::NUM_CPU;
use crate::riscv::memory_types::Addr;
use crate::memory::phys_mem::PhysMem;
use crate::memory::frame_alloc::FrameAllocator;
use crate::memory::virtual_memory::{
    source_ok, source_byte, staging_away, lemma_staging_kept, lemma_staging_copyin, user_page, user_addr, page_of,
};

verus! {

/// Size of the keyboard input buffer.
pub const INPUT_BUF_SIZE: usize = 128;

/// Page up: CTRL+Q
pub const CTRL_Q: u8 = 17;
/// Page down: CTRL+A
pub const CTRL_A: u8 = 1;
/// Kill line: CTRL+U
pub const CTRL_U: u8 = 21;
/// Backspace: CTRL+H
pub const CTRL_H: u8 = 8;


/// Keyboard input
pub struct InputBuffer {
    pub chars: Vec<u8>,
    /// Edit offset
    pub e_offset: usize,
    /// Read offset
    pub r_offset: usize,
    /// Write offset
    pub w_offset: usize,
}

/// The console: its mode, the monitor it prints on, the keyboard
/// input and the condition variable of the processes waiting for
/// input.
pub struct Console {
    /// Canonical mode (the input is edited before it is read) or raw mode
    pub canonical: bool,
    pub monitor: Monitor,
    pub input: InputBuffer,
    pub input_cvar: Condvar,
}

/// Mathematical state of a console, but for its condition variable.
pub struct ConsoleView {
    pub canonical: bool,
    pub monitor: MonitorView,
    pub chars: Seq<u8>,
    pub e_offset: usize,
    pub r_offset: usize,
    pub w_offset: usize,
}

impl View for Console {
    type V = ConsoleView;

    open spec fn view(&self) -> ConsoleView {
        ConsoleView {
            canonical: self.canonical,
            monitor: self.monitor@,
            chars: self.input.chars@,
            e_offset: self.input.e_offset,
            r_offset: self.input.r_offset,
            w_offset: self.input.w_offset,
        }
    }
}

impl ConsoleView {
    /// The monitor is well formed, the input buffer has its size and
    /// the offsets are in order, at most a buffer apart.
    pub open spec fn wf(self) -> bool {
        &&& self.monitor.wf()
        &&& self.chars.len() == INPUT_BUF_SIZE
        &&& self.r_offset <= self.w_offset <= self.e_offset
        &&& self.e_offset - self.r_offset <= INPUT_BUF_SIZE
    }

    /// `chr` can be handled without leaving the bounds: the edit
    /// offset and the monitor have room, and a backspace only comes
    /// with the cursor far enough from the start of the line.
    pub open spec fn intr_ok(self, chr: u8) -> bool {
        &&& self.e_offset < usize::MAX
        &&& self.monitor.room(1)
        &&& self.canonical && chr == CTRL_U ==> self.monitor.col >= self.e_offset - self.w_offset
        &&& self.canonical && chr == CTRL_H && self.e_offset > self.w_offset ==> self.monitor.col > 0
    }

    /// A character typed on the keyboard. In canonical mode CTRL+Q and
    /// CTRL+A scroll the monitor, CTRL+U erases the line being edited,
    /// CTRL+H its last character, and any other character but 0 is
    /// echoed and added to the line while the buffer has room; a line
    /// feed ends the line, which can then be read. In raw mode the
    /// character is added and can be read at once, while the buffer
    /// has room.
    pub open spec fn intr(self, chr: u8) -> (ConsoleView, Seq<u8>) {
        if self.canonical {
            if chr == CTRL_Q {
                (ConsoleView { monitor: self.monitor.page_up().0, ..self }, self.monitor.page_up().1)
            } else if chr == CTRL_A {
                (ConsoleView { monitor: self.monitor.page_down().0, ..self }, self.monitor.page_down().1)
            } else if chr == CTRL_U {
                let n = self.e_offset - self.w_offset;
                (ConsoleView {
                    monitor: MonitorView { col: (self.monitor.col - n) as usize, ..self.monitor },
                    e_offset: self.w_offset,
                    ..self
                }, Seq::empty())
            } else if chr == CTRL_H {
                if self.e_offset > self.w_offset {
                    (ConsoleView {
                        monitor: MonitorView { col: (self.monitor.col - 1) as usize, ..self.monitor },
                        e_offset: (self.e_offset - 1) as usize,
                        ..self
                    }, Seq::empty())
                } else {
                    (self, Seq::empty())
                }
            } else if self.e_offset - self.r_offset < INPUT_BUF_SIZE && chr != 0 {
                let e = (self.e_offset + 1) as usize;
                (ConsoleView {
                    monitor: self.monitor.putc(chr).0,
                    chars: self.chars.update((self.e_offset as int) % (INPUT_BUF_SIZE as int), chr),
                    e_offset: e,
                    w_offset: if chr == 10 { e } else { self.w_offset },
                    ..self
                }, self.monitor.putc(chr).1)
            } else {
                (self, Seq::empty())
            }
        } else if self.e_offset - self.r_offset < INPUT_BUF_SIZE {
            let e = (self.e_offset + 1) as usize;
            (ConsoleView {
                chars: self.chars.update((self.e_offset as int) % (INPUT_BUF_SIZE as int), chr),
                e_offset: e,
                w_offset: (self.w_offset + 1) as usize,
                ..self
            }, Seq::empty())
        } else {
            (self, Seq::empty())
        }
    }

    /// The characters of `s` handled one after the other.
    pub open spec fn intr_all(self, s: Seq<u8>) -> (ConsoleView, Seq<u8>)
        decreases s.len(),
    {
        if s.len() == 0 {
            (self, Seq::empty())
        } else {
            let (v1, o1) = self.intr_all(s.drop_last());
            let (v2, o2) = v1.intr(s.last());
            (v2, o1 + o2)
        }
    }

    /// Each character of `s` can be handled in turn.
    pub open spec fn intr_all_ok(self, s: Seq<u8>) -> bool
        decreases s.len(),
    {
        s.len() == 0 || (self.intr_all_ok(s.drop_last()) && self.intr_all(s.drop_last()).0.intr_ok(s.last()))
    }

    /// A line is complete: the processes waiting for input are woken.
    pub open spec fn intr_wakes(self, chr: u8) -> bool {
        &&& self.canonical
        &&& chr != CTRL_Q && chr != CTRL_A && chr != CTRL_U && chr != CTRL_H
        &&& self.e_offset - self.r_offset < INPUT_BUF_SIZE
        &&& chr == 10
    }

    /// Some character of `s`, handled in turn, completes a line.
    pub open spec fn intr_all_wakes(self, s: Seq<u8>) -> bool
        decreases s.len(),
    {
        s.len() > 0 && (self.intr_all_wakes(s.drop_last()) || self.intr_all(s.drop_last()).0.intr_wakes(s.last()))
    }
}

impl Console {
    pub open spec fn wf(&self) -> bool {
        self@.wf() && self.input_cvar.wf()
    }
}

/// Initialize the console: canonical mode, a monitor that scrolls, an
/// empty input buffer and no process waiting.
pub fn console_init() -> (c: Console)
    ensures
        c.wf(),
        c.canonical,
        c.monitor@.chars == crate::mmio::monitor::blank_chars(),
        c.monitor@.scroll,
        c.monitor@.r_offset == 0 && c.monitor@.w_offset == 0,
        c.monitor@.row == 0 && c.monitor@.col == 0,
        c@.chars == Seq::new(INPUT_BUF_SIZE as nat, |i: int| 0u8),
        c@.e_offset == 0 && c@.r_offset == 0 && c@.w_offset == 0,
        c.input_cvar.waiting() == Seq::<usize>::empty(),
{
    let mut chars: Vec<u8> = Vec::new();
    let mut k: usize = 0;
    while k < INPUT_BUF_SIZE
        invariant
            k <= INPUT_BUF_SIZE,
            chars@.len() == k,
            forall|t: int| 0 <= t < k ==> #[trigger] chars@[t] == 0u8,
        decreases INPUT_BUF_SIZE - k,
    {
        chars.push(0);
        k += 1;
    }
    let c = Console {
        canonical: true,
        monitor: Monitor::new(true),
        input: InputBuffer { chars, e_offset: 0, r_offset: 0, w_offset: 0 },
        input_cvar: Condvar::new(),
    };
    assert(c@.chars =~= Seq::new(INPUT_BUF_SIZE as nat, |i: int| 0u8));
    c
}

/// Write a string to the screen.
pub fn write_string(console: &mut Console, s: &str, out: &mut Vec<u8>)
    requires
        old(console).wf(),
        s.is_ascii(),
        old(console).monitor@.room(s.spec_bytes().len()),
    ensures
        final(console).wf(),
        final(console)@ == (ConsoleView { monitor: old(console).monitor@.write_bytes(s.spec_bytes()).0, ..old(console)@ }),
        final(console).input_cvar == old(console).input_cvar,
        final(out)@ == old(out)@ + old(console).monitor@.write_bytes(s.spec_bytes()).1,
{
    console.monitor.write_string(s, out);
}

/// Write a character to the screen.
pub fn putc(console: &mut Console, chr: u8, out: &mut Vec<u8>)
    requires
        old(console).wf(),
        old(console).monitor@.room(1),
    ensures
        final(console).wf(),
        final(console)@ == (ConsoleView { monitor: old(console).monitor@.putc(chr).0, ..old(console)@ }),
        final(console).input_cvar == old(console).input_cvar,
        final(out)@ == old(out)@ + old(console).monitor@.putc(chr).1,
{
    console.monitor.putc(chr, out);
}

/// Clear screen.
pub fn clear(console: &mut Console, out: &mut Vec<u8>)
    requires
        old(console).wf(),
    ensures
        final(console).wf(),
        final(console)@ == (ConsoleView {
            monitor: MonitorView {
                chars: crate::mmio::monitor::blank_chars(),
                r_offset: 0,
                w_offset: 0,
                row: 0,
                col: 0,
                ..old(console).monitor@
            },
            ..old(console)@
        }),
        final(console).input_cvar == old(console).input_cvar,
        final(out)@ == old(out)@ + move_cursor_bytes(0, 0) + crate::mmio::monitor::blank_rows(
            crate::config::constants::M_HEIGHT as nat,
        ),
{
    console.monitor.clear(out);
}

/// Backspace: the cursor goes a column back.
pub fn backspace(console: &mut Console)
    requires
        old(console).wf(),
        old(console).monitor.col > 0,
    ensures
        final(console).wf(),
        final(console)@ == (ConsoleView {
            monitor: MonitorView { col: (old(console).monitor.col - 1) as usize, ..old(console).monitor@ },
            ..old(console)@
        }),
        final(console).input_cvar == old(console).input_cvar,
{
    console.monitor.backspace();
}

/// Scroll up a line in the terminal.
pub fn page_up(console: &mut Console, out: &mut Vec<u8>)
    requires
        old(console).wf(),
    ensures
        final(console).wf(),
        final(console)@ == (ConsoleView { monitor: old(console).monitor@.page_up().0, ..old(console)@ }),
        final(console).input_cvar == old(console).input_cvar,
        final(out)@ == old(out)@ + old(console).monitor@.page_up().1,
{
    console.monitor.page_up(out);
}

/// Scroll down a line in the terminal.
pub fn page_down(console: &mut Console, out: &mut Vec<u8>)
    requires
        old(console).wf(),
    ensures
        final(console).wf(),
        final(console)@ == (ConsoleView { monitor: old(console).monitor@.page_down().0, ..old(console)@ }),
        final(console).input_cvar == old(console).input_cvar,
        final(out)@ == old(out)@ + old(console).monitor@.page_down().1,
{
    console.monitor.page_down(out);
}

/// `pos` is the position of the first escape character of `buf`.
pub open spec fn first_esc(buf: Seq<u8>, pos: int) -> bool {
    &&& 0 <= pos < buf.len()
    &&& buf[pos] == ESC
    &&& forall|k: int| 0 <= k < pos ==> buf[k] != ESC
}

/// `buf` with the three bytes from `pos` set to 0.
pub open spec fn erase_code(buf: Seq<u8>, pos: int) -> Seq<u8> {
    buf.update(pos, 0).update(pos + 1, 0).update(pos + 2, 0)
}

/// What processing the ANSI escape codes of `buf` does on the console
/// `c`: the console after it, the buffer after it, the bytes sent to
/// the screen and the number of positions to go back. Only the first
/// escape sequence is looked at. `ESC [ H` clears the screen and
/// `ESC [ T` switches between canonical and raw mode (the monitor
/// scrolls in canonical mode); either is then erased from the buffer.
/// A sequence cut by the end of the buffer is left for the next
/// batch.
pub open spec fn ansi_step(c: ConsoleView, b: Seq<u8>) -> (ConsoleView, Seq<u8>, Seq<u8>, int) {
    if exists|pos: int| first_esc(b, pos) {
        let pos = choose|pos: int| first_esc(b, pos);
        if pos == b.len() - 1 || pos == b.len() - 2 {
            (c, b, Seq::empty(), b.len() - pos)
        } else if b[pos + 1] == 91 && b[pos + 2] == 72 {
            (
                ConsoleView {
                    monitor: MonitorView {
                        chars: crate::mmio::monitor::blank_chars(),
                        r_offset: 0,
                        w_offset: 0,
                        row: 0,
                        col: 0,
                        ..c.monitor
                    },
                    ..c
                },
                erase_code(b, pos),
                move_cursor_bytes(0, 0) + crate::mmio::monitor::blank_rows(crate::config::constants::M_HEIGHT as nat),
                0,
            )
        } else if b[pos + 1] == 91 && b[pos + 2] == 84 {
            (
                ConsoleView {
                    canonical: !c.canonical,
                    monitor: MonitorView { scroll: !c.canonical, ..c.monitor },
                    ..c
                },
                erase_code(b, pos),
                Seq::empty(),
                0,
            )
        } else {
            (c, b, Seq::empty(), 0)
        }
    } else {
        (c, b, Seq::empty(), 0)
    }
}

/// Process ANSI escape codes before printing (see `ansi_step`).
/// # Arguments
/// - `buf`: character buffer
/// # Return
/// Number of positions to go back to avoid cutting codes
pub fn process_ansi(console: &mut Console, buf: &mut Vec<u8>, out: &mut Vec<u8>) -> (r: usize)
    requires
        old(console).wf(),
    ensures
        final(console).wf(),
        final(console).input_cvar == old(console).input_cvar,
        final(console)@ == ansi_step(old(console)@, old(buf)@).0,
        final(buf)@ == ansi_step(old(console)@, old(buf)@).1,
        final(out)@ == old(out)@ + ansi_step(old(console)@, old(buf)@).2,
        r == ansi_step(old(console)@, old(buf)@).3,
{
    // Code's first position
    let mut pos: usize = 0;
    let mut found: bool = false;
    // Find ESC character
    let mut i: usize = 0;
    while i < buf.len()
        invariant_except_break
            !found,
        invariant
            i <= buf@.len(),
            buf@ == old(buf)@,
            forall|k: int| 0 <= k < i ==> buf@[k] != ESC,
        ensures
            found ==> first_esc(buf@, pos as int),
            !found ==> forall|k: int| 0 <= k < buf@.len() ==> buf@[k] != ESC,
            buf@ == old(buf)@,
        decreases buf@.len() - i,
    {
        if buf[i] == ESC {
            pos = i; // Save position
            found = true;
            break;
        }
        i = i + 1;
    }
    proof {
        if found {
            assert forall|p: int| first_esc(buf@, p) implies p == pos as int by {
                if p < pos {
                    assert(buf@[p] != ESC);
                } else if p > pos {
                    assert(buf@[pos as int] != ESC);
                }
            }
        }
    }
    // If there is no ESC
    if !found {
        return 0;
    }
    // Check if the code is cut out
    if pos == buf.len() - 1 || pos == buf.len() - 2 {
        return buf.len() - pos;
    }
    // Check which sequence it is
    if buf[pos + 1] == 91 {
        if buf[pos + 2] == 72 {
            clear(console, out);
        } else if buf[pos + 2] == 84 {
            // Switch mode (canonical/raw)
            console.canonical = !console.canonical;
            console.monitor.scroll(console.canonical);
        } else {
            found = false;
        }
    } else {
        found = false;
    }
    if found {
        // Erase code
        buf.set(pos, 0);
        buf.set(pos + 1, 0);
        buf.set(pos + 2, 0);
    }
    0
}

/// Treat input comming from the UART interrupt
/// # Arguments
/// - `chr`: the character typed
pub fn console_intr(console: &mut Console, chr: u8, table: &mut ProcTable, out: &mut Vec<u8>)
    requires
        old(console).wf(),
        old(table).wf(),
        old(console)@.intr_ok(chr),
    ensures
        final(console).wf(),
        final(console)@ == old(console)@.intr(chr).0,
        final(out)@ == old(out)@ + old(console)@.intr(chr).1,
        final(table).wf(),
        old(console)@.intr_wakes(chr) ==> {
            &&& final(console).input_cvar.waiting() == Seq::<usize>::empty()
            &&& woken(old(table), final(table), old(console).input_cvar.waiting())
            &&& final(table).next_pid == old(table).next_pid
            &&& final(table).cpus@ == old(table).cpus@
        },
        !old(console)@.intr_wakes(chr) ==> {
            &&& final(console).input_cvar == old(console).input_cvar
            &&& *final(table) == *old(table)
        },
{
    // In Canonical mode the input is preprocessed
    if console.canonical {
        if chr == CTRL_Q {
            page_up(console, out);
        } else if chr == CTRL_A {
            page_down(console, out);
        } else if chr == CTRL_U {
            // Kill line
            while console.input.e_offset > console.input.w_offset
                invariant
                    console.wf(),
                    console.canonical == old(console).canonical,
                    console.input_cvar == old(console).input_cvar,
                    console.input.chars@ == old(console).input.chars@,
                    console.input.r_offset == old(console).input.r_offset,
                    console.input.w_offset == old(console).input.w_offset,
                    console.input.e_offset <= old(console).input.e_offset,
                    console.monitor@ == (MonitorView {
                        col: (old(console).monitor.col - (old(console).input.e_offset - console.input.e_offset)) as usize,
                        ..old(console).monitor@
                    }),
                    old(console).monitor.col >= old(console).input.e_offset - old(console).input.w_offset,
                    out@ == old(out)@,
                decreases console.input.e_offset,
            {
                backspace(console);
                console.input.e_offset = console.input.e_offset - 1;
            }
        } else if chr == CTRL_H {
            // Backspace
            if console.input.e_offset > console.input.w_offset {
                backspace(console);
                console.input.e_offset = console.input.e_offset - 1;
            }
        } else {
            // Character for the user
            // Check if there is space for the input
            if console.input.e_offset - console.input.r_offset < INPUT_BUF_SIZE && chr != 0 {
                // Save character in the buffer, at the edit offset
                let i: usize = console.input.e_offset % INPUT_BUF_SIZE;
                console.input.chars.set(i, chr);
                console.input.e_offset = console.input.e_offset + 1;
                // Echo to the user
                putc(console, chr, out);
                // Check if the user finished typing
                if chr == 10 {
                    console.input.w_offset = console.input.e_offset;
                    // Wake up all processes waiting for input
                    console.input_cvar.notify_all(table);
                }
            }
        }
    } else {
        // Raw mode input
        if console.input.e_offset - console.input.r_offset < INPUT_BUF_SIZE {
            let i: usize = console.input.e_offset % INPUT_BUF_SIZE;
            console.input.chars.set(i, chr);
            console.input.e_offset = console.input.e_offset + 1;
            console.input.w_offset = console.input.w_offset + 1;
        }
    }
}

/// Read one byte from the input buffer, when one can be read.
/// This is used by the kernel only.
/// # Arguments
/// - `byte`: byte read
/// # Return
/// Number of bytes read
pub fn read_byte(console: &mut Console, byte: &mut u8) -> (r: usize)
    requires
        old(console).wf(),
    ensures
        final(console).wf(),
        final(console).input_cvar == old(console).input_cvar,
        old(console)@.r_offset < old(console)@.w_offset ==> {
            &&& r == 1
            &&& *final(byte) == old(console)@.chars[(old(console)@.r_offset as int) % (INPUT_BUF_SIZE as int)]
            &&& final(console)@ == (ConsoleView { r_offset: (old(console)@.r_offset + 1) as usize, ..old(console)@ })
        },
        old(console)@.r_offset >= old(console)@.w_offset ==> {
            &&& r == 0
            &&& *final(byte) == *old(byte)
            &&& final(console)@ == old(console)@
        },
{
    // Check if the read offset is less than the write offset
    if console.input.r_offset < console.input.w_offset {
        let i: usize = console.input.r_offset % INPUT_BUF_SIZE;
        *byte = console.input.chars[i];
        console.input.r_offset = console.input.r_offset + 1;
        return 1;
    }
    0
}

/// In canonical mode the scrolling keys move the monitor's read offset:
/// CTRL+Q (17) one line back, when the screen does not show the first
/// line of the buffer, and CTRL+A (1) one line forward, when it does
/// not show the last lines; the screen is then redrawn and the input is
/// left as it was.
pub proof fn lemma_scroll_keys(c: ConsoleView)
    requires
        c.canonical,
    ensures
        ({
            let (n, o) = c.intr(17u8);
            let m = c.monitor;
            &&& n == (ConsoleView { monitor: n.monitor, ..c })
            &&& n.monitor == (MonitorView {
                r_offset: if m.r_offset > 0 { (m.r_offset - 1) as usize } else { m.r_offset },
                ..m
            })
            &&& o == if m.r_offset > 0 { refresh_bytes(n.monitor, m.r_offset as int) } else { Seq::<u8>::empty() }
        }),
        ({
            let (n, o) = c.intr(1u8);
            let m = c.monitor;
            &&& n == (ConsoleView { monitor: n.monitor, ..c })
            &&& n.monitor == (MonitorView {
                r_offset: if m.r_offset < m.w_offset { (m.r_offset + 1) as usize } else { m.r_offset },
                ..m
            })
            &&& o == if m.r_offset < m.w_offset {
                refresh_bytes(n.monitor, m.r_offset as int)
            } else {
                Seq::<u8>::empty()
            }
        }),
{
}

/// In canonical mode CTRL+U (21) erases the line being edited: the edit
/// offset goes back to the write offset and the cursor as many columns
/// left; CTRL+H (8) erases its last character, when there is one. The
/// readable input, the buffer and the rest of the monitor stay, and no
/// byte is sent.
pub proof fn lemma_edit_keys(c: ConsoleView)
    requires
        c.canonical,
    ensures
        ({
            let (n, o) = c.intr(21u8);
            &&& n == (ConsoleView {
                monitor: MonitorView { col: (c.monitor.col - (c.e_offset - c.w_offset)) as usize, ..c.monitor },
                e_offset: c.w_offset,
                ..c
            })
            &&& o == Seq::<u8>::empty()
        }),
        ({
            let (n, o) = c.intr(8u8);
            &&& c.e_offset > c.w_offset ==> n == (ConsoleView {
                monitor: MonitorView { col: (c.monitor.col - 1) as usize, ..c.monitor },
                e_offset: (c.e_offset - 1) as usize,
                ..c
            })
            &&& c.e_offset <= c.w_offset ==> n == c
            &&& o == Seq::<u8>::empty()
        }),
{
}

/// In raw mode a character is stored at the edit offset and can be read
/// at once, when the buffer has room; otherwise it is dropped. Nothing
/// is echoed.
pub proof fn lemma_raw_input(c: ConsoleView, chr: u8)
    requires
        !c.canonical,
    ensures
        ({
            let (n, o) = c.intr(chr);
            &&& o == Seq::<u8>::empty()
            &&& c.e_offset - c.r_offset < 128 ==> n == (ConsoleView {
                chars: c.chars.update((c.e_offset % 128) as int, chr),
                e_offset: (c.e_offset + 1) as usize,
                w_offset: (c.w_offset + 1) as usize,
                ..c
            })
            &&& c.e_offset - c.r_offset >= 128 ==> n == c
        }),
{
}

/// Whatever character comes, in either mode, the input offsets stay
/// in order and at most a buffer apart, nothing is taken from the
/// readable input and committed input is never erased.
pub proof fn lemma_intr_keeps_offsets(c: ConsoleView, chr: u8)
    requires
        c.r_offset <= c.w_offset <= c.e_offset,
        c.e_offset - c.r_offset <= INPUT_BUF_SIZE,
        c.e_offset < usize::MAX,
    ensures
        ({
            let n = c.intr(chr).0;
            &&& n.r_offset == c.r_offset
            &&& n.r_offset <= n.w_offset <= n.e_offset
            &&& n.e_offset - n.r_offset <= INPUT_BUF_SIZE
            &&& n.w_offset >= c.w_offset
        }),
{
}

/// A character typed in canonical mode (not a control character, not
/// 0, with room in the buffer) is echoed and stored at the edit
/// offset, the next input byte to be read once the bytes before it are
/// read; the bytes not read yet stay; a line feed makes the line
/// readable.
pub proof fn lemma_typed_then_read(c: ConsoleView, chr: u8)
    requires
        c.wf(),
        c.canonical,
        chr != CTRL_Q && chr != CTRL_A && chr != CTRL_U && chr != CTRL_H && chr != 0,
        c.e_offset - c.r_offset < INPUT_BUF_SIZE,
        c.e_offset < usize::MAX,
    ensures
        ({
            let n = c.intr(chr).0;
            &&& n.e_offset == c.e_offset + 1
            &&& n.r_offset == c.r_offset
            &&& n.chars[(c.e_offset as int) % (INPUT_BUF_SIZE as int)] == chr
            &&& forall|t: int| c.r_offset <= t < c.e_offset ==>
                #[trigger] n.chars[t % (INPUT_BUF_SIZE as int)] == c.chars[t % (INPUT_BUF_SIZE as int)]
            &&& chr == 10 ==> n.w_offset == n.e_offset
            &&& n.monitor == c.monitor.putc(chr).0
        }),
{
    let n = c.intr(chr).0;
    assert forall|t: int| c.r_offset <= t < c.e_offset implies
        #[trigger] n.chars[t % (INPUT_BUF_SIZE as int)] == c.chars[t % (INPUT_BUF_SIZE as int)] by {
        assert(t % 128 != (c.e_offset as int) % 128) by (nonlinear_arith)
            requires c.r_offset <= t < c.e_offset, c.e_offset - c.r_offset < 128;
    }
}

/// Number of bytes that a line read takes into a buffer of `len`
/// bytes from the `avail` readable bytes at `r`, counting from `i`:
/// reading stops after a line feed, when the buffer is full or when
/// no byte is left.
pub open spec fn line_len(chars: Seq<u8>, r: int, avail: int, len: int, i: int) -> int
    decreases len - i,
{
    if i >= len || i >= avail {
        i
    } else if chars[(r + i) % (INPUT_BUF_SIZE as int)] == 10 {
        i + 1
    } else {
        line_len(chars, r, avail, len, i + 1)
    }
}

/// Read one line from the input buffer into `buf`: the bytes are read
/// and stored from the start of `buf`, one after the other, until a
/// line feed has been stored, `buf` is full or no byte is left.
/// This is used by the kernel only.
/// # Arguments
/// - `buf`: buffer for the line
/// # Return
/// Number of bytes read
pub fn read_line(console: &mut Console, buf: &mut Vec<u8>) -> (r: usize)
    requires
        old(console).wf(),
    ensures
        ({
            let c = old(console)@;
            let n = line_len(c.chars, c.r_offset as int, c.w_offset - c.r_offset, old(buf)@.len() as int, 0);
            &&& 0 <= n <= old(buf)@.len()
            &&& n <= c.w_offset - c.r_offset
            &&& r == n
            &&& final(console)@ == (ConsoleView { r_offset: (c.r_offset + n) as usize, ..c })
            &&& final(buf)@.len() == old(buf)@.len()
            &&& forall|k: int| 0 <= k < old(buf)@.len() ==> #[trigger] final(buf)@[k] == if k < n {
                c.chars[(c.r_offset + k) % (INPUT_BUF_SIZE as int)]
            } else {
                old(buf)@[k]
            }
        }),
        final(console).wf(),
        final(console).input_cvar == old(console).input_cvar,
{
    let ghost c = console@;
    let ghost avail = c.w_offset - c.r_offset;
    let ghost len = buf@.len() as int;
    let mut byte: u8 = 0;
    let mut bytes_read: usize = 0;
    let mut done: bool = false;
    while !done && bytes_read < buf.len()
        invariant
            console.wf(),
            console.input_cvar == old(console).input_cvar,
            c == old(console)@,
            avail == c.w_offset - c.r_offset,
            len == old(buf)@.len(),
            buf@.len() == len,
            bytes_read <= len,
            bytes_read <= avail,
            console@ == (ConsoleView { r_offset: (c.r_offset + bytes_read) as usize, ..c }),
            !done ==> line_len(c.chars, c.r_offset as int, avail, len, 0)
                == line_len(c.chars, c.r_offset as int, avail, len, bytes_read as int),
            done ==> line_len(c.chars, c.r_offset as int, avail, len, 0) == bytes_read,
            forall|k: int| 0 <= k < len ==> #[trigger] buf@[k] == if k < bytes_read {
                c.chars[(c.r_offset + k) % (INPUT_BUF_SIZE as int)]
            } else {
                old(buf)@[k]
            },
        decreases len - bytes_read + if done { 0int } else { 1int },
    {
        let n: usize = read_byte(console, &mut byte);
        if n == 0 {
            // No byte left
            done = true;
        } else {
            buf.set(bytes_read, byte);
            bytes_read = bytes_read + 1;
            // The line ends with its line feed
            if byte == 10 {
                done = true;
            }
        }
    }
    bytes_read
}

/// Size of the kernel buffer that the output goes through.
pub const WRITE_BATCH: usize = 32;

/// The page table of the process that runs on `cpu`.
pub open spec fn current_root(table: &ProcTable, cpu: usize) -> u64 {
    table.pcbs@[table.cpus@[cpu as int].proc->0 as int].pagetable_opt()->0
}

/// At most two positions, and no more than the buffer holds, are
/// given back; the buffer keeps its length; and the monitor's line,
/// column and write offset do not grow.
pub proof fn lemma_ansi_cut(c: ConsoleView, b: Seq<u8>)
    ensures
        0 <= ansi_step(c, b).3 <= 2,
        ansi_step(c, b).3 <= b.len(),
        ansi_step(c, b).1.len() == b.len(),
        ansi_step(c, b).0.monitor.row <= c.monitor.row,
        ansi_step(c, b).0.monitor.col <= c.monitor.col,
        ansi_step(c, b).0.monitor.w_offset <= c.monitor.w_offset,
{
}

/// Size of the batch that starts at `i` of a source of `len` bytes.
pub open spec fn batch_len(i: int, len: int) -> int {
    if len - i < WRITE_BATCH { len - i } else { WRITE_BATCH as int }
}

/// The batch of `n` source bytes from `i`.
pub open spec fn source_batch(mem: &PhysMem, usr: bool, root: u64, src: u64, i: int, n: int) -> Seq<u8> {
    Seq::new(n as nat, |k: int| source_byte(mem, usr, root, src, i + k))
}

/// Writing the source `[src + i, src + len)` on the console `c` in
/// batches of at most `WRITE_BATCH` bytes: the console after it and
/// the bytes sent to the screen. The escape codes of a batch are
/// processed and its bytes are written, but for an escape code cut by
/// the end of the batch when more bytes follow: the next batch starts
/// at that code. Writing stops when a batch cannot be read.
pub open spec fn console_batches(
    c: ConsoleView,
    i: int,
    len: int,
    mem: &PhysMem,
    usr: bool,
    root: u64,
    src: u64,
) -> (ConsoleView, Seq<u8>)
    decreases len - i,
{
    if i >= len {
        (c, Seq::empty())
    } else {
        let n = batch_len(i, len);
        if !source_ok(mem, usr, root, src, i, n) {
            (c, Seq::empty())
        } else {
            let b = source_batch(mem, usr, root, src, i, n);
            let s = ansi_step(c, b);
            let m = if i + n < len { n - s.3 } else { n };
            let w = s.0.monitor.write_bytes(s.1.take(m));
            proof {
                lemma_ansi_cut(c, b);
            }
            let rest = console_batches(ConsoleView { monitor: w.0, ..s.0 }, i + m, len, mem, usr, root, src);
            (rest.0, s.2 + w.1 + rest.1)
        }
    }
}

/// One batch of `console_batches`, unfolded.
proof fn lemma_batch_step(c: ConsoleView, i: int, len: int, mem: &PhysMem, usr: bool, root: u64, src: u64)
    requires
        i < len,
        source_ok(mem, usr, root, src, i, batch_len(i, len)),
    ensures
        ({
            let n = batch_len(i, len);
            let s = ansi_step(c, source_batch(mem, usr, root, src, i, n));
            let m = if i + n < len { n - s.3 } else { n };
            let w = s.0.monitor.write_bytes(s.1.take(m));
            let rest = console_batches(ConsoleView { monitor: w.0, ..s.0 }, i + m, len, mem, usr, root, src);
            console_batches(c, i, len, mem, usr, root, src) == (rest.0, s.2 + w.1 + rest.1)
        }),
{
}

/// The bytes of the kernel buffer at `buf` that a batch of `n` bytes
/// fills.
pub open spec fn buffer_bytes(mem: &PhysMem, buf: u64, n: int) -> Seq<u8> {
    Seq::new(n as nat, |k: int| mem.byte(buf + k))
}

/// Write one batch of `n` bytes from the kernel buffer: its escape
/// codes are processed and its bytes written, but for an escape code
/// cut by its end when `more` bytes follow. Returns how many bytes of
/// the source the batch took.
fn write_batch(console: &mut Console, mem: &PhysMem, buf_addr: Addr, n: usize, more: bool, out: &mut Vec<u8>) -> (written: usize)
    requires
        old(console).wf(),
        old(console).monitor@.room(WRITE_BATCH as nat),
        n <= WRITE_BATCH,
        buf_addr@ + WRITE_BATCH <= u64::MAX,
    ensures
        ({
            let s = ansi_step(old(console)@, buffer_bytes(mem, buf_addr@, n as int));
            let w = s.0.monitor.write_bytes(s.1.take(written as int));
            &&& written == if more { n - s.3 } else { n as int }
            &&& final(console)@ == ConsoleView { monitor: w.0, ..s.0 }
            &&& final(out)@ == old(out)@ + s.2 + w.1
        }),
        final(console).wf(),
        final(console).input_cvar == old(console).input_cvar,
        final(console).monitor.row <= old(console).monitor.row + n,
        final(console).monitor.col <= old(console).monitor.col + 8 * n,
        final(console).monitor.w_offset <= old(console).monitor.w_offset + n,
{
    let ghost c0 = console@;
    let ghost batch = buffer_bytes(mem, buf_addr@, n as int);
    // Take the batch out of the kernel buffer
    let mut buf: Vec<u8> = Vec::new();
    while buf.len() < n
        invariant
            buf@.len() <= n,
            n <= WRITE_BATCH,
            buf_addr@ + WRITE_BATCH <= u64::MAX,
            batch == buffer_bytes(mem, buf_addr@, n as int),
            forall|j: int| 0 <= j < buf@.len() ==> buf@[j] == #[trigger] batch[j],
        decreases n - buf@.len(),
    {
        let v: u8 = mem.read_u8(buf_addr.as_integer() + buf.len() as u64);
        buf.push(v);
    }
    proof {
        assert(buf@ =~= batch);
        lemma_ansi_cut(c0, batch);
    }
    // Process escape codes. There is a chance that a code gets cut
    // out, so it should not advance past it
    let cut: usize = process_ansi(console, &mut buf, out);
    // A cut code is left for the next batch, when there is one
    let written: usize = if more { n - cut } else { n };
    buf.truncate(written);
    // write the batch to the screen
    console.monitor.write_slice(buf.as_slice(), out);
    proof {
        let s = ansi_step(c0, batch);
        assert(out@ =~= old(out)@ + s.2 + s.0.monitor.write_bytes(s.1.take(written as int)).1);
    }
    written
}

/// User write() to the console comes here: the output is taken from
/// the source in batches through a kernel buffer, its escape codes
/// are processed and it is written to the monitor (see
/// `console_batches`). The output is ASCII text, so that each batch
/// is a valid string.
/// # Arguments
/// - `usr_src`: true if the source address is from a user process
/// - `src`: source address
/// - `len`: length in bytes of the output
/// - `buf_addr`: the kernel buffer of `WRITE_BATCH` bytes
#[verifier::rlimit(100)]
pub fn console_write(
    console: &mut Console,
    table: &ProcTable,
    cpu: usize,
    usr_src: bool,
    src: Addr,
    len: usize,
    buf_addr: Addr,
    mem: &mut PhysMem,
    falloc: &mut FrameAllocator,
    out: &mut Vec<u8>,
)
    requires
        old(console).wf(),
        old(console).monitor@.room((2 * len + 64) as nat),
        table.wf(),
        cpu < NUM_CPU,
        old(falloc).wf(),
        len + WRITE_BATCH <= usize::MAX,
        src@ + len <= u64::MAX,
        buf_addr@ + WRITE_BATCH <= u64::MAX,
        usr_src ==> {
            &&& table.cpus@[cpu as int].proc is Some
            &&& table.cpus@[cpu as int].proc->0 < crate::config::constants::NUM_PROC
            &&& table.pcbs@[table.cpus@[cpu as int].proc->0 as int].pagetable_opt() is Some
            &&& current_root(table, cpu) + 4096 <= u64::MAX
        },
        staging_away(old(mem), usr_src, current_root(table, cpu), src@, len as int, buf_addr@, WRITE_BATCH as int),
        forall|t: int| 0 <= t < len && source_ok(old(mem), usr_src, current_root(table, cpu), src@, t, 1) ==>
            #[trigger] source_byte(old(mem), usr_src, current_root(table, cpu), src@, t) < 128,
    ensures
        final(console).wf(),
        final(console).input_cvar == old(console).input_cvar,
        final(console)@ == console_batches(old(console)@, 0, len as int, old(mem), usr_src,
            current_root(table, cpu), src@).0,
        final(out)@ == old(out)@ + console_batches(old(console)@, 0, len as int, old(mem), usr_src,
            current_root(table, cpu), src@).1,
        *final(falloc) == *old(falloc),
        final(mem).same_outside(old(mem), buf_addr@ as int, buf_addr@ + WRITE_BATCH),
{
    let ghost m0 = *mem;
    let ghost root = current_root(table, cpu);
    let ghost total = console_batches(console@, 0, len as int, &m0, usr_src, root, src@);
    let mut i: usize = 0; // Counter
    let mut go: bool = true;
    while go && i < len
        invariant
            i <= len,
            len + WRITE_BATCH <= usize::MAX,
            m0 == *old(mem),
            root == current_root(table, cpu),
            mem.same_outside(&m0, buf_addr@ as int, buf_addr@ + WRITE_BATCH),
            *falloc == *old(falloc),
            falloc.wf(),
            console.wf(),
            console.input_cvar == old(console).input_cvar,
            table.wf(),
            cpu < NUM_CPU,
            src@ + len <= u64::MAX,
            buf_addr@ + WRITE_BATCH <= u64::MAX,
            usr_src ==> {
                &&& table.cpus@[cpu as int].proc is Some
                &&& table.cpus@[cpu as int].proc->0 < crate::config::constants::NUM_PROC
                &&& table.pcbs@[table.cpus@[cpu as int].proc->0 as int].pagetable_opt() is Some
                &&& root + 4096 <= u64::MAX
            },
            staging_away(&m0, usr_src, root, src@, len as int, buf_addr@, WRITE_BATCH as int),
            go && i < len ==> console.monitor@.room((2 * (len - i) + 64) as nat),
            total == console_batches(old(console)@, 0, len as int, &m0, usr_src, root, src@),
            ({
                let r = if go {
                    console_batches(console@, i as int, len as int, &m0, usr_src, root, src@)
                } else {
                    (console@, Seq::<u8>::empty())
                };
                &&& total.0 == r.0
                &&& old(out)@ + total.1 == out@ + r.1
            }),
        decreases if go { len + 1 - i } else { 0 },
    {
        // Size of the next batch to be copied
        let mut copy_len: usize = WRITE_BATCH;
        if copy_len > len - i {
            copy_len = len - i;
        }
        let n: usize = copy_len;
        let ghost mk = *mem;
        proof {
            lemma_staging_kept(&m0, &mk, usr_src, root, src@, len as int, buf_addr@, WRITE_BATCH as int);
            if usr_src {
                lemma_staging_copyin(&mk, root, src@, len as int, buf_addr@, WRITE_BATCH as int, i as int, n as int);
            }
        }
        // either_copyin copies data from either the kernel's address
        // space or from some user's space. Stop if it fails
        let ok: bool = either_copyin(table, cpu, buf_addr, usr_src, Addr::new(src.as_integer() + i as u64), copy_len,
            mem, falloc);
        proof {
            assert(source_ok(&mk, usr_src, root, src@, i as int, n as int) == source_ok(&m0, usr_src, root, src@,
                i as int, n as int));
        }
        if !ok {
            go = false;
        } else {
            let ghost c0 = console@;
            let ghost batch = source_batch(&m0, usr_src, root, src@, i as int, n as int);
            proof {
                assert forall|k: int| 0 <= k < n implies #[trigger] mem.byte(buf_addr@ + k) == batch[k] by {
                    let b = (src@ + i) as u64;
                    if usr_src {
                        assert(user_page(&m0, root, page_of(b, k)) is Some);
                        assert(page_of(((src@ + (i + k)) as u64), 0) == page_of(b, k));
                        assert(user_addr(&mk, root, b, k) == user_addr(&mk, root, src@, i + k));
                    }
                    assert(source_ok(&m0, usr_src, root, src@, i + k, 1));
                    assert(source_byte(&mk, usr_src, root, src@, i + k) == source_byte(&m0, usr_src, root, src@, i + k));
                }
                assert(buffer_bytes(mem, buf_addr@, n as int) =~= batch);
                lemma_ansi_cut(c0, batch);
                lemma_batch_step(c0, i as int, len as int, &m0, usr_src, root, src@);
            }
            let ghost o0 = out@;
            let written: usize = write_batch(console, mem, buf_addr, n, i + n < len, out);
            proof {
                let s = ansi_step(c0, batch);
                let w = s.0.monitor.write_bytes(s.1.take(written as int));
                let rest = console_batches(console@, i + written, len as int, &m0, usr_src, root, src@);
                assert(out@ == o0 + s.2 + w.1);
                assert(old(out)@ + total.1 == out@ + rest.1);
            }
            i += written;
        }
    }
}

/// Userspace read() in the console comes here. Not implemented yet.
pub fn console_read() {
}

} // verus!

//! Monitor driver.
//!
//! The monitor keeps a circular buffer of `LINES` lines of text, of
//! which `M_HEIGHT` are on the screen, and a cursor. What it shows is
//! written through the UART as cursor moves and characters; those
//! bytes are appended to an output buffer.

use vstd::prelude::*;
use vstd::string::StringSliceAdditionalSpecFns;
use crate::config::constants::{M_WIDTH, M_HEIGHT};
use crate::mmio::uart::{uart_move_cursor, uart_putc, move_cursor_bytes};

verus! {

/// Number of columns of the terminal.
pub const COLS: usize = M_WIDTH;

/// Number of lines of the terminal
pub const LINES: usize = M_HEIGHT * 10;

/// Bound kept on the cursor and the offsets so that no step of the
/// monitor overflows: a line and the write offset are added up, so
/// each stays below half of the range of `usize`.
pub const LIMIT: usize = usize::MAX / 2 - 1;

/// The Monitor stores a circular buffer for the lines of text and
/// read and write offsets that allow the lines of text in the screen
/// to be scrolled. Line `l` of the buffer is
/// `chars[l * COLS .. (l + 1) * COLS]`.
pub struct Monitor {
    /// Circular buffer for the lines
    pub chars: Vec<u8>,
    /// Read offset.
    pub r_offset: usize,
    /// Write offset.
    pub w_offset: usize,
    /// Enable scrolling
    pub scroll: bool,
    /// Cursor row on the screen
    pub row: usize,
    /// Cursor column on the screen
    pub col: usize,
}

/// Mathematical state of a monitor.
pub struct MonitorView {
    pub chars: Seq<u8>,
    pub r_offset: usize,
    pub w_offset: usize,
    pub scroll: bool,
    pub row: usize,
    pub col: usize,
}

impl View for Monitor {
    type V = MonitorView;

    open spec fn view(&self) -> MonitorView {
        MonitorView {
            chars: self.chars@,
            r_offset: self.r_offset,
            w_offset: self.w_offset,
            scroll: self.scroll,
            row: self.row,
            col: self.col,
        }
    }
}

/// The bytes that print `chr` at (`row`, `col`): nothing when the
/// position is off the screen.
pub open spec fn write_at_bytes(chr: u8, row: int, col: int) -> Seq<u8> {
    if 0 <= row < M_HEIGHT && 0 <= col < M_WIDTH {
        move_cursor_bytes(row as nat, col as nat).push(chr)
    } else {
        Seq::empty()
    }
}

/// Position in `chars` of column `j` of buffer line `line`.
pub open spec fn cell(line: int, j: int) -> int {
    line * COLS + j
}

/// Character of screen line `i`, column `j`, when the screen starts
/// at buffer line `offset`; 0 off the buffer.
pub open spec fn read_cell(chars: Seq<u8>, i: int, j: int, offset: int) -> u8 {
    if 0 <= i < LINES && 0 <= j < COLS {
        chars[cell((i + offset) % (LINES as int), j)]
    } else {
        0
    }
}

/// `chars` with the character of screen line `i`, column `j` (screen
/// starting at buffer line `offset`) set to `chr`, when that position
/// is on the buffer.
pub open spec fn write_cell(chars: Seq<u8>, chr: u8, i: int, j: int, offset: int) -> Seq<u8> {
    if 0 <= i < LINES && 0 <= j < COLS {
        chars.update(cell((i + offset) % (LINES as int), j), chr)
    } else {
        chars
    }
}

/// `chars` with buffer line `line` filled with zeros.
pub open spec fn zero_line(chars: Seq<u8>, line: int) -> Seq<u8> {
    Seq::new(chars.len(), |k: int| if cell(line, 0) <= k < cell(line, COLS as int) { 0u8 } else { chars[k] })
}

/// The bytes that print a blank at columns `0 .. n` of screen line `line`.
pub open spec fn blank_row(line: int, n: nat) -> Seq<u8>
    decreases n,
{
    if n == 0 {
        Seq::empty()
    } else {
        blank_row(line, (n - 1) as nat) + write_at_bytes(32u8, line, n - 1)
    }
}

/// The bytes that blank the first `n` screen lines.
pub open spec fn blank_rows(n: nat) -> Seq<u8>
    decreases n,
{
    if n == 0 {
        Seq::empty()
    } else {
        blank_rows((n - 1) as nat) + blank_row(n - 1, M_WIDTH as nat)
    }
}

/// Refresh of one position: the character at the read offset is
/// printed when it differs from the one at `old_offset`.
pub open spec fn refresh_cell(v: MonitorView, old_offset: int, i: int, j: int) -> Seq<u8> {
    let new_chr = read_cell(v.chars, i, j, v.r_offset as int);
    let old_chr = read_cell(v.chars, i, j, old_offset);
    if new_chr != old_chr {
        write_at_bytes(new_chr, i, j)
    } else {
        Seq::empty()
    }
}

/// Refresh of columns `0 .. n` of screen line `i`.
pub open spec fn refresh_row(v: MonitorView, old_offset: int, i: int, n: nat) -> Seq<u8>
    decreases n,
{
    if n == 0 {
        Seq::empty()
    } else {
        refresh_row(v, old_offset, i, (n - 1) as nat) + refresh_cell(v, old_offset, i, n - 1)
    }
}

/// Refresh of screen lines `0 .. n`.
pub open spec fn refresh_rows(v: MonitorView, old_offset: int, n: nat) -> Seq<u8>
    decreases n,
{
    if n == 0 {
        Seq::empty()
    } else {
        refresh_rows(v, old_offset, (n - 1) as nat) + refresh_row(v, old_offset, n - 1, M_WIDTH as nat)
    }
}

/// The bytes that redraw the screen after the read offset moved away
/// from `old_offset`.
pub open spec fn refresh_bytes(v: MonitorView, old_offset: int) -> Seq<u8> {
    refresh_rows(v, old_offset, M_HEIGHT as nat)
}

impl MonitorView {
    /// The buffer has its size and the cursor and offsets are within
    /// bounds.
    pub open spec fn wf(self) -> bool {
        &&& self.chars.len() == LINES * COLS
        &&& self.r_offset <= self.w_offset
        &&& self.row <= LIMIT
        &&& self.col <= LIMIT
        &&& self.w_offset <= LIMIT
    }

    /// `n` more characters can be printed without leaving the bounds.
    pub open spec fn room(self, n: nat) -> bool {
        &&& self.row + n <= LIMIT
        &&& self.col + 8 * n <= LIMIT
        &&& self.w_offset + n <= LIMIT
    }

    /// The cursor moves to the next line; when it leaves the screen
    /// and scrolling is on, the text scrolls up by a line.
    #[verifier::opaque]
    pub open spec fn line_feed(self) -> (MonitorView, Seq<u8>) {
        let v1 = MonitorView { row: (self.row + 1) as usize, ..self };
        if v1.row > M_HEIGHT - 1 && self.scroll {
            let v2 = if v1.r_offset == v1.w_offset {
                MonitorView { r_offset: (v1.r_offset + 1) as usize, ..v1 }
            } else {
                v1
            };
            let o2 = if v1.r_offset == v1.w_offset {
                refresh_bytes(v2, v1.r_offset as int)
            } else {
                Seq::empty()
            };
            let w = (v2.w_offset + 1) as usize;
            let v3 = MonitorView {
                w_offset: w,
                chars: zero_line(v2.chars, ((M_HEIGHT - 1) + w) % (LINES as int)),
                row: (M_HEIGHT - 1) as usize,
                ..v2
            };
            (v3, o2 + blank_row(M_HEIGHT - 1, M_WIDTH as nat))
        } else {
            (v1, Seq::empty())
        }
    }

    /// Printing `chr`: line feed, carriage return and tab move the
    /// cursor; another character is stored at the cursor (while the
    /// screen shows the last lines or scrolling is on), shown when the
    /// screen shows the last lines, and the cursor advances, wrapping
    /// to the next line at the end of a line when scrolling is on.
    /// The cursor is then shown when the screen shows the last lines.
    pub open spec fn putc(self, chr: u8) -> (MonitorView, Seq<u8>) {
        let (v1, o1) = if chr == 10 {
            self.line_feed()
        } else if chr == 13 {
            (MonitorView { col: 0, ..self }, Seq::empty())
        } else if chr == 9 {
            (MonitorView { col: (self.col / 8 * 8 + 8) as usize, ..self }, Seq::empty())
        } else {
            let at_end = self.r_offset == self.w_offset;
            let chars = if at_end || self.scroll {
                write_cell(self.chars, chr, self.row as int, self.col as int, self.w_offset as int)
            } else {
                self.chars
            };
            let shown = if at_end { write_at_bytes(chr, self.row as int, self.col as int) } else { Seq::empty() };
            let v = MonitorView { chars, col: (self.col + 1) as usize, ..self };
            if v.col >= M_WIDTH && self.scroll {
                let (v2, o2) = v.line_feed();
                (MonitorView { col: 0, ..v2 }, shown + o2)
            } else {
                (v, shown)
            }
        };
        if v1.r_offset == v1.w_offset {
            (v1, o1 + move_cursor_bytes(v1.row as nat, v1.col as nat))
        } else {
            (v1, o1)
        }
    }

    /// Printing the characters of `s` one after the other.
    pub open spec fn write_bytes(self, s: Seq<u8>) -> (MonitorView, Seq<u8>)
        decreases s.len(),
    {
        if s.len() == 0 {
            (self, Seq::empty())
        } else {
            let (v1, o1) = self.write_bytes(s.drop_last());
            let (v2, o2) = v1.putc(s.last());
            (v2, o1 + o2)
        }
    }

    /// Going down a line to read, when the screen does not show the
    /// last lines yet.
    pub open spec fn page_down(self) -> (MonitorView, Seq<u8>) {
        if self.r_offset < self.w_offset {
            let v = MonitorView { r_offset: (self.r_offset + 1) as usize, ..self };
            (v, refresh_bytes(v, self.r_offset as int))
        } else {
            (self, Seq::empty())
        }
    }

    /// Going up a line to read, when the screen does not show the
    /// first line of the buffer.
    pub open spec fn page_up(self) -> (MonitorView, Seq<u8>) {
        if self.r_offset > 0 {
            let v = MonitorView { r_offset: (self.r_offset - 1) as usize, ..self };
            (v, refresh_bytes(v, self.r_offset as int))
        } else {
            (self, Seq::empty())
        }
    }
}

/// Sizes of the buffer.
pub proof fn lemma_monitor_sizes()
    ensures
        LINES == 250,
        COLS == 80,
        LINES * COLS == 20000,
        M_HEIGHT == 25,
        M_WIDTH == 80,
{
}

/// Positions of a line of the buffer lie in it.
pub proof fn lemma_cell_bounds(line: int, j: int)
    requires
        0 <= line < LINES,
        0 <= j < COLS,
    ensures
        0 <= cell(line, j) < LINES * COLS,
        cell(line, 0) + COLS <= LINES * COLS,
        cell(line, j) == cell(line, 0) + j,
{
    lemma_monitor_sizes();
    assert(0 <= line * 80 <= 249 * 80) by (nonlinear_arith)
        requires 0 <= line < 250;
}

/// Printing `s1` then `s2` is printing `s1 + s2`: same state, and the
/// output of the first followed by that of the second.
pub proof fn lemma_write_bytes_concat(v: MonitorView, s1: Seq<u8>, s2: Seq<u8>)
    ensures
        v.write_bytes(s1 + s2).0 == v.write_bytes(s1).0.write_bytes(s2).0,
        v.write_bytes(s1 + s2).1 == v.write_bytes(s1).1 + v.write_bytes(s1).0.write_bytes(s2).1,
    decreases s2.len(),
{
    if s2.len() == 0 {
        assert(s1 + s2 =~= s1);
        assert(v.write_bytes(s1).1 + Seq::<u8>::empty() =~= v.write_bytes(s1).1);
    } else {
        let s = s1 + s2;
        assert(s.drop_last() =~= s1 + s2.drop_last());
        assert(s.last() == s2.last());
        lemma_write_bytes_concat(v, s1, s2.drop_last());
        let w = v.write_bytes(s1).0;
        let (v3, o3) = w.write_bytes(s2.drop_last());
        let (v4, o4) = v3.putc(s2.last());
        assert(v.write_bytes(s1).1 + o3 + o4 =~= v.write_bytes(s1).1 + (o3 + o4));
    }
}

/// With scrolling on, printing any character keeps the cursor on the
/// screen and the read offset at most the write offset; when the
/// screen shows the last lines, the output ends by moving the cursor
/// to its place.
pub proof fn lemma_putc_stays_on_screen(v: MonitorView, chr: u8)
    requires
        v.scroll,
        v.row < M_HEIGHT,
        v.r_offset <= v.w_offset,
        v.w_offset < usize::MAX,
    ensures
        v.putc(chr).0.row < M_HEIGHT,
        v.putc(chr).0.r_offset <= v.putc(chr).0.w_offset,
        v.putc(chr).0.r_offset == v.putc(chr).0.w_offset ==> {
            let (n, o) = v.putc(chr);
            let m = move_cursor_bytes(n.row as nat, n.col as nat);
            &&& o.len() >= m.len()
            &&& o.subrange(o.len() - m.len(), o.len() as int) == m
        },
{
    reveal(MonitorView::line_feed);
    let (n, o) = v.putc(chr);
    if n.r_offset == n.w_offset {
        let m = move_cursor_bytes(n.row as nat, n.col as nat);
        assert(o.subrange(o.len() - m.len(), o.len() as int) =~= m);
    }
}

/// Going up a line and down again gives back the monitor, and so does
/// going down a line and up again.
pub proof fn lemma_page_up_down(v: MonitorView)
    requires
        v.wf(),
    ensures
        v.r_offset > 0 ==> v.page_up().0.page_down().0 == v,
        v.r_offset < v.w_offset ==> v.page_down().0.page_up().0 == v,
{
}

/// Going up a line to read moves the read offset one line back, when
/// it is not on the first line of the buffer; going down a line moves
/// it one line forward, when the screen does not show the last lines.
/// Nothing else of the monitor changes.
pub proof fn lemma_page_moves_read_offset(v: MonitorView)
    ensures
        v.page_up().0 == (MonitorView { r_offset: if v.r_offset > 0 { (v.r_offset - 1) as usize } else { v.r_offset }, ..v }),
        v.page_down().0 == (MonitorView {
            r_offset: if v.r_offset < v.w_offset { (v.r_offset + 1) as usize } else { v.r_offset },
            ..v
        }),
        v.r_offset > 0 ==> v.page_up().1 == refresh_bytes(v.page_up().0, v.r_offset as int),
        v.r_offset == 0 ==> v.page_up().1 == Seq::<u8>::empty(),
        v.r_offset < v.w_offset ==> v.page_down().1 == refresh_bytes(v.page_down().0, v.r_offset as int),
        v.r_offset >= v.w_offset ==> v.page_down().1 == Seq::<u8>::empty(),
{
}

/// Refreshing a screen position after the read offset moved from
/// `old_offset` to `v.r_offset`: when the character the screen shows
/// there changes, the cursor moves to the position and the character
/// of the new read offset (buffer line `i + v.r_offset`) is sent; an
/// unchanged position gets no byte.
pub proof fn lemma_refresh_cell_shows_new(v: MonitorView, old_offset: int, i: int, j: int)
    requires
        0 <= i < M_HEIGHT,
        0 <= j < M_WIDTH,
    ensures
        ({
            let new_chr = v.chars[(i + v.r_offset) % 250 * 80 + j];
            let old_chr = v.chars[(i + old_offset) % 250 * 80 + j];
            &&& new_chr == old_chr ==> refresh_cell(v, old_offset, i, j) == Seq::<u8>::empty()
            &&& new_chr != old_chr ==> refresh_cell(v, old_offset, i, j)
                == move_cursor_bytes(i as nat, j as nat).push(new_chr)
        }),
{
    lemma_monitor_sizes();
}

/// The refresh of columns `0 .. m` of a screen line starts the
/// refresh of columns `0 .. n`, `m <= n`.
proof fn lemma_refresh_row_prefix(v: MonitorView, o: int, i: int, m: nat, n: nat) -> (b: Seq<u8>)
    requires
        m <= n,
    ensures
        refresh_row(v, o, i, n) == refresh_row(v, o, i, m) + b,
    decreases n,
{
    if m == n {
        assert(refresh_row(v, o, i, n) =~= refresh_row(v, o, i, m) + Seq::<u8>::empty());
        Seq::empty()
    } else {
        let b0 = lemma_refresh_row_prefix(v, o, i, m, (n - 1) as nat);
        let b = b0 + refresh_cell(v, o, i, n - 1);
        assert(refresh_row(v, o, i, n) =~= refresh_row(v, o, i, m) + b);
        b
    }
}

/// The refresh of screen lines `0 .. m` starts the refresh of lines
/// `0 .. n`, `m <= n`.
proof fn lemma_refresh_rows_prefix(v: MonitorView, o: int, m: nat, n: nat) -> (b: Seq<u8>)
    requires
        m <= n,
    ensures
        refresh_rows(v, o, n) == refresh_rows(v, o, m) + b,
    decreases n,
{
    if m == n {
        assert(refresh_rows(v, o, n) =~= refresh_rows(v, o, m) + Seq::<u8>::empty());
        Seq::empty()
    } else {
        let b0 = lemma_refresh_rows_prefix(v, o, m, (n - 1) as nat);
        let b = b0 + refresh_row(v, o, n - 1, M_WIDTH as nat);
        assert(refresh_rows(v, o, n) =~= refresh_rows(v, o, m) + b);
        b
    }
}

/// The refresh of the whole screen holds the refresh of every screen
/// position, after those of the lines above it and of the columns to
/// its left.
pub proof fn lemma_refresh_bytes_has_cell(v: MonitorView, o: int, i: int, j: int) -> (b: Seq<u8>)
    requires
        0 <= i < M_HEIGHT,
        0 <= j < M_WIDTH,
    ensures
        refresh_bytes(v, o)
            == refresh_rows(v, o, i as nat) + refresh_row(v, o, i, j as nat) + refresh_cell(v, o, i, j) + b,
{
    let b1 = lemma_refresh_rows_prefix(v, o, (i + 1) as nat, M_HEIGHT as nat);
    let b2 = lemma_refresh_row_prefix(v, o, i, (j + 1) as nat, M_WIDTH as nat);
    let b = b2 + b1;
    assert(refresh_rows(v, o, (i + 1) as nat) == refresh_rows(v, o, i as nat) + refresh_row(v, o, i, M_WIDTH as nat));
    assert(refresh_row(v, o, i, (j + 1) as nat) == refresh_row(v, o, i, j as nat) + refresh_cell(v, o, i, j));
    assert(refresh_bytes(v, o)
        =~= refresh_rows(v, o, i as nat) + refresh_row(v, o, i, j as nat) + refresh_cell(v, o, i, j) + b);
    b
}

/// A buffer of blank lines.
pub open spec fn blank_chars() -> Seq<u8> {
    Seq::new((LINES * COLS) as nat, |k: int| 32u8)
}

/// Print a character in the (col, row) position in the monitor
/// # Arguments
///  - `chr`: character to print
///  - `row`: row (y position)
///  - `col`: col (x position)
pub fn write_at(chr: u8, row: usize, col: usize, out: &mut Vec<u8>)
    ensures
        final(out)@ == old(out)@ + write_at_bytes(chr, row as int, col as int),
{
    if row < M_HEIGHT && col < M_WIDTH {
        uart_move_cursor(row, col, out);
        uart_putc(chr, out);
        proof {
            assert(out@ =~= old(out)@ + write_at_bytes(chr, row as int, col as int));
        }
    } else {
        proof {
            assert(out@ =~= old(out)@ + write_at_bytes(chr, row as int, col as int));
        }
    }
}

impl Monitor {
    /// Initialize a Monitor
    pub fn new(scr: bool) -> (m: Self)
        ensures
            m@ == (MonitorView { chars: blank_chars(), r_offset: 0, w_offset: 0, scroll: scr, row: 0, col: 0 }),
            m@.wf(),
    {
        let chars: Vec<u8> = blank_buffer();
        Monitor { chars, r_offset: 0, w_offset: 0, scroll: scr, row: 0, col: 0 }
    }

    /// Change scroll mode
    pub fn scroll(&mut self, scr: bool)
        ensures
            final(self)@ == (MonitorView { scroll: scr, ..old(self)@ }),
    {
        self.scroll = scr;
    }

    /// Read from the chars buffer
    fn read_buffer(&self, i: usize, j: usize, offset: usize) -> (r: u8)
        requires
            self.chars@.len() == LINES * COLS,
            offset <= LIMIT + 1,
        ensures
            r == read_cell(self.chars@, i as int, j as int, offset as int),
    {
        // The lines are a circular buffer
        if i < LINES && j < COLS {
            proof {
                lemma_cell_bounds((i + offset) % (LINES as int), j as int);
            }
            return self.chars[((i + offset) % LINES) * COLS + j];
        }
        0
    }

    /// Write to the chars buffer
    fn write_buffer(&mut self, chr: u8, i: usize, j: usize, offset: usize)
        requires
            old(self).chars@.len() == LINES * COLS,
            offset <= LIMIT + 1,
        ensures
            final(self)@ == (MonitorView {
                chars: write_cell(old(self).chars@, chr, i as int, j as int, offset as int),
                ..old(self)@
            }),
    {
        // The lines are a circular buffer
        if i < LINES && j < COLS {
            proof {
                lemma_cell_bounds((i + offset) % (LINES as int), j as int);
            }
            self.chars.set(((i + offset) % LINES) * COLS + j, chr);
        }
    }

    /// Clean a line of the chars buffer and of the screen
    fn clean_line(&mut self, line: usize, out: &mut Vec<u8>)
        requires
            old(self).chars@.len() == LINES * COLS,
            line <= LIMIT,
            old(self).w_offset <= LIMIT + 1,
        ensures
            final(self)@ == (MonitorView {
                chars: zero_line(old(self).chars@, (line + old(self).w_offset) % (LINES as int)),
                ..old(self)@
            }),
            final(out)@ == old(out)@ + blank_row(line as int, M_WIDTH as nat),
    {
        // Clean the buffer
        proof {
            lemma_cell_bounds((line + self.w_offset) % (LINES as int), 0);
        }
        let base: usize = ((line + self.w_offset) % LINES) * COLS;
        let ghost c0 = self.chars@;
        let mut k: usize = 0;
        while k < COLS
            invariant
                k <= COLS,
                base == cell((line + old(self).w_offset) % (LINES as int), 0),
                base + COLS <= LINES * COLS,
                self.chars@.len() == LINES * COLS,
                c0 == old(self).chars@,
                self.r_offset == old(self).r_offset,
                self.w_offset == old(self).w_offset,
                self.scroll == old(self).scroll,
                self.row == old(self).row,
                self.col == old(self).col,
                forall|t: int| 0 <= t < LINES * COLS ==> #[trigger] self.chars@[t] == if base <= t < base + k {
                    0u8
                } else {
                    c0[t]
                },
            decreases COLS - k,
        {
            self.chars.set(base + k, 0);
            k += 1;
        }
        proof {
            assert(self.chars@ =~= zero_line(c0, (line + old(self).w_offset) % (LINES as int)));
        }
        // Clean the screen
        let mut j: usize = 0;
        while j < M_WIDTH
            invariant
                j <= M_WIDTH,
                out@ == old(out)@ + blank_row(line as int, j as nat),
            decreases M_WIDTH - j,
        {
            write_at(32, line, j, out);
            proof {
                assert(out@ =~= old(out)@ + blank_row(line as int, (j + 1) as nat));
            }
            j += 1;
        }
    }

    /// Show the cursor at its position.
    pub fn move_cursor(&self, row: usize, col: usize, out: &mut Vec<u8>)
        requires
            self.row < usize::MAX,
            self.col < usize::MAX,
        ensures
            final(out)@ == old(out)@ + move_cursor_bytes(self.row as nat, self.col as nat),
    {
        uart_move_cursor(self.row, self.col, out);
    }

    /// Rewrite the buffer to the screen based on r_offset
    fn refresh(&self, old_offset: usize, out: &mut Vec<u8>)
        requires
            self.chars@.len() == LINES * COLS,
            self.r_offset <= LIMIT + 1,
            old_offset <= LIMIT + 1,
        ensures
            final(out)@ == old(out)@ + refresh_bytes(self@, old_offset as int),
    {
        // old and new chr are used to avoid rewritting the same
        // character again
        let mut old_chr: u8 = 0;
        let mut new_chr: u8 = 0;
        let mut i: usize = 0;
        while i < M_HEIGHT
            invariant
                i <= M_HEIGHT,
                self.chars@.len() == LINES * COLS,
                self.r_offset <= LIMIT + 1,
                old_offset <= LIMIT + 1,
                out@ == old(out)@ + refresh_rows(self@, old_offset as int, i as nat),
            decreases M_HEIGHT - i,
        {
            let mut j: usize = 0;
            while j < M_WIDTH
                invariant
                    i < M_HEIGHT,
                    j <= M_WIDTH,
                    self.chars@.len() == LINES * COLS,
                    self.r_offset <= LIMIT + 1,
                    old_offset <= LIMIT + 1,
                    out@ == old(out)@ + refresh_rows(self@, old_offset as int, i as nat)
                        + refresh_row(self@, old_offset as int, i as int, j as nat),
                decreases M_WIDTH - j,
            {
                let ghost before = out@;
                new_chr = self.read_buffer(i, j, self.r_offset);
                old_chr = self.read_buffer(i, j, old_offset);
                if new_chr != old_chr {
                    write_at(new_chr, i, j, out);
                }
                proof {
                    assert(out@ == before + refresh_cell(self@, old_offset as int, i as int, j as int));
                    assert(out@ =~= old(out)@ + refresh_rows(self@, old_offset as int, i as nat)
                        + refresh_row(self@, old_offset as int, i as int, (j + 1) as nat));
                }
                j += 1;
            }
            proof {
                assert(out@ =~= old(out)@ + refresh_rows(self@, old_offset as int, (i + 1) as nat));
            }
            i += 1;
        }
    }
}

impl Monitor {
    /// Go to the next line; scroll the text up by a line when the
    /// cursor leaves the screen and scrolling is on.
    fn line_feed(&mut self, out: &mut Vec<u8>)
        requires
            old(self)@.wf(),
            old(self).row + 1 <= LIMIT,
            old(self).w_offset + 1 <= LIMIT,
        ensures
            final(self)@ == old(self)@.line_feed().0,
            final(out)@ == old(out)@ + old(self)@.line_feed().1,
            final(self)@.wf(),
            final(self).row <= old(self).row + 1,
            final(self).w_offset <= old(self).w_offset + 1,
            final(self).col == old(self).col,
            final(self).scroll == old(self).scroll,
    {
        proof {
            reveal(MonitorView::line_feed);
        }
        self.row = self.row + 1;
        if self.row > M_HEIGHT - 1 && self.scroll {
            // Check if the data printed to the terminal
            // should scroll with the outputs.
            if self.r_offset == self.w_offset {
                // Go foward in the buffer
                self.r_offset = self.r_offset + 1;
                // Refresh screen comparing with the previous offset
                self.refresh(self.r_offset - 1, out);
            }
            let ghost o2 = out@;
            self.scroll_down(out);
            self.row = M_HEIGHT - 1;
            proof {
                assert(out@ =~= old(out)@ + old(self)@.line_feed().1);
            }
        }
    }

    /// Move the cursor a column back.
    pub fn backspace(&mut self)
        requires
            old(self).col > 0,
        ensures
            final(self)@ == (MonitorView { col: (old(self).col - 1) as usize, ..old(self)@ }),
    {
        self.col = self.col - 1;
    }

    fn carriage_return(&mut self)
        ensures
            final(self)@ == (MonitorView { col: 0, ..old(self)@ }),
    {
        self.col = 0;
    }

    fn tab(&mut self)
        requires
            old(self).col <= LIMIT,
        ensures
            final(self)@ == (MonitorView { col: (old(self).col / 8 * 8 + 8) as usize, ..old(self)@ }),
    {
        // Set col position to the next multiple 8
        self.col = self.col / 8 * 8 + 8;
    }

    /// Print a character in the monitor
    /// # Arguments
    ///  - `chr`: character to print
    pub fn putc(&mut self, chr: u8, out: &mut Vec<u8>)
        requires
            old(self)@.wf(),
            old(self)@.room(1),
        ensures
            final(self)@ == old(self)@.putc(chr).0,
            final(out)@ == old(out)@ + old(self)@.putc(chr).1,
            final(self)@.wf(),
            final(self).row <= old(self).row + 1,
            final(self).col <= old(self).col + 8,
            final(self).w_offset <= old(self).w_offset + 1,
    {
        if chr == 10 {
            self.line_feed(out);
        } else if chr == 13 {
            self.carriage_return();
        } else if chr == 9 {
            self.tab();
        } else {
            // Update the chars buffer
            if self.r_offset == self.w_offset || self.scroll {
                self.write_buffer(chr, self.row, self.col, self.w_offset);
            }
            // Write chr to the screen if it is on view
            if self.r_offset == self.w_offset {
                write_at(chr, self.row, self.col, out);
            }
            // Go right a column
            self.col = self.col + 1;
            // Go down a line
            if self.col >= M_WIDTH && self.scroll {
                self.line_feed(out);
                self.carriage_return();
            }
        }
        if self.r_offset == self.w_offset {
            self.move_cursor(self.row, self.col, out);
        }
        proof {
            assert(out@ =~= old(out)@ + old(self)@.putc(chr).1);
        }
    }

    /// Write an ASCII string to the screen
    pub fn write_string(&mut self, s: &str, out: &mut Vec<u8>)
        requires
            s.is_ascii(),
            old(self)@.wf(),
            old(self)@.room(s.spec_bytes().len()),
        ensures
            final(self)@ == old(self)@.write_bytes(s.spec_bytes()).0,
            final(out)@ == old(out)@ + old(self)@.write_bytes(s.spec_bytes()).1,
            final(self)@.wf(),
    {
        let bytes: &[u8] = s.as_bytes();
        self.write_slice(bytes, out);
    }

    /// Print the bytes of `bytes` one after the other.
    pub fn write_slice(&mut self, bytes: &[u8], out: &mut Vec<u8>)
        requires
            old(self)@.wf(),
            old(self)@.room(bytes@.len()),
        ensures
            final(self)@ == old(self)@.write_bytes(bytes@).0,
            final(out)@ == old(out)@ + old(self)@.write_bytes(bytes@).1,
            final(self)@.wf(),
            final(self).row <= old(self).row + bytes@.len(),
            final(self).col <= old(self).col + 8 * bytes@.len(),
            final(self).w_offset <= old(self).w_offset + bytes@.len(),
    {
        // Put the characters in the screen
        let mut k: usize = 0;
        while k < bytes.len()
            invariant
                k <= bytes@.len(),
                self@.wf(),
                self@.room((bytes@.len() - k) as nat),
                self.row <= old(self).row + k,
                self.col <= old(self).col + 8 * k,
                self.w_offset <= old(self).w_offset + k,
                self@ == old(self)@.write_bytes(bytes@.subrange(0, k as int)).0,
                out@ == old(out)@ + old(self)@.write_bytes(bytes@.subrange(0, k as int)).1,
            decreases bytes@.len() - k,
        {
            let ghost before = out@;
            let ghost v0 = self@;
            self.putc(bytes[k], out);
            proof {
                let p = bytes@.subrange(0, k + 1);
                assert(p.drop_last() =~= bytes@.subrange(0, k as int));
                assert(p.last() == bytes@[k as int]);
                assert(out@ =~= old(out)@ + old(self)@.write_bytes(p).1);
            }
            k += 1;
        }
        proof {
            assert(bytes@.subrange(0, bytes@.len() as int) =~= bytes@);
        }
    }

    /// Go down one line to read
    pub fn page_down(&mut self, out: &mut Vec<u8>)
        requires
            old(self)@.wf(),
        ensures
            final(self)@ == old(self)@.page_down().0,
            final(out)@ == old(out)@ + old(self)@.page_down().1,
            final(self)@.wf(),
    {
        if self.r_offset < self.w_offset {
            // Go foward in the buffer
            self.r_offset = self.r_offset + 1;
            // Refresh screen comparing with the previous offset
            self.refresh(self.r_offset - 1, out);
        }
    }

    /// Go up one line to read
    pub fn page_up(&mut self, out: &mut Vec<u8>)
        requires
            old(self)@.wf(),
        ensures
            final(self)@ == old(self)@.page_up().0,
            final(out)@ == old(out)@ + old(self)@.page_up().1,
            final(self)@.wf(),
    {
        if self.r_offset > 0 {
            // Go backwards in the buffer
            self.r_offset = self.r_offset - 1;
            // Refresh screen comparing with the previous offset
            self.refresh(self.r_offset + 1, out);
        }
    }

    /// Scroll down the data to write more characters
    fn scroll_down(&mut self, out: &mut Vec<u8>)
        requires
            old(self).chars@.len() == LINES * COLS,
            old(self).w_offset <= LIMIT,
        ensures
            final(self)@ == (MonitorView {
                w_offset: (old(self).w_offset + 1) as usize,
                chars: zero_line(old(self).chars@, ((M_HEIGHT - 1) + old(self).w_offset + 1) % (LINES as int)),
                ..old(self)@
            }),
            final(out)@ == old(out)@ + blank_row(M_HEIGHT - 1, M_WIDTH as nat),
    {
        self.w_offset = self.w_offset + 1;
        // Clean the next last line
        self.clean_line(M_HEIGHT - 1, out);
    }

    /// Clear monitor
    pub fn clear(&mut self, out: &mut Vec<u8>)
        requires
            old(self)@.wf(),
        ensures
            final(self)@ == (MonitorView {
                chars: blank_chars(),
                r_offset: 0,
                w_offset: 0,
                row: 0,
                col: 0,
                ..old(self)@
            }),
            final(out)@ == old(out)@ + move_cursor_bytes(0, 0) + blank_rows(M_HEIGHT as nat),
            final(self)@.wf(),
    {
        self.chars = blank_buffer();
        self.col = 0;
        self.row = 0;
        self.r_offset = 0;
        self.w_offset = 0;
        self.move_cursor(self.row, self.col, out);
        let ghost o1 = out@;
        let mut i: usize = 0;
        while i < M_HEIGHT
            invariant
                i <= M_HEIGHT,
                out@ == o1 + blank_rows(i as nat),
            decreases M_HEIGHT - i,
        {
            let mut j: usize = 0;
            while j < M_WIDTH
                invariant
                    i < M_HEIGHT,
                    j <= M_WIDTH,
                    out@ == o1 + blank_rows(i as nat) + blank_row(i as int, j as nat),
                decreases M_WIDTH - j,
            {
                write_at(32, i, j, out);
                proof {
                    assert(out@ =~= o1 + blank_rows(i as nat) + blank_row(i as int, (j + 1) as nat));
                }
                j += 1;
            }
            proof {
                assert(out@ =~= o1 + blank_rows((i + 1) as nat));
            }
            i += 1;
        }
    }
}

/// A buffer of `LINES` blank lines.
fn blank_buffer() -> (v: Vec<u8>)
    ensures
        v@ == blank_chars(),
{
    let mut v: Vec<u8> = Vec::new();
    let mut k: usize = 0;
    proof {
        lemma_monitor_sizes();
    }
    let size: usize = LINES * COLS;
    while k < size
        invariant
            size == LINES * COLS,
            k <= size,
            v@.len() == k,
            forall|t: int| 0 <= t < k ==> #[trigger] v@[t] == 32u8,
        decreases size - k,
    {
        v.push(32);
        k += 1;
    }
    proof {
        assert(v@ =~= blank_chars());
    }
    v
}

} // verus!

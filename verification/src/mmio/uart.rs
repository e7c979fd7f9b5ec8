//! UART driver.
//!
//! Every byte written to the UART transmit register is appended to
//! an output buffer; ANSI control sequences move the cursor of the
//! terminal on the other side.

use vstd::prelude::*;
use crate::io::console::{Console, InputBuffer, console_intr, CTRL_U, CTRL_H};
use crate::mmio::monitor::{Monitor, LIMIT};
use crate::proc::sync::Condvar;
use crate::proc::processing::ProcTable;
use crate::proc::control_types::ProcState;
use crate::proc::sync::{same_but_state, woken};

verus! {

/// Receive register
pub const RHR: u8 = 0;
/// Interrupt enable register
pub const IER: u8 = 1;
/// Interrupt status register
pub const ISR: u8 = 2;
/// Line status register
pub const LSR: u8 = 5;
/// Data ready to be read code
pub const LSR_RX_READY: u8 = 1;

/// ASCII escape character, which starts an ANSI control sequence.
pub const ESC: u8 = 0x1B;

/// Decimal digits of `n`, most significant first, in ASCII.
pub open spec fn decimal(n: nat) -> Seq<u8>
    decreases n,
{
    if n < 10 {
        seq![(48 + n) as u8]
    } else {
        decimal(n / 10).push((48 + n % 10) as u8)
    }
}

/// The ANSI sequence `ESC [ row+1 ; col+1 H` that moves the cursor to
/// the zero based position (`row`, `col`).
pub open spec fn move_cursor_bytes(row: nat, col: nat) -> Seq<u8> {
    seq![ESC, 91u8] + decimal(row + 1) + seq![59u8] + decimal(col + 1) + seq![72u8]
}

/// The bytes that erase the character before the cursor:
/// backspace, space, backspace.
pub open spec fn backspace_bytes() -> Seq<u8> {
    seq![8u8, 32u8, 8u8]
}

/// The bytes that clear the screen and move the cursor home:
/// `ESC [ 2 J ESC [ H`.
pub open spec fn clear_bytes() -> Seq<u8> {
    seq![ESC, 91u8, 50u8, 74u8, ESC, 91u8, 72u8]
}

/// `10` to the power `k`.
pub open spec fn ten_pow(k: nat) -> nat
    decreases k,
{
    if k == 0 {
        1
    } else {
        10 * ten_pow((k - 1) as nat)
    }
}

/// A number below `10^k`, `k > 0`, has at most `k` digits.
pub proof fn lemma_decimal_len(n: nat, k: nat)
    requires
        k > 0,
        n < ten_pow(k),
    ensures
        decimal(n).len() <= k,
    decreases k,
{
    if n >= 10 {
        reveal_with_fuel(ten_pow, 2);
        assert(k > 1);
        assert(n / 10 < ten_pow((k - 1) as nat));
        lemma_decimal_len(n / 10, (k - 1) as nat);
    }
}

/// A `usize` has at most 20 digits.
pub proof fn lemma_usize_digits(n: usize)
    ensures
        decimal(n as nat).len() <= 20,
{
    reveal_with_fuel(ten_pow, 21);
    assert(ten_pow(20) == 100_000_000_000_000_000_000);
    lemma_decimal_len(n as nat, 20);
}

/// Append the decimal digits of `n`.
pub(crate) fn push_decimal(out: &mut Vec<u8>, n: usize)
    ensures
        final(out)@ == old(out)@ + decimal(n as nat),
    decreases n,
{
    if n >= 10 {
        push_decimal(out, n / 10);
    }
    let d: u8 = (n % 10) as u8;
    out.push(48 + d);
    proof {
        assert(((48 + n % 10) as u8) == 48 + d);
    }
}

/// UART interrupt handler: the characters read from the receive
/// FIFO (keyboard), in order, are handed to the console. Reading the
/// FIFO is done by the caller. Where one of them completes a line,
/// exactly the processes that were waiting for input become ready and
/// none waits any more; otherwise no process changes.
pub fn uart_intr(console: &mut Console, received: &[u8], table: &mut ProcTable, out: &mut Vec<u8>)
    requires
        old(console).wf(),
        old(table).wf(),
        old(console)@.intr_all_ok(received@),
    ensures
        final(console).wf(),
        final(console)@ == old(console)@.intr_all(received@).0,
        final(out)@ == old(out)@ + old(console)@.intr_all(received@).1,
        final(table).wf(),
        final(table).next_pid == old(table).next_pid,
        final(table).cpus@ == old(table).cpus@,
        old(console)@.intr_all_wakes(received@) ==> {
            &&& final(console).input_cvar.waiting() == Seq::<usize>::empty()
            &&& woken(old(table), final(table), old(console).input_cvar.waiting())
        },
        !old(console)@.intr_all_wakes(received@) ==> {
            &&& final(console).input_cvar == old(console).input_cvar
            &&& *final(table) == *old(table)
        },
{
    let mut k: usize = 0;
    while k < received.len()
        invariant
            k <= received@.len(),
            console.wf(),
            table.wf(),
            table.next_pid == old(table).next_pid,
            table.cpus@ == old(table).cpus@,
            old(console)@.intr_all_ok(received@),
            console@ == old(console)@.intr_all(received@.subrange(0, k as int)).0,
            out@ == old(out)@ + old(console)@.intr_all(received@.subrange(0, k as int)).1,
            old(console)@.intr_all_wakes(received@.subrange(0, k as int)) ==> {
                &&& console.input_cvar.waiting() == Seq::<usize>::empty()
                &&& woken(old(table), table, old(console).input_cvar.waiting())
            },
            !old(console)@.intr_all_wakes(received@.subrange(0, k as int)) ==> {
                &&& console.input_cvar == old(console).input_cvar
                &&& *table == *old(table)
            },
        decreases received@.len() - k,
    {
        let ghost p = received@.subrange(0, k + 1);
        proof {
            assert(p.drop_last() =~= received@.subrange(0, k as int));
            lemma_intr_ok_prefix(old(console)@, received@, k + 1);
        }
        let ghost t0 = *table;
        let ghost q0 = console.input_cvar.waiting();
        console_intr(console, received[k], table, out);
        proof {
            assert(p.last() == received@[k as int]);
            assert(out@ =~= old(out)@ + old(console)@.intr_all(p).1);
            if old(console)@.intr_all_wakes(p.drop_last()) {
                lemma_woken_then_none(old(table), &t0, table, old(console).input_cvar.waiting(), q0);
            }
        }
        k = k + 1;
    }
    proof {
        assert(received@.subrange(0, received@.len() as int) =~= received@);
    }
}

/// A copy of the bytes of `v`.
fn copy_bytes(v: &Vec<u8>) -> (r: Vec<u8>)
    ensures
        r@ == v@,
{
    let mut r: Vec<u8> = Vec::new();
    let mut i: usize = 0;
    while i < v.len()
        invariant
            i <= v@.len(),
            r@ == v@.subrange(0, i as int),
        decreases v@.len() - i,
    {
        r.push(v[i]);
        i = i + 1;
        proof {
            assert(r@ =~= v@.subrange(0, i as int));
        }
    }
    proof {
        assert(v@.subrange(0, v@.len() as int) =~= v@);
    }
    r
}

/// Whether the console can take `chr` within its bounds.
fn intr_fits(c: &Console, chr: u8) -> (r: bool)
    requires
        c.wf(),
    ensures
        r == c@.intr_ok(chr),
{
    let m = &c.monitor;
    let e: usize = c.input.e_offset;
    let w: usize = c.input.w_offset;
    if e == usize::MAX || m.row >= LIMIT || m.col > LIMIT - 8 || m.w_offset >= LIMIT {
        return false;
    }
    if c.canonical && chr == CTRL_U && m.col < e - w {
        return false;
    }
    if c.canonical && chr == CTRL_H && e > w && m.col == 0 {
        return false;
    }
    true
}

/// Whether the characters `received` can be handed to the console one
/// after the other within its bounds, the condition that `uart_intr`
/// needs. The characters are tried on a copy of the console.
pub fn uart_input_fits(console: &Console, received: &[u8]) -> (r: bool)
    requires
        console.wf(),
    ensures
        r == console@.intr_all_ok(received@),
{
    let mut c = Console {
        canonical: console.canonical,
        monitor: Monitor {
            chars: copy_bytes(&console.monitor.chars),
            r_offset: console.monitor.r_offset,
            w_offset: console.monitor.w_offset,
            scroll: console.monitor.scroll,
            row: console.monitor.row,
            col: console.monitor.col,
        },
        input: InputBuffer {
            chars: copy_bytes(&console.input.chars),
            e_offset: console.input.e_offset,
            r_offset: console.input.r_offset,
            w_offset: console.input.w_offset,
        },
        input_cvar: Condvar::new(),
    };
    let mut table = ProcTable::new();
    let mut out: Vec<u8> = Vec::new();
    let mut k: usize = 0;
    while k < received.len()
        invariant
            k <= received@.len(),
            c.wf(),
            table.wf(),
            console@.intr_all_ok(received@.subrange(0, k as int)),
            c@ == console@.intr_all(received@.subrange(0, k as int)).0,
        decreases received@.len() - k,
    {
        let ghost p = received@.subrange(0, k + 1);
        proof {
            assert(p.drop_last() =~= received@.subrange(0, k as int));
        }
        if !intr_fits(&c, received[k]) {
            proof {
                if console@.intr_all_ok(received@) {
                    lemma_intr_ok_prefix(console@, received@, k + 1);
                }
            }
            return false;
        }
        console_intr(&mut c, received[k], &mut table, &mut out);
        k = k + 1;
    }
    proof {
        assert(received@.subrange(0, received@.len() as int) =~= received@);
    }
    true
}

/// Waking the processes of `q` and then those of an empty queue, or
/// no process at all, wakes those of `q`.
proof fn lemma_woken_then_none(o: &ProcTable, m: &ProcTable, n: &ProcTable, q: Seq<usize>, q2: Seq<usize>)
    requires
        woken(o, m, q),
        woken(m, n, q2) && q2 == Seq::<usize>::empty() || *n == *m,
    ensures
        woken(o, n, q),
{
    assert forall|i: int| 0 <= i < o.pcbs@.len() implies {
        &&& (#[trigger] n.pcbs@[i]).state == if q.contains(i as usize) { ProcState::Ready } else { o.pcbs@[i].state }
        &&& same_but_state(n.pcbs@[i], o.pcbs@[i])
    } by {
        if *n != *m {
            assert(!q2.contains(i as usize));
        }
    }
}

/// Each prefix of a sequence that can be handled can be handled.
proof fn lemma_intr_ok_prefix(v: crate::io::console::ConsoleView, s: Seq<u8>, n: int)
    requires
        v.intr_all_ok(s),
        0 <= n <= s.len(),
    ensures
        v.intr_all_ok(s.subrange(0, n)),
    decreases s.len(),
{
    if n < s.len() {
        assert(s.drop_last().subrange(0, n) =~= s.subrange(0, n));
        lemma_intr_ok_prefix(v, s.drop_last(), n);
    } else {
        assert(s.subrange(0, n) =~= s);
    }
}

/// Write an ASCII character to the UART
pub fn uart_putc(chr: u8, out: &mut Vec<u8>)
    ensures
        final(out)@ == old(out)@.push(chr),
{
    out.push(chr);
}

/// Move cursor to the row and col
pub fn uart_move_cursor(row: usize, col: usize, out: &mut Vec<u8>)
    requires
        row < usize::MAX,
        col < usize::MAX,
    ensures
        final(out)@ == old(out)@ + move_cursor_bytes(row as nat, col as nat),
{
    let ghost o = out@;
    out.push(ESC);
    out.push(91);
    push_decimal(out, row + 1);
    out.push(59);
    push_decimal(out, col + 1);
    out.push(72);
    proof {
        assert(out@ =~= o + move_cursor_bytes(row as nat, col as nat));
    }
}

/// Erase a character
pub fn uart_backspace(out: &mut Vec<u8>)
    ensures
        final(out)@ == old(out)@ + backspace_bytes(),
{
    out.push(8);
    out.push(32);
    out.push(8);
    proof {
        assert(out@ =~= old(out)@ + backspace_bytes());
    }
}

/// Clear screen
pub fn uart_clear(out: &mut Vec<u8>)
    ensures
        final(out)@ == old(out)@ + clear_bytes(),
{
    out.push(ESC);
    out.push(91);
    out.push(50);
    out.push(74);
    out.push(ESC);
    out.push(91);
    out.push(72);
    proof {
        assert(out@ =~= old(out)@ + clear_bytes());
    }
}

} // verus!

use polvoss::mmio::uart::{uart_move_cursor, uart_backspace, uart_clear, uart_putc};

#[test]
fn move_cursor_is_one_based_ansi() {
    let mut out: Vec<u8> = Vec::new();
    uart_move_cursor(0, 0, &mut out);
    assert_eq!(out, b"\x1B[1;1H".to_vec());
    out.clear();
    uart_move_cursor(23, 79, &mut out);
    assert_eq!(out, b"\x1B[24;80H".to_vec());
}

#[test]
fn backspace_and_clear_sequences() {
    let mut out: Vec<u8> = Vec::new();
    uart_backspace(&mut out);
    assert_eq!(out, b"\x08 \x08".to_vec());
    out.clear();
    uart_clear(&mut out);
    assert_eq!(out, b"\x1B[2J\x1B[H".to_vec());
    out.clear();
    uart_putc(b'x', &mut out);
    assert_eq!(out, vec![b'x']);
}

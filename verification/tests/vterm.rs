use zedit::render::Color;
use zedit::vterm::VTerm;

#[test]
fn test_new_vterm() {
    let vt = VTerm::new(80, 24);
    assert_eq!(vt.cols(), 80);
    assert_eq!(vt.rows(), 24);
    assert_eq!(vt.cursor_pos(), (0, 0));
    assert_eq!(vt.cells().len(), 80 * 24);
}

#[test]
fn test_printable_char() {
    let mut vt = VTerm::new(80, 24);
    vt.feed(b"A");
    assert_eq!(vt.cells()[0].ch, 'A');
    assert_eq!(vt.cursor_pos(), (0, 1));
}

#[test]
fn test_line_feed() {
    let mut vt = VTerm::new(80, 24);
    // LF doesn't reset column (unlike CR+LF)
    vt.feed(b"A\nB");
    assert_eq!(vt.cursor_pos(), (1, 2));
    assert_eq!(vt.cells()[81].ch, 'B'); // row 1, col 1
}

#[test]
fn test_carriage_return() {
    let mut vt = VTerm::new(80, 24);
    vt.feed(b"ABC\r");
    assert_eq!(vt.cursor_pos(), (0, 0));
}

#[test]
fn test_cursor_movement() {
    let mut vt = VTerm::new(80, 24);
    vt.feed(b"\x1b[5;10H");
    assert_eq!(vt.cursor_pos(), (4, 9));
}

#[test]
fn test_erase_display() {
    let mut vt = VTerm::new(80, 24);
    vt.feed(b"Hello");
    vt.feed(b"\x1b[2J");
    assert_eq!(vt.cells()[0].ch, ' ');
}

#[test]
fn test_sgr_bold() {
    let mut vt = VTerm::new(80, 24);
    vt.feed(b"\x1b[1mX");
    assert!(vt.cells()[0].bold);
}

#[test]
fn test_sgr_color() {
    let mut vt = VTerm::new(80, 24);
    vt.feed(b"\x1b[31mR");
    assert_eq!(vt.cells()[0].fg, Color::Ansi(1));
}

#[test]
fn test_sgr_256color() {
    let mut vt = VTerm::new(80, 24);
    vt.feed(b"\x1b[38;5;196mR");
    assert_eq!(vt.cells()[0].fg, Color::Color256(196));
}

#[test]
fn test_sgr_rgb() {
    let mut vt = VTerm::new(80, 24);
    vt.feed(b"\x1b[38;2;255;128;0mO");
    assert_eq!(vt.cells()[0].fg, Color::Rgb(255, 128, 0));
}

#[test]
fn test_sgr_reset() {
    let mut vt = VTerm::new(80, 24);
    vt.feed(b"\x1b[1;31mA\x1b[0mB");
    assert!(vt.cells()[0].bold);
    assert!(!vt.cells()[1].bold);
    assert_eq!(vt.cells()[1].fg, Color::Default);
}

#[test]
fn test_alt_screen() {
    let mut vt = VTerm::new(80, 24);
    vt.feed(b"Main");
    vt.feed(b"\x1b[?1049h"); // enter alt
    assert!(vt.alt_active);
    assert_eq!(vt.cells()[0].ch, ' '); // alt screen is blank
    vt.feed(b"Alt");
    vt.feed(b"\x1b[?1049l"); // leave alt
    assert!(!vt.alt_active);
    assert_eq!(vt.cells()[0].ch, 'M'); // main restored
}

#[test]
fn test_scroll_region() {
    let mut vt = VTerm::new(80, 5);
    vt.feed(b"\x1b[2;4r");
    assert_eq!(vt.scroll_top, 1);
    assert_eq!(vt.scroll_bot, 3);
}

#[test]
fn test_dsr_response() {
    let mut vt = VTerm::new(80, 24);
    vt.feed(b"\x1b[3;5H");
    vt.feed(b"\x1b[6n");
    let responses = vt.take_responses();
    assert_eq!(responses.len(), 1);
    assert_eq!(responses[0], b"\x1b[3;5R");
}

#[test]
fn test_erase_line() {
    let mut vt = VTerm::new(10, 1);
    vt.feed(b"ABCDEFGHIJ");
    vt.feed(b"\x1b[1;5H");
    vt.feed(b"\x1b[0K");
    assert_eq!(vt.cells()[0].ch, 'A');
    assert_eq!(vt.cells()[4].ch, ' ');
}

#[test]
fn test_osc_title() {
    let mut vt = VTerm::new(80, 24);
    vt.feed(b"\x1b]0;My Title\x07");
    assert_eq!(vt.title, "My Title");
}

#[test]
fn test_autowrap() {
    let mut vt = VTerm::new(5, 3);
    vt.feed(b"ABCDE");
    assert_eq!(vt.cursor_pos(), (0, 4)); // pending_wrap set
    vt.feed(b"F");
    assert_eq!(vt.cursor_pos(), (1, 1)); // wrapped
    assert_eq!(vt.cells()[5].ch, 'F');
}

#[test]
fn test_resize() {
    let mut vt = VTerm::new(80, 24);
    vt.feed(b"Hello");
    vt.resize(40, 12);
    assert_eq!(vt.cols(), 40);
    assert_eq!(vt.rows(), 12);
    // The top 12 rows went to the scrollback; "Hello" was on row 0.
    assert_eq!(vt.scrollback()[0][0].ch, 'H');
}

#[test]
fn test_backspace() {
    let mut vt = VTerm::new(80, 24);
    vt.feed(b"AB\x08");
    assert_eq!(vt.cursor_pos(), (0, 1));
}

#[test]
fn test_tab() {
    let mut vt = VTerm::new(80, 24);
    vt.feed(b"\t");
    assert_eq!(vt.cursor_pos(), (0, 8));
}

#[test]
fn test_insert_delete_chars() {
    let mut vt = VTerm::new(10, 1);
    vt.feed(b"ABCDE");
    vt.feed(b"\x1b[1;3H");
    vt.feed(b"\x1b[2P");
    assert_eq!(vt.cells()[2].ch, 'E');
    assert_eq!(vt.cells()[3].ch, ' ');
}

#[test]
fn test_cursor_save_restore() {
    let mut vt = VTerm::new(80, 24);
    vt.feed(b"\x1b[5;10H");
    vt.feed(b"\x1b7");
    vt.feed(b"\x1b[1;1H");
    vt.feed(b"\x1b8");
    assert_eq!(vt.cursor_pos(), (4, 9));
}

// ---------------------------------------------------------------------------

#[test]
fn resize_grow_pulls_scrollback_back() {
    let mut vt = VTerm::new(4, 2);
    vt.feed(b"AB\r\nCD\r\nEF");
    // "AB" scrolled off into the scrollback.
    assert_eq!(vt.scrollback().len(), 1);
    vt.resize(4, 3);
    assert_eq!(vt.scrollback().len(), 0);
    assert_eq!(vt.cells()[0].ch, 'A');
    assert_eq!(vt.cells()[4].ch, 'C');
    assert_eq!(vt.cells()[8].ch, 'E');
    assert_eq!(vt.cursor_pos(), (2, 2));
}

#[test]
fn resize_same_height_cuts_columns() {
    let mut vt = VTerm::new(4, 1);
    vt.feed(b"WXYZ");
    vt.resize(2, 1);
    assert_eq!(vt.cells().len(), 2);
    assert_eq!(vt.cells()[0].ch, 'W');
    assert_eq!(vt.cells()[1].ch, 'X');
    assert_eq!(vt.cursor_pos(), (0, 1));
}

#[test]
fn selection_text_joins_rows_and_trims() {
    let mut vt = VTerm::new(6, 2);
    vt.feed(b"ab  \r\ncdef");
    vt.set_sel_anchor(1, 1);
    vt.set_sel_active(0, 0);
    assert_eq!(vt.sel_range(), Some(((0, 0), (1, 1))));
    let t = vt.selection_text(2, 6);
    assert_eq!(t, Some("ab\ncd".to_string()));
}

#[test]
fn selection_text_blank_is_none() {
    let mut vt = VTerm::new(6, 2);
    vt.set_sel_anchor(0, 0);
    vt.set_sel_active(1, 3);
    assert_eq!(vt.selection_text(2, 6), None);
    vt.clear_selection();
    assert!(!vt.has_selection());
    assert_eq!(vt.selection_text(2, 6), None);
}

#[test]
fn selection_cell_membership() {
    let mut vt = VTerm::new(10, 3);
    vt.set_sel_anchor(0, 5);
    vt.set_sel_active(2, 2);
    assert!(vt.is_cell_selected(0, 5));
    assert!(!vt.is_cell_selected(0, 4));
    assert!(vt.is_cell_selected(1, 0));
    assert!(vt.is_cell_selected(2, 2));
    assert!(!vt.is_cell_selected(2, 3));
}

#[test]
fn scroll_view_is_bounded_by_scrollback() {
    let mut vt = VTerm::new(4, 1);
    vt.feed(b"a\r\nb\r\nc");
    assert_eq!(vt.scrollback().len(), 2);
    vt.scroll_view(-10);
    assert_eq!(vt.scroll_offset(), 2);
    vt.scroll_view(1);
    assert_eq!(vt.scroll_offset(), 1);
    vt.scroll_view(5);
    assert_eq!(vt.scroll_offset(), 0);
}

#[test]
fn decset_hides_cursor() {
    let mut vt = VTerm::new(10, 2);
    assert!(vt.cursor_visible());
    vt.feed(b"\x1b[?25l");
    assert!(!vt.cursor_visible());
    vt.feed(b"\x1b[?25h");
    assert!(vt.cursor_visible());
}

#[test]
fn utf8_multibyte_char() {
    let mut vt = VTerm::new(10, 2);
    vt.feed("é".as_bytes());
    assert_eq!(vt.cells()[0].ch, 'é');
    assert_eq!(vt.cursor_pos(), (0, 1));
}

#[test]
fn feed_checked_processes_ordinary_output() {
    let mut vt = VTerm::new(80, 24);
    let data = b"ab\x1b[5Ccd\ttab";
    assert_eq!(vt.feed_checked(data), data.len());
    let mut other = VTerm::new(80, 24);
    other.feed(data);
    assert_eq!(vt.cursor_pos(), other.cursor_pos());
}

#[test]
fn feed_checked_stops_before_cursor_overflow() {
    let mut vt = VTerm::new(80, 24);
    // From row 1, moving down 65535 rows would leave u16.
    let data = b"\x1b[2;1H\x1b[65535B";
    let n = vt.feed_checked(data);
    assert_eq!(n, data.len() - 1);
    assert!(!vt.step_allowed(b'B'));
    assert!(vt.step_allowed(b'C'));
}

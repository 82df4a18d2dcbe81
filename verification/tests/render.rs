use zedit::bytes::write_usize;
use zedit::render::{effective_color, rgb_to_ansi256, Cell, Color, Screen};
use zedit::terminal::ColorMode;

fn no16(_r: u8, _g: u8, _b: u8) -> u8 {
    0
}

#[test]
fn new_screen_dimensions() {
    let s = Screen::new(80, 24);
    assert_eq!(s.width(), 80);
    assert_eq!(s.height(), 24);
    assert_eq!(s.cells.len(), 80 * 24);
}

#[test]
fn new_screen_default_cells() {
    let s = Screen::new(3, 2);
    for cell in &s.cells {
        assert_eq!(*cell, Cell::default());
    }
}

#[test]
fn put_char_populates_cell() {
    let mut s = Screen::new(10, 5);
    s.put_char(2, 3, 'A', Color::Rgb(255, 0, 0), Color::Default, true);
    assert_eq!(s.cell_at(2, 3).ch, 'A');
    assert_eq!(s.cell_at(2, 3).fg, Color::Rgb(255, 0, 0));
    assert_eq!(s.cell_at(2, 3).bold, true);
}

#[test]
fn put_char_out_of_bounds() {
    let mut s = Screen::new(5, 5);
    s.put_char(10, 10, 'X', Color::Default, Color::Default, false);
}

#[test]
fn put_str_populates_cells() {
    let mut s = Screen::new(10, 5);
    s.put_str(0, 0, "Hi!", Color::Default, Color::Default, false);
    assert_eq!(s.cell_at(0, 0).ch, 'H');
    assert_eq!(s.cell_at(0, 1).ch, 'i');
    assert_eq!(s.cell_at(0, 2).ch, '!');
    assert_eq!(s.cell_at(0, 3).ch, ' ');
}

#[test]
fn put_str_truncates_at_edge() {
    let mut s = Screen::new(5, 1);
    s.put_str(0, 3, "Hello", Color::Default, Color::Default, false);
    assert_eq!(s.cell_at(0, 3).ch, 'H');
    assert_eq!(s.cell_at(0, 4).ch, 'e');
}

#[test]
fn put_str_row_out_of_bounds() {
    let mut s = Screen::new(5, 2);
    s.put_str(5, 0, "nope", Color::Default, Color::Default, false);
}

#[test]
fn clear_resets_cells() {
    let mut s = Screen::new(5, 3);
    s.put_char(1, 2, 'Z', Color::Ansi(1), Color::Ansi(2), true);
    s.clear();
    assert_eq!(*s.cell_at(1, 2), Cell::default());
}

#[test]
fn resize_changes_dimensions() {
    let mut s = Screen::new(10, 5);
    s.resize(20, 10);
    assert_eq!(s.width(), 20);
    assert_eq!(s.height(), 10);
    assert_eq!(s.cells.len(), 20 * 10);
}

#[test]
fn unchanged_screen_empty_diff() {
    let mut s = Screen::new(5, 3);
    let first = s.build_diff_output(&ColorMode::TrueColor, &no16);
    assert!(!first.is_empty());

    s.first_frame = false;
    std::mem::swap(&mut s.cells, &mut s.prev_cells);
    s.clear();

    let second = s.build_diff_output(&ColorMode::TrueColor, &no16);
    assert!(second.is_empty());
}

#[test]
fn rgb_to_ansi256_black() {
    assert_eq!(rgb_to_ansi256(0, 0, 0), 16);
}

#[test]
fn rgb_to_ansi256_white() {
    assert_eq!(rgb_to_ansi256(255, 255, 255), 231);
}

#[test]
fn rgb_to_ansi256_gray() {
    let idx = rgb_to_ansi256(128, 128, 128);
    assert!((232..=255).contains(&idx));
}

#[test]
fn rgb_to_ansi256_red() {
    let idx = rgb_to_ansi256(255, 0, 0);
    assert_eq!(idx, 196);
}

#[test]
fn cell_default_equality() {
    let a = Cell::default();
    let b = Cell {
        ch: ' ',
        fg: Color::Default,
        bg: Color::Default,
        bold: false,
        underline: false,
        inverse: false,
        italic: false,
        wide_cont: false,
    };
    assert_eq!(a, b);
}

#[test]
fn color_downgrade_rgb_to_256() {
    let c = effective_color(Color::Rgb(255, 0, 0), &ColorMode::Color256, &no16);
    assert_eq!(c, Color::Color256(196));
}

#[test]
fn color_no_downgrade_in_truecolor() {
    let c = effective_color(Color::Rgb(42, 100, 200), &ColorMode::TrueColor, &no16);
    assert_eq!(c, Color::Rgb(42, 100, 200));
}

#[test]
fn write_usize_zero() {
    let mut buf = Vec::new();
    write_usize(&mut buf, 0);
    assert_eq!(buf, b"0");
}

#[test]
fn write_usize_multidigit() {
    let mut buf = Vec::new();
    write_usize(&mut buf, 123);
    assert_eq!(buf, b"123");
}

#[test]
fn double_buffer_swap_no_alloc() {
    let mut s = Screen::new(10, 5);
    s.put_char(0, 0, 'X', Color::Default, Color::Default, false);
    s.first_frame = false;
    let ptr_before = s.prev_cells.as_ptr();
    std::mem::swap(&mut s.cells, &mut s.prev_cells);
    let ptr_after = s.cells.as_ptr();
    assert_eq!(ptr_before, ptr_after);
}

#[test]
fn flat_grid_indexing() {
    let mut s = Screen::new(10, 5);
    s.put_char(3, 7, 'Q', Color::Ansi(1), Color::Default, false);
    assert_eq!(s.cells[37].ch, 'Q');
    assert_eq!(s.cell_at(3, 7).ch, 'Q');
}

// --- further cases ---

#[test]
fn color_downgrade_uses_quantizer_in_16_colors() {
    let c = effective_color(Color::Rgb(1, 2, 3), &ColorMode::Color16, &|_r: u8, _g: u8, _b: u8| 9u8);
    assert_eq!(c, Color::Ansi(9));
    let d = effective_color(Color::Color256(196), &ColorMode::Color16, &|r: u8, _g: u8, _b: u8| r / 100);
    assert_eq!(d, Color::Ansi(2));
}

#[test]
fn diff_output_exact_bytes_for_one_cell() {
    let mut s = Screen::new(1, 1);
    s.put_char(0, 0, 'A', Color::Ansi(1), Color::Default, true);
    let out = s.build_diff_output(&ColorMode::TrueColor, &no16);
    assert_eq!(out, b"\x1b[1;1H\x1b[1m\x1b[31mA\x1b[0m".to_vec());
}

#[test]
fn flush_swaps_and_clears() {
    let mut s = Screen::new(2, 1);
    s.put_char(0, 1, 'z', Color::Default, Color::Default, false);
    let out = s.flush(&ColorMode::TrueColor, &no16);
    assert!(!out.is_empty());
    assert!(!s.first_frame);
    assert_eq!(s.prev_cells[1].ch, 'z');
    assert_eq!(s.cells[1], Cell::default());
    // identical second frame: only the cell that went back to blank changes
    s.put_char(0, 1, 'z', Color::Default, Color::Default, false);
    assert!(s.flush(&ColorMode::TrueColor, &no16).is_empty());
}

#[test]
fn wide_char_takes_two_cells() {
    let mut s = Screen::new(4, 1);
    s.put_char(0, 1, '中', Color::Default, Color::Default, false);
    assert_eq!(s.cell_at(0, 1).ch, '中');
    assert!(s.cell_at(0, 2).wide_cont);
    s.put_char(0, 3, '中', Color::Default, Color::Default, false);
    assert_eq!(s.cell_at(0, 3).ch, ' ');
}

#[test]
fn gray_ramp_and_cube() {
    assert_eq!(rgb_to_ansi256(128, 128, 128), 244);
    assert_eq!(rgb_to_ansi256(0, 95, 255), 16 + 6 + 5);
}

#[test]
fn rgb_to_ansi256_gray_248_is_last_ramp_entry() {
    assert_eq!(rgb_to_ansi256(248, 248, 248), 255);
    assert_eq!(rgb_to_ansi256(247, 247, 247), 255);
    assert_eq!(rgb_to_ansi256(249, 249, 249), 231);
}

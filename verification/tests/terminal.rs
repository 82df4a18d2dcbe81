use zedit::terminal::{
    color_mode_from, disable_bracketed_paste, disable_keyboard_enhancements, disable_mouse, enable_bracketed_paste,
    enable_keyboard_enhancements, enable_mouse, hide_cursor, move_cursor, set_title, show_cursor, ColorMode, Terminal,
};

#[test]
fn sequences() {
    assert_eq!(set_title("T"), b"\x1b]0;T\x07".to_vec());
    assert_eq!(enable_keyboard_enhancements(), b"\x1b[>4;1m\x1b[>1u".to_vec());
    assert_eq!(disable_keyboard_enhancements(), b"\x1b[>4;0m\x1b[<u".to_vec());
    assert_eq!(enable_mouse(), b"\x1b[?1000h\x1b[?1002h\x1b[?1006h".to_vec());
    assert_eq!(disable_mouse(), b"\x1b[?1006l\x1b[?1002l\x1b[?1000l".to_vec());
    assert_eq!(enable_bracketed_paste(), b"\x1b[?2004h".to_vec());
    assert_eq!(disable_bracketed_paste(), b"\x1b[?2004l".to_vec());
    assert_eq!(hide_cursor(), b"\x1b[?25l".to_vec());
    assert_eq!(show_cursor(), b"\x1b[?25h".to_vec());
    assert_eq!(move_cursor(12, 345), b"\x1b[12;345H".to_vec());
}

#[test]
fn color_modes() {
    assert_eq!(color_mode_from(Some("TrueColor"), None), ColorMode::TrueColor);
    assert_eq!(color_mode_from(Some("24bit"), Some("xterm")), ColorMode::TrueColor);
    assert_eq!(color_mode_from(Some("yes"), Some("xterm-256color")), ColorMode::Color256);
    assert_eq!(color_mode_from(None, Some("xterm")), ColorMode::Color16);
    assert_eq!(color_mode_from(None, None), ColorMode::Color16);
}

#[test]
fn size_cache() {
    let mut t = Terminal { width: 80, height: 24 };
    assert_eq!(t.size(Some((100, 30))), (100, 30));
    assert_eq!(t.size(Some((0, 50))), (100, 30));
    assert_eq!(t.size(None), (100, 30));
    assert!(!t.check_resize(false, Some((1, 1))));
    assert_eq!((t.width, t.height), (100, 30));
    assert!(t.check_resize(true, Some((90, 20))));
    assert_eq!((t.width, t.height), (90, 20));
}

use zedit::unicode::{char_width, str_width};

#[test]
fn ascii_chars_width_1() {
    assert_eq!(char_width('a'), 1);
    assert_eq!(char_width('Z'), 1);
    assert_eq!(char_width(' '), 1);
    assert_eq!(char_width('!'), 1);
}

#[test]
fn multibyte_narrow_chars() {
    assert_eq!(char_width('é'), 1);
    assert_eq!(char_width('ñ'), 1);
    assert_eq!(char_width('ü'), 1);
}

#[test]
fn cjk_ideographs_width_2() {
    assert_eq!(char_width('中'), 2);
    assert_eq!(char_width('文'), 2);
    assert_eq!(char_width('字'), 2);
}

#[test]
fn hangul_syllables_width_2() {
    assert_eq!(char_width('한'), 2);
    assert_eq!(char_width('글'), 2);
}

#[test]
fn japanese_kana_width_2() {
    assert_eq!(char_width('あ'), 2);
    assert_eq!(char_width('カ'), 2);
}

#[test]
fn fullwidth_forms_width_2() {
    assert_eq!(char_width('\u{FF01}'), 2);
    assert_eq!(char_width('\u{FF21}'), 2);
}

#[test]
fn zero_width_chars() {
    assert_eq!(char_width('\u{200B}'), 0);
    assert_eq!(char_width('\u{200D}'), 0);
    assert_eq!(char_width('\u{FEFF}'), 0);
    assert_eq!(char_width('\u{0300}'), 0);
}

#[test]
fn str_width_ascii() {
    assert_eq!(str_width("hello"), 5);
}

#[test]
fn str_width_cjk() {
    assert_eq!(str_width("你好"), 4);
    assert_eq!(str_width("你好世界"), 8);
}

#[test]
fn str_width_mixed() {
    assert_eq!(str_width("hi你好"), 6);
}

#[test]
fn str_width_empty() {
    assert_eq!(str_width(""), 0);
}

#[test]
fn str_width_with_combining() {
    assert_eq!(str_width("e\u{0301}"), 1);
}

#[test]
fn gap_between_cjk_blocks_is_narrow() {
    assert_eq!(char_width('\u{2FE5}'), 1);
    assert_eq!(char_width('\u{2FF0}'), 2);
}

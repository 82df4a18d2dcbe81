//! Terminal control sequences, the cached terminal size and the color
//! capability of the output terminal.
//!
//! The functions here build the escape sequences; writing them to the
//! terminal, and asking the terminal for its size, is the caller's business.
use vstd::prelude::*;
use crate::bytes::{decimal, push_all, write_usize};
use crate::text::{chars_eq_str, chars_of, str_to_lowercase, to_lower};

verus! {

/// Color capability of the output terminal.
#[derive(Debug, Clone, Copy, PartialEq, Eq, Structural)]
pub enum ColorMode {
    TrueColor,
    Color256,
    Color16,
}

/// `$COLORTERM` of "truecolor" or "24bit" (any case) means true color;
/// otherwise a `$TERM` naming "256color" means 256 colors; otherwise 16.
pub open spec fn spec_color_mode(colorterm: Option<Seq<char>>, term: Option<Seq<char>>) -> ColorMode {
    if colorterm matches Some(c) && (to_lower(c) == "truecolor"@ || to_lower(c) == "24bit"@) {
        ColorMode::TrueColor
    } else if term matches Some(t) && crate::strs::contains_str(to_lower(t), "256color"@) {
        ColorMode::Color256
    } else {
        ColorMode::Color16
    }
}

pub open spec fn opt_view(o: Option<&str>) -> Option<Seq<char>> {
    match o {
        Some(s) => Some(s@),
        None => None,
    }
}

/// The color mode from the values of `$COLORTERM` and `$TERM` (None when
/// unset).
pub fn color_mode_from(colorterm: Option<&str>, term: Option<&str>) -> (m: ColorMode)
    ensures
        m == spec_color_mode(opt_view(colorterm), opt_view(term)),
{
    if let Some(c) = colorterm {
        let l = chars_of(str_to_lowercase(c).as_str());
        if chars_eq_str(&l, "truecolor") || chars_eq_str(&l, "24bit") {
            return ColorMode::TrueColor;
        }
    }
    if let Some(t) = term {
        let l = chars_of(str_to_lowercase(t).as_str());
        proof {
            crate::strs::lemma_find_contains(l@, "256color"@);
        }
        if crate::strs::find_str(&l, "256color").is_some() {
            return ColorMode::Color256;
        }
    }
    ColorMode::Color16
}

/// The bytes of a string.
pub fn str_bytes(s: &str) -> (v: Vec<u8>)
    ensures
        v@ == vstd::utf8::encode_utf8(s@),
{
    let mut v: Vec<u8> = Vec::new();
    push_all(&mut v, s.as_bytes());
    v
}

/// OSC 0 with the title, ended by BEL: sets the window and icon title.
pub fn set_title(title: &str) -> (v: Vec<u8>)
    ensures
        v@ == seq![0x1bu8, 0x5d, 0x30, 0x3b] + vstd::utf8::encode_utf8(title@) + seq![0x07u8],
{
    let mut v: Vec<u8> = Vec::new();
    v.push(0x1b);
    v.push(0x5d);
    v.push(0x30);
    v.push(0x3b);
    push_all(&mut v, title.as_bytes());
    v.push(0x07);
    assert(v@ =~= seq![0x1bu8, 0x5d, 0x30, 0x3b] + vstd::utf8::encode_utf8(title@) + seq![0x07u8]);
    v
}

/// xterm modifyOtherKeys=1 (`ESC [>4;1m`), then kitty keyboard protocol
/// level 1 pushed (`ESC [>1u`).
pub fn enable_keyboard_enhancements() -> (v: Vec<u8>)
    ensures
        v@ == vstd::utf8::encode_utf8("\x1b[>4;1m"@) + vstd::utf8::encode_utf8("\x1b[>1u"@),
{
    let mut v = str_bytes("\x1b[>4;1m");
    push_all(&mut v, "\x1b[>1u".as_bytes());
    v
}

/// modifyOtherKeys reset (`ESC [>4;0m`), then the kitty level popped
/// (`ESC [<u`).
pub fn disable_keyboard_enhancements() -> (v: Vec<u8>)
    ensures
        v@ == vstd::utf8::encode_utf8("\x1b[>4;0m"@) + vstd::utf8::encode_utf8("\x1b[<u"@),
{
    let mut v = str_bytes("\x1b[>4;0m");
    push_all(&mut v, "\x1b[<u".as_bytes());
    v
}

/// Click reporting, button-event tracking and SGR mouse format.
pub fn enable_mouse() -> (v: Vec<u8>)
    ensures
        v@ == vstd::utf8::encode_utf8("\x1b[?1000h\x1b[?1002h\x1b[?1006h"@),
{
    str_bytes("\x1b[?1000h\x1b[?1002h\x1b[?1006h")
}

pub fn disable_mouse() -> (v: Vec<u8>)
    ensures
        v@ == vstd::utf8::encode_utf8("\x1b[?1006l\x1b[?1002l\x1b[?1000l"@),
{
    str_bytes("\x1b[?1006l\x1b[?1002l\x1b[?1000l")
}

pub fn enable_bracketed_paste() -> (v: Vec<u8>)
    ensures
        v@ == vstd::utf8::encode_utf8("\x1b[?2004h"@),
{
    str_bytes("\x1b[?2004h")
}

pub fn disable_bracketed_paste() -> (v: Vec<u8>)
    ensures
        v@ == vstd::utf8::encode_utf8("\x1b[?2004l"@),
{
    str_bytes("\x1b[?2004l")
}

pub fn hide_cursor() -> (v: Vec<u8>)
    ensures
        v@ == vstd::utf8::encode_utf8("\x1b[?25l"@),
{
    str_bytes("\x1b[?25l")
}

pub fn show_cursor() -> (v: Vec<u8>)
    ensures
        v@ == vstd::utf8::encode_utf8("\x1b[?25h"@),
{
    str_bytes("\x1b[?25h")
}

/// CUP to (row, col), written as given (1-based by the terminal's reading).
pub fn move_cursor(row: u16, col: u16) -> (v: Vec<u8>)
    ensures
        v@ == seq![0x1bu8, 0x5b] + decimal(row as nat) + seq![0x3bu8] + decimal(col as nat) + seq![0x48u8],
{
    let mut v: Vec<u8> = Vec::new();
    v.push(0x1b);
    v.push(0x5b);
    write_usize(&mut v, row as usize);
    v.push(0x3b);
    write_usize(&mut v, col as usize);
    v.push(0x48);
    assert(v@ =~= seq![0x1bu8, 0x5b] + decimal(row as nat) + seq![0x3bu8] + decimal(col as nat) + seq![0x48u8]);
    v
}

/// The terminal's size as last known.
pub struct Terminal {
    pub width: u16,
    pub height: u16,
}

/// A size query's answer: columns and rows, unless the query failed or
/// reported no columns.
pub open spec fn usable_size(q: Option<(u16, u16)>) -> Option<(u16, u16)> {
    match q {
        Some((c, r)) => if c == 0 {
            None
        } else {
            Some((c, r))
        },
        None => None,
    }
}

impl Terminal {
    /// The current size as (width, height): the answer of the size query
    /// (`winsize`: columns and rows, None when the query failed) when it is
    /// usable, else the size known before.
    pub fn size(&mut self, winsize: Option<(u16, u16)>) -> (r: (u16, u16))
        ensures
            r == (final(self).width, final(self).height),
            (final(self).width, final(self).height) == match usable_size(winsize) {
                Some(s) => s,
                None => (old(self).width, old(self).height),
            },
    {
        match winsize {
            Some((c, r)) => {
                if c != 0 {
                    self.width = c;
                    self.height = r;
                }
            },
            None => {},
        }
        (self.width, self.height)
    }

    /// After a resize signal (`resized`), refresh the size from the query's
    /// answer and report true; otherwise nothing changes.
    pub fn check_resize(&mut self, resized: bool, winsize: Option<(u16, u16)>) -> (b: bool)
        ensures
            b == resized,
            (final(self).width, final(self).height) == if resized {
                match usable_size(winsize) {
                    Some(s) => s,
                    None => (old(self).width, old(self).height),
                }
            } else {
                (old(self).width, old(self).height)
            },
    {
        if resized {
            self.size(winsize);
            true
        } else {
            false
        }
    }
}

} // verus!

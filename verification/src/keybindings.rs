//! Key bindings: key strings such as "Ctrl+Shift+S", their display form,
//! and the map from keys to editor actions.
use vstd::prelude::*;
use crate::assoc::{
    keep_pairs, lemma_keep_distinct, lemma_keep_map, lemma_pairs_map_dom, lemma_pairs_map_index, lemma_push_distinct,
    pairs_distinct, pairs_map,
};
use crate::input::{Key, KeyEvent};
use crate::syntax::json_parser::JsonValue;
use crate::text::{
    dec_chars, ascii_lower, ascii_upper, char_ascii_lower, char_ascii_upper, chars_eq_str, chars_of, push_str_chars,
    str_to_lowercase, string_from_chars, to_lower, trim, trim_chars,
};

verus! {

// ---------------------------------------------------------------------------
// EditorAction — every bindable action
// ---------------------------------------------------------------------------

#[derive(Clone, Copy, Debug, PartialEq, Eq, Hash, Structural)]
pub enum EditorAction {
    Save,
    SaveAs,
    OpenFile,
    Quit,
    NewBuffer,
    CloseBuffer,
    Undo,
    Redo,
    DuplicateLine,
    DeleteLine,
    ToggleComment,
    Unindent,
    Copy,
    Cut,
    Paste,
    SelectAll,
    SelectLine,
    SelectNextOccurrence,
    SelectAllOccurrences,
    Find,
    Replace,
    FindNext,
    FindPrev,
    GoToLine,
    NextBuffer,
    PrevBuffer,
    SplitHorizontal,
    SplitVertical,
    ClosePane,
    FocusLeft,
    FocusRight,
    FocusUp,
    FocusDown,
    ResizePaneLeft,
    ResizePaneRight,
    ResizePaneUp,
    ResizePaneDown,
    ToggleHelp,
    ToggleWrap,
    ToggleFileTree,
    FocusFileTree,
    CommandPalette,
    ToggleTerminal,
    NewTerminal,
    LspComplete,
    LspHover,
    LspGoToDef,
    DiffOpenVsHead,
    DiffNextHunk,
    DiffPrevHunk,
    ToggleMinimap,
    TaskRun,
    TaskBuild,
    TaskTest,
    TaskStop,
}

// ---------------------------------------------------------------------------
// NormalizedKey + KeyBinding
// ---------------------------------------------------------------------------

#[derive(Clone, Copy, Debug, PartialEq, Eq, Hash, Structural)]
pub enum NormalizedKey {
    Char(char),
    Enter,
    Tab,
    BackTab,
    Backspace,
    Delete,
    Escape,
    Up,
    Down,
    Left,
    Right,
    Home,
    End,
    PageUp,
    PageDown,
    F(u8),
}

#[derive(Clone, Copy, Debug, PartialEq, Eq, Hash, Structural)]
pub struct KeyBinding {
    pub key: NormalizedKey,
    pub ctrl: bool,
    pub alt: bool,
    pub shift: bool,
}

/// The binding a key event looks up: the key as it came (terminals fold
/// Shift into the case of a letter), with Shift implied by BackTab.
pub open spec fn spec_from_key_event(ke: KeyEvent) -> KeyBinding {
    let (key, shift) = match ke.key {
        Key::Char(ch) => (NormalizedKey::Char(ch), ke.shift),
        Key::Enter => (NormalizedKey::Enter, ke.shift),
        Key::Tab => (NormalizedKey::Tab, ke.shift),
        Key::BackTab => (NormalizedKey::BackTab, true),
        Key::Backspace => (NormalizedKey::Backspace, ke.shift),
        Key::Delete => (NormalizedKey::Delete, ke.shift),
        Key::Escape => (NormalizedKey::Escape, ke.shift),
        Key::Up => (NormalizedKey::Up, ke.shift),
        Key::Down => (NormalizedKey::Down, ke.shift),
        Key::Left => (NormalizedKey::Left, ke.shift),
        Key::Right => (NormalizedKey::Right, ke.shift),
        Key::Home => (NormalizedKey::Home, ke.shift),
        Key::End => (NormalizedKey::End, ke.shift),
        Key::PageUp => (NormalizedKey::PageUp, ke.shift),
        Key::PageDown => (NormalizedKey::PageDown, ke.shift),
        Key::F(n) => (NormalizedKey::F(n), ke.shift),
    };
    KeyBinding { key, ctrl: ke.ctrl, alt: ke.alt, shift }
}

pub open spec fn is_ascii_upper(c: char) -> bool {
    'A' <= c <= 'Z'
}

pub open spec fn is_ascii_alpha(c: char) -> bool {
    ('A' <= c <= 'Z') || ('a' <= c <= 'z')
}

/// The name shown for a key.
pub open spec fn key_label(k: NormalizedKey) -> Seq<char> {
    match k {
        NormalizedKey::Char(ch) => seq![ascii_upper(ch)],
        NormalizedKey::Enter => "Enter"@,
        NormalizedKey::Tab => "Tab"@,
        NormalizedKey::BackTab => "Tab"@,
        NormalizedKey::Backspace => "Backspace"@,
        NormalizedKey::Delete => "Delete"@,
        NormalizedKey::Escape => "Escape"@,
        NormalizedKey::Up => "Up"@,
        NormalizedKey::Down => "Down"@,
        NormalizedKey::Left => "Left"@,
        NormalizedKey::Right => "Right"@,
        NormalizedKey::Home => "Home"@,
        NormalizedKey::End => "End"@,
        NormalizedKey::PageUp => "PgUp"@,
        NormalizedKey::PageDown => "PgDn"@,
        NormalizedKey::F(n) => seq!['F'] + dec_chars(n as nat),
    }
}

/// "Ctrl+", "Alt+" and "Shift+" for the modifiers that are held.
pub open spec fn modifier_prefix(ctrl: bool, alt: bool, shift: bool) -> Seq<char> {
    (if ctrl {
        "Ctrl+"@
    } else {
        Seq::empty()
    }) + (if alt {
        "Alt+"@
    } else {
        Seq::empty()
    }) + (if shift {
        "Shift+"@
    } else {
        Seq::empty()
    })
}

/// The display form: the modifiers, then the key. Ctrl with an uppercase
/// letter shows Shift, which the terminal folded into the letter.
pub open spec fn spec_display(kb: KeyBinding) -> Seq<char> {
    let folded_shift = match kb.key {
        NormalizedKey::Char(ch) => kb.ctrl && is_ascii_upper(ch) && !kb.shift,
        _ => false,
    };
    modifier_prefix(kb.ctrl, kb.alt, kb.shift || folded_shift) + key_label(kb.key)
}

fn push_dec_u8(v: &mut Vec<char>, n: u8)
    ensures
        final(v)@ == old(v)@ + dec_chars(n as nat),
{
    let ghost n0 = n as nat;
    if n >= 100 {
        let a = n / 100;
        let b = (n / 10) % 10;
        let c = n % 10;
        v.push(((0x30u8 + a) as char));
        v.push(((0x30u8 + b) as char));
        v.push(((0x30u8 + c) as char));
        assert(dec_chars(n0) =~= dec_chars(n0 / 10).push((0x30 + n0 % 10) as char));
        assert(dec_chars(n0 / 10) =~= dec_chars(n0 / 100).push((0x30 + (n0 / 10) % 10) as char));
        assert(v@ =~= old(v)@ + dec_chars(n0));
    } else if n >= 10 {
        let a = n / 10;
        let c = n % 10;
        v.push(((0x30u8 + a) as char));
        v.push(((0x30u8 + c) as char));
        assert(dec_chars(n0) =~= dec_chars(n0 / 10).push((0x30 + n0 % 10) as char));
        assert(v@ =~= old(v)@ + dec_chars(n0));
    } else {
        v.push(((0x30u8 + n) as char));
        assert(v@ =~= old(v)@ + dec_chars(n0));
    }
}

impl KeyBinding {
    /// Convert a `KeyEvent` to a `KeyBinding` for lookup.
    pub fn from_key_event(ke: &KeyEvent) -> (kb: Self)
        ensures
            kb == spec_from_key_event(*ke),
    {
        let (key, shift) = match ke.key {
            Key::Char(ch) => (NormalizedKey::Char(ch), ke.shift),
            Key::Enter => (NormalizedKey::Enter, ke.shift),
            Key::Tab => (NormalizedKey::Tab, ke.shift),
            Key::BackTab => (NormalizedKey::BackTab, true),
            Key::Backspace => (NormalizedKey::Backspace, ke.shift),
            Key::Delete => (NormalizedKey::Delete, ke.shift),
            Key::Escape => (NormalizedKey::Escape, ke.shift),
            Key::Up => (NormalizedKey::Up, ke.shift),
            Key::Down => (NormalizedKey::Down, ke.shift),
            Key::Left => (NormalizedKey::Left, ke.shift),
            Key::Right => (NormalizedKey::Right, ke.shift),
            Key::Home => (NormalizedKey::Home, ke.shift),
            Key::End => (NormalizedKey::End, ke.shift),
            Key::PageUp => (NormalizedKey::PageUp, ke.shift),
            Key::PageDown => (NormalizedKey::PageDown, ke.shift),
            Key::F(n) => (NormalizedKey::F(n), ke.shift),
        };
        KeyBinding { key, ctrl: ke.ctrl, alt: ke.alt, shift }
    }

    /// Format for display in the palette (e.g. "Ctrl+Shift+S").
    pub fn to_display_string(&self) -> (s: String)
        ensures
            s@ == spec_display(*self),
    {
        let folded_shift = match self.key {
            NormalizedKey::Char(ch) => self.ctrl && 'A' <= ch && ch <= 'Z' && !self.shift,
            _ => false,
        };
        let mut v: Vec<char> = Vec::new();
        if self.ctrl {
            push_str_chars(&mut v, "Ctrl+");
        }
        if self.alt {
            push_str_chars(&mut v, "Alt+");
        }
        if self.shift || folded_shift {
            push_str_chars(&mut v, "Shift+");
        }
        assert(v@ =~= modifier_prefix(self.ctrl, self.alt, self.shift || folded_shift));
        match self.key {
            NormalizedKey::Char(ch) => {
                v.push(char_ascii_upper(ch));
            },
            NormalizedKey::Enter => push_str_chars(&mut v, "Enter"),
            NormalizedKey::Tab => push_str_chars(&mut v, "Tab"),
            NormalizedKey::BackTab => push_str_chars(&mut v, "Tab"),
            NormalizedKey::Backspace => push_str_chars(&mut v, "Backspace"),
            NormalizedKey::Delete => push_str_chars(&mut v, "Delete"),
            NormalizedKey::Escape => push_str_chars(&mut v, "Escape"),
            NormalizedKey::Up => push_str_chars(&mut v, "Up"),
            NormalizedKey::Down => push_str_chars(&mut v, "Down"),
            NormalizedKey::Left => push_str_chars(&mut v, "Left"),
            NormalizedKey::Right => push_str_chars(&mut v, "Right"),
            NormalizedKey::Home => push_str_chars(&mut v, "Home"),
            NormalizedKey::End => push_str_chars(&mut v, "End"),
            NormalizedKey::PageUp => push_str_chars(&mut v, "PgUp"),
            NormalizedKey::PageDown => push_str_chars(&mut v, "PgDn"),
            NormalizedKey::F(n) => {
                v.push('F');
                push_dec_u8(&mut v, n);
            },
        }
        assert(v@ =~= spec_display(*self));
        string_from_chars(v.as_slice())
    }
}

// ---------------------------------------------------------------------------
// Parse key string: "Ctrl+Shift+T" → KeyBinding
// ---------------------------------------------------------------------------

/// The pieces of `s` between the '+' signs (one piece more than there are
/// '+' signs).
pub open spec fn split_plus(s: Seq<char>) -> Seq<Seq<char>>
    decreases s.len(),
{
    if s.len() == 0 {
        seq![Seq::empty()]
    } else {
        let rest = split_plus(s.drop_last());
        if s.last() == '+' {
            rest.push(Seq::empty())
        } else {
            rest.update(rest.len() - 1, rest.last().push(s.last()))
        }
    }
}

proof fn lemma_split_plus_nonempty(s: Seq<char>)
    ensures
        split_plus(s).len() >= 1,
    decreases s.len(),
{
    if s.len() > 0 {
        lemma_split_plus_nonempty(s.drop_last());
    }
}

fn split_on_plus(s: &Vec<char>) -> (parts: Vec<Vec<char>>)
    ensures
        parts@.len() == split_plus(s@).len(),
        forall|i: int| 0 <= i < parts@.len() ==> #[trigger] parts@[i]@ == split_plus(s@)[i],
{
    let mut parts: Vec<Vec<char>> = Vec::new();
    let mut cur: Vec<char> = Vec::new();
    let mut i: usize = 0;
    while i < s.len()
        invariant
            i <= s@.len(),
            parts@.len() + 1 == split_plus(s@.take(i as int)).len(),
            forall|j: int| 0 <= j < parts@.len() ==> #[trigger] parts@[j]@ == split_plus(s@.take(i as int))[j],
            cur@ == split_plus(s@.take(i as int)).last(),
        decreases s@.len() - i,
    {
        proof {
            lemma_split_plus_nonempty(s@.take(i as int));
            assert(s@.take(i + 1).drop_last() =~= s@.take(i as int));
        }
        if s[i] == '+' {
            let ghost p0 = parts@;
            parts.push(cur);
            cur = Vec::new();
        } else {
            cur.push(s[i]);
        }
        i = i + 1;
    }
    assert(s@.take(s@.len() as int) =~= s@);
    parts.push(cur);
    parts
}

/// Modifier names (already lowercased) to the held modifiers
/// (ctrl, alt, shift); `None` if one is not a modifier.
pub open spec fn modifier_flags(mods: Seq<Seq<char>>) -> Option<(bool, bool, bool)>
    decreases mods.len(),
{
    if mods.len() == 0 {
        Some((false, false, false))
    } else {
        match modifier_flags(mods.drop_last()) {
            None => None,
            Some((c, a, s)) => {
                let m = mods.last();
                if m == "ctrl"@ {
                    Some((true, a, s))
                } else if m == "alt"@ {
                    Some((c, true, s))
                } else if m == "shift"@ {
                    Some((c, a, true))
                } else {
                    None
                }
            },
        }
    }
}

/// A key name (already lowercased); Tab with Shift is BackTab.
pub open spec fn named_key(k: Seq<char>, shift: bool) -> Option<NormalizedKey> {
    if k == "enter"@ || k == "return"@ {
        Some(NormalizedKey::Enter)
    } else if k == "tab"@ {
        Some(if shift { NormalizedKey::BackTab } else { NormalizedKey::Tab })
    } else if k == "backspace"@ || k == "bs"@ {
        Some(NormalizedKey::Backspace)
    } else if k == "delete"@ || k == "del"@ {
        Some(NormalizedKey::Delete)
    } else if k == "escape"@ || k == "esc"@ {
        Some(NormalizedKey::Escape)
    } else if k == "up"@ {
        Some(NormalizedKey::Up)
    } else if k == "down"@ {
        Some(NormalizedKey::Down)
    } else if k == "left"@ {
        Some(NormalizedKey::Left)
    } else if k == "right"@ {
        Some(NormalizedKey::Right)
    } else if k == "home"@ {
        Some(NormalizedKey::Home)
    } else if k == "end"@ {
        Some(NormalizedKey::End)
    } else if k == "pageup"@ || k == "pgup"@ {
        Some(NormalizedKey::PageUp)
    } else if k == "pagedown"@ || k == "pgdn"@ {
        Some(NormalizedKey::PageDown)
    } else if k == "f1"@ {
        Some(NormalizedKey::F(1))
    } else if k == "f2"@ {
        Some(NormalizedKey::F(2))
    } else if k == "f3"@ {
        Some(NormalizedKey::F(3))
    } else if k == "f4"@ {
        Some(NormalizedKey::F(4))
    } else if k == "f5"@ {
        Some(NormalizedKey::F(5))
    } else if k == "f6"@ {
        Some(NormalizedKey::F(6))
    } else if k == "f7"@ {
        Some(NormalizedKey::F(7))
    } else if k == "f8"@ {
        Some(NormalizedKey::F(8))
    } else if k == "f9"@ {
        Some(NormalizedKey::F(9))
    } else if k == "f10"@ {
        Some(NormalizedKey::F(10))
    } else if k == "f11"@ {
        Some(NormalizedKey::F(11))
    } else if k == "f12"@ {
        Some(NormalizedKey::F(12))
    } else if k == "backtick"@ || k == "`"@ {
        Some(NormalizedKey::Char('`'))
    } else if k == "backslash"@ || k == "\\"@ {
        Some(NormalizedKey::Char('\\'))
    } else if k == "slash"@ || k == "/"@ {
        Some(NormalizedKey::Char('/'))
    } else if k == "space"@ {
        Some(NormalizedKey::Char(' '))
    } else {
        None
    }
}

/// A binding from its lowercased modifier names, its key part as written
/// and its key part lowercased. A single letter is stored as the terminal
/// sends it: uppercase for Ctrl+Shift (which then drops Shift), lowercase
/// for Ctrl or without Shift, as written otherwise.
pub open spec fn spec_binding_from_parts(
    mods: Seq<Seq<char>>,
    key_part: Seq<char>,
    key_lower: Seq<char>,
) -> Option<KeyBinding> {
    match modifier_flags(mods) {
        None => None,
        Some((ctrl, alt, shift)) => match named_key(key_lower, shift) {
            Some(key) => Some(KeyBinding { key, ctrl, alt, shift }),
            None => if key_part.len() == 1 {
                let ch = key_part[0];
                if ctrl && shift && is_ascii_alpha(ch) {
                    Some(KeyBinding { key: NormalizedKey::Char(ascii_upper(ch)), ctrl, alt, shift: false })
                } else if ctrl && is_ascii_alpha(ch) {
                    Some(KeyBinding { key: NormalizedKey::Char(ascii_lower(ch)), ctrl, alt, shift })
                } else if is_ascii_alpha(ch) && !shift {
                    Some(KeyBinding { key: NormalizedKey::Char(ascii_lower(ch)), ctrl, alt, shift })
                } else {
                    Some(KeyBinding { key: NormalizedKey::Char(ch), ctrl, alt, shift })
                }
            } else {
                None
            },
        },
    }
}

/// `parse_key_string`: trimmed, split at '+', every piece trimmed; all
/// pieces but the last are modifiers, compared lowercased.
pub open spec fn spec_parse_key(s: Seq<char>) -> Option<KeyBinding> {
    let t = trim(s);
    if t.len() == 0 {
        None
    } else {
        let parts = split_plus(t);
        let mods = Seq::new((parts.len() - 1) as nat, |i: int| to_lower(trim(parts[i])));
        let key_part = trim(parts.last());
        spec_binding_from_parts(mods, key_part, to_lower(key_part))
    }
}

fn lowercase_chars(v: &Vec<char>) -> (r: Vec<char>)
    ensures
        r@ == to_lower(v@),
{
    let s = string_from_chars(v.as_slice());
    let l = str_to_lowercase(s.as_str());
    chars_of(l.as_str())
}

fn modifier_flags_exec(mods: &Vec<Vec<char>>) -> (r: Option<(bool, bool, bool)>)
    ensures
        r == modifier_flags(mods@.map_values(|m: Vec<char>| m@)),
{
    let ghost ms = mods@.map_values(|m: Vec<char>| m@);
    let mut ctrl = false;
    let mut alt = false;
    let mut shift = false;
    let mut i: usize = 0;
    while i < mods.len()
        invariant
            i <= mods@.len(),
            ms == mods@.map_values(|m: Vec<char>| m@),
            modifier_flags(ms.take(i as int)) == Some((ctrl, alt, shift)),
        decreases mods@.len() - i,
    {
        assert(ms.take(i + 1).drop_last() =~= ms.take(i as int));
        assert(ms.take(i + 1).last() == mods@[i as int]@);
        let m = &mods[i];
        if chars_eq_str(m, "ctrl") {
            ctrl = true;
        } else if chars_eq_str(m, "alt") {
            alt = true;
        } else if chars_eq_str(m, "shift") {
            shift = true;
        } else {
            proof {
                lemma_flags_none_extends(ms, i as int + 1);
            }
            return None;
        }
        i = i + 1;
    }
    assert(ms.take(mods@.len() as int) =~= ms);
    Some((ctrl, alt, shift))
}

proof fn lemma_flags_none_extends(ms: Seq<Seq<char>>, k: int)
    requires
        0 <= k <= ms.len(),
        modifier_flags(ms.take(k)) is None,
    ensures
        modifier_flags(ms) is None,
    decreases ms.len() - k,
{
    if k < ms.len() {
        assert(ms.take(k + 1).drop_last() =~= ms.take(k));
        lemma_flags_none_extends(ms, k + 1);
    } else {
        assert(ms.take(k) =~= ms);
    }
}

fn named_key_exec(k: &Vec<char>, shift: bool) -> (r: Option<NormalizedKey>)
    ensures
        r == named_key(k@, shift),
{
    if chars_eq_str(k, "enter") || chars_eq_str(k, "return") {
        Some(NormalizedKey::Enter)
    } else if chars_eq_str(k, "tab") {
        Some(if shift { NormalizedKey::BackTab } else { NormalizedKey::Tab })
    } else if chars_eq_str(k, "backspace") || chars_eq_str(k, "bs") {
        Some(NormalizedKey::Backspace)
    } else if chars_eq_str(k, "delete") || chars_eq_str(k, "del") {
        Some(NormalizedKey::Delete)
    } else if chars_eq_str(k, "escape") || chars_eq_str(k, "esc") {
        Some(NormalizedKey::Escape)
    } else if chars_eq_str(k, "up") {
        Some(NormalizedKey::Up)
    } else if chars_eq_str(k, "down") {
        Some(NormalizedKey::Down)
    } else if chars_eq_str(k, "left") {
        Some(NormalizedKey::Left)
    } else if chars_eq_str(k, "right") {
        Some(NormalizedKey::Right)
    } else if chars_eq_str(k, "home") {
        Some(NormalizedKey::Home)
    } else if chars_eq_str(k, "end") {
        Some(NormalizedKey::End)
    } else if chars_eq_str(k, "pageup") || chars_eq_str(k, "pgup") {
        Some(NormalizedKey::PageUp)
    } else if chars_eq_str(k, "pagedown") || chars_eq_str(k, "pgdn") {
        Some(NormalizedKey::PageDown)
    } else if chars_eq_str(k, "f1") {
        Some(NormalizedKey::F(1))
    } else if chars_eq_str(k, "f2") {
        Some(NormalizedKey::F(2))
    } else if chars_eq_str(k, "f3") {
        Some(NormalizedKey::F(3))
    } else if chars_eq_str(k, "f4") {
        Some(NormalizedKey::F(4))
    } else if chars_eq_str(k, "f5") {
        Some(NormalizedKey::F(5))
    } else if chars_eq_str(k, "f6") {
        Some(NormalizedKey::F(6))
    } else if chars_eq_str(k, "f7") {
        Some(NormalizedKey::F(7))
    } else if chars_eq_str(k, "f8") {
        Some(NormalizedKey::F(8))
    } else if chars_eq_str(k, "f9") {
        Some(NormalizedKey::F(9))
    } else if chars_eq_str(k, "f10") {
        Some(NormalizedKey::F(10))
    } else if chars_eq_str(k, "f11") {
        Some(NormalizedKey::F(11))
    } else if chars_eq_str(k, "f12") {
        Some(NormalizedKey::F(12))
    } else if chars_eq_str(k, "backtick") || chars_eq_str(k, "`") {
        Some(NormalizedKey::Char('`'))
    } else if chars_eq_str(k, "backslash") || chars_eq_str(k, "\\") {
        Some(NormalizedKey::Char('\\'))
    } else if chars_eq_str(k, "slash") || chars_eq_str(k, "/") {
        Some(NormalizedKey::Char('/'))
    } else if chars_eq_str(k, "space") {
        Some(NormalizedKey::Char(' '))
    } else {
        None
    }
}

/// A binding from its lowercased modifier names, its key part as written
/// and its key part lowercased.
pub fn binding_from_parts(mods: &Vec<Vec<char>>, key_part: &Vec<char>, key_lower: &Vec<char>) -> (r: Option<
    KeyBinding,
>)
    ensures
        r == spec_binding_from_parts(mods@.map_values(|m: Vec<char>| m@), key_part@, key_lower@),
{
    let (ctrl, alt, shift) = match modifier_flags_exec(mods) {
        Some(f) => f,
        None => return None,
    };
    match named_key_exec(key_lower, shift) {
        Some(key) => Some(KeyBinding { key, ctrl, alt, shift }),
        None => {
            if key_part.len() == 1 {
                let ch = key_part[0];
                let alpha = ('A' <= ch && ch <= 'Z') || ('a' <= ch && ch <= 'z');
                if ctrl && shift && alpha {
                    Some(KeyBinding { key: NormalizedKey::Char(char_ascii_upper(ch)), ctrl, alt, shift: false })
                } else if ctrl && alpha {
                    Some(KeyBinding { key: NormalizedKey::Char(char_ascii_lower(ch)), ctrl, alt, shift })
                } else if alpha && !shift {
                    Some(KeyBinding { key: NormalizedKey::Char(char_ascii_lower(ch)), ctrl, alt, shift })
                } else {
                    Some(KeyBinding { key: NormalizedKey::Char(ch), ctrl, alt, shift })
                }
            } else {
                None
            }
        },
    }
}

/// Parse a human-readable key binding string into a `KeyBinding`.
///
/// Format: `[Ctrl+][Alt+][Shift+]<key>`
/// Key names: single char, Enter, Tab, Backspace, Delete, Escape,
/// Up, Down, Left, Right, Home, End, PgUp, PgDn, PageUp, PageDown,
/// F1-F12, Backtick/`, Backslash/\, Slash//.
pub fn parse_key_string(s: &str) -> (r: Option<KeyBinding>)
    ensures
        r == spec_parse_key(s@),
{
    let all = chars_of(s);
    let t = trim_chars(&all);
    if t.len() == 0 {
        return None;
    }
    let parts = split_on_plus(&t);
    let ghost sp = split_plus(t@);
    proof {
        lemma_split_plus_nonempty(t@);
    }
    let n = parts.len();
    let mut mods: Vec<Vec<char>> = Vec::new();
    let mut i: usize = 0;
    while i + 1 < n
        invariant
            n == parts@.len() == sp.len(),
            n >= 1,
            sp == split_plus(t@),
            forall|j: int| 0 <= j < n ==> #[trigger] parts@[j]@ == sp[j],
            i < n,
            mods@.len() == i,
            forall|j: int| 0 <= j < i ==> #[trigger] mods@[j]@ == to_lower(trim(sp[j])),
        decreases n - i,
    {
        let tp = trim_chars(&parts[i]);
        let lp = lowercase_chars(&tp);
        mods.push(lp);
        i = i + 1;
    }
    let key_part = trim_chars(&parts[n - 1]);
    let key_lower = lowercase_chars(&key_part);
    let r = binding_from_parts(&mods, &key_part, &key_lower);
    proof {
        let want = Seq::new((sp.len() - 1) as nat, |j: int| to_lower(trim(sp[j])));
        assert(mods@.map_values(|m: Vec<char>| m@) =~= want);
        assert(sp.last() == parts@[n - 1]@);
    }
    r
}

// ---------------------------------------------------------------------------
// Action names
// ---------------------------------------------------------------------------

/// The action an override names, by its configuration name.
pub open spec fn spec_action_for_name(n: Seq<char>) -> Option<EditorAction> {
    if n == "save"@ {
        Some(EditorAction::Save)
    } else if n == "save_as"@ {
        Some(EditorAction::SaveAs)
    } else if n == "open_file"@ {
        Some(EditorAction::OpenFile)
    } else if n == "quit"@ {
        Some(EditorAction::Quit)
    } else if n == "new_buffer"@ {
        Some(EditorAction::NewBuffer)
    } else if n == "close_buffer"@ {
        Some(EditorAction::CloseBuffer)
    } else if n == "undo"@ {
        Some(EditorAction::Undo)
    } else if n == "redo"@ {
        Some(EditorAction::Redo)
    } else if n == "duplicate_line"@ {
        Some(EditorAction::DuplicateLine)
    } else if n == "delete_line"@ {
        Some(EditorAction::DeleteLine)
    } else if n == "toggle_comment"@ {
        Some(EditorAction::ToggleComment)
    } else if n == "unindent"@ {
        Some(EditorAction::Unindent)
    } else if n == "copy"@ {
        Some(EditorAction::Copy)
    } else if n == "cut"@ {
        Some(EditorAction::Cut)
    } else if n == "paste"@ {
        Some(EditorAction::Paste)
    } else if n == "select_all"@ {
        Some(EditorAction::SelectAll)
    } else if n == "select_line"@ {
        Some(EditorAction::SelectLine)
    } else if n == "select_next_occurrence"@ {
        Some(EditorAction::SelectNextOccurrence)
    } else if n == "select_all_occurrences"@ {
        Some(EditorAction::SelectAllOccurrences)
    } else if n == "find"@ {
        Some(EditorAction::Find)
    } else if n == "replace"@ {
        Some(EditorAction::Replace)
    } else if n == "find_next"@ {
        Some(EditorAction::FindNext)
    } else if n == "find_prev"@ {
        Some(EditorAction::FindPrev)
    } else if n == "go_to_line"@ {
        Some(EditorAction::GoToLine)
    } else if n == "next_buffer"@ {
        Some(EditorAction::NextBuffer)
    } else if n == "prev_buffer"@ {
        Some(EditorAction::PrevBuffer)
    } else if n == "split_horizontal"@ {
        Some(EditorAction::SplitHorizontal)
    } else if n == "split_vertical"@ {
        Some(EditorAction::SplitVertical)
    } else if n == "close_pane"@ {
        Some(EditorAction::ClosePane)
    } else if n == "focus_left"@ {
        Some(EditorAction::FocusLeft)
    } else if n == "focus_right"@ {
        Some(EditorAction::FocusRight)
    } else if n == "focus_up"@ {
        Some(EditorAction::FocusUp)
    } else if n == "focus_down"@ {
        Some(EditorAction::FocusDown)
    } else if n == "resize_pane_left"@ {
        Some(EditorAction::ResizePaneLeft)
    } else if n == "resize_pane_right"@ {
        Some(EditorAction::ResizePaneRight)
    } else if n == "resize_pane_up"@ {
        Some(EditorAction::ResizePaneUp)
    } else if n == "resize_pane_down"@ {
        Some(EditorAction::ResizePaneDown)
    } else if n == "toggle_help"@ {
        Some(EditorAction::ToggleHelp)
    } else if n == "toggle_wrap"@ {
        Some(EditorAction::ToggleWrap)
    } else if n == "toggle_file_tree"@ {
        Some(EditorAction::ToggleFileTree)
    } else if n == "focus_file_tree"@ {
        Some(EditorAction::FocusFileTree)
    } else if n == "command_palette"@ {
        Some(EditorAction::CommandPalette)
    } else if n == "toggle_terminal"@ {
        Some(EditorAction::ToggleTerminal)
    } else if n == "new_terminal"@ {
        Some(EditorAction::NewTerminal)
    } else if n == "lsp_complete"@ {
        Some(EditorAction::LspComplete)
    } else if n == "lsp_hover"@ {
        Some(EditorAction::LspHover)
    } else if n == "lsp_go_to_def"@ {
        Some(EditorAction::LspGoToDef)
    } else if n == "diff_open_vs_head"@ {
        Some(EditorAction::DiffOpenVsHead)
    } else if n == "diff_next_hunk"@ {
        Some(EditorAction::DiffNextHunk)
    } else if n == "diff_prev_hunk"@ {
        Some(EditorAction::DiffPrevHunk)
    } else if n == "toggle_minimap"@ {
        Some(EditorAction::ToggleMinimap)
    } else if n == "task_run"@ {
        Some(EditorAction::TaskRun)
    } else if n == "task_build"@ {
        Some(EditorAction::TaskBuild)
    } else if n == "task_test"@ {
        Some(EditorAction::TaskTest)
    } else if n == "task_stop"@ {
        Some(EditorAction::TaskStop)
    } else {
        None
    }
}

fn action_name_to_action(n: &Vec<char>) -> (r: Option<EditorAction>)
    ensures
        r == spec_action_for_name(n@),
{
    if chars_eq_str(n, "save") {
        Some(EditorAction::Save)
    } else if chars_eq_str(n, "save_as") {
        Some(EditorAction::SaveAs)
    } else if chars_eq_str(n, "open_file") {
        Some(EditorAction::OpenFile)
    } else if chars_eq_str(n, "quit") {
        Some(EditorAction::Quit)
    } else if chars_eq_str(n, "new_buffer") {
        Some(EditorAction::NewBuffer)
    } else if chars_eq_str(n, "close_buffer") {
        Some(EditorAction::CloseBuffer)
    } else if chars_eq_str(n, "undo") {
        Some(EditorAction::Undo)
    } else if chars_eq_str(n, "redo") {
        Some(EditorAction::Redo)
    } else if chars_eq_str(n, "duplicate_line") {
        Some(EditorAction::DuplicateLine)
    } else if chars_eq_str(n, "delete_line") {
        Some(EditorAction::DeleteLine)
    } else if chars_eq_str(n, "toggle_comment") {
        Some(EditorAction::ToggleComment)
    } else if chars_eq_str(n, "unindent") {
        Some(EditorAction::Unindent)
    } else if chars_eq_str(n, "copy") {
        Some(EditorAction::Copy)
    } else if chars_eq_str(n, "cut") {
        Some(EditorAction::Cut)
    } else if chars_eq_str(n, "paste") {
        Some(EditorAction::Paste)
    } else if chars_eq_str(n, "select_all") {
        Some(EditorAction::SelectAll)
    } else if chars_eq_str(n, "select_line") {
        Some(EditorAction::SelectLine)
    } else if chars_eq_str(n, "select_next_occurrence") {
        Some(EditorAction::SelectNextOccurrence)
    } else if chars_eq_str(n, "select_all_occurrences") {
        Some(EditorAction::SelectAllOccurrences)
    } else if chars_eq_str(n, "find") {
        Some(EditorAction::Find)
    } else if chars_eq_str(n, "replace") {
        Some(EditorAction::Replace)
    } else if chars_eq_str(n, "find_next") {
        Some(EditorAction::FindNext)
    } else if chars_eq_str(n, "find_prev") {
        Some(EditorAction::FindPrev)
    } else if chars_eq_str(n, "go_to_line") {
        Some(EditorAction::GoToLine)
    } else if chars_eq_str(n, "next_buffer") {
        Some(EditorAction::NextBuffer)
    } else if chars_eq_str(n, "prev_buffer") {
        Some(EditorAction::PrevBuffer)
    } else if chars_eq_str(n, "split_horizontal") {
        Some(EditorAction::SplitHorizontal)
    } else if chars_eq_str(n, "split_vertical") {
        Some(EditorAction::SplitVertical)
    } else if chars_eq_str(n, "close_pane") {
        Some(EditorAction::ClosePane)
    } else if chars_eq_str(n, "focus_left") {
        Some(EditorAction::FocusLeft)
    } else if chars_eq_str(n, "focus_right") {
        Some(EditorAction::FocusRight)
    } else if chars_eq_str(n, "focus_up") {
        Some(EditorAction::FocusUp)
    } else if chars_eq_str(n, "focus_down") {
        Some(EditorAction::FocusDown)
    } else if chars_eq_str(n, "resize_pane_left") {
        Some(EditorAction::ResizePaneLeft)
    } else if chars_eq_str(n, "resize_pane_right") {
        Some(EditorAction::ResizePaneRight)
    } else if chars_eq_str(n, "resize_pane_up") {
        Some(EditorAction::ResizePaneUp)
    } else if chars_eq_str(n, "resize_pane_down") {
        Some(EditorAction::ResizePaneDown)
    } else if chars_eq_str(n, "toggle_help") {
        Some(EditorAction::ToggleHelp)
    } else if chars_eq_str(n, "toggle_wrap") {
        Some(EditorAction::ToggleWrap)
    } else if chars_eq_str(n, "toggle_file_tree") {
        Some(EditorAction::ToggleFileTree)
    } else if chars_eq_str(n, "focus_file_tree") {
        Some(EditorAction::FocusFileTree)
    } else if chars_eq_str(n, "command_palette") {
        Some(EditorAction::CommandPalette)
    } else if chars_eq_str(n, "toggle_terminal") {
        Some(EditorAction::ToggleTerminal)
    } else if chars_eq_str(n, "new_terminal") {
        Some(EditorAction::NewTerminal)
    } else if chars_eq_str(n, "lsp_complete") {
        Some(EditorAction::LspComplete)
    } else if chars_eq_str(n, "lsp_hover") {
        Some(EditorAction::LspHover)
    } else if chars_eq_str(n, "lsp_go_to_def") {
        Some(EditorAction::LspGoToDef)
    } else if chars_eq_str(n, "diff_open_vs_head") {
        Some(EditorAction::DiffOpenVsHead)
    } else if chars_eq_str(n, "diff_next_hunk") {
        Some(EditorAction::DiffNextHunk)
    } else if chars_eq_str(n, "diff_prev_hunk") {
        Some(EditorAction::DiffPrevHunk)
    } else if chars_eq_str(n, "toggle_minimap") {
        Some(EditorAction::ToggleMinimap)
    } else if chars_eq_str(n, "task_run") {
        Some(EditorAction::TaskRun)
    } else if chars_eq_str(n, "task_build") {
        Some(EditorAction::TaskBuild)
    } else if chars_eq_str(n, "task_test") {
        Some(EditorAction::TaskTest)
    } else if chars_eq_str(n, "task_stop") {
        Some(EditorAction::TaskStop)
    } else {
        None
    }
}

/// The default bindings, in the order they are added.
pub open spec fn default_table() -> Seq<(&'static str, EditorAction)> {
    seq![
        ("Ctrl+S", EditorAction::Save),
        ("Ctrl+Shift+S", EditorAction::SaveAs),
        ("Ctrl+O", EditorAction::OpenFile),
        ("Ctrl+Q", EditorAction::Quit),
        ("Ctrl+N", EditorAction::NewBuffer),
        ("Ctrl+W", EditorAction::CloseBuffer),
        ("Ctrl+Z", EditorAction::Undo),
        ("Ctrl+Y", EditorAction::Redo),
        ("Ctrl+Shift+D", EditorAction::DuplicateLine),
        ("Ctrl+Shift+K", EditorAction::DeleteLine),
        ("Ctrl+/", EditorAction::ToggleComment),
        ("Shift+Tab", EditorAction::Unindent),
        ("Ctrl+C", EditorAction::Copy),
        ("Ctrl+X", EditorAction::Cut),
        ("Ctrl+V", EditorAction::Paste),
        ("Ctrl+A", EditorAction::SelectAll),
        ("Ctrl+L", EditorAction::SelectLine),
        ("Ctrl+D", EditorAction::SelectNextOccurrence),
        ("Ctrl+Shift+L", EditorAction::SelectAllOccurrences),
        ("Ctrl+F", EditorAction::Find),
        ("Ctrl+H", EditorAction::Replace),
        ("F3", EditorAction::FindNext),
        ("Shift+F3", EditorAction::FindPrev),
        ("Ctrl+G", EditorAction::GoToLine),
        ("Ctrl+PgDn", EditorAction::NextBuffer),
        ("Ctrl+PgUp", EditorAction::PrevBuffer),
        ("Ctrl+\\", EditorAction::SplitHorizontal),
        ("Ctrl+Shift+\\", EditorAction::SplitVertical),
        ("Ctrl+Shift+W", EditorAction::ClosePane),
        ("Alt+Left", EditorAction::FocusLeft),
        ("Alt+Right", EditorAction::FocusRight),
        ("Alt+Up", EditorAction::FocusUp),
        ("Alt+Down", EditorAction::FocusDown),
        ("Alt+Shift+Left", EditorAction::ResizePaneLeft),
        ("Alt+Shift+Right", EditorAction::ResizePaneRight),
        ("Alt+Shift+Up", EditorAction::ResizePaneUp),
        ("Alt+Shift+Down", EditorAction::ResizePaneDown),
        ("F1", EditorAction::ToggleHelp),
        ("Alt+Z", EditorAction::ToggleWrap),
        ("Ctrl+B", EditorAction::ToggleFileTree),
        ("Ctrl+P", EditorAction::CommandPalette),
        ("Ctrl+T", EditorAction::ToggleTerminal),
        ("Ctrl+Shift+T", EditorAction::NewTerminal),
        ("Ctrl+Space", EditorAction::LspComplete),
        ("Alt+K", EditorAction::LspHover),
        ("F12", EditorAction::LspGoToDef),
        ("F7", EditorAction::DiffOpenVsHead),
        ("F8", EditorAction::DiffNextHunk),
        ("Shift+F8", EditorAction::DiffPrevHunk),
        ("Alt+M", EditorAction::ToggleMinimap),
        ("F5", EditorAction::TaskRun),
        ("Ctrl+F5", EditorAction::TaskBuild),
        ("Shift+F5", EditorAction::TaskTest),
        ("Alt+F5", EditorAction::TaskStop),
    ]
}

#[verifier::rlimit(60)]
fn default_table_vec() -> (v: Vec<(&'static str, EditorAction)>)
    ensures
        v@ == default_table(),
{
    let mut v: Vec<(&'static str, EditorAction)> = Vec::new();
    v.push(("Ctrl+S", EditorAction::Save));
    v.push(("Ctrl+Shift+S", EditorAction::SaveAs));
    v.push(("Ctrl+O", EditorAction::OpenFile));
    v.push(("Ctrl+Q", EditorAction::Quit));
    v.push(("Ctrl+N", EditorAction::NewBuffer));
    v.push(("Ctrl+W", EditorAction::CloseBuffer));
    v.push(("Ctrl+Z", EditorAction::Undo));
    v.push(("Ctrl+Y", EditorAction::Redo));
    v.push(("Ctrl+Shift+D", EditorAction::DuplicateLine));
    v.push(("Ctrl+Shift+K", EditorAction::DeleteLine));
    v.push(("Ctrl+/", EditorAction::ToggleComment));
    v.push(("Shift+Tab", EditorAction::Unindent));
    v.push(("Ctrl+C", EditorAction::Copy));
    v.push(("Ctrl+X", EditorAction::Cut));
    v.push(("Ctrl+V", EditorAction::Paste));
    v.push(("Ctrl+A", EditorAction::SelectAll));
    v.push(("Ctrl+L", EditorAction::SelectLine));
    v.push(("Ctrl+D", EditorAction::SelectNextOccurrence));
    v.push(("Ctrl+Shift+L", EditorAction::SelectAllOccurrences));
    v.push(("Ctrl+F", EditorAction::Find));
    v.push(("Ctrl+H", EditorAction::Replace));
    v.push(("F3", EditorAction::FindNext));
    v.push(("Shift+F3", EditorAction::FindPrev));
    v.push(("Ctrl+G", EditorAction::GoToLine));
    v.push(("Ctrl+PgDn", EditorAction::NextBuffer));
    v.push(("Ctrl+PgUp", EditorAction::PrevBuffer));
    v.push(("Ctrl+\\", EditorAction::SplitHorizontal));
    v.push(("Ctrl+Shift+\\", EditorAction::SplitVertical));
    v.push(("Ctrl+Shift+W", EditorAction::ClosePane));
    v.push(("Alt+Left", EditorAction::FocusLeft));
    v.push(("Alt+Right", EditorAction::FocusRight));
    v.push(("Alt+Up", EditorAction::FocusUp));
    v.push(("Alt+Down", EditorAction::FocusDown));
    v.push(("Alt+Shift+Left", EditorAction::ResizePaneLeft));
    v.push(("Alt+Shift+Right", EditorAction::ResizePaneRight));
    v.push(("Alt+Shift+Up", EditorAction::ResizePaneUp));
    v.push(("Alt+Shift+Down", EditorAction::ResizePaneDown));
    v.push(("F1", EditorAction::ToggleHelp));
    v.push(("Alt+Z", EditorAction::ToggleWrap));
    v.push(("Ctrl+B", EditorAction::ToggleFileTree));
    v.push(("Ctrl+P", EditorAction::CommandPalette));
    v.push(("Ctrl+T", EditorAction::ToggleTerminal));
    v.push(("Ctrl+Shift+T", EditorAction::NewTerminal));
    v.push(("Ctrl+Space", EditorAction::LspComplete));
    v.push(("Alt+K", EditorAction::LspHover));
    v.push(("F12", EditorAction::LspGoToDef));
    v.push(("F7", EditorAction::DiffOpenVsHead));
    v.push(("F8", EditorAction::DiffNextHunk));
    v.push(("Shift+F8", EditorAction::DiffPrevHunk));
    v.push(("Alt+M", EditorAction::ToggleMinimap));
    v.push(("F5", EditorAction::TaskRun));
    v.push(("Ctrl+F5", EditorAction::TaskBuild));
    v.push(("Shift+F5", EditorAction::TaskTest));
    v.push(("Alt+F5", EditorAction::TaskStop));
    assert(v@ =~= default_table());
    v
}

// ---------------------------------------------------------------------------
// KeyMap
// ---------------------------------------------------------------------------

/// Key bindings and the label each action shows in the palette. Both are
/// kept as lists of pairs with distinct keys.
pub struct KeyMap {
    bindings: Vec<(KeyBinding, EditorAction)>,
    labels: Vec<(EditorAction, String)>,
}

pub struct KeyMapModel {
    pub bindings: Map<KeyBinding, EditorAction>,
    pub labels: Map<EditorAction, Seq<char>>,
}

pub open spec fn labels_view(v: Seq<(EditorAction, String)>) -> Seq<(EditorAction, Seq<char>)> {
    v.map_values(|p: (EditorAction, String)| (p.0, p.1@))
}

impl View for KeyMap {
    type V = KeyMapModel;

    closed spec fn view(&self) -> KeyMapModel {
        KeyMapModel { bindings: pairs_map(self.bindings@), labels: pairs_map(labels_view(self.labels@)) }
    }
}

/// The map without the keys bound to `a`.
pub open spec fn without_action(m: Map<KeyBinding, EditorAction>, a: EditorAction) -> Map<KeyBinding, EditorAction> {
    Map::new(|k: KeyBinding| m.contains_key(k) && m[k] != a, |k: KeyBinding| m[k])
}

/// One entry of the default table: the key string parsed, bound to the
/// action; the first key of an action gives its label.
pub open spec fn add_default(m: KeyMapModel, key: Seq<char>, a: EditorAction) -> KeyMapModel {
    match spec_parse_key(key) {
        Some(kb) => KeyMapModel {
            labels: if m.labels.contains_key(a) {
                m.labels
            } else {
                m.labels.insert(a, spec_display(kb))
            },
            bindings: m.bindings.insert(kb, a),
        },
        None => m,
    }
}

pub open spec fn build_defaults(t: Seq<(&'static str, EditorAction)>) -> KeyMapModel
    decreases t.len(),
{
    if t.len() == 0 {
        KeyMapModel { bindings: Map::empty(), labels: Map::empty() }
    } else {
        add_default(build_defaults(t.drop_last()), t.last().0@, t.last().1)
    }
}

/// One user override (action name, key string): when both are known, the
/// action loses its old keys and gets the new one and its label.
pub open spec fn apply_override(m: KeyMapModel, name: Seq<char>, key: Seq<char>) -> KeyMapModel {
    match (spec_action_for_name(name), spec_parse_key(key)) {
        (Some(a), Some(kb)) => KeyMapModel {
            bindings: without_action(m.bindings, a).insert(kb, a),
            labels: m.labels.insert(a, spec_display(kb)),
        },
        _ => m,
    }
}

pub open spec fn apply_overrides(m: KeyMapModel, pairs: Seq<(Seq<char>, Seq<char>)>) -> KeyMapModel
    decreases pairs.len(),
{
    if pairs.len() == 0 {
        m
    } else {
        apply_override(apply_overrides(m, pairs.drop_last()), pairs.last().0, pairs.last().1)
    }
}

pub open spec fn overrides_view(v: Seq<(String, String)>) -> Seq<(Seq<char>, Seq<char>)> {
    v.map_values(|p: (String, String)| (p.0@, p.1@))
}

/// The members of an object whose values are strings, as (name, string)
/// pairs in order; members with other values are left out.
pub open spec fn string_members(m: Seq<(String, JsonValue)>) -> Seq<(Seq<char>, Seq<char>)>
    decreases m.len(),
{
    if m.len() == 0 {
        Seq::empty()
    } else {
        string_members(m.drop_last()) + match m.last().1 {
            JsonValue::String(s) => seq![(m.last().0@, s@)],
            _ => Seq::empty(),
        }
    }
}

/// The overrides a configuration value gives: the string members of an
/// object; none for any other value.
pub open spec fn json_overrides(v: JsonValue) -> Seq<(Seq<char>, Seq<char>)> {
    match v {
        JsonValue::Object(o) => string_members(o@),
        _ => Seq::empty(),
    }
}

spec fn key_ne(kb: KeyBinding) -> spec_fn((KeyBinding, EditorAction)) -> bool {
    |p: (KeyBinding, EditorAction)| p.0 != kb
}

spec fn action_ne(a: EditorAction) -> spec_fn((KeyBinding, EditorAction)) -> bool {
    |p: (KeyBinding, EditorAction)| p.1 != a
}

spec fn label_ne(a: EditorAction) -> spec_fn((EditorAction, Seq<char>)) -> bool {
    |p: (EditorAction, Seq<char>)| p.0 != a
}

fn keep_bindings(v: &Vec<(KeyBinding, EditorAction)>, drop_key: Option<KeyBinding>, drop_action: Option<EditorAction>) -> (r: Vec<
    (KeyBinding, EditorAction),
>)
    requires
        drop_key is Some != drop_action is Some,
    ensures
        drop_key matches Some(kb) ==> r@ == keep_pairs(v@, key_ne(kb)),
        drop_action matches Some(a) ==> r@ == keep_pairs(v@, action_ne(a)),
{
    let ghost f = match drop_key {
        Some(kb) => key_ne(kb),
        None => action_ne(drop_action->0),
    };
    let mut r: Vec<(KeyBinding, EditorAction)> = Vec::new();
    let mut i: usize = 0;
    while i < v.len()
        invariant
            i <= v@.len(),
            r@ == keep_pairs(v@.take(i as int), f),
            drop_key is Some != drop_action is Some,
            f == match drop_key {
                Some(kb) => key_ne(kb),
                None => action_ne(drop_action->0),
            },
        decreases v@.len() - i,
    {
        assert(v@.take(i + 1).drop_last() =~= v@.take(i as int));
        let p = v[i];
        let keep = match drop_key {
            Some(kb) => p.0 != kb,
            None => match drop_action {
                Some(a) => p.1 != a,
                None => true,
            },
        };
        if keep {
            r.push(p);
        }
        i = i + 1;
    }
    assert(v@.take(v@.len() as int) =~= v@);
    r
}

fn keep_labels(v: &Vec<(EditorAction, String)>, a: EditorAction) -> (r: Vec<(EditorAction, String)>)
    ensures
        labels_view(r@) == keep_pairs(labels_view(v@), label_ne(a)),
{
    let ghost lv = labels_view(v@);
    let mut r: Vec<(EditorAction, String)> = Vec::new();
    let mut i: usize = 0;
    while i < v.len()
        invariant
            i <= v@.len(),
            lv == labels_view(v@),
            labels_view(r@) == keep_pairs(lv.take(i as int), label_ne(a)),
        decreases v@.len() - i,
    {
        assert(lv.take(i + 1).drop_last() =~= lv.take(i as int));
        if v[i].0 != a {
            let ghost r0 = r@;
            r.push((v[i].0, v[i].1.clone()));
            assert(labels_view(r@) =~= labels_view(r0).push(lv[i as int]));
        }
        i = i + 1;
    }
    assert(lv.take(v@.len() as int) =~= lv);
    r
}

impl KeyMap {
    pub closed spec fn wf(&self) -> bool {
        pairs_distinct(self.bindings@) && pairs_distinct(labels_view(self.labels@))
    }

    fn empty() -> (km: Self)
        ensures
            km.wf(),
            km@ == (KeyMapModel { bindings: Map::empty(), labels: Map::empty() }),
    {
        let km = KeyMap { bindings: Vec::new(), labels: Vec::new() };
        assert(labels_view(km.labels@) =~= Seq::<(EditorAction, Seq<char>)>::empty());
        km
    }

    fn find_binding(&self, kb: &KeyBinding) -> (r: Option<usize>)
        requires
            self.wf(),
        ensures
            match r {
                Some(i) => i < self.bindings@.len() && self@.bindings.contains_key(*kb) && self@.bindings[*kb]
                    == self.bindings@[i as int].1,
                None => !self@.bindings.contains_key(*kb),
            },
    {
        let mut i: usize = 0;
        while i < self.bindings.len()
            invariant
                self.wf(),
                i <= self.bindings@.len(),
                forall|j: int| 0 <= j < i ==> self.bindings@[j].0 != *kb,
            decreases self.bindings@.len() - i,
        {
            if self.bindings[i].0 == *kb {
                proof {
                    lemma_pairs_map_index(self.bindings@, i as int);
                }
                return Some(i);
            }
            i = i + 1;
        }
        proof {
            lemma_pairs_map_dom(self.bindings@, *kb);
        }
        None
    }

    fn find_label(&self, a: EditorAction) -> (r: Option<usize>)
        requires
            self.wf(),
        ensures
            match r {
                Some(i) => i < self.labels@.len() && self@.labels.contains_key(a) && self@.labels[a]
                    == self.labels@[i as int].1@,
                None => !self@.labels.contains_key(a),
            },
    {
        let ghost lv = labels_view(self.labels@);
        let mut i: usize = 0;
        while i < self.labels.len()
            invariant
                self.wf(),
                i <= self.labels@.len(),
                lv == labels_view(self.labels@),
                forall|j: int| 0 <= j < i ==> self.labels@[j].0 != a,
            decreases self.labels@.len() - i,
        {
            if self.labels[i].0 == a {
                proof {
                    lemma_pairs_map_index(lv, i as int);
                }
                return Some(i);
            }
            i = i + 1;
        }
        proof {
            lemma_pairs_map_dom(lv, a);
        }
        None
    }

    /// Bind `kb` to `a`, replacing what `kb` was bound to.
    fn bind(&mut self, kb: KeyBinding, a: EditorAction)
        requires
            old(self).wf(),
        ensures
            final(self).wf(),
            final(self)@ == (KeyMapModel { bindings: old(self)@.bindings.insert(kb, a), ..old(self)@ }),
    {
        let ghost old_b = self.bindings@;
        let mut kept = keep_bindings(&self.bindings, Some(kb), None);
        proof {
            lemma_keep_map(old_b, key_ne(kb));
            lemma_keep_distinct(old_b, key_ne(kb));
        }
        kept.push((kb, a));
        self.bindings = kept;
        proof {
            let k0 = keep_pairs(old_b, key_ne(kb));
            assert(self.bindings@.drop_last() =~= k0);
            lemma_push_distinct(k0, (kb, a));
            assert(pairs_map(self.bindings@) == pairs_map(k0).insert(kb, a));
            assert forall|k: KeyBinding| #[trigger] pairs_map(self.bindings@).contains_key(k) == pairs_map(old_b).insert(kb, a).contains_key(k) by {
                if k != kb {
                    assert(pairs_map(k0).contains_key(k) <==> (pairs_map(old_b).contains_key(k) && key_ne(kb)((k, pairs_map(old_b)[k]))));
                }
            }
            assert forall|k: KeyBinding| #[trigger] pairs_map(self.bindings@).contains_key(k) implies pairs_map(self.bindings@)[k] == pairs_map(old_b).insert(kb, a)[k] by {
                if k != kb {
                    assert(pairs_map(k0).contains_key(k) ==> pairs_map(k0)[k] == pairs_map(old_b)[k]);
                }
            }
            assert(pairs_map(self.bindings@) =~= pairs_map(old_b).insert(kb, a));
        }
    }

    /// Drop every key bound to `a`.
    fn unbind_action(&mut self, a: EditorAction)
        requires
            old(self).wf(),
        ensures
            final(self).wf(),
            final(self)@ == (KeyMapModel { bindings: without_action(old(self)@.bindings, a), ..old(self)@ }),
    {
        let ghost old_b = self.bindings@;
        let kept = keep_bindings(&self.bindings, None, Some(a));
        proof {
            lemma_keep_map(old_b, action_ne(a));
            lemma_keep_distinct(old_b, action_ne(a));
        }
        self.bindings = kept;
        assert(pairs_map(self.bindings@) =~= without_action(pairs_map(old_b), a));
    }

    /// Set the label of `a`, replacing an earlier one.
    fn set_label(&mut self, a: EditorAction, label: String)
        requires
            old(self).wf(),
        ensures
            final(self).wf(),
            final(self)@ == (KeyMapModel { labels: old(self)@.labels.insert(a, label@), ..old(self)@ }),
    {
        let ghost old_l = labels_view(self.labels@);
        let ghost lv = label@;
        let mut kept = keep_labels(&self.labels, a);
        proof {
            lemma_keep_map(old_l, label_ne(a));
            lemma_keep_distinct(old_l, label_ne(a));
        }
        let ghost k0 = kept@;
        kept.push((a, label));
        self.labels = kept;
        proof {
            let kv = keep_pairs(old_l, label_ne(a));
            assert(labels_view(self.labels@) =~= kv.push((a, lv)));
            assert(labels_view(self.labels@).drop_last() =~= kv);
            lemma_push_distinct(kv, (a, lv));
            let nl = labels_view(self.labels@);
            assert(pairs_map(nl) == pairs_map(kv).insert(a, lv));
            assert forall|k: EditorAction| #[trigger] pairs_map(nl).contains_key(k) == pairs_map(old_l).insert(a, lv).contains_key(k) by {
                if k != a {
                    assert(pairs_map(kv).contains_key(k) <==> (pairs_map(old_l).contains_key(k) && label_ne(a)((k, pairs_map(old_l)[k]))));
                }
            }
            assert forall|k: EditorAction| #[trigger] pairs_map(nl).contains_key(k) implies pairs_map(nl)[k] == pairs_map(old_l).insert(a, lv)[k] by {
                if k != a {
                    assert(pairs_map(kv).contains_key(k) ==> pairs_map(kv)[k] == pairs_map(old_l)[k]);
                }
            }
            assert(pairs_map(nl) =~= pairs_map(old_l).insert(a, lv));
        }
    }

    /// Build the default key map.
    pub fn defaults() -> (km: Self)
        ensures
            km.wf(),
            km@ == build_defaults(default_table()),
    {
        let table = default_table_vec();
        let mut km = KeyMap::empty();
        let mut i: usize = 0;
        while i < table.len()
            invariant
                i <= table@.len(),
                table@ == default_table(),
                km.wf(),
                km@ == build_defaults(default_table().take(i as int)),
            decreases table@.len() - i,
        {
            assert(default_table().take(i + 1).drop_last() =~= default_table().take(i as int));
            let (key_str, action) = table[i];
            match parse_key_string(key_str) {
                Some(kb) => {
                    if km.find_label(action).is_none() {
                        let label = kb.to_display_string();
                        km.set_label(action, label);
                    }
                    km.bind(kb, action);
                },
                None => {},
            }
            i = i + 1;
        }
        assert(default_table().take(table@.len() as int) =~= default_table());
        km
    }

    /// Build a key map from the defaults and the user's overrides from the
    /// configuration: an object of `"action_name": "Key+String"` members.
    pub fn new(overrides: Option<&JsonValue>) -> (km: Self)
        ensures
            km.wf(),
            km@ == match overrides {
                Some(v) => apply_overrides(build_defaults(default_table()), json_overrides(*v)),
                None => build_defaults(default_table()),
            },
    {
        let mut km = Self::defaults();
        match overrides {
            Some(v) => {
                let pairs = override_pairs(v);
                km.apply_overrides(&pairs);
            },
            None => {},
        }
        km
    }

    /// Apply user overrides; unknown actions and unparseable key strings
    /// are skipped.
    fn apply_overrides(&mut self, pairs: &Vec<(String, String)>)
        requires
            old(self).wf(),
        ensures
            final(self).wf(),
            final(self)@ == apply_overrides(old(self)@, overrides_view(pairs@)),
    {
        let ghost pv = overrides_view(pairs@);
        let mut i: usize = 0;
        while i < pairs.len()
            invariant
                i <= pairs@.len(),
                pv == overrides_view(pairs@),
                self.wf(),
                self@ == apply_overrides(old(self)@, pv.take(i as int)),
            decreases pairs@.len() - i,
        {
            assert(pv.take(i + 1).drop_last() =~= pv.take(i as int));
            let name = chars_of(pairs[i].0.as_str());
            let action = action_name_to_action(&name);
            match action {
                Some(a) => match parse_key_string(pairs[i].1.as_str()) {
                    Some(kb) => {
                        self.unbind_action(a);
                        let label = kb.to_display_string();
                        self.set_label(a, label);
                        self.bind(kb, a);
                    },
                    None => {},
                },
                None => {},
            }
            i = i + 1;
        }
        assert(pv.take(pairs@.len() as int) =~= pv);
    }

    /// Look up a key event → action.
    pub fn lookup(&self, ke: &KeyEvent) -> (r: Option<EditorAction>)
        requires
            self.wf(),
        ensures
            r == (if self@.bindings.contains_key(spec_from_key_event(*ke)) {
                Some(self@.bindings[spec_from_key_event(*ke)])
            } else {
                None
            }),
    {
        let kb = KeyBinding::from_key_event(ke);
        match self.find_binding(&kb) {
            Some(i) => Some(self.bindings[i].1),
            None => None,
        }
    }

    /// Get the display label for an action (for palette display): the label
    /// of the key it was last given, which an override that moves the
    /// action to another key replaces; empty when the action never had one.
    pub fn label(&self, action: EditorAction) -> (r: &str)
        requires
            self.wf(),
        ensures
            r@ == (if self@.labels.contains_key(action) {
                self@.labels[action]
            } else {
                ""@
            }),
    {
        match self.find_label(action) {
            Some(i) => self.labels[i].1.as_str(),
            None => "",
        }
    }
}

/// The string members of a configuration object, in order.
fn override_pairs(v: &JsonValue) -> (r: Vec<(String, String)>)
    ensures
        overrides_view(r@) == json_overrides(*v),
{
    let mut pairs: Vec<(String, String)> = Vec::new();
    match v.as_object() {
        Some(o) => {
            let mut i: usize = 0;
            while i < o.len()
                invariant
                    i <= o@.len(),
                    *v matches JsonValue::Object(ob) && ob@ == o@,
                    overrides_view(pairs@) == string_members(o@.take(i as int)),
                decreases o@.len() - i,
            {
                assert(o@.take(i + 1).drop_last() =~= o@.take(i as int));
                let ghost before = overrides_view(pairs@);
                match o[i].1.as_str() {
                    Some(val) => {
                        pairs.push((o[i].0.clone(), val.to_owned()));
                        assert(overrides_view(pairs@) =~= before + seq![(o@[i as int].0@, val@)]);
                    },
                    None => {
                        assert(overrides_view(pairs@) =~= before + Seq::<(Seq<char>, Seq<char>)>::empty());
                    },
                }
                i = i + 1;
            }
            assert(o@.take(o@.len() as int) =~= o@);
        },
        None => {
            assert(overrides_view(pairs@) =~= Seq::<(Seq<char>, Seq<char>)>::empty());
        },
    }
    pairs
}

impl Default for KeyMap {
    fn default() -> (km: Self)
        ensures
            km.wf(),
            km@ == build_defaults(default_table()),
    {
        Self::defaults()
    }
}



/// A string's ASCII letters in lowercase.
pub open spec fn ascii_lower_str(s: Seq<char>) -> Seq<char> {
    s.map_values(|c: char| ascii_lower(c))
}

/// Each named key's display label, lowercased, is read back as that key:
/// "Home" as Home, "PgUp" as PageUp, "F5" as F5, and so on ("Tab" is Tab,
/// or BackTab with Shift).
pub proof fn lemma_named_key_labels(k: NormalizedKey, shift: bool)
    requires
        !(k is Char),
        k matches NormalizedKey::F(n) ==> 1 <= n <= 12,
        k is BackTab ==> shift,
        k is Tab ==> !shift,
    ensures
        named_key(ascii_lower_str(key_label(k)), shift) == Some(k),
{
    let l = ascii_lower_str(key_label(k));
    match k {
        NormalizedKey::Enter => {
            reveal_strlit("Enter");
            reveal_strlit("enter");
            assert(l =~= "enter"@);
            lemma_name_enter(shift);
        },
        NormalizedKey::Tab => {
            reveal_strlit("Tab");
            reveal_strlit("tab");
            assert(l =~= "tab"@);
            lemma_name_tab(shift);
        },
        NormalizedKey::BackTab => {
            reveal_strlit("Tab");
            reveal_strlit("tab");
            assert(l =~= "tab"@);
            lemma_name_tab(shift);
        },
        NormalizedKey::Backspace => {
            reveal_strlit("Backspace");
            reveal_strlit("backspace");
            assert(l =~= "backspace"@);
            lemma_name_backspace(shift);
        },
        NormalizedKey::Delete => {
            reveal_strlit("Delete");
            reveal_strlit("delete");
            assert(l =~= "delete"@);
            lemma_name_delete(shift);
        },
        NormalizedKey::Escape => {
            reveal_strlit("Escape");
            reveal_strlit("escape");
            assert(l =~= "escape"@);
            lemma_name_escape(shift);
        },
        NormalizedKey::Up => {
            reveal_strlit("Up");
            reveal_strlit("up");
            assert(l =~= "up"@);
            lemma_name_up(shift);
        },
        NormalizedKey::Down => {
            reveal_strlit("Down");
            reveal_strlit("down");
            assert(l =~= "down"@);
            lemma_name_down(shift);
        },
        NormalizedKey::Left => {
            reveal_strlit("Left");
            reveal_strlit("left");
            assert(l =~= "left"@);
            lemma_name_left(shift);
        },
        NormalizedKey::Right => {
            reveal_strlit("Right");
            reveal_strlit("right");
            assert(l =~= "right"@);
            lemma_name_right(shift);
        },
        NormalizedKey::Home => {
            reveal_strlit("Home");
            reveal_strlit("home");
            assert(l =~= "home"@);
            lemma_name_home(shift);
        },
        NormalizedKey::End => {
            reveal_strlit("End");
            reveal_strlit("end");
            assert(l =~= "end"@);
            lemma_name_end(shift);
        },
        NormalizedKey::PageUp => {
            reveal_strlit("PgUp");
            reveal_strlit("pgup");
            assert(l =~= "pgup"@);
            lemma_name_pgup(shift);
        },
        NormalizedKey::PageDown => {
            reveal_strlit("PgDn");
            reveal_strlit("pgdn");
            assert(l =~= "pgdn"@);
            lemma_name_pgdn(shift);
        },
        NormalizedKey::F(n) => {
            reveal_strlit("F");
            assert(1 <= n <= 12);
            if n == 1 {
                assert(dec_chars(1nat) =~= seq!['1']);
                reveal_strlit("f1");
                assert(l =~= "f1"@);
                lemma_name_f1(shift);
            } else if n == 2 {
                assert(dec_chars(2nat) =~= seq!['2']);
                reveal_strlit("f2");
                assert(l =~= "f2"@);
                lemma_name_f2(shift);
            } else if n == 3 {
                assert(dec_chars(3nat) =~= seq!['3']);
                reveal_strlit("f3");
                assert(l =~= "f3"@);
                lemma_name_f3(shift);
            } else if n == 4 {
                assert(dec_chars(4nat) =~= seq!['4']);
                reveal_strlit("f4");
                assert(l =~= "f4"@);
                lemma_name_f4(shift);
            } else if n == 5 {
                assert(dec_chars(5nat) =~= seq!['5']);
                reveal_strlit("f5");
                assert(l =~= "f5"@);
                lemma_name_f5(shift);
            } else if n == 6 {
                assert(dec_chars(6nat) =~= seq!['6']);
                reveal_strlit("f6");
                assert(l =~= "f6"@);
                lemma_name_f6(shift);
            } else if n == 7 {
                assert(dec_chars(7nat) =~= seq!['7']);
                reveal_strlit("f7");
                assert(l =~= "f7"@);
                lemma_name_f7(shift);
            } else if n == 8 {
                assert(dec_chars(8nat) =~= seq!['8']);
                reveal_strlit("f8");
                assert(l =~= "f8"@);
                lemma_name_f8(shift);
            } else if n == 9 {
                assert(dec_chars(9nat) =~= seq!['9']);
                reveal_strlit("f9");
                assert(l =~= "f9"@);
                lemma_name_f9(shift);
            } else if n == 10 {
                assert(dec_chars(1nat) =~= seq!['1']);
                assert(dec_chars(10nat) =~= seq!['1', '0']);
                reveal_strlit("f10");
                assert(l =~= "f10"@);
                lemma_name_f10(shift);
            } else if n == 11 {
                assert(dec_chars(1nat) =~= seq!['1']);
                assert(dec_chars(11nat) =~= seq!['1', '1']);
                reveal_strlit("f11");
                assert(l =~= "f11"@);
                lemma_name_f11(shift);
            } else if n == 12 {
                assert(dec_chars(1nat) =~= seq!['1']);
                assert(dec_chars(12nat) =~= seq!['1', '2']);
                reveal_strlit("f12");
                assert(l =~= "f12"@);
                lemma_name_f12(shift);
            }
        },
        NormalizedKey::Char(_) => {},
    }
}

proof fn lemma_name_enter(shift: bool)
    ensures
        named_key("enter"@, shift) == Some(NormalizedKey::Enter),
{
    reveal_strlit("enter");
}

proof fn lemma_name_tab(shift: bool)
    ensures
        named_key("tab"@, shift) == Some(if shift { NormalizedKey::BackTab } else { NormalizedKey::Tab }),
{
    reveal_strlit("tab");
    reveal_strlit("enter");
    assert("tab"@ != "enter"@) by { assert("tab"@.len() != "enter"@.len()); }
    reveal_strlit("return");
    assert("tab"@ != "return"@) by { assert("tab"@.len() != "return"@.len()); }
}

proof fn lemma_name_backspace(shift: bool)
    ensures
        named_key("backspace"@, shift) == Some(NormalizedKey::Backspace),
{
    reveal_strlit("backspace");
    reveal_strlit("enter");
    assert("backspace"@ != "enter"@) by { assert("backspace"@.len() != "enter"@.len()); }
    reveal_strlit("return");
    assert("backspace"@ != "return"@) by { assert("backspace"@.len() != "return"@.len()); }
    reveal_strlit("tab");
    assert("backspace"@ != "tab"@) by { assert("backspace"@.len() != "tab"@.len()); }
}

proof fn lemma_name_delete(shift: bool)
    ensures
        named_key("delete"@, shift) == Some(NormalizedKey::Delete),
{
    reveal_strlit("delete");
    reveal_strlit("enter");
    assert("delete"@ != "enter"@) by { assert("delete"@.len() != "enter"@.len()); }
    reveal_strlit("return");
    assert("delete"@ != "return"@) by { assert("delete"@[0] != "return"@[0]); }
    reveal_strlit("tab");
    assert("delete"@ != "tab"@) by { assert("delete"@.len() != "tab"@.len()); }
    reveal_strlit("backspace");
    assert("delete"@ != "backspace"@) by { assert("delete"@.len() != "backspace"@.len()); }
    reveal_strlit("bs");
    assert("delete"@ != "bs"@) by { assert("delete"@.len() != "bs"@.len()); }
}

proof fn lemma_name_escape(shift: bool)
    ensures
        named_key("escape"@, shift) == Some(NormalizedKey::Escape),
{
    reveal_strlit("escape");
    reveal_strlit("enter");
    assert("escape"@ != "enter"@) by { assert("escape"@.len() != "enter"@.len()); }
    reveal_strlit("return");
    assert("escape"@ != "return"@) by { assert("escape"@[0] != "return"@[0]); }
    reveal_strlit("tab");
    assert("escape"@ != "tab"@) by { assert("escape"@.len() != "tab"@.len()); }
    reveal_strlit("backspace");
    assert("escape"@ != "backspace"@) by { assert("escape"@.len() != "backspace"@.len()); }
    reveal_strlit("bs");
    assert("escape"@ != "bs"@) by { assert("escape"@.len() != "bs"@.len()); }
    reveal_strlit("delete");
    assert("escape"@ != "delete"@) by { assert("escape"@[0] != "delete"@[0]); }
    reveal_strlit("del");
    assert("escape"@ != "del"@) by { assert("escape"@.len() != "del"@.len()); }
}

proof fn lemma_name_up(shift: bool)
    ensures
        named_key("up"@, shift) == Some(NormalizedKey::Up),
{
    reveal_strlit("up");
    reveal_strlit("enter");
    assert("up"@ != "enter"@) by { assert("up"@.len() != "enter"@.len()); }
    reveal_strlit("return");
    assert("up"@ != "return"@) by { assert("up"@.len() != "return"@.len()); }
    reveal_strlit("tab");
    assert("up"@ != "tab"@) by { assert("up"@.len() != "tab"@.len()); }
    reveal_strlit("backspace");
    assert("up"@ != "backspace"@) by { assert("up"@.len() != "backspace"@.len()); }
    reveal_strlit("bs");
    assert("up"@ != "bs"@) by { assert("up"@[0] != "bs"@[0]); }
    reveal_strlit("delete");
    assert("up"@ != "delete"@) by { assert("up"@.len() != "delete"@.len()); }
    reveal_strlit("del");
    assert("up"@ != "del"@) by { assert("up"@.len() != "del"@.len()); }
    reveal_strlit("escape");
    assert("up"@ != "escape"@) by { assert("up"@.len() != "escape"@.len()); }
    reveal_strlit("esc");
    assert("up"@ != "esc"@) by { assert("up"@.len() != "esc"@.len()); }
}

proof fn lemma_name_down(shift: bool)
    ensures
        named_key("down"@, shift) == Some(NormalizedKey::Down),
{
    reveal_strlit("down");
    reveal_strlit("enter");
    assert("down"@ != "enter"@) by { assert("down"@.len() != "enter"@.len()); }
    reveal_strlit("return");
    assert("down"@ != "return"@) by { assert("down"@.len() != "return"@.len()); }
    reveal_strlit("tab");
    assert("down"@ != "tab"@) by { assert("down"@.len() != "tab"@.len()); }
    reveal_strlit("backspace");
    assert("down"@ != "backspace"@) by { assert("down"@.len() != "backspace"@.len()); }
    reveal_strlit("bs");
    assert("down"@ != "bs"@) by { assert("down"@.len() != "bs"@.len()); }
    reveal_strlit("delete");
    assert("down"@ != "delete"@) by { assert("down"@.len() != "delete"@.len()); }
    reveal_strlit("del");
    assert("down"@ != "del"@) by { assert("down"@.len() != "del"@.len()); }
    reveal_strlit("escape");
    assert("down"@ != "escape"@) by { assert("down"@.len() != "escape"@.len()); }
    reveal_strlit("esc");
    assert("down"@ != "esc"@) by { assert("down"@.len() != "esc"@.len()); }
    reveal_strlit("up");
    assert("down"@ != "up"@) by { assert("down"@.len() != "up"@.len()); }
}

proof fn lemma_name_left(shift: bool)
    ensures
        named_key("left"@, shift) == Some(NormalizedKey::Left),
{
    reveal_strlit("left");
    reveal_strlit("enter");
    assert("left"@ != "enter"@) by { assert("left"@.len() != "enter"@.len()); }
    reveal_strlit("return");
    assert("left"@ != "return"@) by { assert("left"@.len() != "return"@.len()); }
    reveal_strlit("tab");
    assert("left"@ != "tab"@) by { assert("left"@.len() != "tab"@.len()); }
    reveal_strlit("backspace");
    assert("left"@ != "backspace"@) by { assert("left"@.len() != "backspace"@.len()); }
    reveal_strlit("bs");
    assert("left"@ != "bs"@) by { assert("left"@.len() != "bs"@.len()); }
    reveal_strlit("delete");
    assert("left"@ != "delete"@) by { assert("left"@.len() != "delete"@.len()); }
    reveal_strlit("del");
    assert("left"@ != "del"@) by { assert("left"@.len() != "del"@.len()); }
    reveal_strlit("escape");
    assert("left"@ != "escape"@) by { assert("left"@.len() != "escape"@.len()); }
    reveal_strlit("esc");
    assert("left"@ != "esc"@) by { assert("left"@.len() != "esc"@.len()); }
    reveal_strlit("up");
    assert("left"@ != "up"@) by { assert("left"@.len() != "up"@.len()); }
    reveal_strlit("down");
    assert("left"@ != "down"@) by { assert("left"@[0] != "down"@[0]); }
}

proof fn lemma_name_right(shift: bool)
    ensures
        named_key("right"@, shift) == Some(NormalizedKey::Right),
{
    reveal_strlit("right");
    reveal_strlit("enter");
    assert("right"@ != "enter"@) by { assert("right"@[0] != "enter"@[0]); }
    reveal_strlit("return");
    assert("right"@ != "return"@) by { assert("right"@.len() != "return"@.len()); }
    reveal_strlit("tab");
    assert("right"@ != "tab"@) by { assert("right"@.len() != "tab"@.len()); }
    reveal_strlit("backspace");
    assert("right"@ != "backspace"@) by { assert("right"@.len() != "backspace"@.len()); }
    reveal_strlit("bs");
    assert("right"@ != "bs"@) by { assert("right"@.len() != "bs"@.len()); }
    reveal_strlit("delete");
    assert("right"@ != "delete"@) by { assert("right"@.len() != "delete"@.len()); }
    reveal_strlit("del");
    assert("right"@ != "del"@) by { assert("right"@.len() != "del"@.len()); }
    reveal_strlit("escape");
    assert("right"@ != "escape"@) by { assert("right"@.len() != "escape"@.len()); }
    reveal_strlit("esc");
    assert("right"@ != "esc"@) by { assert("right"@.len() != "esc"@.len()); }
    reveal_strlit("up");
    assert("right"@ != "up"@) by { assert("right"@.len() != "up"@.len()); }
    reveal_strlit("down");
    assert("right"@ != "down"@) by { assert("right"@.len() != "down"@.len()); }
    reveal_strlit("left");
    assert("right"@ != "left"@) by { assert("right"@.len() != "left"@.len()); }
}

proof fn lemma_name_home(shift: bool)
    ensures
        named_key("home"@, shift) == Some(NormalizedKey::Home),
{
    reveal_strlit("home");
    reveal_strlit("enter");
    assert("home"@ != "enter"@) by { assert("home"@.len() != "enter"@.len()); }
    reveal_strlit("return");
    assert("home"@ != "return"@) by { assert("home"@.len() != "return"@.len()); }
    reveal_strlit("tab");
    assert("home"@ != "tab"@) by { assert("home"@.len() != "tab"@.len()); }
    reveal_strlit("backspace");
    assert("home"@ != "backspace"@) by { assert("home"@.len() != "backspace"@.len()); }
    reveal_strlit("bs");
    assert("home"@ != "bs"@) by { assert("home"@.len() != "bs"@.len()); }
    reveal_strlit("delete");
    assert("home"@ != "delete"@) by { assert("home"@.len() != "delete"@.len()); }
    reveal_strlit("del");
    assert("home"@ != "del"@) by { assert("home"@.len() != "del"@.len()); }
    reveal_strlit("escape");
    assert("home"@ != "escape"@) by { assert("home"@.len() != "escape"@.len()); }
    reveal_strlit("esc");
    assert("home"@ != "esc"@) by { assert("home"@.len() != "esc"@.len()); }
    reveal_strlit("up");
    assert("home"@ != "up"@) by { assert("home"@.len() != "up"@.len()); }
    reveal_strlit("down");
    assert("home"@ != "down"@) by { assert("home"@[0] != "down"@[0]); }
    reveal_strlit("left");
    assert("home"@ != "left"@) by { assert("home"@[0] != "left"@[0]); }
    reveal_strlit("right");
    assert("home"@ != "right"@) by { assert("home"@.len() != "right"@.len()); }
}

proof fn lemma_name_end(shift: bool)
    ensures
        named_key("end"@, shift) == Some(NormalizedKey::End),
{
    reveal_strlit("end");
    reveal_strlit("enter");
    assert("end"@ != "enter"@) by { assert("end"@.len() != "enter"@.len()); }
    reveal_strlit("return");
    assert("end"@ != "return"@) by { assert("end"@.len() != "return"@.len()); }
    reveal_strlit("tab");
    assert("end"@ != "tab"@) by { assert("end"@[0] != "tab"@[0]); }
    reveal_strlit("backspace");
    assert("end"@ != "backspace"@) by { assert("end"@.len() != "backspace"@.len()); }
    reveal_strlit("bs");
    assert("end"@ != "bs"@) by { assert("end"@.len() != "bs"@.len()); }
    reveal_strlit("delete");
    assert("end"@ != "delete"@) by { assert("end"@.len() != "delete"@.len()); }
    reveal_strlit("del");
    assert("end"@ != "del"@) by { assert("end"@[0] != "del"@[0]); }
    reveal_strlit("escape");
    assert("end"@ != "escape"@) by { assert("end"@.len() != "escape"@.len()); }
    reveal_strlit("esc");
    assert("end"@ != "esc"@) by { assert("end"@[1] != "esc"@[1]); }
    reveal_strlit("up");
    assert("end"@ != "up"@) by { assert("end"@.len() != "up"@.len()); }
    reveal_strlit("down");
    assert("end"@ != "down"@) by { assert("end"@.len() != "down"@.len()); }
    reveal_strlit("left");
    assert("end"@ != "left"@) by { assert("end"@.len() != "left"@.len()); }
    reveal_strlit("right");
    assert("end"@ != "right"@) by { assert("end"@.len() != "right"@.len()); }
    reveal_strlit("home");
    assert("end"@ != "home"@) by { assert("end"@.len() != "home"@.len()); }
}

proof fn lemma_name_pgup(shift: bool)
    ensures
        named_key("pgup"@, shift) == Some(NormalizedKey::PageUp),
{
    reveal_strlit("pgup");
    reveal_strlit("enter");
    assert("pgup"@ != "enter"@) by { assert("pgup"@.len() != "enter"@.len()); }
    reveal_strlit("return");
    assert("pgup"@ != "return"@) by { assert("pgup"@.len() != "return"@.len()); }
    reveal_strlit("tab");
    assert("pgup"@ != "tab"@) by { assert("pgup"@.len() != "tab"@.len()); }
    reveal_strlit("backspace");
    assert("pgup"@ != "backspace"@) by { assert("pgup"@.len() != "backspace"@.len()); }
    reveal_strlit("bs");
    assert("pgup"@ != "bs"@) by { assert("pgup"@.len() != "bs"@.len()); }
    reveal_strlit("delete");
    assert("pgup"@ != "delete"@) by { assert("pgup"@.len() != "delete"@.len()); }
    reveal_strlit("del");
    assert("pgup"@ != "del"@) by { assert("pgup"@.len() != "del"@.len()); }
    reveal_strlit("escape");
    assert("pgup"@ != "escape"@) by { assert("pgup"@.len() != "escape"@.len()); }
    reveal_strlit("esc");
    assert("pgup"@ != "esc"@) by { assert("pgup"@.len() != "esc"@.len()); }
    reveal_strlit("up");
    assert("pgup"@ != "up"@) by { assert("pgup"@.len() != "up"@.len()); }
    reveal_strlit("down");
    assert("pgup"@ != "down"@) by { assert("pgup"@[0] != "down"@[0]); }
    reveal_strlit("left");
    assert("pgup"@ != "left"@) by { assert("pgup"@[0] != "left"@[0]); }
    reveal_strlit("right");
    assert("pgup"@ != "right"@) by { assert("pgup"@.len() != "right"@.len()); }
    reveal_strlit("home");
    assert("pgup"@ != "home"@) by { assert("pgup"@[0] != "home"@[0]); }
    reveal_strlit("end");
    assert("pgup"@ != "end"@) by { assert("pgup"@.len() != "end"@.len()); }
    reveal_strlit("pageup");
    assert("pgup"@ != "pageup"@) by { assert("pgup"@.len() != "pageup"@.len()); }
}

proof fn lemma_name_pgdn(shift: bool)
    ensures
        named_key("pgdn"@, shift) == Some(NormalizedKey::PageDown),
{
    reveal_strlit("pgdn");
    reveal_strlit("enter");
    assert("pgdn"@ != "enter"@) by { assert("pgdn"@.len() != "enter"@.len()); }
    reveal_strlit("return");
    assert("pgdn"@ != "return"@) by { assert("pgdn"@.len() != "return"@.len()); }
    reveal_strlit("tab");
    assert("pgdn"@ != "tab"@) by { assert("pgdn"@.len() != "tab"@.len()); }
    reveal_strlit("backspace");
    assert("pgdn"@ != "backspace"@) by { assert("pgdn"@.len() != "backspace"@.len()); }
    reveal_strlit("bs");
    assert("pgdn"@ != "bs"@) by { assert("pgdn"@.len() != "bs"@.len()); }
    reveal_strlit("delete");
    assert("pgdn"@ != "delete"@) by { assert("pgdn"@.len() != "delete"@.len()); }
    reveal_strlit("del");
    assert("pgdn"@ != "del"@) by { assert("pgdn"@.len() != "del"@.len()); }
    reveal_strlit("escape");
    assert("pgdn"@ != "escape"@) by { assert("pgdn"@.len() != "escape"@.len()); }
    reveal_strlit("esc");
    assert("pgdn"@ != "esc"@) by { assert("pgdn"@.len() != "esc"@.len()); }
    reveal_strlit("up");
    assert("pgdn"@ != "up"@) by { assert("pgdn"@.len() != "up"@.len()); }
    reveal_strlit("down");
    assert("pgdn"@ != "down"@) by { assert("pgdn"@[0] != "down"@[0]); }
    reveal_strlit("left");
    assert("pgdn"@ != "left"@) by { assert("pgdn"@[0] != "left"@[0]); }
    reveal_strlit("right");
    assert("pgdn"@ != "right"@) by { assert("pgdn"@.len() != "right"@.len()); }
    reveal_strlit("home");
    assert("pgdn"@ != "home"@) by { assert("pgdn"@[0] != "home"@[0]); }
    reveal_strlit("end");
    assert("pgdn"@ != "end"@) by { assert("pgdn"@.len() != "end"@.len()); }
    reveal_strlit("pageup");
    assert("pgdn"@ != "pageup"@) by { assert("pgdn"@.len() != "pageup"@.len()); }
    reveal_strlit("pgup");
    assert("pgdn"@ != "pgup"@) by { assert("pgdn"@[2] != "pgup"@[2]); }
    reveal_strlit("pagedown");
    assert("pgdn"@ != "pagedown"@) by { assert("pgdn"@.len() != "pagedown"@.len()); }
}

proof fn lemma_name_f1(shift: bool)
    ensures
        named_key("f1"@, shift) == Some(NormalizedKey::F(1)),
{
    reveal_strlit("f1");
    reveal_strlit("enter");
    assert("f1"@ != "enter"@) by { assert("f1"@.len() != "enter"@.len()); }
    reveal_strlit("return");
    assert("f1"@ != "return"@) by { assert("f1"@.len() != "return"@.len()); }
    reveal_strlit("tab");
    assert("f1"@ != "tab"@) by { assert("f1"@.len() != "tab"@.len()); }
    reveal_strlit("backspace");
    assert("f1"@ != "backspace"@) by { assert("f1"@.len() != "backspace"@.len()); }
    reveal_strlit("bs");
    assert("f1"@ != "bs"@) by { assert("f1"@[0] != "bs"@[0]); }
    reveal_strlit("delete");
    assert("f1"@ != "delete"@) by { assert("f1"@.len() != "delete"@.len()); }
    reveal_strlit("del");
    assert("f1"@ != "del"@) by { assert("f1"@.len() != "del"@.len()); }
    reveal_strlit("escape");
    assert("f1"@ != "escape"@) by { assert("f1"@.len() != "escape"@.len()); }
    reveal_strlit("esc");
    assert("f1"@ != "esc"@) by { assert("f1"@.len() != "esc"@.len()); }
    reveal_strlit("up");
    assert("f1"@ != "up"@) by { assert("f1"@[0] != "up"@[0]); }
    reveal_strlit("down");
    assert("f1"@ != "down"@) by { assert("f1"@.len() != "down"@.len()); }
    reveal_strlit("left");
    assert("f1"@ != "left"@) by { assert("f1"@.len() != "left"@.len()); }
    reveal_strlit("right");
    assert("f1"@ != "right"@) by { assert("f1"@.len() != "right"@.len()); }
    reveal_strlit("home");
    assert("f1"@ != "home"@) by { assert("f1"@.len() != "home"@.len()); }
    reveal_strlit("end");
    assert("f1"@ != "end"@) by { assert("f1"@.len() != "end"@.len()); }
    reveal_strlit("pageup");
    assert("f1"@ != "pageup"@) by { assert("f1"@.len() != "pageup"@.len()); }
    reveal_strlit("pgup");
    assert("f1"@ != "pgup"@) by { assert("f1"@.len() != "pgup"@.len()); }
    reveal_strlit("pagedown");
    assert("f1"@ != "pagedown"@) by { assert("f1"@.len() != "pagedown"@.len()); }
    reveal_strlit("pgdn");
    assert("f1"@ != "pgdn"@) by { assert("f1"@.len() != "pgdn"@.len()); }
}

proof fn lemma_name_f2(shift: bool)
    ensures
        named_key("f2"@, shift) == Some(NormalizedKey::F(2)),
{
    reveal_strlit("f2");
    reveal_strlit("enter");
    assert("f2"@ != "enter"@) by { assert("f2"@.len() != "enter"@.len()); }
    reveal_strlit("return");
    assert("f2"@ != "return"@) by { assert("f2"@.len() != "return"@.len()); }
    reveal_strlit("tab");
    assert("f2"@ != "tab"@) by { assert("f2"@.len() != "tab"@.len()); }
    reveal_strlit("backspace");
    assert("f2"@ != "backspace"@) by { assert("f2"@.len() != "backspace"@.len()); }
    reveal_strlit("bs");
    assert("f2"@ != "bs"@) by { assert("f2"@[0] != "bs"@[0]); }
    reveal_strlit("delete");
    assert("f2"@ != "delete"@) by { assert("f2"@.len() != "delete"@.len()); }
    reveal_strlit("del");
    assert("f2"@ != "del"@) by { assert("f2"@.len() != "del"@.len()); }
    reveal_strlit("escape");
    assert("f2"@ != "escape"@) by { assert("f2"@.len() != "escape"@.len()); }
    reveal_strlit("esc");
    assert("f2"@ != "esc"@) by { assert("f2"@.len() != "esc"@.len()); }
    reveal_strlit("up");
    assert("f2"@ != "up"@) by { assert("f2"@[0] != "up"@[0]); }
    reveal_strlit("down");
    assert("f2"@ != "down"@) by { assert("f2"@.len() != "down"@.len()); }
    reveal_strlit("left");
    assert("f2"@ != "left"@) by { assert("f2"@.len() != "left"@.len()); }
    reveal_strlit("right");
    assert("f2"@ != "right"@) by { assert("f2"@.len() != "right"@.len()); }
    reveal_strlit("home");
    assert("f2"@ != "home"@) by { assert("f2"@.len() != "home"@.len()); }
    reveal_strlit("end");
    assert("f2"@ != "end"@) by { assert("f2"@.len() != "end"@.len()); }
    reveal_strlit("pageup");
    assert("f2"@ != "pageup"@) by { assert("f2"@.len() != "pageup"@.len()); }
    reveal_strlit("pgup");
    assert("f2"@ != "pgup"@) by { assert("f2"@.len() != "pgup"@.len()); }
    reveal_strlit("pagedown");
    assert("f2"@ != "pagedown"@) by { assert("f2"@.len() != "pagedown"@.len()); }
    reveal_strlit("pgdn");
    assert("f2"@ != "pgdn"@) by { assert("f2"@.len() != "pgdn"@.len()); }
    reveal_strlit("f1");
    assert("f2"@ != "f1"@) by { assert("f2"@[1] != "f1"@[1]); }
}

proof fn lemma_name_f3(shift: bool)
    ensures
        named_key("f3"@, shift) == Some(NormalizedKey::F(3)),
{
    reveal_strlit("f3");
    reveal_strlit("enter");
    assert("f3"@ != "enter"@) by { assert("f3"@.len() != "enter"@.len()); }
    reveal_strlit("return");
    assert("f3"@ != "return"@) by { assert("f3"@.len() != "return"@.len()); }
    reveal_strlit("tab");
    assert("f3"@ != "tab"@) by { assert("f3"@.len() != "tab"@.len()); }
    reveal_strlit("backspace");
    assert("f3"@ != "backspace"@) by { assert("f3"@.len() != "backspace"@.len()); }
    reveal_strlit("bs");
    assert("f3"@ != "bs"@) by { assert("f3"@[0] != "bs"@[0]); }
    reveal_strlit("delete");
    assert("f3"@ != "delete"@) by { assert("f3"@.len() != "delete"@.len()); }
    reveal_strlit("del");
    assert("f3"@ != "del"@) by { assert("f3"@.len() != "del"@.len()); }
    reveal_strlit("escape");
    assert("f3"@ != "escape"@) by { assert("f3"@.len() != "escape"@.len()); }
    reveal_strlit("esc");
    assert("f3"@ != "esc"@) by { assert("f3"@.len() != "esc"@.len()); }
    reveal_strlit("up");
    assert("f3"@ != "up"@) by { assert("f3"@[0] != "up"@[0]); }
    reveal_strlit("down");
    assert("f3"@ != "down"@) by { assert("f3"@.len() != "down"@.len()); }
    reveal_strlit("left");
    assert("f3"@ != "left"@) by { assert("f3"@.len() != "left"@.len()); }
    reveal_strlit("right");
    assert("f3"@ != "right"@) by { assert("f3"@.len() != "right"@.len()); }
    reveal_strlit("home");
    assert("f3"@ != "home"@) by { assert("f3"@.len() != "home"@.len()); }
    reveal_strlit("end");
    assert("f3"@ != "end"@) by { assert("f3"@.len() != "end"@.len()); }
    reveal_strlit("pageup");
    assert("f3"@ != "pageup"@) by { assert("f3"@.len() != "pageup"@.len()); }
    reveal_strlit("pgup");
    assert("f3"@ != "pgup"@) by { assert("f3"@.len() != "pgup"@.len()); }
    reveal_strlit("pagedown");
    assert("f3"@ != "pagedown"@) by { assert("f3"@.len() != "pagedown"@.len()); }
    reveal_strlit("pgdn");
    assert("f3"@ != "pgdn"@) by { assert("f3"@.len() != "pgdn"@.len()); }
    reveal_strlit("f1");
    assert("f3"@ != "f1"@) by { assert("f3"@[1] != "f1"@[1]); }
    reveal_strlit("f2");
    assert("f3"@ != "f2"@) by { assert("f3"@[1] != "f2"@[1]); }
}

proof fn lemma_name_f4(shift: bool)
    ensures
        named_key("f4"@, shift) == Some(NormalizedKey::F(4)),
{
    reveal_strlit("f4");
    reveal_strlit("enter");
    assert("f4"@ != "enter"@) by { assert("f4"@.len() != "enter"@.len()); }
    reveal_strlit("return");
    assert("f4"@ != "return"@) by { assert("f4"@.len() != "return"@.len()); }
    reveal_strlit("tab");
    assert("f4"@ != "tab"@) by { assert("f4"@.len() != "tab"@.len()); }
    reveal_strlit("backspace");
    assert("f4"@ != "backspace"@) by { assert("f4"@.len() != "backspace"@.len()); }
    reveal_strlit("bs");
    assert("f4"@ != "bs"@) by { assert("f4"@[0] != "bs"@[0]); }
    reveal_strlit("delete");
    assert("f4"@ != "delete"@) by { assert("f4"@.len() != "delete"@.len()); }
    reveal_strlit("del");
    assert("f4"@ != "del"@) by { assert("f4"@.len() != "del"@.len()); }
    reveal_strlit("escape");
    assert("f4"@ != "escape"@) by { assert("f4"@.len() != "escape"@.len()); }
    reveal_strlit("esc");
    assert("f4"@ != "esc"@) by { assert("f4"@.len() != "esc"@.len()); }
    reveal_strlit("up");
    assert("f4"@ != "up"@) by { assert("f4"@[0] != "up"@[0]); }
    reveal_strlit("down");
    assert("f4"@ != "down"@) by { assert("f4"@.len() != "down"@.len()); }
    reveal_strlit("left");
    assert("f4"@ != "left"@) by { assert("f4"@.len() != "left"@.len()); }
    reveal_strlit("right");
    assert("f4"@ != "right"@) by { assert("f4"@.len() != "right"@.len()); }
    reveal_strlit("home");
    assert("f4"@ != "home"@) by { assert("f4"@.len() != "home"@.len()); }
    reveal_strlit("end");
    assert("f4"@ != "end"@) by { assert("f4"@.len() != "end"@.len()); }
    reveal_strlit("pageup");
    assert("f4"@ != "pageup"@) by { assert("f4"@.len() != "pageup"@.len()); }
    reveal_strlit("pgup");
    assert("f4"@ != "pgup"@) by { assert("f4"@.len() != "pgup"@.len()); }
    reveal_strlit("pagedown");
    assert("f4"@ != "pagedown"@) by { assert("f4"@.len() != "pagedown"@.len()); }
    reveal_strlit("pgdn");
    assert("f4"@ != "pgdn"@) by { assert("f4"@.len() != "pgdn"@.len()); }
    reveal_strlit("f1");
    assert("f4"@ != "f1"@) by { assert("f4"@[1] != "f1"@[1]); }
    reveal_strlit("f2");
    assert("f4"@ != "f2"@) by { assert("f4"@[1] != "f2"@[1]); }
    reveal_strlit("f3");
    assert("f4"@ != "f3"@) by { assert("f4"@[1] != "f3"@[1]); }
}

proof fn lemma_name_f5(shift: bool)
    ensures
        named_key("f5"@, shift) == Some(NormalizedKey::F(5)),
{
    reveal_strlit("f5");
    reveal_strlit("enter");
    assert("f5"@ != "enter"@) by { assert("f5"@.len() != "enter"@.len()); }
    reveal_strlit("return");
    assert("f5"@ != "return"@) by { assert("f5"@.len() != "return"@.len()); }
    reveal_strlit("tab");
    assert("f5"@ != "tab"@) by { assert("f5"@.len() != "tab"@.len()); }
    reveal_strlit("backspace");
    assert("f5"@ != "backspace"@) by { assert("f5"@.len() != "backspace"@.len()); }
    reveal_strlit("bs");
    assert("f5"@ != "bs"@) by { assert("f5"@[0] != "bs"@[0]); }
    reveal_strlit("delete");
    assert("f5"@ != "delete"@) by { assert("f5"@.len() != "delete"@.len()); }
    reveal_strlit("del");
    assert("f5"@ != "del"@) by { assert("f5"@.len() != "del"@.len()); }
    reveal_strlit("escape");
    assert("f5"@ != "escape"@) by { assert("f5"@.len() != "escape"@.len()); }
    reveal_strlit("esc");
    assert("f5"@ != "esc"@) by { assert("f5"@.len() != "esc"@.len()); }
    reveal_strlit("up");
    assert("f5"@ != "up"@) by { assert("f5"@[0] != "up"@[0]); }
    reveal_strlit("down");
    assert("f5"@ != "down"@) by { assert("f5"@.len() != "down"@.len()); }
    reveal_strlit("left");
    assert("f5"@ != "left"@) by { assert("f5"@.len() != "left"@.len()); }
    reveal_strlit("right");
    assert("f5"@ != "right"@) by { assert("f5"@.len() != "right"@.len()); }
    reveal_strlit("home");
    assert("f5"@ != "home"@) by { assert("f5"@.len() != "home"@.len()); }
    reveal_strlit("end");
    assert("f5"@ != "end"@) by { assert("f5"@.len() != "end"@.len()); }
    reveal_strlit("pageup");
    assert("f5"@ != "pageup"@) by { assert("f5"@.len() != "pageup"@.len()); }
    reveal_strlit("pgup");
    assert("f5"@ != "pgup"@) by { assert("f5"@.len() != "pgup"@.len()); }
    reveal_strlit("pagedown");
    assert("f5"@ != "pagedown"@) by { assert("f5"@.len() != "pagedown"@.len()); }
    reveal_strlit("pgdn");
    assert("f5"@ != "pgdn"@) by { assert("f5"@.len() != "pgdn"@.len()); }
    reveal_strlit("f1");
    assert("f5"@ != "f1"@) by { assert("f5"@[1] != "f1"@[1]); }
    reveal_strlit("f2");
    assert("f5"@ != "f2"@) by { assert("f5"@[1] != "f2"@[1]); }
    reveal_strlit("f3");
    assert("f5"@ != "f3"@) by { assert("f5"@[1] != "f3"@[1]); }
    reveal_strlit("f4");
    assert("f5"@ != "f4"@) by { assert("f5"@[1] != "f4"@[1]); }
}

proof fn lemma_name_f6(shift: bool)
    ensures
        named_key("f6"@, shift) == Some(NormalizedKey::F(6)),
{
    reveal_strlit("f6");
    reveal_strlit("enter");
    assert("f6"@ != "enter"@) by { assert("f6"@.len() != "enter"@.len()); }
    reveal_strlit("return");
    assert("f6"@ != "return"@) by { assert("f6"@.len() != "return"@.len()); }
    reveal_strlit("tab");
    assert("f6"@ != "tab"@) by { assert("f6"@.len() != "tab"@.len()); }
    reveal_strlit("backspace");
    assert("f6"@ != "backspace"@) by { assert("f6"@.len() != "backspace"@.len()); }
    reveal_strlit("bs");
    assert("f6"@ != "bs"@) by { assert("f6"@[0] != "bs"@[0]); }
    reveal_strlit("delete");
    assert("f6"@ != "delete"@) by { assert("f6"@.len() != "delete"@.len()); }
    reveal_strlit("del");
    assert("f6"@ != "del"@) by { assert("f6"@.len() != "del"@.len()); }
    reveal_strlit("escape");
    assert("f6"@ != "escape"@) by { assert("f6"@.len() != "escape"@.len()); }
    reveal_strlit("esc");
    assert("f6"@ != "esc"@) by { assert("f6"@.len() != "esc"@.len()); }
    reveal_strlit("up");
    assert("f6"@ != "up"@) by { assert("f6"@[0] != "up"@[0]); }
    reveal_strlit("down");
    assert("f6"@ != "down"@) by { assert("f6"@.len() != "down"@.len()); }
    reveal_strlit("left");
    assert("f6"@ != "left"@) by { assert("f6"@.len() != "left"@.len()); }
    reveal_strlit("right");
    assert("f6"@ != "right"@) by { assert("f6"@.len() != "right"@.len()); }
    reveal_strlit("home");
    assert("f6"@ != "home"@) by { assert("f6"@.len() != "home"@.len()); }
    reveal_strlit("end");
    assert("f6"@ != "end"@) by { assert("f6"@.len() != "end"@.len()); }
    reveal_strlit("pageup");
    assert("f6"@ != "pageup"@) by { assert("f6"@.len() != "pageup"@.len()); }
    reveal_strlit("pgup");
    assert("f6"@ != "pgup"@) by { assert("f6"@.len() != "pgup"@.len()); }
    reveal_strlit("pagedown");
    assert("f6"@ != "pagedown"@) by { assert("f6"@.len() != "pagedown"@.len()); }
    reveal_strlit("pgdn");
    assert("f6"@ != "pgdn"@) by { assert("f6"@.len() != "pgdn"@.len()); }
    reveal_strlit("f1");
    assert("f6"@ != "f1"@) by { assert("f6"@[1] != "f1"@[1]); }
    reveal_strlit("f2");
    assert("f6"@ != "f2"@) by { assert("f6"@[1] != "f2"@[1]); }
    reveal_strlit("f3");
    assert("f6"@ != "f3"@) by { assert("f6"@[1] != "f3"@[1]); }
    reveal_strlit("f4");
    assert("f6"@ != "f4"@) by { assert("f6"@[1] != "f4"@[1]); }
    reveal_strlit("f5");
    assert("f6"@ != "f5"@) by { assert("f6"@[1] != "f5"@[1]); }
}

proof fn lemma_name_f7(shift: bool)
    ensures
        named_key("f7"@, shift) == Some(NormalizedKey::F(7)),
{
    reveal_strlit("f7");
    reveal_strlit("enter");
    assert("f7"@ != "enter"@) by { assert("f7"@.len() != "enter"@.len()); }
    reveal_strlit("return");
    assert("f7"@ != "return"@) by { assert("f7"@.len() != "return"@.len()); }
    reveal_strlit("tab");
    assert("f7"@ != "tab"@) by { assert("f7"@.len() != "tab"@.len()); }
    reveal_strlit("backspace");
    assert("f7"@ != "backspace"@) by { assert("f7"@.len() != "backspace"@.len()); }
    reveal_strlit("bs");
    assert("f7"@ != "bs"@) by { assert("f7"@[0] != "bs"@[0]); }
    reveal_strlit("delete");
    assert("f7"@ != "delete"@) by { assert("f7"@.len() != "delete"@.len()); }
    reveal_strlit("del");
    assert("f7"@ != "del"@) by { assert("f7"@.len() != "del"@.len()); }
    reveal_strlit("escape");
    assert("f7"@ != "escape"@) by { assert("f7"@.len() != "escape"@.len()); }
    reveal_strlit("esc");
    assert("f7"@ != "esc"@) by { assert("f7"@.len() != "esc"@.len()); }
    reveal_strlit("up");
    assert("f7"@ != "up"@) by { assert("f7"@[0] != "up"@[0]); }
    reveal_strlit("down");
    assert("f7"@ != "down"@) by { assert("f7"@.len() != "down"@.len()); }
    reveal_strlit("left");
    assert("f7"@ != "left"@) by { assert("f7"@.len() != "left"@.len()); }
    reveal_strlit("right");
    assert("f7"@ != "right"@) by { assert("f7"@.len() != "right"@.len()); }
    reveal_strlit("home");
    assert("f7"@ != "home"@) by { assert("f7"@.len() != "home"@.len()); }
    reveal_strlit("end");
    assert("f7"@ != "end"@) by { assert("f7"@.len() != "end"@.len()); }
    reveal_strlit("pageup");
    assert("f7"@ != "pageup"@) by { assert("f7"@.len() != "pageup"@.len()); }
    reveal_strlit("pgup");
    assert("f7"@ != "pgup"@) by { assert("f7"@.len() != "pgup"@.len()); }
    reveal_strlit("pagedown");
    assert("f7"@ != "pagedown"@) by { assert("f7"@.len() != "pagedown"@.len()); }
    reveal_strlit("pgdn");
    assert("f7"@ != "pgdn"@) by { assert("f7"@.len() != "pgdn"@.len()); }
    reveal_strlit("f1");
    assert("f7"@ != "f1"@) by { assert("f7"@[1] != "f1"@[1]); }
    reveal_strlit("f2");
    assert("f7"@ != "f2"@) by { assert("f7"@[1] != "f2"@[1]); }
    reveal_strlit("f3");
    assert("f7"@ != "f3"@) by { assert("f7"@[1] != "f3"@[1]); }
    reveal_strlit("f4");
    assert("f7"@ != "f4"@) by { assert("f7"@[1] != "f4"@[1]); }
    reveal_strlit("f5");
    assert("f7"@ != "f5"@) by { assert("f7"@[1] != "f5"@[1]); }
    reveal_strlit("f6");
    assert("f7"@ != "f6"@) by { assert("f7"@[1] != "f6"@[1]); }
}

proof fn lemma_name_f8(shift: bool)
    ensures
        named_key("f8"@, shift) == Some(NormalizedKey::F(8)),
{
    reveal_strlit("f8");
    reveal_strlit("enter");
    assert("f8"@ != "enter"@) by { assert("f8"@.len() != "enter"@.len()); }
    reveal_strlit("return");
    assert("f8"@ != "return"@) by { assert("f8"@.len() != "return"@.len()); }
    reveal_strlit("tab");
    assert("f8"@ != "tab"@) by { assert("f8"@.len() != "tab"@.len()); }
    reveal_strlit("backspace");
    assert("f8"@ != "backspace"@) by { assert("f8"@.len() != "backspace"@.len()); }
    reveal_strlit("bs");
    assert("f8"@ != "bs"@) by { assert("f8"@[0] != "bs"@[0]); }
    reveal_strlit("delete");
    assert("f8"@ != "delete"@) by { assert("f8"@.len() != "delete"@.len()); }
    reveal_strlit("del");
    assert("f8"@ != "del"@) by { assert("f8"@.len() != "del"@.len()); }
    reveal_strlit("escape");
    assert("f8"@ != "escape"@) by { assert("f8"@.len() != "escape"@.len()); }
    reveal_strlit("esc");
    assert("f8"@ != "esc"@) by { assert("f8"@.len() != "esc"@.len()); }
    reveal_strlit("up");
    assert("f8"@ != "up"@) by { assert("f8"@[0] != "up"@[0]); }
    reveal_strlit("down");
    assert("f8"@ != "down"@) by { assert("f8"@.len() != "down"@.len()); }
    reveal_strlit("left");
    assert("f8"@ != "left"@) by { assert("f8"@.len() != "left"@.len()); }
    reveal_strlit("right");
    assert("f8"@ != "right"@) by { assert("f8"@.len() != "right"@.len()); }
    reveal_strlit("home");
    assert("f8"@ != "home"@) by { assert("f8"@.len() != "home"@.len()); }
    reveal_strlit("end");
    assert("f8"@ != "end"@) by { assert("f8"@.len() != "end"@.len()); }
    reveal_strlit("pageup");
    assert("f8"@ != "pageup"@) by { assert("f8"@.len() != "pageup"@.len()); }
    reveal_strlit("pgup");
    assert("f8"@ != "pgup"@) by { assert("f8"@.len() != "pgup"@.len()); }
    reveal_strlit("pagedown");
    assert("f8"@ != "pagedown"@) by { assert("f8"@.len() != "pagedown"@.len()); }
    reveal_strlit("pgdn");
    assert("f8"@ != "pgdn"@) by { assert("f8"@.len() != "pgdn"@.len()); }
    reveal_strlit("f1");
    assert("f8"@ != "f1"@) by { assert("f8"@[1] != "f1"@[1]); }
    reveal_strlit("f2");
    assert("f8"@ != "f2"@) by { assert("f8"@[1] != "f2"@[1]); }
    reveal_strlit("f3");
    assert("f8"@ != "f3"@) by { assert("f8"@[1] != "f3"@[1]); }
    reveal_strlit("f4");
    assert("f8"@ != "f4"@) by { assert("f8"@[1] != "f4"@[1]); }
    reveal_strlit("f5");
    assert("f8"@ != "f5"@) by { assert("f8"@[1] != "f5"@[1]); }
    reveal_strlit("f6");
    assert("f8"@ != "f6"@) by { assert("f8"@[1] != "f6"@[1]); }
    reveal_strlit("f7");
    assert("f8"@ != "f7"@) by { assert("f8"@[1] != "f7"@[1]); }
}

proof fn lemma_name_f9(shift: bool)
    ensures
        named_key("f9"@, shift) == Some(NormalizedKey::F(9)),
{
    reveal_strlit("f9");
    reveal_strlit("enter");
    assert("f9"@ != "enter"@) by { assert("f9"@.len() != "enter"@.len()); }
    reveal_strlit("return");
    assert("f9"@ != "return"@) by { assert("f9"@.len() != "return"@.len()); }
    reveal_strlit("tab");
    assert("f9"@ != "tab"@) by { assert("f9"@.len() != "tab"@.len()); }
    reveal_strlit("backspace");
    assert("f9"@ != "backspace"@) by { assert("f9"@.len() != "backspace"@.len()); }
    reveal_strlit("bs");
    assert("f9"@ != "bs"@) by { assert("f9"@[0] != "bs"@[0]); }
    reveal_strlit("delete");
    assert("f9"@ != "delete"@) by { assert("f9"@.len() != "delete"@.len()); }
    reveal_strlit("del");
    assert("f9"@ != "del"@) by { assert("f9"@.len() != "del"@.len()); }
    reveal_strlit("escape");
    assert("f9"@ != "escape"@) by { assert("f9"@.len() != "escape"@.len()); }
    reveal_strlit("esc");
    assert("f9"@ != "esc"@) by { assert("f9"@.len() != "esc"@.len()); }
    reveal_strlit("up");
    assert("f9"@ != "up"@) by { assert("f9"@[0] != "up"@[0]); }
    reveal_strlit("down");
    assert("f9"@ != "down"@) by { assert("f9"@.len() != "down"@.len()); }
    reveal_strlit("left");
    assert("f9"@ != "left"@) by { assert("f9"@.len() != "left"@.len()); }
    reveal_strlit("right");
    assert("f9"@ != "right"@) by { assert("f9"@.len() != "right"@.len()); }
    reveal_strlit("home");
    assert("f9"@ != "home"@) by { assert("f9"@.len() != "home"@.len()); }
    reveal_strlit("end");
    assert("f9"@ != "end"@) by { assert("f9"@.len() != "end"@.len()); }
    reveal_strlit("pageup");
    assert("f9"@ != "pageup"@) by { assert("f9"@.len() != "pageup"@.len()); }
    reveal_strlit("pgup");
    assert("f9"@ != "pgup"@) by { assert("f9"@.len() != "pgup"@.len()); }
    reveal_strlit("pagedown");
    assert("f9"@ != "pagedown"@) by { assert("f9"@.len() != "pagedown"@.len()); }
    reveal_strlit("pgdn");
    assert("f9"@ != "pgdn"@) by { assert("f9"@.len() != "pgdn"@.len()); }
    reveal_strlit("f1");
    assert("f9"@ != "f1"@) by { assert("f9"@[1] != "f1"@[1]); }
    reveal_strlit("f2");
    assert("f9"@ != "f2"@) by { assert("f9"@[1] != "f2"@[1]); }
    reveal_strlit("f3");
    assert("f9"@ != "f3"@) by { assert("f9"@[1] != "f3"@[1]); }
    reveal_strlit("f4");
    assert("f9"@ != "f4"@) by { assert("f9"@[1] != "f4"@[1]); }
    reveal_strlit("f5");
    assert("f9"@ != "f5"@) by { assert("f9"@[1] != "f5"@[1]); }
    reveal_strlit("f6");
    assert("f9"@ != "f6"@) by { assert("f9"@[1] != "f6"@[1]); }
    reveal_strlit("f7");
    assert("f9"@ != "f7"@) by { assert("f9"@[1] != "f7"@[1]); }
    reveal_strlit("f8");
    assert("f9"@ != "f8"@) by { assert("f9"@[1] != "f8"@[1]); }
}

proof fn lemma_name_f10(shift: bool)
    ensures
        named_key("f10"@, shift) == Some(NormalizedKey::F(10)),
{
    reveal_strlit("f10");
    reveal_strlit("enter");
    assert("f10"@ != "enter"@) by { assert("f10"@.len() != "enter"@.len()); }
    reveal_strlit("return");
    assert("f10"@ != "return"@) by { assert("f10"@.len() != "return"@.len()); }
    reveal_strlit("tab");
    assert("f10"@ != "tab"@) by { assert("f10"@[0] != "tab"@[0]); }
    reveal_strlit("backspace");
    assert("f10"@ != "backspace"@) by { assert("f10"@.len() != "backspace"@.len()); }
    reveal_strlit("bs");
    assert("f10"@ != "bs"@) by { assert("f10"@.len() != "bs"@.len()); }
    reveal_strlit("delete");
    assert("f10"@ != "delete"@) by { assert("f10"@.len() != "delete"@.len()); }
    reveal_strlit("del");
    assert("f10"@ != "del"@) by { assert("f10"@[0] != "del"@[0]); }
    reveal_strlit("escape");
    assert("f10"@ != "escape"@) by { assert("f10"@.len() != "escape"@.len()); }
    reveal_strlit("esc");
    assert("f10"@ != "esc"@) by { assert("f10"@[0] != "esc"@[0]); }
    reveal_strlit("up");
    assert("f10"@ != "up"@) by { assert("f10"@.len() != "up"@.len()); }
    reveal_strlit("down");
    assert("f10"@ != "down"@) by { assert("f10"@.len() != "down"@.len()); }
    reveal_strlit("left");
    assert("f10"@ != "left"@) by { assert("f10"@.len() != "left"@.len()); }
    reveal_strlit("right");
    assert("f10"@ != "right"@) by { assert("f10"@.len() != "right"@.len()); }
    reveal_strlit("home");
    assert("f10"@ != "home"@) by { assert("f10"@.len() != "home"@.len()); }
    reveal_strlit("end");
    assert("f10"@ != "end"@) by { assert("f10"@[0] != "end"@[0]); }
    reveal_strlit("pageup");
    assert("f10"@ != "pageup"@) by { assert("f10"@.len() != "pageup"@.len()); }
    reveal_strlit("pgup");
    assert("f10"@ != "pgup"@) by { assert("f10"@.len() != "pgup"@.len()); }
    reveal_strlit("pagedown");
    assert("f10"@ != "pagedown"@) by { assert("f10"@.len() != "pagedown"@.len()); }
    reveal_strlit("pgdn");
    assert("f10"@ != "pgdn"@) by { assert("f10"@.len() != "pgdn"@.len()); }
    reveal_strlit("f1");
    assert("f10"@ != "f1"@) by { assert("f10"@.len() != "f1"@.len()); }
    reveal_strlit("f2");
    assert("f10"@ != "f2"@) by { assert("f10"@.len() != "f2"@.len()); }
    reveal_strlit("f3");
    assert("f10"@ != "f3"@) by { assert("f10"@.len() != "f3"@.len()); }
    reveal_strlit("f4");
    assert("f10"@ != "f4"@) by { assert("f10"@.len() != "f4"@.len()); }
    reveal_strlit("f5");
    assert("f10"@ != "f5"@) by { assert("f10"@.len() != "f5"@.len()); }
    reveal_strlit("f6");
    assert("f10"@ != "f6"@) by { assert("f10"@.len() != "f6"@.len()); }
    reveal_strlit("f7");
    assert("f10"@ != "f7"@) by { assert("f10"@.len() != "f7"@.len()); }
    reveal_strlit("f8");
    assert("f10"@ != "f8"@) by { assert("f10"@.len() != "f8"@.len()); }
    reveal_strlit("f9");
    assert("f10"@ != "f9"@) by { assert("f10"@.len() != "f9"@.len()); }
}

proof fn lemma_name_f11(shift: bool)
    ensures
        named_key("f11"@, shift) == Some(NormalizedKey::F(11)),
{
    reveal_strlit("f11");
    reveal_strlit("enter");
    assert("f11"@ != "enter"@) by { assert("f11"@.len() != "enter"@.len()); }
    reveal_strlit("return");
    assert("f11"@ != "return"@) by { assert("f11"@.len() != "return"@.len()); }
    reveal_strlit("tab");
    assert("f11"@ != "tab"@) by { assert("f11"@[0] != "tab"@[0]); }
    reveal_strlit("backspace");
    assert("f11"@ != "backspace"@) by { assert("f11"@.len() != "backspace"@.len()); }
    reveal_strlit("bs");
    assert("f11"@ != "bs"@) by { assert("f11"@.len() != "bs"@.len()); }
    reveal_strlit("delete");
    assert("f11"@ != "delete"@) by { assert("f11"@.len() != "delete"@.len()); }
    reveal_strlit("del");
    assert("f11"@ != "del"@) by { assert("f11"@[0] != "del"@[0]); }
    reveal_strlit("escape");
    assert("f11"@ != "escape"@) by { assert("f11"@.len() != "escape"@.len()); }
    reveal_strlit("esc");
    assert("f11"@ != "esc"@) by { assert("f11"@[0] != "esc"@[0]); }
    reveal_strlit("up");
    assert("f11"@ != "up"@) by { assert("f11"@.len() != "up"@.len()); }
    reveal_strlit("down");
    assert("f11"@ != "down"@) by { assert("f11"@.len() != "down"@.len()); }
    reveal_strlit("left");
    assert("f11"@ != "left"@) by { assert("f11"@.len() != "left"@.len()); }
    reveal_strlit("right");
    assert("f11"@ != "right"@) by { assert("f11"@.len() != "right"@.len()); }
    reveal_strlit("home");
    assert("f11"@ != "home"@) by { assert("f11"@.len() != "home"@.len()); }
    reveal_strlit("end");
    assert("f11"@ != "end"@) by { assert("f11"@[0] != "end"@[0]); }
    reveal_strlit("pageup");
    assert("f11"@ != "pageup"@) by { assert("f11"@.len() != "pageup"@.len()); }
    reveal_strlit("pgup");
    assert("f11"@ != "pgup"@) by { assert("f11"@.len() != "pgup"@.len()); }
    reveal_strlit("pagedown");
    assert("f11"@ != "pagedown"@) by { assert("f11"@.len() != "pagedown"@.len()); }
    reveal_strlit("pgdn");
    assert("f11"@ != "pgdn"@) by { assert("f11"@.len() != "pgdn"@.len()); }
    reveal_strlit("f1");
    assert("f11"@ != "f1"@) by { assert("f11"@.len() != "f1"@.len()); }
    reveal_strlit("f2");
    assert("f11"@ != "f2"@) by { assert("f11"@.len() != "f2"@.len()); }
    reveal_strlit("f3");
    assert("f11"@ != "f3"@) by { assert("f11"@.len() != "f3"@.len()); }
    reveal_strlit("f4");
    assert("f11"@ != "f4"@) by { assert("f11"@.len() != "f4"@.len()); }
    reveal_strlit("f5");
    assert("f11"@ != "f5"@) by { assert("f11"@.len() != "f5"@.len()); }
    reveal_strlit("f6");
    assert("f11"@ != "f6"@) by { assert("f11"@.len() != "f6"@.len()); }
    reveal_strlit("f7");
    assert("f11"@ != "f7"@) by { assert("f11"@.len() != "f7"@.len()); }
    reveal_strlit("f8");
    assert("f11"@ != "f8"@) by { assert("f11"@.len() != "f8"@.len()); }
    reveal_strlit("f9");
    assert("f11"@ != "f9"@) by { assert("f11"@.len() != "f9"@.len()); }
    reveal_strlit("f10");
    assert("f11"@ != "f10"@) by { assert("f11"@[2] != "f10"@[2]); }
}

proof fn lemma_name_f12(shift: bool)
    ensures
        named_key("f12"@, shift) == Some(NormalizedKey::F(12)),
{
    reveal_strlit("f12");
    reveal_strlit("enter");
    assert("f12"@ != "enter"@) by { assert("f12"@.len() != "enter"@.len()); }
    reveal_strlit("return");
    assert("f12"@ != "return"@) by { assert("f12"@.len() != "return"@.len()); }
    reveal_strlit("tab");
    assert("f12"@ != "tab"@) by { assert("f12"@[0] != "tab"@[0]); }
    reveal_strlit("backspace");
    assert("f12"@ != "backspace"@) by { assert("f12"@.len() != "backspace"@.len()); }
    reveal_strlit("bs");
    assert("f12"@ != "bs"@) by { assert("f12"@.len() != "bs"@.len()); }
    reveal_strlit("delete");
    assert("f12"@ != "delete"@) by { assert("f12"@.len() != "delete"@.len()); }
    reveal_strlit("del");
    assert("f12"@ != "del"@) by { assert("f12"@[0] != "del"@[0]); }
    reveal_strlit("escape");
    assert("f12"@ != "escape"@) by { assert("f12"@.len() != "escape"@.len()); }
    reveal_strlit("esc");
    assert("f12"@ != "esc"@) by { assert("f12"@[0] != "esc"@[0]); }
    reveal_strlit("up");
    assert("f12"@ != "up"@) by { assert("f12"@.len() != "up"@.len()); }
    reveal_strlit("down");
    assert("f12"@ != "down"@) by { assert("f12"@.len() != "down"@.len()); }
    reveal_strlit("left");
    assert("f12"@ != "left"@) by { assert("f12"@.len() != "left"@.len()); }
    reveal_strlit("right");
    assert("f12"@ != "right"@) by { assert("f12"@.len() != "right"@.len()); }
    reveal_strlit("home");
    assert("f12"@ != "home"@) by { assert("f12"@.len() != "home"@.len()); }
    reveal_strlit("end");
    assert("f12"@ != "end"@) by { assert("f12"@[0] != "end"@[0]); }
    reveal_strlit("pageup");
    assert("f12"@ != "pageup"@) by { assert("f12"@.len() != "pageup"@.len()); }
    reveal_strlit("pgup");
    assert("f12"@ != "pgup"@) by { assert("f12"@.len() != "pgup"@.len()); }
    reveal_strlit("pagedown");
    assert("f12"@ != "pagedown"@) by { assert("f12"@.len() != "pagedown"@.len()); }
    reveal_strlit("pgdn");
    assert("f12"@ != "pgdn"@) by { assert("f12"@.len() != "pgdn"@.len()); }
    reveal_strlit("f1");
    assert("f12"@ != "f1"@) by { assert("f12"@.len() != "f1"@.len()); }
    reveal_strlit("f2");
    assert("f12"@ != "f2"@) by { assert("f12"@.len() != "f2"@.len()); }
    reveal_strlit("f3");
    assert("f12"@ != "f3"@) by { assert("f12"@.len() != "f3"@.len()); }
    reveal_strlit("f4");
    assert("f12"@ != "f4"@) by { assert("f12"@.len() != "f4"@.len()); }
    reveal_strlit("f5");
    assert("f12"@ != "f5"@) by { assert("f12"@.len() != "f5"@.len()); }
    reveal_strlit("f6");
    assert("f12"@ != "f6"@) by { assert("f12"@.len() != "f6"@.len()); }
    reveal_strlit("f7");
    assert("f12"@ != "f7"@) by { assert("f12"@.len() != "f7"@.len()); }
    reveal_strlit("f8");
    assert("f12"@ != "f8"@) by { assert("f12"@.len() != "f8"@.len()); }
    reveal_strlit("f9");
    assert("f12"@ != "f9"@) by { assert("f12"@.len() != "f9"@.len()); }
    reveal_strlit("f10");
    assert("f12"@ != "f10"@) by { assert("f12"@[2] != "f10"@[2]); }
    reveal_strlit("f11");
    assert("f12"@ != "f11"@) by { assert("f12"@[2] != "f11"@[2]); }
}


/// The lowercased modifier names of a display form, in its order.
pub open spec fn modifier_names(ctrl: bool, alt: bool, shift: bool) -> Seq<Seq<char>> {
    (if ctrl { seq!["ctrl"@] } else { Seq::empty() }) + (if alt { seq!["alt"@] } else { Seq::empty() }) + (if shift {
        seq!["shift"@]
    } else {
        Seq::empty()
    })
}

/// A binding of a named key is read back from its display form, split at
/// '+' and lowercased: the modifiers it shows and its key's label give the
/// same binding.
pub proof fn lemma_named_binding_reads_back(k: NormalizedKey, ctrl: bool, alt: bool, shift: bool)
    requires
        !(k is Char),
        k matches NormalizedKey::F(n) ==> 1 <= n <= 12,
        k is BackTab ==> shift,
        k is Tab ==> !shift,
    ensures
        spec_binding_from_parts(modifier_names(ctrl, alt, shift), key_label(k), ascii_lower_str(key_label(k)))
            == Some(KeyBinding { key: k, ctrl, alt, shift }),
{
    reveal_strlit("ctrl");
    reveal_strlit("alt");
    reveal_strlit("shift");
    assert("alt"@ != "ctrl"@) by { assert("alt"@.len() != "ctrl"@.len()); }
    assert("shift"@ != "ctrl"@) by { assert("shift"@.len() != "ctrl"@.len()); }
    assert("shift"@ != "alt"@) by { assert("shift"@.len() != "alt"@.len()); }
    let a = if ctrl { seq!["ctrl"@] } else { Seq::<Seq<char>>::empty() };
    let b = if alt { seq!["alt"@] } else { Seq::<Seq<char>>::empty() };
    let c = if shift { seq!["shift"@] } else { Seq::<Seq<char>>::empty() };
    let m = modifier_names(ctrl, alt, shift);
    assert(modifier_flags(Seq::<Seq<char>>::empty()) == Some((false, false, false)));
    assert(modifier_flags(a) == Some((ctrl, false, false))) by {
        if ctrl {
            assert(a.drop_last() =~= Seq::<Seq<char>>::empty());
        }
    }
    assert(modifier_flags(a + b) == Some((ctrl, alt, false))) by {
        if alt {
            assert((a + b).drop_last() =~= a);
        } else {
            assert(a + b =~= a);
        }
    }
    assert(modifier_flags(m) == Some((ctrl, alt, shift))) by {
        if shift {
            assert(m.drop_last() =~= a + b);
        } else {
            assert(m =~= a + b);
        }
    }
    lemma_named_key_labels(k, shift);
}

} // verus!

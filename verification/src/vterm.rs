//! VTerm — VT100/xterm terminal emulator state machine.
//!
//! Supports cursor movement, erase, scroll regions, SGR (bold, italic,
//! underline, inverse, ANSI/256/RGB colors), alternate screen buffer,
//! DECSET/DECRST modes, OSC title, DSR 6n, and scrollback.
//!
//! The emulator is specified by a model (`VtModel`): every operation is
//! stated as a function from the model before to the model after.
use vstd::prelude::*;
use crate::grid::{grid_from, lemma_grid_ext, lemma_index_bounds};
use crate::render::Color;
use crate::text::{
    all_white_space, is_all_white_space, str_from_utf8, string_from_chars, string_from_utf8_lossy, utf8_lossy,
};

verus! {

// ---------------------------------------------------------------------------
// VTermCell — single cell in the grid
// ---------------------------------------------------------------------------

#[derive(Clone, Copy, Debug)]
pub struct VTermCell {
    pub ch: char,
    pub fg: Color,
    pub bg: Color,
    pub bold: bool,
    pub underline: bool,
    pub inverse: bool,
    pub italic: bool,
}

/// The blank cell: a space in the default colors, no attributes.
pub open spec fn blank() -> VTermCell {
    VTermCell {
        ch: ' ',
        fg: Color::Default,
        bg: Color::Default,
        bold: false,
        underline: false,
        inverse: false,
        italic: false,
    }
}

impl Default for VTermCell {
    fn default() -> (c: Self)
        ensures
            c == blank(),
    {
        Self {
            ch: ' ',
            fg: Color::Default,
            bg: Color::Default,
            bold: false,
            underline: false,
            inverse: false,
            italic: false,
        }
    }
}

/// The current graphic rendition (set by SGR) that new characters get.
#[derive(Clone, Copy, Debug)]
pub struct Pen {
    pub fg: Color,
    pub bg: Color,
    pub bold: bool,
    pub underline: bool,
    pub inverse: bool,
    pub italic: bool,
}

/// The rendition after a reset: default colors, no attributes.
pub open spec fn pen_reset() -> Pen {
    Pen {
        fg: Color::Default,
        bg: Color::Default,
        bold: false,
        underline: false,
        inverse: false,
        italic: false,
    }
}

/// The cell showing `ch` in rendition `p`.
pub open spec fn pen_cell(p: Pen, ch: char) -> VTermCell {
    VTermCell {
        ch,
        fg: p.fg,
        bg: p.bg,
        bold: p.bold,
        underline: p.underline,
        inverse: p.inverse,
        italic: p.italic,
    }
}

// ---------------------------------------------------------------------------
// Parser state
// ---------------------------------------------------------------------------

#[derive(Debug)]
enum ParseState {
    Normal,
    Escape,
    Csi(Vec<u8>),
    Osc(Vec<u8>),
}

/// Parser state of the model: plain text, after ESC, inside a CSI sequence
/// (parameter bytes so far), inside an OSC string (bytes so far).
pub enum ParseMode {
    Normal,
    Escape,
    Csi(Seq<u8>),
    Osc(Seq<u8>),
}

// ---------------------------------------------------------------------------
// Model
// ---------------------------------------------------------------------------

/// Everything the emulator holds, as mathematical values.
#[verifier::ext_equal]
pub struct VtModel {
    pub cols: u16,
    pub rows: u16,
    /// Visible grid, row-major.
    pub cells: Seq<VTermCell>,
    /// The main screen while the alternate screen is shown.
    pub alt_cells: Option<Seq<VTermCell>>,
    pub alt_active: bool,
    pub cursor_col: u16,
    pub cursor_row: u16,
    pub saved_cursor: (u16, u16),
    pub pen: Pen,
    pub scroll_top: u16,
    pub scroll_bot: u16,
    pub autowrap: bool,
    /// Cursor sits past the last column; the next printable wraps.
    pub pending_wrap: bool,
    pub state: ParseMode,
    /// Lines scrolled off the top, oldest first.
    pub scrollback: Seq<Seq<VTermCell>>,
    pub scrollback_max: usize,
    pub scroll_offset: usize,
    pub title: Seq<char>,
    pub cursor_visible: bool,
    /// Replies owed to the program (cursor position reports, device attributes).
    pub responses: Seq<Seq<u8>>,
    pub utf8_buf: Seq<u8>,
    pub utf8_remaining: u8,
    pub sel_anchor: Option<(u16, u16)>,
    pub sel_active: Option<(u16, u16)>,
}

/// Invariant of the model: the grids have `cols * rows` cells and the
/// cursor and scroll region lie inside the grid.
pub open spec fn model_wf(m: VtModel) -> bool {
    &&& m.cells.len() == m.cols * m.rows
    &&& (m.alt_cells matches Some(a) ==> a.len() == m.cols * m.rows)
    &&& (m.rows >= 1 ==> m.cursor_row < m.rows && m.scroll_top <= m.scroll_bot && m.scroll_bot
        < m.rows)
    &&& (m.cols >= 1 ==> m.cursor_col < m.cols)
    &&& m.utf8_buf.len() + m.utf8_remaining <= 4
}

/// A model the byte processing can run on: at least one row and one column.
pub open spec fn model_live(m: VtModel) -> bool {
    model_wf(m) && m.cols >= 1 && m.rows >= 1
}

/// A grid of `u16` dimensions fits in memory indices.
pub proof fn lemma_dims_fit(cols: u16, rows: u16)
    ensures
        cols * rows <= 0xFFFE_0001,
        (cols as usize) * (rows as usize) <= usize::MAX,
{
    assert(cols * rows <= 0xFFFE_0001) by (nonlinear_arith)
        requires
            cols <= 0xFFFF,
            rows <= 0xFFFF,
    ;
}

pub open spec fn min_int(a: int, b: int) -> int {
    if a <= b {
        a
    } else {
        b
    }
}

pub open spec fn sat_sub(a: int, b: int) -> int {
    if a >= b {
        a - b
    } else {
        0
    }
}

// ---------------------------------------------------------------------------
// VTerm
// ---------------------------------------------------------------------------

pub struct VTerm {
    cols: u16,
    rows: u16,
    cells: Vec<VTermCell>,
    alt_cells: Option<Vec<VTermCell>>,
    pub alt_active: bool,
    cursor_col: u16,
    cursor_row: u16,
    saved_cursor: (u16, u16),
    pen: Pen,
    pub scroll_top: u16,
    pub scroll_bot: u16,
    autowrap: bool,
    pending_wrap: bool,
    state: ParseState,
    scrollback: Vec<Vec<VTermCell>>,
    scrollback_max: usize,
    scroll_offset: usize,
    pub title: String,
    pub cursor_visible: bool,
    responses: Vec<Vec<u8>>,
    utf8_buf: Vec<u8>,
    utf8_remaining: u8,
    /// Mouse text selection (pane-local display coordinates): where the drag started.
    pub sel_anchor: Option<(u16, u16)>,
    /// Current drag endpoint.
    pub sel_active: Option<(u16, u16)>,
}

pub open spec fn rows_view(v: Seq<Vec<VTermCell>>) -> Seq<Seq<VTermCell>> {
    v.map_values(|r: Vec<VTermCell>| r@)
}

pub open spec fn bytes_view(v: Seq<Vec<u8>>) -> Seq<Seq<u8>> {
    v.map_values(|r: Vec<u8>| r@)
}

impl View for VTerm {
    type V = VtModel;

    closed spec fn view(&self) -> VtModel {
        VtModel {
            cols: self.cols,
            rows: self.rows,
            cells: self.cells@,
            alt_cells: match self.alt_cells {
                Some(a) => Some(a@),
                None => None,
            },
            alt_active: self.alt_active,
            cursor_col: self.cursor_col,
            cursor_row: self.cursor_row,
            saved_cursor: self.saved_cursor,
            pen: self.pen,
            scroll_top: self.scroll_top,
            scroll_bot: self.scroll_bot,
            autowrap: self.autowrap,
            pending_wrap: self.pending_wrap,
            state: match self.state {
                ParseState::Normal => ParseMode::Normal,
                ParseState::Escape => ParseMode::Escape,
                ParseState::Csi(b) => ParseMode::Csi(b@),
                ParseState::Osc(b) => ParseMode::Osc(b@),
            },
            scrollback: rows_view(self.scrollback@),
            scrollback_max: self.scrollback_max,
            scroll_offset: self.scroll_offset,
            title: self.title@,
            cursor_visible: self.cursor_visible,
            responses: bytes_view(self.responses@),
            utf8_buf: self.utf8_buf@,
            utf8_remaining: self.utf8_remaining,
            sel_anchor: self.sel_anchor,
            sel_active: self.sel_active,
        }
    }
}

fn blank_cells(n: usize) -> (v: Vec<VTermCell>)
    ensures
        v@ == Seq::new(n as nat, |i: int| blank()),
{
    let mut v: Vec<VTermCell> = Vec::new();
    let mut i: usize = 0;
    while i < n
        invariant
            i <= n,
            v@ == Seq::new(i as nat, |j: int| blank()),
        decreases n - i,
    {
        v.push(VTermCell::default());
        i = i + 1;
        assert(v@ =~= Seq::new(i as nat, |j: int| blank()));
    }
    v
}

/// The model of a fresh terminal of `cols` x `rows`.
pub open spec fn initial_model(cols: u16, rows: u16) -> VtModel {
    VtModel {
        cols,
        rows,
        cells: Seq::new((cols * rows) as nat, |i: int| blank()),
        alt_cells: None,
        alt_active: false,
        cursor_col: 0,
        cursor_row: 0,
        saved_cursor: (0, 0),
        pen: pen_reset(),
        scroll_top: 0,
        scroll_bot: sat_sub(rows as int, 1) as u16,
        autowrap: true,
        pending_wrap: false,
        state: ParseMode::Normal,
        scrollback: Seq::empty(),
        scrollback_max: 1000,
        scroll_offset: 0,
        title: Seq::empty(),
        cursor_visible: true,
        responses: Seq::empty(),
        utf8_buf: Seq::empty(),
        utf8_remaining: 0,
        sel_anchor: None,
        sel_active: None,
    }
}

/// Normalized selection: the earlier of anchor and active end first.
pub open spec fn spec_sel_range(m: VtModel) -> Option<((u16, u16), (u16, u16))> {
    match (m.sel_anchor, m.sel_active) {
        (Some(a), Some(b)) => if a.0 < b.0 || (a.0 == b.0 && a.1 <= b.1) {
            Some((a, b))
        } else {
            Some((b, a))
        },
        _ => None,
    }
}

/// Whether (row, col) lies in the selection, in reading order.
pub open spec fn spec_is_cell_selected(m: VtModel, row: u16, col: u16) -> bool {
    match spec_sel_range(m) {
        Some(((r1, c1), (r2, c2))) => {
            &&& r1 <= row <= r2
            &&& !(row == r1 && col < c1)
            &&& !(row == r2 && col > c2)
        },
        None => false,
    }
}

impl VTerm {
    pub closed spec fn wf(&self) -> bool {
        model_wf(self@)
    }

    pub fn new(cols: u16, rows: u16) -> (vt: Self)
        ensures
            vt@ == initial_model(cols, rows),
            model_wf(vt@),
    {
        proof {
            lemma_dims_fit(cols, rows);
        }
        let size = cols as usize * rows as usize;
        let bot: u16 = if rows >= 1 { rows - 1 } else { 0 };
        let vt = Self {
            cols,
            rows,
            cells: blank_cells(size),
            alt_cells: None,
            alt_active: false,
            cursor_col: 0,
            cursor_row: 0,
            saved_cursor: (0, 0),
            pen: Pen {
                fg: Color::Default,
                bg: Color::Default,
                bold: false,
                underline: false,
                inverse: false,
                italic: false,
            },
            scroll_top: 0,
            scroll_bot: bot,
            autowrap: true,
            pending_wrap: false,
            state: ParseState::Normal,
            scrollback: Vec::new(),
            scrollback_max: 1000,
            scroll_offset: 0,
            title: String::new(),
            cursor_visible: true,
            responses: Vec::new(),
            utf8_buf: Vec::new(),
            utf8_remaining: 0,
            sel_anchor: None,
            sel_active: None,
        };
        assert(vt@ =~= initial_model(cols, rows));
        vt
    }

    pub fn cells(&self) -> (c: &[VTermCell])
        ensures
            c@ == self@.cells,
    {
        self.cells.as_slice()
    }

    pub fn cols(&self) -> (c: u16)
        ensures
            c == self@.cols,
    {
        self.cols
    }

    pub fn rows(&self) -> (r: u16)
        ensures
            r == self@.rows,
    {
        self.rows
    }

    pub fn cursor_pos(&self) -> (p: (u16, u16))
        ensures
            p == (self@.cursor_row, self@.cursor_col),
    {
        (self.cursor_row, self.cursor_col)
    }

    pub fn cursor_visible(&self) -> (v: bool)
        ensures
            v == self@.cursor_visible,
    {
        self.cursor_visible
    }

    /// Scroll the view into the scrollback (`delta < 0`, bounded by the
    /// scrollback length) or back towards the live screen (`delta > 0`).
    pub fn scroll_view(&mut self, delta: isize)
        ensures
            final(self)@ == (VtModel {
                scroll_offset: if delta < 0 {
                    min_int(
                        min_int(old(self)@.scroll_offset - delta, usize::MAX as int),
                        old(self)@.scrollback.len() as int,
                    ) as usize
                } else {
                    sat_sub(old(self)@.scroll_offset as int, delta as int) as usize
                },
                ..old(self)@
            }),
    {
        let max = self.scrollback.len();
        if delta < 0 {
            let d: usize = if delta == isize::MIN {
                (isize::MAX as usize) + 1
            } else {
                (-delta) as usize
            };
            let s = self.scroll_offset.saturating_add(d);
            self.scroll_offset = if s < max { s } else { max };
        } else {
            self.scroll_offset = self.scroll_offset.saturating_sub(delta as usize);
        }
        assert(self@ =~= (VtModel { scroll_offset: self.scroll_offset, ..old(self)@ }));
    }

    pub fn scroll_offset(&self) -> (o: usize)
        ensures
            o == self@.scroll_offset,
    {
        self.scroll_offset
    }

    pub fn scrollback(&self) -> (s: &[Vec<VTermCell>])
        ensures
            rows_view(s@) == self@.scrollback,
    {
        self.scrollback.as_slice()
    }

    /// Hand over the queued replies and empty the queue.
    pub fn take_responses(&mut self) -> (r: Vec<Vec<u8>>)
        ensures
            bytes_view(r@) == old(self)@.responses,
            final(self)@ == (VtModel { responses: Seq::empty(), ..old(self)@ }),
    {
        let mut r: Vec<Vec<u8>> = Vec::new();
        std::mem::swap(&mut r, &mut self.responses);
        assert(bytes_view(self.responses@) =~= Seq::<Seq<u8>>::empty());
        assert(self@ =~= (VtModel { responses: Seq::empty(), ..old(self)@ }));
        r
    }

    // -- Text selection --

    pub fn set_sel_anchor(&mut self, row: u16, col: u16)
        ensures
            final(self)@ == (VtModel { sel_anchor: Some((row, col)), sel_active: None, ..old(self)@ }),
    {
        self.sel_anchor = Some((row, col));
        self.sel_active = None;
        assert(self@ =~= (VtModel { sel_anchor: Some((row, col)), sel_active: None, ..old(self)@ }));
    }

    pub fn set_sel_active(&mut self, row: u16, col: u16)
        ensures
            final(self)@ == (VtModel { sel_active: Some((row, col)), ..old(self)@ }),
    {
        self.sel_active = Some((row, col));
        assert(self@ =~= (VtModel { sel_active: Some((row, col)), ..old(self)@ }));
    }

    pub fn clear_selection(&mut self)
        ensures
            final(self)@ == (VtModel { sel_anchor: None, sel_active: None, ..old(self)@ }),
    {
        self.sel_anchor = None;
        self.sel_active = None;
        assert(self@ =~= (VtModel { sel_anchor: None, sel_active: None, ..old(self)@ }));
    }

    pub fn has_selection(&self) -> (b: bool)
        ensures
            b == (self@.sel_anchor is Some && self@.sel_active is Some),
    {
        self.sel_anchor.is_some() && self.sel_active.is_some()
    }

    /// Return normalized selection range ((r1,c1),(r2,c2)) with r1<=r2.
    pub fn sel_range(&self) -> (r: Option<((u16, u16), (u16, u16))>)
        ensures
            r == spec_sel_range(self@),
    {
        let a = match self.sel_anchor {
            Some(a) => a,
            None => return None,
        };
        let b = match self.sel_active {
            Some(b) => b,
            None => return None,
        };
        if a.0 < b.0 || (a.0 == b.0 && a.1 <= b.1) {
            Some((a, b))
        } else {
            Some((b, a))
        }
    }

    /// True if the cell at (local_row, local_col) falls inside the selection.
    pub fn is_cell_selected(&self, local_row: u16, local_col: u16) -> (b: bool)
        ensures
            b == spec_is_cell_selected(self@, local_row, local_col),
    {
        let ((r1, c1), (r2, c2)) = match self.sel_range() {
            Some(r) => r,
            None => return false,
        };
        if local_row < r1 || local_row > r2 {
            return false;
        }
        if local_row == r1 && local_col < c1 {
            return false;
        }
        if local_row == r2 && local_col > c2 {
            return false;
        }
        true
    }
}


// ---------------------------------------------------------------------------
// Grid helpers
// ---------------------------------------------------------------------------

/// Cell (r, c) of a row-major grid `cols` wide.
pub open spec fn gat(s: Seq<VTermCell>, cols: nat, r: int, c: int) -> VTermCell {
    s[r * cols + c]
}

/// Blank the cells with linear index in `[from, to)`.
fn grid_blank_range(cells: &mut Vec<VTermCell>, from: usize, to: usize)
    requires
        to <= old(cells)@.len(),
    ensures
        final(cells)@ == Seq::new(old(cells)@.len(), |i: int| if from <= i < to { blank() } else { old(cells)@[i] }),
{
    let mut i: usize = from;
    while i < to
        invariant
            to <= cells@.len() == old(cells)@.len(),
            from <= i,
            i <= to || i == from,
            forall|j: int| 0 <= j < cells@.len() ==> #[trigger] cells@[j] == if from <= j < i { blank() } else { old(cells)@[j] },
        decreases to - i,
    {
        cells.set(i, VTermCell::default());
        i = i + 1;
    }
    assert(cells@ =~= Seq::new(old(cells)@.len(), |i: int| if from <= i < to { blank() } else { old(cells)@[i] }));
}


/// `new[j] = old[j + n]` for `from <= j < to`, in increasing `j`.
fn grid_shift_left(cells: &mut Vec<VTermCell>, from: usize, to: usize, n: usize)
    requires
        from <= to,
        to + n <= old(cells)@.len(),
    ensures
        final(cells)@ == Seq::new(old(cells)@.len(), |j: int| if from <= j < to { old(cells)@[j + n] } else { old(cells)@[j] }),
{
    let len = cells.len();
    let mut i: usize = from;
    while i < to
        invariant
            from <= i <= to,
            len == cells@.len(),
            to + n <= cells@.len() == old(cells)@.len(),
            forall|j: int| 0 <= j < cells@.len() ==> #[trigger] cells@[j] == if from <= j < i { old(cells)@[j + n] } else { old(cells)@[j] },
        decreases to - i,
    {
        let v = cells[i + n];
        cells.set(i, v);
        i = i + 1;
    }
    assert(cells@ =~= Seq::new(old(cells)@.len(), |j: int| if from <= j < to { old(cells)@[j + n] } else { old(cells)@[j] }));
}

/// `new[j] = old[j - n]` for `from <= j < to`, in decreasing `j`.
fn grid_shift_right(cells: &mut Vec<VTermCell>, from: usize, to: usize, n: usize)
    requires
        n <= from <= to,
        to <= old(cells)@.len(),
    ensures
        final(cells)@ == Seq::new(old(cells)@.len(), |j: int| if from <= j < to { old(cells)@[j - n] } else { old(cells)@[j] }),
{
    let mut i: usize = to;
    while i > from
        invariant
            from <= i <= to,
            n <= from,
            to <= cells@.len() == old(cells)@.len(),
            forall|j: int| 0 <= j < cells@.len() ==> #[trigger] cells@[j] == if i <= j < to { old(cells)@[j - n] } else { old(cells)@[j] },
        decreases i - from,
    {
        i = i - 1;
        let v = cells[i - n];
        cells.set(i, v);
    }
    assert(cells@ =~= Seq::new(old(cells)@.len(), |j: int| if from <= j < to { old(cells)@[j - n] } else { old(cells)@[j] }));
}

/// `a * c <= b * c` for `a <= b`, and products of grid sizes stay bounded.
proof fn lemma_mul_le(a: int, b: int, c: int)
    requires
        0 <= a <= b,
        0 <= c,
    ensures
        0 <= a * c <= b * c,
        (a + 1) * c == a * c + c,
        (b + 1) * c == b * c + c,
        b * c == c * b,
        a * c == c * a,
{
    assert((b + 1) * c == b * c + c) by (nonlinear_arith);
    assert(b * c == c * b) by (nonlinear_arith);
    assert(a * c == c * a) by (nonlinear_arith);
    assert(0 <= a * c <= b * c) by (nonlinear_arith)
        requires
            0 <= a <= b,
            0 <= c,
    ;
    assert((a + 1) * c == a * c + c) by (nonlinear_arith);
}

// ---------------------------------------------------------------------------
// Screen operations (model)
// ---------------------------------------------------------------------------

/// Append `line` to the scrollback, dropping the oldest line beyond `max`.
pub open spec fn push_capped(sb: Seq<Seq<VTermCell>>, line: Seq<VTermCell>, max: usize) -> Seq<Seq<VTermCell>> {
    let s = sb.push(line);
    if s.len() > max {
        s.drop_first()
    } else {
        s
    }
}

/// Scroll the region up one line: the top line goes to the scrollback when
/// the region starts at row 0 on the main screen, a blank line enters at
/// the bottom, and the view snaps back to the live screen.
pub open spec fn m_scroll_up(m: VtModel) -> VtModel {
    let cols = m.cols as int;
    let top = m.scroll_top as int;
    let bot = m.scroll_bot as int;
    VtModel {
        scrollback: if !m.alt_active && top == 0 {
            push_capped(m.scrollback, m.cells.take(cols), m.scrollback_max)
        } else {
            m.scrollback
        },
        cells: Seq::new(
            m.cells.len(),
            |j: int|
                if top * cols <= j < bot * cols {
                    m.cells[j + cols]
                } else if bot * cols <= j < bot * cols + cols {
                    blank()
                } else {
                    m.cells[j]
                },
        ),
        scroll_offset: 0,
        ..m
    }
}

/// Scroll the region down one line: a blank line enters at the top.
pub open spec fn m_scroll_down(m: VtModel) -> VtModel {
    let cols = m.cols as int;
    let top = m.scroll_top as int;
    let bot = m.scroll_bot as int;
    VtModel {
        cells: Seq::new(
            m.cells.len(),
            |j: int|
                if top * cols + cols <= j < bot * cols + cols {
                    m.cells[j - cols]
                } else if top * cols <= j < top * cols + cols {
                    blank()
                } else {
                    m.cells[j]
                },
        ),
        ..m
    }
}

/// Move down a line, scrolling when the cursor is on the region's bottom line.
pub open spec fn m_line_feed(m: VtModel) -> VtModel {
    if m.cursor_row == m.scroll_bot {
        m_scroll_up(m)
    } else if m.cursor_row < m.rows - 1 {
        VtModel { cursor_row: (m.cursor_row + 1) as u16, ..m }
    } else {
        m
    }
}

/// Move up a line, scrolling down when the cursor is on the region's top line.
pub open spec fn m_reverse_index(m: VtModel) -> VtModel {
    if m.cursor_row == m.scroll_top {
        m_scroll_down(m)
    } else if m.cursor_row > 0 {
        VtModel { cursor_row: (m.cursor_row - 1) as u16, ..m }
    } else {
        m
    }
}

/// Linear index of the cursor.
pub open spec fn cursor_index(m: VtModel) -> int {
    m.cursor_row * m.cols + m.cursor_col
}

/// Blank the cells whose linear index is in `[from, to)`.
pub open spec fn blank_between(cells: Seq<VTermCell>, from: int, to: int) -> Seq<VTermCell> {
    Seq::new(cells.len(), |j: int| if from <= j < to { blank() } else { cells[j] })
}

/// ED: 0 erases from the cursor to the end, 1 from the start through the
/// cursor, 2 everything, 3 everything and the scrollback.
pub open spec fn m_erase_display(m: VtModel, mode: u16) -> VtModel {
    if mode == 0 {
        VtModel { cells: blank_between(m.cells, cursor_index(m), m.cells.len() as int), ..m }
    } else if mode == 1 {
        VtModel {
            cells: blank_between(m.cells, 0, min_int(cursor_index(m) + 1, m.cells.len() as int)),
            ..m
        }
    } else if mode == 2 {
        VtModel { cells: blank_between(m.cells, 0, m.cells.len() as int), ..m }
    } else if mode == 3 {
        VtModel {
            cells: blank_between(m.cells, 0, m.cells.len() as int),
            scrollback: Seq::empty(),
            ..m
        }
    } else {
        m
    }
}

/// EL: 0 erases from the cursor to the end of the line, 1 from the start of
/// the line through the cursor, 2 the whole line.
pub open spec fn m_erase_line(m: VtModel, mode: u16) -> VtModel {
    let start = m.cursor_row * m.cols;
    if mode == 0 {
        VtModel { cells: blank_between(m.cells, start + m.cursor_col, start + m.cols), ..m }
    } else if mode == 1 {
        VtModel {
            cells: blank_between(m.cells, start, min_int(start + m.cursor_col + 1, start + m.cols)),
            ..m
        }
    } else if mode == 2 {
        VtModel { cells: blank_between(m.cells, start, start + m.cols), ..m }
    } else {
        m
    }
}

/// Lines affected by IL/DL at the cursor: `n`, at most down to the region's bottom.
pub open spec fn line_count(m: VtModel, n: u16) -> int {
    min_int(n as int, sat_sub(m.scroll_bot as int, m.cursor_row as int) + 1)
}

/// IL: open `n` blank lines at the cursor row, pushing the lines below
/// down within the region.
pub open spec fn m_insert_lines(m: VtModel, n: u16) -> VtModel {
    let cols = m.cols as int;
    let row = m.cursor_row as int;
    let bot = m.scroll_bot as int;
    let k = line_count(m, n);
    VtModel {
        cells: Seq::new(
            m.cells.len(),
            |j: int|
                if row * cols <= j < (row + k) * cols {
                    blank()
                } else if (row + k) * cols <= j < (bot + 1) * cols {
                    m.cells[j - k * cols]
                } else {
                    m.cells[j]
                },
        ),
        ..m
    }
}

/// DL: remove `n` lines at the cursor row, pulling the lines below up and
/// blanking the region's last lines.
pub open spec fn m_delete_lines(m: VtModel, n: u16) -> VtModel {
    let cols = m.cols as int;
    let row = m.cursor_row as int;
    let bot = m.scroll_bot as int;
    let k = line_count(m, n);
    VtModel {
        cells: Seq::new(
            m.cells.len(),
            |j: int|
                if (bot + 1 - k) * cols <= j < (bot + 1) * cols {
                    blank()
                } else if row * cols <= j < (sat_sub(bot, k) + 1) * cols {
                    m.cells[j + k * cols]
                } else {
                    m.cells[j]
                },
        ),
        ..m
    }
}

/// DL reads a line below the screen when, from the top line, it removes the
/// whole region and the region reaches the last line.
pub open spec fn delete_lines_ok(m: VtModel, n: u16) -> bool {
    !(m.cursor_row == 0 && line_count(m, n) == m.scroll_bot + 1 && m.scroll_bot + 1 >= m.rows)
}

/// Characters affected by DCH/ICH/ECH: `n`, at most to the end of the line.
pub open spec fn char_count(m: VtModel, n: u16) -> int {
    min_int(n as int, m.cols - m.cursor_col)
}

/// DCH: delete `n` characters at the cursor, pulling the rest of the line left.
pub open spec fn m_delete_chars(m: VtModel, n: u16) -> VtModel {
    let start = m.cursor_row * m.cols;
    let k = char_count(m, n);
    VtModel {
        cells: Seq::new(
            m.cells.len(),
            |j: int|
                if start + m.cursor_col <= j < start + m.cols - k {
                    m.cells[j + k]
                } else if start + m.cols - k <= j < start + m.cols {
                    blank()
                } else {
                    m.cells[j]
                },
        ),
        ..m
    }
}

/// ICH: insert `n` blanks at the cursor, pushing the rest of the line right.
pub open spec fn m_insert_chars(m: VtModel, n: u16) -> VtModel {
    let start = m.cursor_row * m.cols;
    let k = char_count(m, n);
    VtModel {
        cells: Seq::new(
            m.cells.len(),
            |j: int|
                if start + m.cursor_col + k <= j < start + m.cols {
                    m.cells[j - k]
                } else if start + m.cursor_col <= j < start + m.cursor_col + k {
                    blank()
                } else {
                    m.cells[j]
                },
        ),
        ..m
    }
}

/// ECH: blank `n` characters from the cursor.
pub open spec fn m_erase_chars(m: VtModel, n: u16) -> VtModel {
    let start = m.cursor_row * m.cols;
    VtModel {
        cells: blank_between(m.cells, start + m.cursor_col, start + m.cursor_col + char_count(m, n)),
        ..m
    }
}

/// Print `ch` at the cursor in the current rendition, wrapping first when a
/// wrap is pending, then advance (or mark a pending wrap at the last column).
pub open spec fn m_put_char(m: VtModel, ch: char) -> VtModel {
    let m1 = if m.pending_wrap && m.autowrap {
        m_line_feed(VtModel { pending_wrap: false, cursor_col: 0, ..m })
    } else {
        m
    };
    let m2 = VtModel { cells: m1.cells.update(cursor_index(m1), pen_cell(m1.pen, ch)), ..m1 };
    if m2.cursor_col + 1 >= m2.cols {
        VtModel { pending_wrap: true, ..m2 }
    } else {
        VtModel { cursor_col: (m2.cursor_col + 1) as u16, ..m2 }
    }
}

/// RIS: blank screen, main buffer, home cursor, default rendition, full
/// scroll region, autowrap on, cursor shown, no title.
pub open spec fn m_full_reset(m: VtModel) -> VtModel {
    VtModel {
        cells: Seq::new((m.cols * m.rows) as nat, |i: int| blank()),
        alt_cells: None,
        alt_active: false,
        cursor_row: 0,
        cursor_col: 0,
        saved_cursor: (0, 0),
        pen: pen_reset(),
        scroll_top: 0,
        scroll_bot: sat_sub(m.rows as int, 1) as u16,
        autowrap: true,
        pending_wrap: false,
        state: ParseMode::Normal,
        cursor_visible: true,
        title: Seq::empty(),
        ..m
    }
}


fn prefix_vec(v: &Vec<VTermCell>, n: usize) -> (r: Vec<VTermCell>)
    requires
        n <= v@.len(),
    ensures
        r@ == v@.take(n as int),
{
    let mut r: Vec<VTermCell> = Vec::new();
    let mut i: usize = 0;
    while i < n
        invariant
            i <= n <= v@.len(),
            r@ == v@.take(i as int),
        decreases n - i,
    {
        r.push(v[i]);
        i = i + 1;
        assert(r@ =~= v@.take(i as int));
    }
    r
}

// ---------------------------------------------------------------------------
// Screen operations (implementation)
// ---------------------------------------------------------------------------

impl VTerm {
    fn scroll_up(&mut self)
        requires
            model_live(old(self)@),
        ensures
            final(self)@ == m_scroll_up(old(self)@),
            model_live(final(self)@),
    {
        let ghost m = self@;
        let top = self.scroll_top as usize;
        let bot = self.scroll_bot as usize;
        let cols = self.cols as usize;
        let rows = self.rows as usize;
        proof {
            lemma_dims_fit(self.cols, self.rows);
            lemma_mul_le(top as int, bot as int, cols as int);
            lemma_mul_le(bot as int + 1, rows as int, cols as int);
            lemma_mul_le(1, rows as int, cols as int);
        }
        if !self.alt_active && top == 0 {
            let line = prefix_vec(&self.cells, cols);
            let ghost sb0 = self.scrollback@;
            self.scrollback.push(line);
            assert(rows_view(self.scrollback@) =~= rows_view(sb0).push(m.cells.take(cols as int)));
            if self.scrollback.len() > self.scrollback_max {
                let ghost sb1 = self.scrollback@;
                self.scrollback.remove(0);
                assert(rows_view(self.scrollback@) =~= rows_view(sb1).drop_first());
            }
        }
        grid_shift_left(&mut self.cells, top * cols, bot * cols, cols);
        grid_blank_range(&mut self.cells, bot * cols, bot * cols + cols);
        self.scroll_offset = 0;
        assert(self@.cells =~= m_scroll_up(m).cells);
        assert(self@ =~= m_scroll_up(m));
    }

    fn scroll_down(&mut self)
        requires
            model_live(old(self)@),
        ensures
            final(self)@ == m_scroll_down(old(self)@),
            model_live(final(self)@),
    {
        let ghost m = self@;
        proof {
            lemma_dims_fit(self.cols, self.rows);
            lemma_mul_le(self.scroll_top as int + 1, self.scroll_bot as int + 1, self.cols as int);
            lemma_mul_le(self.scroll_bot as int + 1, self.rows as int, self.cols as int);
            lemma_mul_le(self.scroll_top as int, self.scroll_bot as int, self.cols as int);
        }
        let top = self.scroll_top as usize;
        let bot = self.scroll_bot as usize;
        let cols = self.cols as usize;
        grid_shift_right(&mut self.cells, top * cols + cols, bot * cols + cols, cols);
        grid_blank_range(&mut self.cells, top * cols, top * cols + cols);
        assert(self@.cells =~= m_scroll_down(m).cells);
        assert(self@ =~= m_scroll_down(m));
    }

    fn line_feed(&mut self)
        requires
            model_live(old(self)@),
        ensures
            final(self)@ == m_line_feed(old(self)@),
            model_live(final(self)@),
    {
        if self.cursor_row == self.scroll_bot {
            self.scroll_up();
        } else if self.cursor_row < self.rows - 1 {
            self.cursor_row = self.cursor_row + 1;
            assert(self@ =~= m_line_feed(old(self)@));
        }
    }

    fn reverse_index(&mut self)
        requires
            model_live(old(self)@),
        ensures
            final(self)@ == m_reverse_index(old(self)@),
            model_live(final(self)@),
    {
        if self.cursor_row == self.scroll_top {
            self.scroll_down();
        } else if self.cursor_row > 0 {
            self.cursor_row = self.cursor_row - 1;
            assert(self@ =~= m_reverse_index(old(self)@));
        }
    }

    fn erase_display(&mut self, mode: u16)
        requires
            model_live(old(self)@),
        ensures
            final(self)@ == m_erase_display(old(self)@, mode),
            model_live(final(self)@),
    {
        let ghost m = self@;
        proof {
            lemma_dims_fit(self.cols, self.rows);
            lemma_mul_le(self.cursor_row as int + 1, self.rows as int, self.cols as int);
            lemma_index_bounds(self.cols as nat, self.rows as nat, self.cursor_row as int, self.cursor_col as int);
        }
        let cols = self.cols as usize;
        let len = self.cells.len();
        if mode == 0 {
            let start = self.cursor_row as usize * cols + self.cursor_col as usize;
            grid_blank_range(&mut self.cells, start, len);
        } else if mode == 1 {
            let end = self.cursor_row as usize * cols + self.cursor_col as usize + 1;
            let e = if end < len { end } else { len };
            grid_blank_range(&mut self.cells, 0, e);
        } else if mode == 2 || mode == 3 {
            grid_blank_range(&mut self.cells, 0, len);
            if mode == 3 {
                self.scrollback.clear();
                assert(rows_view(self.scrollback@) =~= Seq::<Seq<VTermCell>>::empty());
            }
        }
        assert(self@ =~= m_erase_display(m, mode));
    }

    fn erase_line(&mut self, mode: u16)
        requires
            model_live(old(self)@),
        ensures
            final(self)@ == m_erase_line(old(self)@, mode),
            model_live(final(self)@),
    {
        let ghost m = self@;
        proof {
            lemma_dims_fit(self.cols, self.rows);
            lemma_mul_le(self.cursor_row as int + 1, self.rows as int, self.cols as int);
            lemma_index_bounds(self.cols as nat, self.rows as nat, self.cursor_row as int, self.cursor_col as int);
        }
        let cols = self.cols as usize;
        let row_start = self.cursor_row as usize * cols;
        if mode == 0 {
            grid_blank_range(&mut self.cells, row_start + self.cursor_col as usize, row_start + cols);
        } else if mode == 1 {
            let end = row_start + self.cursor_col as usize + 1;
            let e = if end < row_start + cols { end } else { row_start + cols };
            grid_blank_range(&mut self.cells, row_start, e);
        } else if mode == 2 {
            grid_blank_range(&mut self.cells, row_start, row_start + cols);
        }
        assert(self@ =~= m_erase_line(m, mode));
    }

    fn insert_lines(&mut self, n: u16)
        requires
            model_live(old(self)@),
        ensures
            final(self)@ == m_insert_lines(old(self)@, n),
            model_live(final(self)@),
    {
        let ghost m = self@;
        let row = self.cursor_row as usize;
        let bot = self.scroll_bot as usize;
        let cols = self.cols as usize;
        let span: usize = if bot >= row { bot - row + 1 } else { 1 };
        let k: usize = if (n as usize) < span { n as usize } else { span };
        proof {
            lemma_dims_fit(self.cols, self.rows);
            lemma_mul_le(row as int + k as int, self.rows as int, cols as int);
            lemma_mul_le(bot as int + 1, self.rows as int, cols as int);
            lemma_mul_le(k as int, row as int + k as int, cols as int);
            lemma_mul_le(row as int, row as int + k as int, cols as int);
            assert((row + k) * cols == row * cols + k * cols) by (nonlinear_arith);
            if row + k <= bot {
                lemma_mul_le(row as int + k as int, bot as int + 1, cols as int);
            } else {
                lemma_mul_le(bot as int + 1, row as int + k as int, cols as int);
            }
        }
        if row + k <= bot {
            grid_shift_right(&mut self.cells, (row + k) * cols, (bot + 1) * cols, k * cols);
        }
        grid_blank_range(&mut self.cells, row * cols, (row + k) * cols);
        assert(self@.cells =~= m_insert_lines(m, n).cells);
        assert(self@ =~= m_insert_lines(m, n));
    }

    fn delete_lines(&mut self, n: u16)
        requires
            model_live(old(self)@),
            delete_lines_ok(old(self)@, n),
        ensures
            final(self)@ == m_delete_lines(old(self)@, n),
            model_live(final(self)@),
    {
        let ghost m = self@;
        let row = self.cursor_row as usize;
        let bot = self.scroll_bot as usize;
        let cols = self.cols as usize;
        let span: usize = if bot >= row { bot - row + 1 } else { 1 };
        let k: usize = if (n as usize) < span { n as usize } else { span };
        let upper: usize = if bot >= k { bot - k } else { 0 };
        proof {
            lemma_dims_fit(self.cols, self.rows);
            if row <= upper {
                lemma_mul_le(upper as int + 1 + k as int, self.rows as int, cols as int);
                lemma_mul_le(row as int, upper as int + 1, cols as int);
            } else {
                lemma_mul_le(upper as int + 1, row as int, cols as int);
            }
            lemma_mul_le(bot as int + 1 - k as int, bot as int + 1, cols as int);
            lemma_mul_le(bot as int + 1, self.rows as int, cols as int);
            assert((upper + 1 + k) * cols == (upper + 1) * cols + k * cols) by (nonlinear_arith);
            assert(0 <= k * cols) by (nonlinear_arith)
                requires
                    0 <= k,
                    0 <= cols,
            ;
        }
        if row <= upper {
            grid_shift_left(&mut self.cells, row * cols, (upper + 1) * cols, k * cols);
        }
        grid_blank_range(&mut self.cells, (bot + 1 - k) * cols, (bot + 1) * cols);
        assert(self@.cells =~= m_delete_lines(m, n).cells);
        assert(self@ =~= m_delete_lines(m, n));
    }

    fn delete_chars(&mut self, n: u16)
        requires
            model_live(old(self)@),
        ensures
            final(self)@ == m_delete_chars(old(self)@, n),
            model_live(final(self)@),
    {
        let ghost m = self@;
        proof {
            lemma_dims_fit(self.cols, self.rows);
            lemma_mul_le(self.cursor_row as int + 1, self.rows as int, self.cols as int);
            lemma_index_bounds(self.cols as nat, self.rows as nat, self.cursor_row as int, self.cursor_col as int);
        }
        let cols = self.cols as usize;
        let col = self.cursor_col as usize;
        let room = cols - col;
        let k: usize = if (n as usize) < room { n as usize } else { room };
        let start = self.cursor_row as usize * cols;
        grid_shift_left(&mut self.cells, start + col, start + cols - k, k);
        grid_blank_range(&mut self.cells, start + cols - k, start + cols);
        assert(self@.cells =~= m_delete_chars(m, n).cells);
        assert(self@ =~= m_delete_chars(m, n));
    }

    fn insert_chars(&mut self, n: u16)
        requires
            model_live(old(self)@),
        ensures
            final(self)@ == m_insert_chars(old(self)@, n),
            model_live(final(self)@),
    {
        let ghost m = self@;
        proof {
            lemma_dims_fit(self.cols, self.rows);
            lemma_mul_le(self.cursor_row as int + 1, self.rows as int, self.cols as int);
            lemma_index_bounds(self.cols as nat, self.rows as nat, self.cursor_row as int, self.cursor_col as int);
        }
        let cols = self.cols as usize;
        let col = self.cursor_col as usize;
        let room = cols - col;
        let k: usize = if (n as usize) < room { n as usize } else { room };
        let start = self.cursor_row as usize * cols;
        grid_shift_right(&mut self.cells, start + col + k, start + cols, k);
        grid_blank_range(&mut self.cells, start + col, start + col + k);
        assert(self@.cells =~= m_insert_chars(m, n).cells);
        assert(self@ =~= m_insert_chars(m, n));
    }

    fn erase_chars(&mut self, n: u16)
        requires
            model_live(old(self)@),
        ensures
            final(self)@ == m_erase_chars(old(self)@, n),
            model_live(final(self)@),
    {
        let ghost m = self@;
        proof {
            lemma_dims_fit(self.cols, self.rows);
            lemma_mul_le(self.cursor_row as int + 1, self.rows as int, self.cols as int);
            lemma_index_bounds(self.cols as nat, self.rows as nat, self.cursor_row as int, self.cursor_col as int);
        }
        let cols = self.cols as usize;
        let col = self.cursor_col as usize;
        let room = cols - col;
        let k: usize = if (n as usize) < room { n as usize } else { room };
        let start = self.cursor_row as usize * cols;
        grid_blank_range(&mut self.cells, start + col, start + col + k);
        assert(self@ =~= m_erase_chars(m, n));
    }

    fn put_char(&mut self, ch: char)
        requires
            model_live(old(self)@),
        ensures
            final(self)@ == m_put_char(old(self)@, ch),
            model_live(final(self)@),
    {
        let ghost m = self@;
        if self.pending_wrap && self.autowrap {
            self.pending_wrap = false;
            self.cursor_col = 0;
            self.line_feed();
        }
        let ghost m1 = self@;
        assert(m1 == (if m.pending_wrap && m.autowrap {
            m_line_feed(VtModel { pending_wrap: false, cursor_col: 0, ..m })
        } else {
            m
        }));
        proof {
            lemma_dims_fit(self.cols, self.rows);
            lemma_index_bounds(self.cols as nat, self.rows as nat, self.cursor_row as int, self.cursor_col as int);
        }
        let idx = self.cursor_row as usize * self.cols as usize + self.cursor_col as usize;
        let p = self.pen;
        self.cells.set(
            idx,
            VTermCell {
                ch,
                fg: p.fg,
                bg: p.bg,
                bold: p.bold,
                underline: p.underline,
                inverse: p.inverse,
                italic: p.italic,
            },
        );
        if self.cursor_col + 1 >= self.cols {
            self.pending_wrap = true;
        } else {
            self.cursor_col = self.cursor_col + 1;
        }
        assert(self@ =~= m_put_char(m, ch));
    }

    fn full_reset(&mut self)
        requires
            model_wf(old(self)@),
        ensures
            final(self)@ == m_full_reset(old(self)@),
            model_wf(final(self)@),
    {
        proof {
            lemma_dims_fit(self.cols, self.rows);
        }
        let size = self.cols as usize * self.rows as usize;
        self.cells = blank_cells(size);
        self.alt_cells = None;
        self.alt_active = false;
        self.cursor_row = 0;
        self.cursor_col = 0;
        self.saved_cursor = (0, 0);
        self.pen = Pen {
            fg: Color::Default,
            bg: Color::Default,
            bold: false,
            underline: false,
            inverse: false,
            italic: false,
        };
        self.scroll_top = 0;
        self.scroll_bot = if self.rows >= 1 { self.rows - 1 } else { 0 };
        self.autowrap = true;
        self.pending_wrap = false;
        self.state = ParseState::Normal;
        self.cursor_visible = true;
        self.title = String::new();
        assert(self@ =~= m_full_reset(old(self)@));
    }
}


// ---------------------------------------------------------------------------
// Control sequence parameters
// ---------------------------------------------------------------------------

pub open spec fn is_digit(b: u8) -> bool {
    0x30 <= b <= 0x39
}

pub open spec fn all_digits(p: Seq<u8>) -> bool {
    forall|i: int| 0 <= i < p.len() ==> is_digit(#[trigger] p[i])
}

/// Decimal value of a string of digits.
pub open spec fn digits_value(p: Seq<u8>) -> nat
    decreases p.len(),
{
    if p.len() == 0 {
        0
    } else {
        digits_value(p.drop_last()) * 10 + (p.last() - 0x30) as nat
    }
}

/// A parameter as `u16`: its decimal value, or 0 when it is empty, holds a
/// non-digit, or does not fit.
pub open spec fn param_value(p: Seq<u8>) -> u16 {
    if p.len() > 0 && all_digits(p) && digits_value(p) <= 0xFFFF {
        digits_value(p) as u16
    } else {
        0
    }
}

/// The pieces of `b` between `;` separators (one piece when there is none).
pub open spec fn split_semi(b: Seq<u8>) -> Seq<Seq<u8>>
    decreases b.len(),
{
    if b.len() == 0 {
        seq![Seq::empty()]
    } else {
        let s = split_semi(b.drop_last());
        if b.last() == 0x3b {
            s.push(Seq::empty())
        } else {
            s.update(s.len() - 1, s.last().push(b.last()))
        }
    }
}

proof fn lemma_split_semi_nonempty(b: Seq<u8>)
    ensures
        split_semi(b).len() >= 1,
    decreases b.len(),
{
    if b.len() > 0 {
        lemma_split_semi_nonempty(b.drop_last());
    }
}

/// The numeric parameters of a control sequence: none for an empty
/// parameter string, else one per `;`-separated piece.
pub open spec fn csi_params(b: Seq<u8>) -> Seq<u16> {
    if b.len() == 0 {
        Seq::empty()
    } else {
        split_semi(b).map_values(|p: Seq<u8>| param_value(p))
    }
}

fn parse_params(buf: &[u8]) -> (out: Vec<u16>)
    ensures
        out@ == csi_params(buf@),
{
    let mut out: Vec<u16> = Vec::new();
    if buf.len() == 0 {
        return out;
    }
    let mut cur_len: usize = 0;
    let mut cur_digits = true;
    let mut cur_val: u32 = 0;
    let mut i: usize = 0;
    while i < buf.len()
        invariant
            i <= buf@.len(),
            cur_len <= i,
            ({
                let parts = split_semi(buf@.take(i as int));
                &&& parts.len() >= 1
                &&& out@ == parts.drop_last().map_values(|p: Seq<u8>| param_value(p))
                &&& cur_len == parts.last().len()
                &&& cur_digits == all_digits(parts.last())
                &&& cur_digits ==> cur_val == min_int(digits_value(parts.last()) as int, 0x10000)
            }),
        decreases buf@.len() - i,
    {
        let ghost prev = split_semi(buf@.take(i as int));
        proof {
            lemma_split_semi_nonempty(buf@.take(i as int));
            assert(buf@.take(i + 1).drop_last() =~= buf@.take(i as int));
        }
        let b = buf[i];
        if b == 0x3b {
            let v: u16 = if cur_len > 0 && cur_digits && cur_val <= 0xFFFF { cur_val as u16 } else { 0 };
            out.push(v);
            cur_len = 0;
            cur_digits = true;
            cur_val = 0;
            proof {
                let parts = split_semi(buf@.take(i + 1));
                assert(parts == prev.push(Seq::empty()));
                assert(parts.drop_last() =~= prev);
                assert(prev =~= prev.drop_last().push(prev.last()));
                assert(out@ =~= parts.drop_last().map_values(|p: Seq<u8>| param_value(p)));
                assert(all_digits(parts.last()));
            }
        } else {
            let ghost last = prev.last();
            let ghost nl = last.push(b);
            proof {
                let parts = split_semi(buf@.take(i + 1));
                assert(parts == prev.update(prev.len() - 1, nl));
                assert(parts.drop_last() =~= prev.drop_last());
                assert(nl.drop_last() =~= last);
                if all_digits(nl) {
                    assert(all_digits(last));
                }
                if all_digits(last) && is_digit(b) {
                    assert forall|k: int| 0 <= k < nl.len() implies is_digit(#[trigger] nl[k]) by {
                        if k < last.len() {
                            assert(nl[k] == last[k]);
                        }
                    }
                }
                assert(nl[nl.len() - 1] == b);
                if !is_digit(b) {
                    assert(!is_digit(nl[nl.len() - 1]));
                    assert(!all_digits(nl));
                }
            }
            cur_len = cur_len + 1;
            if 0x30 <= b && b <= 0x39 && cur_digits {
                let d = (b - 0x30) as u32;
                let nv = cur_val * 10 + d;
                cur_val = if nv > 0x10000 { 0x10000 } else { nv };
            } else {
                cur_digits = false;
            }
        }
        i = i + 1;
    }
    let v: u16 = if cur_len > 0 && cur_digits && cur_val <= 0xFFFF { cur_val as u16 } else { 0 };
    out.push(v);
    proof {
        assert(buf@.take(buf@.len() as int) =~= buf@);
        let parts = split_semi(buf@);
        assert(parts =~= parts.drop_last().push(parts.last()));
        assert(out@ =~= parts.map_values(|p: Seq<u8>| param_value(p)));
    }
    out
}


// ---------------------------------------------------------------------------
// SGR, modes, OSC, CSI dispatch (model)
// ---------------------------------------------------------------------------

/// The color of an extended color parameter (`38;5;N`, `38;2;R;G;B`, and
/// the same after 48) at `i`, and the index of its last parameter.
pub open spec fn ext_color(params: Seq<u16>, i: int) -> (Option<Color>, int) {
    let len = params.len();
    if len - i <= 1 {
        (None, i)
    } else if params[i + 1] == 5 {
        if len - i > 2 {
            (Some(Color::Color256(params[i + 2] as u8)), i + 2)
        } else {
            (None, i + 1)
        }
    } else if params[i + 1] == 2 {
        if len - i > 4 {
            (Some(Color::Rgb(params[i + 2] as u8, params[i + 3] as u8, params[i + 4] as u8)), i + 4)
        } else {
            (None, i + 1)
        }
    } else {
        (None, i + 1)
    }
}

/// Apply the SGR parameter at `i`; also the index of the last parameter it used.
pub open spec fn sgr_one(pen: Pen, params: Seq<u16>, i: int) -> (Pen, int) {
    let p = params[i];
    if p == 0 {
        (pen_reset(), i)
    } else if p == 1 {
        (Pen { bold: true, ..pen }, i)
    } else if p == 3 {
        (Pen { italic: true, ..pen }, i)
    } else if p == 4 {
        (Pen { underline: true, ..pen }, i)
    } else if p == 7 {
        (Pen { inverse: true, ..pen }, i)
    } else if p == 22 {
        (Pen { bold: false, ..pen }, i)
    } else if p == 23 {
        (Pen { italic: false, ..pen }, i)
    } else if p == 24 {
        (Pen { underline: false, ..pen }, i)
    } else if p == 27 {
        (Pen { inverse: false, ..pen }, i)
    } else if 30 <= p <= 37 {
        (Pen { fg: Color::Ansi((p - 30) as u8), ..pen }, i)
    } else if p == 38 {
        let (c, j) = ext_color(params, i);
        (
            match c {
                Some(c) => Pen { fg: c, ..pen },
                None => pen,
            },
            j,
        )
    } else if p == 39 {
        (Pen { fg: Color::Default, ..pen }, i)
    } else if 40 <= p <= 47 {
        (Pen { bg: Color::Ansi((p - 40) as u8), ..pen }, i)
    } else if p == 48 {
        let (c, j) = ext_color(params, i);
        (
            match c {
                Some(c) => Pen { bg: c, ..pen },
                None => pen,
            },
            j,
        )
    } else if p == 49 {
        (Pen { bg: Color::Default, ..pen }, i)
    } else if 90 <= p <= 97 {
        (Pen { fg: Color::Ansi((p - 90 + 8) as u8), ..pen }, i)
    } else if 100 <= p <= 107 {
        (Pen { bg: Color::Ansi((p - 100 + 8) as u8), ..pen }, i)
    } else {
        (pen, i)
    }
}

/// Apply the SGR parameters from `i` on, left to right.
pub open spec fn sgr_from(pen: Pen, params: Seq<u16>, i: int) -> Pen
    decreases params.len() - i,
{
    if i < 0 || i >= params.len() {
        pen
    } else {
        let (p2, j) = sgr_one(pen, params, i);
        if j < i {
            pen
        } else {
            sgr_from(p2, params, j + 1)
        }
    }
}

/// SGR: no parameter resets the rendition.
pub open spec fn m_sgr(m: VtModel, params: Seq<u16>) -> VtModel {
    VtModel {
        pen: if params.len() == 0 {
            pen_reset()
        } else {
            sgr_from(m.pen, params, 0)
        },
        ..m
    }
}

/// DECSET/DECRST of one mode: 7 autowrap, 25 cursor visibility, 1049 the
/// alternate screen (entering saves the cursor and shows a blank screen,
/// leaving restores the main screen and the cursor).
pub open spec fn m_decset(m: VtModel, mode: u16, enable: bool) -> VtModel {
    if mode == 7 {
        VtModel { autowrap: enable, ..m }
    } else if mode == 25 {
        VtModel { cursor_visible: enable, ..m }
    } else if mode == 1049 {
        if enable && !m.alt_active {
            VtModel {
                alt_cells: Some(m.cells),
                cells: Seq::new((m.cols * m.rows) as nat, |i: int| blank()),
                alt_active: true,
                saved_cursor: (m.cursor_row, m.cursor_col),
                cursor_row: 0,
                cursor_col: 0,
                ..m
            }
        } else if !enable && m.alt_active {
            VtModel {
                cells: match m.alt_cells {
                    Some(main) => main,
                    None => m.cells,
                },
                alt_cells: None,
                alt_active: false,
                cursor_row: min_int(m.saved_cursor.0 as int, m.rows - 1) as u16,
                cursor_col: min_int(m.saved_cursor.1 as int, m.cols - 1) as u16,
                ..m
            }
        } else {
            m
        }
    } else {
        m
    }
}

/// DECSET/DECRST of each mode in `params` from `i` on.
pub open spec fn m_decset_all(m: VtModel, params: Seq<u16>, i: int, enable: bool) -> VtModel
    decreases params.len() - i,
{
    if i < 0 || i >= params.len() {
        m
    } else {
        m_decset_all(m_decset(m, params[i], enable), params, i + 1, enable)
    }
}

/// OSC 0 or 2 sets the title to the rest of the string.
pub open spec fn m_execute_osc(m: VtModel, buf: Seq<u8>) -> VtModel {
    if buf.len() >= 2 && (buf[0] == 0x30 || buf[0] == 0x32) && buf[1] == 0x3b {
        VtModel { title: utf8_lossy(buf.skip(2)), ..m }
    } else {
        m
    }
}

/// The first parameter, or `default` when there is none.
pub open spec fn param_or(params: Seq<u16>, i: int, default: u16) -> u16 {
    if 0 <= i < params.len() {
        params[i]
    } else {
        default
    }
}

/// A count parameter: default 1, and 0 counts as 1.
pub open spec fn count_param(params: Seq<u16>) -> u16 {
    let n = param_or(params, 0, 1);
    if n >= 1 {
        n
    } else {
        1
    }
}

pub open spec fn m_scroll_up_n(m: VtModel, n: nat) -> VtModel
    decreases n,
{
    if n == 0 {
        m
    } else {
        m_scroll_up_n(m_scroll_up(m), (n - 1) as nat)
    }
}

pub open spec fn m_scroll_down_n(m: VtModel, n: nat) -> VtModel
    decreases n,
{
    if n == 0 {
        m
    } else {
        m_scroll_down_n(m_scroll_down(m), (n - 1) as nat)
    }
}

/// `ESC [ row ; col R`, 1-based.
pub open spec fn cursor_report(m: VtModel) -> Seq<u8> {
    seq![0x1bu8, 0x5bu8] + crate::bytes::decimal((m.cursor_row + 1) as nat) + seq![0x3bu8]
        + crate::bytes::decimal((m.cursor_col + 1) as nat) + seq![0x52u8]
}

/// `ESC [ ? 1 ; 2 c` (a VT100 with advanced video).
pub open spec fn device_attributes() -> Seq<u8> {
    seq![0x1bu8, 0x5bu8, 0x3fu8, 0x31u8, 0x3bu8, 0x32u8, 0x63u8]
}

pub open spec fn is_private(buf: Seq<u8>) -> bool {
    buf.len() > 0 && buf[0] == 0x3f
}

/// The numeric parameters of a CSI sequence, after a leading `?`.
pub open spec fn seq_params(buf: Seq<u8>) -> Seq<u16> {
    csi_params(if is_private(buf) { buf.drop_first() } else { buf })
}

/// Cursor positioning sequences (CUU CUD CUF CUB CNL CPL CHA CUP HVP VPA)
/// and DECSTBM.
pub open spec fn is_cursor_final(fb: u8) -> bool {
    (0x41 <= fb <= 0x48) || fb == 0x66 || fb == 0x64 || fb == 0x72
}

/// Editing sequences (ED EL IL DL DCH ICH ECH SU SD).
pub open spec fn is_edit_final(fb: u8) -> bool {
    fb == 0x4a || fb == 0x4b || fb == 0x4c || fb == 0x4d || fb == 0x50 || fb == 0x40 || fb == 0x58
        || fb == 0x53 || fb == 0x54
}

pub open spec fn m_csi_cursor(m: VtModel, fb: u8, params: Seq<u16>) -> VtModel {
    let n = count_param(params);
    let last_row = m.rows - 1;
    let last_col = m.cols - 1;
    if fb == 0x41 {
        VtModel { cursor_row: sat_sub(m.cursor_row as int, n as int) as u16, pending_wrap: false, ..m }
    } else if fb == 0x42 {
        VtModel { cursor_row: min_int(m.cursor_row + n, last_row) as u16, pending_wrap: false, ..m }
    } else if fb == 0x43 {
        VtModel { cursor_col: min_int(m.cursor_col + n, last_col) as u16, pending_wrap: false, ..m }
    } else if fb == 0x44 {
        VtModel { cursor_col: sat_sub(m.cursor_col as int, n as int) as u16, pending_wrap: false, ..m }
    } else if fb == 0x45 {
        VtModel {
            cursor_row: min_int(m.cursor_row + n, last_row) as u16,
            cursor_col: 0,
            pending_wrap: false,
            ..m
        }
    } else if fb == 0x46 {
        VtModel {
            cursor_row: sat_sub(m.cursor_row as int, n as int) as u16,
            cursor_col: 0,
            pending_wrap: false,
            ..m
        }
    } else if fb == 0x47 {
        VtModel { cursor_col: min_int(n - 1, last_col) as u16, pending_wrap: false, ..m }
    } else if fb == 0x48 || fb == 0x66 {
        let r = param_or(params, 0, 1);
        let c = param_or(params, 1, 1);
        VtModel {
            cursor_row: min_int((if r >= 1 { r } else { 1 }) - 1, last_row) as u16,
            cursor_col: min_int((if c >= 1 { c } else { 1 }) - 1, last_col) as u16,
            pending_wrap: false,
            ..m
        }
    } else if fb == 0x64 {
        VtModel { cursor_row: min_int(n - 1, last_row) as u16, pending_wrap: false, ..m }
    } else {
        let t = param_or(params, 0, 1);
        let b = param_or(params, 1, m.rows);
        let top = min_int((if t >= 1 { t } else { 1 }) - 1, last_row);
        let bot = min_int((if b >= 1 { b } else { 1 }) - 1, last_row);
        VtModel {
            scroll_top: if top >= bot { 0 } else { top as u16 },
            scroll_bot: if top >= bot { last_row as u16 } else { bot as u16 },
            cursor_row: 0,
            cursor_col: 0,
            pending_wrap: false,
            ..m
        }
    }
}

pub open spec fn m_csi_edit(m: VtModel, fb: u8, params: Seq<u16>) -> VtModel {
    let n = count_param(params);
    if fb == 0x4a {
        m_erase_display(m, param_or(params, 0, 0))
    } else if fb == 0x4b {
        m_erase_line(m, param_or(params, 0, 0))
    } else if fb == 0x4c {
        m_insert_lines(m, n)
    } else if fb == 0x4d {
        m_delete_lines(m, n)
    } else if fb == 0x50 {
        m_delete_chars(m, n)
    } else if fb == 0x40 {
        m_insert_chars(m, n)
    } else if fb == 0x58 {
        m_erase_chars(m, n)
    } else if fb == 0x53 {
        m_scroll_up_n(m, n as nat)
    } else {
        m_scroll_down_n(m, n as nat)
    }
}

/// SGR, private mode set/reset, status and attribute reports.
pub open spec fn m_csi_other(m: VtModel, fb: u8, params: Seq<u16>, private: bool) -> VtModel {
    if fb == 0x6d {
        m_sgr(m, params)
    } else if fb == 0x68 && private {
        m_decset_all(m, params, 0, true)
    } else if fb == 0x6c && private {
        m_decset_all(m, params, 0, false)
    } else if fb == 0x6e {
        if params.len() > 0 && params[0] == 6 {
            VtModel { responses: m.responses.push(cursor_report(m)), ..m }
        } else {
            m
        }
    } else if fb == 0x63 {
        VtModel { responses: m.responses.push(device_attributes()), ..m }
    } else {
        m
    }
}

/// Execute a complete CSI sequence with parameter bytes `buf` and final byte `fb`.
pub open spec fn m_execute_csi(m: VtModel, fb: u8, buf: Seq<u8>) -> VtModel {
    let params = seq_params(buf);
    if is_cursor_final(fb) {
        m_csi_cursor(m, fb, params)
    } else if is_edit_final(fb) {
        m_csi_edit(m, fb, params)
    } else {
        m_csi_other(m, fb, params, is_private(buf))
    }
}

/// The sequences whose arithmetic stays in range: cursor down and forward
/// by the count fit in `u16`, and delete-lines reads inside the screen.
pub open spec fn csi_ok(m: VtModel, fb: u8, buf: Seq<u8>) -> bool {
    let n = count_param(seq_params(buf));
    &&& (fb == 0x42 || fb == 0x45) ==> m.cursor_row + n <= 0xFFFF
    &&& fb == 0x43 ==> m.cursor_col + n <= 0xFFFF
    &&& fb == 0x4d ==> delete_lines_ok(m, n)
}

// ---------------------------------------------------------------------------
// Byte processing (model)
// ---------------------------------------------------------------------------

/// The character decoded from a completed UTF-8 sequence, U+FFFD when invalid.
pub open spec fn utf8_char(buf: Seq<u8>) -> char {
    if vstd::utf8::valid_utf8(buf) && vstd::utf8::decode_utf8(buf).len() > 0 {
        vstd::utf8::decode_utf8(buf)[0]
    } else {
        '\u{FFFD}'
    }
}

/// Continuation bytes expected after a UTF-8 lead byte.
pub open spec fn utf8_expect(b: u8) -> u8 {
    if b >= 0xf0 {
        3
    } else if b >= 0xe0 {
        2
    } else {
        1
    }
}

/// A byte in plain-text state: controls, printables, UTF-8 sequences.
pub open spec fn m_normal(m: VtModel, b: u8) -> VtModel {
    if b == 0x1b {
        VtModel { state: ParseMode::Escape, ..m }
    } else if b == 0x08 {
        VtModel {
            pending_wrap: false,
            cursor_col: if m.cursor_col > 0 { (m.cursor_col - 1) as u16 } else { 0 },
            ..m
        }
    } else if b == 0x09 {
        VtModel {
            pending_wrap: false,
            cursor_col: min_int((m.cursor_col / 8 + 1) * 8, m.cols - 1) as u16,
            ..m
        }
    } else if 0x0a <= b <= 0x0c {
        m_line_feed(VtModel { pending_wrap: false, ..m })
    } else if b == 0x0d {
        VtModel { pending_wrap: false, cursor_col: 0, ..m }
    } else if b < 0x20 {
        m
    } else if b <= 0x7e {
        m_put_char(m, b as char)
    } else if b == 0x7f {
        m
    } else if b >= 0xc0 {
        VtModel { utf8_buf: seq![b], utf8_remaining: utf8_expect(b), ..m }
    } else if m.utf8_buf.len() > 0 && m.utf8_remaining > 0 {
        let buf = m.utf8_buf.push(b);
        if m.utf8_remaining == 1 {
            m_put_char(VtModel { utf8_buf: Seq::empty(), utf8_remaining: 0, ..m }, utf8_char(buf))
        } else {
            VtModel { utf8_buf: buf, utf8_remaining: (m.utf8_remaining - 1) as u8, ..m }
        }
    } else {
        m
    }
}

/// The byte after ESC (the state is already back to plain text).
pub open spec fn m_escape(m: VtModel, b: u8) -> VtModel {
    if b == 0x5b {
        VtModel { state: ParseMode::Csi(Seq::empty()), ..m }
    } else if b == 0x5d {
        VtModel { state: ParseMode::Osc(Seq::empty()), ..m }
    } else if b == 0x44 {
        m_line_feed(m)
    } else if b == 0x45 {
        m_line_feed(VtModel { cursor_col: 0, ..m })
    } else if b == 0x4d {
        m_reverse_index(m)
    } else if b == 0x37 {
        VtModel { saved_cursor: (m.cursor_row, m.cursor_col), ..m }
    } else if b == 0x38 {
        VtModel {
            cursor_row: min_int(m.saved_cursor.0 as int, m.rows - 1) as u16,
            cursor_col: min_int(m.saved_cursor.1 as int, m.cols - 1) as u16,
            ..m
        }
    } else if b == 0x63 {
        m_full_reset(m)
    } else {
        m
    }
}

/// Parameter and intermediate bytes kept inside a CSI sequence.
pub open spec fn is_param_byte(b: u8) -> bool {
    (0x30 <= b <= 0x39) || b == 0x3b || b == 0x3f || b == 0x3e || b == 0x21 || b == 0x20
}

/// One byte of the emulator's input.
pub open spec fn m_step(m: VtModel, b: u8) -> VtModel {
    match m.state {
        ParseMode::Normal => m_normal(m, b),
        ParseMode::Escape => m_escape(VtModel { state: ParseMode::Normal, ..m }, b),
        ParseMode::Csi(buf) => if is_param_byte(b) {
            VtModel { state: ParseMode::Csi(buf.push(b)), ..m }
        } else if 0x40 <= b <= 0x7e {
            m_execute_csi(VtModel { state: ParseMode::Normal, ..m }, b, buf)
        } else {
            VtModel { state: ParseMode::Normal, ..m }
        },
        ParseMode::Osc(buf) => if b == 0x07 || b == 0x1b {
            m_execute_osc(VtModel { state: ParseMode::Normal, ..m }, buf)
        } else {
            VtModel { state: ParseMode::Osc(if buf.len() < 4096 { buf.push(b) } else { buf }), ..m }
        },
    }
}

/// The byte can be processed without arithmetic leaving its range.
pub open spec fn step_ok(m: VtModel, b: u8) -> bool {
    match m.state {
        ParseMode::Normal => b == 0x09 ==> (m.cursor_col / 8 + 1) * 8 <= 0xFFFF,
        ParseMode::Csi(buf) => (!is_param_byte(b) && 0x40 <= b <= 0x7e) ==> csi_ok(
            VtModel { state: ParseMode::Normal, ..m },
            b,
            buf,
        ),
        _ => true,
    }
}

/// The model after processing `data` byte by byte.
pub open spec fn m_feed(m: VtModel, data: Seq<u8>) -> VtModel
    decreases data.len(),
{
    if data.len() == 0 {
        m
    } else {
        m_feed(m_step(m, data[0]), data.drop_first())
    }
}

/// Every byte of `data` can be processed.
pub open spec fn feed_ok(m: VtModel, data: Seq<u8>) -> bool
    decreases data.len(),
{
    data.len() == 0 || (step_ok(m, data[0]) && feed_ok(m_step(m, data[0]), data.drop_first()))
}



/// Feeding one more byte steps from where the rest left off.
pub proof fn lemma_feed_push(m: VtModel, s: Seq<u8>, b: u8)
    ensures
        m_feed(m, s.push(b)) == m_step(m_feed(m, s), b),
        feed_ok(m, s.push(b)) == (feed_ok(m, s) && step_ok(m_feed(m, s), b)),
    decreases s.len(),
{
    if s.len() > 0 {
        lemma_feed_push(m_step(m, s[0]), s.drop_first(), b);
        assert(s.push(b).drop_first() =~= s.drop_first().push(b));
        assert(s.push(b)[0] == s[0]);
        assert(s.push(b).len() > 0);
    } else {
        let t = s.push(b);
        assert(t.drop_first() =~= Seq::<u8>::empty());
        assert(t[0] == b);
        assert(m_feed(m_step(m, b), t.drop_first()) == m_step(m, b));
        assert(feed_ok(m_step(m, b), t.drop_first()));
        assert(m_feed(m, s) == m);
        assert(feed_ok(m, s));
    }
}

/// Bytes that can be fed whole stop being so at the first byte that
/// cannot be processed.
pub proof fn lemma_feed_ok_prefix(m: VtModel, s: Seq<u8>, i: int)
    requires
        0 <= i < s.len(),
        !step_ok(m_feed(m, s.take(i)), s[i]),
    ensures
        !feed_ok(m, s),
    decreases s.len(),
{
    if i == 0 {
        assert(s.take(0) =~= Seq::<u8>::empty());
    } else {
        assert(s.take(i) =~= seq![s[0]] + s.drop_first().take(i - 1));
        assert(s.drop_first().take(i - 1).len() == i - 1);
        lemma_feed_drop(m, s.take(i));
        assert(s.take(i).drop_first() =~= s.drop_first().take(i - 1));
        assert(s.drop_first()[i - 1] == s[i]);
        lemma_feed_ok_prefix(m_step(m, s[0]), s.drop_first(), i - 1);
    }
}

proof fn lemma_feed_drop(m: VtModel, s: Seq<u8>)
    requires
        s.len() > 0,
    ensures
        m_feed(m, s) == m_feed(m_step(m, s[0]), s.drop_first()),
{
}

// ---------------------------------------------------------------------------
// UTF-8 decoding
// ---------------------------------------------------------------------------

fn decode_utf8_char(buf: &[u8]) -> (c: char)
    ensures
        c == utf8_char(buf@),
{
    match str_from_utf8(buf) {
        Some(s) => {
            let v = crate::text::chars_of(s);
            if v.len() > 0 {
                v[0]
            } else {
                '\u{FFFD}'
            }
        },
        None => '\u{FFFD}',
    }
}

fn slice_from(buf: &[u8], k: usize) -> (r: Vec<u8>)
    requires
        k <= buf@.len(),
    ensures
        r@ == buf@.skip(k as int),
{
    let mut r: Vec<u8> = Vec::new();
    let mut i = k;
    while i < buf.len()
        invariant
            k <= i <= buf@.len(),
            r@ == buf@.subrange(k as int, i as int),
        decreases buf@.len() - i,
    {
        r.push(buf[i]);
        i = i + 1;
        assert(r@ =~= buf@.subrange(k as int, i as int));
    }
    assert(buf@.skip(k as int) =~= buf@.subrange(k as int, buf@.len() as int));
    r
}

// ---------------------------------------------------------------------------
// SGR, modes, OSC, CSI dispatch (implementation)
// ---------------------------------------------------------------------------

fn ext_color_exec(params: &Vec<u16>, i: usize) -> (r: (Option<Color>, usize))
    requires
        i < params@.len(),
    ensures
        (r.0, r.1 as int) == ext_color(params@, i as int),
        i <= r.1 < params@.len(),
{
    let len = params.len();
    if len - i <= 1 {
        (None, i)
    } else if params[i + 1] == 5 {
        if len - i > 2 {
            (Some(Color::Color256(params[i + 2] as u8)), i + 2)
        } else {
            (None, i + 1)
        }
    } else if params[i + 1] == 2 {
        if len - i > 4 {
            (Some(Color::Rgb(params[i + 2] as u8, params[i + 3] as u8, params[i + 4] as u8)), i + 4)
        } else {
            (None, i + 1)
        }
    } else {
        (None, i + 1)
    }
}

fn sgr_one_exec(pen: Pen, params: &Vec<u16>, i: usize) -> (r: (Pen, usize))
    requires
        i < params@.len(),
    ensures
        (r.0, r.1 as int) == sgr_one(pen, params@, i as int),
        i <= r.1 < params@.len(),
{
    let p = params[i];
    if p == 0 {
        (Pen { fg: Color::Default, bg: Color::Default, bold: false, underline: false, inverse: false, italic: false }, i)
    } else if p == 1 {
        (Pen { bold: true, ..pen }, i)
    } else if p == 3 {
        (Pen { italic: true, ..pen }, i)
    } else if p == 4 {
        (Pen { underline: true, ..pen }, i)
    } else if p == 7 {
        (Pen { inverse: true, ..pen }, i)
    } else if p == 22 {
        (Pen { bold: false, ..pen }, i)
    } else if p == 23 {
        (Pen { italic: false, ..pen }, i)
    } else if p == 24 {
        (Pen { underline: false, ..pen }, i)
    } else if p == 27 {
        (Pen { inverse: false, ..pen }, i)
    } else if 30 <= p && p <= 37 {
        (Pen { fg: Color::Ansi((p - 30) as u8), ..pen }, i)
    } else if p == 38 {
        let (c, j) = ext_color_exec(params, i);
        (
            match c {
                Some(c) => Pen { fg: c, ..pen },
                None => pen,
            },
            j,
        )
    } else if p == 39 {
        (Pen { fg: Color::Default, ..pen }, i)
    } else if 40 <= p && p <= 47 {
        (Pen { bg: Color::Ansi((p - 40) as u8), ..pen }, i)
    } else if p == 48 {
        let (c, j) = ext_color_exec(params, i);
        (
            match c {
                Some(c) => Pen { bg: c, ..pen },
                None => pen,
            },
            j,
        )
    } else if p == 49 {
        (Pen { bg: Color::Default, ..pen }, i)
    } else if 90 <= p && p <= 97 {
        (Pen { fg: Color::Ansi((p - 90 + 8) as u8), ..pen }, i)
    } else if 100 <= p && p <= 107 {
        (Pen { bg: Color::Ansi((p - 100 + 8) as u8), ..pen }, i)
    } else {
        (pen, i)
    }
}

fn min_u16(a: u16, b: u16) -> (r: u16)
    ensures
        r == min_int(a as int, b as int),
{
    if a <= b {
        a
    } else {
        b
    }
}

impl VTerm {
    fn execute_sgr(&mut self, params: &Vec<u16>)
        ensures
            final(self)@ == m_sgr(old(self)@, params@),
    {
        if params.len() == 0 {
            self.pen = Pen {
                fg: Color::Default,
                bg: Color::Default,
                bold: false,
                underline: false,
                inverse: false,
                italic: false,
            };
            assert(self@ =~= m_sgr(old(self)@, params@));
            return ;
        }
        let ghost start = self.pen;
        let mut pen = self.pen;
        let mut i: usize = 0;
        while i < params.len()
            invariant
                i <= params@.len(),
                sgr_from(start, params@, 0) == sgr_from(pen, params@, i as int),
            decreases params@.len() - i,
        {
            let (p2, j) = sgr_one_exec(pen, params, i);
            pen = p2;
            i = j + 1;
        }
        self.pen = pen;
        assert(self@ =~= m_sgr(old(self)@, params@));
    }

    fn decset(&mut self, mode: u16, enable: bool)
        requires
            model_live(old(self)@),
        ensures
            final(self)@ == m_decset(old(self)@, mode, enable),
            model_live(final(self)@),
    {
        let ghost m = self@;
        if mode == 7 {
            self.autowrap = enable;
        } else if mode == 25 {
            self.cursor_visible = enable;
        } else if mode == 1049 {
            if enable && !self.alt_active {
                proof {
                    lemma_dims_fit(self.cols, self.rows);
                }
                let size = self.cols as usize * self.rows as usize;
                let mut main = blank_cells(size);
                std::mem::swap(&mut main, &mut self.cells);
                self.alt_cells = Some(main);
                self.alt_active = true;
                self.saved_cursor = (self.cursor_row, self.cursor_col);
                self.cursor_row = 0;
                self.cursor_col = 0;
            } else if !enable && self.alt_active {
                let mut taken: Option<Vec<VTermCell>> = None;
                std::mem::swap(&mut taken, &mut self.alt_cells);
                match taken {
                    Some(main) => {
                        self.cells = main;
                    },
                    None => {},
                }
                self.alt_active = false;
                self.cursor_row = min_u16(self.saved_cursor.0, self.rows - 1);
                self.cursor_col = min_u16(self.saved_cursor.1, self.cols - 1);
            }
        }
        assert(self@ =~= m_decset(m, mode, enable));
    }

    fn decset_all(&mut self, params: &Vec<u16>, enable: bool)
        requires
            model_live(old(self)@),
        ensures
            final(self)@ == m_decset_all(old(self)@, params@, 0, enable),
            model_live(final(self)@),
    {
        let mut i: usize = 0;
        while i < params.len()
            invariant
                i <= params@.len(),
                model_live(self@),
                m_decset_all(old(self)@, params@, 0, enable) == m_decset_all(self@, params@, i as int, enable),
            decreases params@.len() - i,
        {
            self.decset(params[i], enable);
            i = i + 1;
        }
    }

    fn execute_osc(&mut self, buf: &[u8])
        ensures
            final(self)@ == m_execute_osc(old(self)@, buf@),
    {
        if buf.len() >= 2 && (buf[0] == 0x30 || buf[0] == 0x32) && buf[1] == 0x3b {
            let rest = slice_from(buf, 2);
            self.title = string_from_utf8_lossy(rest.as_slice());
        }
        assert(self@ =~= m_execute_osc(old(self)@, buf@));
    }

    fn scroll_up_n(&mut self, n: u16)
        requires
            model_live(old(self)@),
        ensures
            final(self)@ == m_scroll_up_n(old(self)@, n as nat),
            model_live(final(self)@),
    {
        let mut k: u16 = n;
        while k > 0
            invariant
                k <= n,
                model_live(self@),
                m_scroll_up_n(old(self)@, n as nat) == m_scroll_up_n(self@, k as nat),
            decreases k,
        {
            self.scroll_up();
            k = k - 1;
        }
    }

    fn scroll_down_n(&mut self, n: u16)
        requires
            model_live(old(self)@),
        ensures
            final(self)@ == m_scroll_down_n(old(self)@, n as nat),
            model_live(final(self)@),
    {
        let mut k: u16 = n;
        while k > 0
            invariant
                k <= n,
                model_live(self@),
                m_scroll_down_n(old(self)@, n as nat) == m_scroll_down_n(self@, k as nat),
            decreases k,
        {
            self.scroll_down();
            k = k - 1;
        }
    }

    fn push_response(&mut self, r: Vec<u8>)
        ensures
            final(self)@ == (VtModel { responses: old(self)@.responses.push(r@), ..old(self)@ }),
    {
        let ghost prev = self.responses@;
        self.responses.push(r);
        assert(bytes_view(self.responses@) =~= bytes_view(prev).push(r@));
        assert(self@ =~= (VtModel { responses: old(self)@.responses.push(r@), ..old(self)@ }));
    }

    fn csi_cursor(&mut self, fb: u8, params: &Vec<u16>)
        requires
            model_live(old(self)@),
            is_cursor_final(fb),
            (fb == 0x42 || fb == 0x45) ==> old(self)@.cursor_row + count_param(params@) <= 0xFFFF,
            fb == 0x43 ==> old(self)@.cursor_col + count_param(params@) <= 0xFFFF,
        ensures
            final(self)@ == m_csi_cursor(old(self)@, fb, params@),
            model_live(final(self)@),
    {
        let ghost m = self@;
        let first: u16 = if params.len() > 0 { params[0] } else { 1 };
        let n: u16 = if first >= 1 { first } else { 1 };
        let last_row = self.rows - 1;
        let last_col = self.cols - 1;
        if fb == 0x41 {
            self.cursor_row = self.cursor_row.saturating_sub(n);
        } else if fb == 0x42 {
            self.cursor_row = min_u16(self.cursor_row + n, last_row);
        } else if fb == 0x43 {
            self.cursor_col = min_u16(self.cursor_col + n, last_col);
        } else if fb == 0x44 {
            self.cursor_col = self.cursor_col.saturating_sub(n);
        } else if fb == 0x45 {
            self.cursor_row = min_u16(self.cursor_row + n, last_row);
            self.cursor_col = 0;
        } else if fb == 0x46 {
            self.cursor_row = self.cursor_row.saturating_sub(n);
            self.cursor_col = 0;
        } else if fb == 0x47 {
            self.cursor_col = min_u16(n - 1, last_col);
        } else if fb == 0x48 || fb == 0x66 {
            let r: u16 = if params.len() > 0 { params[0] } else { 1 };
            let c: u16 = if params.len() > 1 { params[1] } else { 1 };
            let r1: u16 = if r >= 1 { r } else { 1 };
            let c1: u16 = if c >= 1 { c } else { 1 };
            self.cursor_row = min_u16(r1 - 1, last_row);
            self.cursor_col = min_u16(c1 - 1, last_col);
        } else if fb == 0x64 {
            self.cursor_row = min_u16(n - 1, last_row);
        } else {
            let t: u16 = if params.len() > 0 { params[0] } else { 1 };
            let b: u16 = if params.len() > 1 { params[1] } else { self.rows };
            let t1: u16 = if t >= 1 { t } else { 1 };
            let b1: u16 = if b >= 1 { b } else { 1 };
            let top = min_u16(t1 - 1, last_row);
            let bot = min_u16(b1 - 1, last_row);
            if top >= bot {
                self.scroll_top = 0;
                self.scroll_bot = last_row;
            } else {
                self.scroll_top = top;
                self.scroll_bot = bot;
            }
            self.cursor_row = 0;
            self.cursor_col = 0;
        }
        self.pending_wrap = false;
        assert(self@ =~= m_csi_cursor(m, fb, params@));
    }

    fn csi_edit(&mut self, fb: u8, params: &Vec<u16>)
        requires
            model_live(old(self)@),
            is_edit_final(fb),
            fb == 0x4d ==> delete_lines_ok(old(self)@, count_param(params@)),
        ensures
            final(self)@ == m_csi_edit(old(self)@, fb, params@),
            model_live(final(self)@),
    {
        let first: u16 = if params.len() > 0 { params[0] } else { 1 };
        let n: u16 = if first >= 1 { first } else { 1 };
        let mode: u16 = if params.len() > 0 { params[0] } else { 0 };
        if fb == 0x4a {
            self.erase_display(mode);
        } else if fb == 0x4b {
            self.erase_line(mode);
        } else if fb == 0x4c {
            self.insert_lines(n);
        } else if fb == 0x4d {
            self.delete_lines(n);
        } else if fb == 0x50 {
            self.delete_chars(n);
        } else if fb == 0x40 {
            self.insert_chars(n);
        } else if fb == 0x58 {
            self.erase_chars(n);
        } else if fb == 0x53 {
            self.scroll_up_n(n);
        } else {
            self.scroll_down_n(n);
        }
    }

    fn csi_other(&mut self, fb: u8, params: &Vec<u16>, private: bool)
        requires
            model_live(old(self)@),
        ensures
            final(self)@ == m_csi_other(old(self)@, fb, params@, private),
            model_live(final(self)@),
    {
        let ghost m = self@;
        if fb == 0x6d {
            self.execute_sgr(params);
            assert(model_live(self@));
        } else if fb == 0x68 && private {
            self.decset_all(params, true);
        } else if fb == 0x6c && private {
            self.decset_all(params, false);
        } else if fb == 0x6e {
            if params.len() > 0 && params[0] == 6 {
                let mut r: Vec<u8> = Vec::new();
                r.push(0x1b);
                r.push(0x5b);
                crate::bytes::write_usize(&mut r, self.cursor_row as usize + 1);
                r.push(0x3b);
                crate::bytes::write_usize(&mut r, self.cursor_col as usize + 1);
                r.push(0x52);
                assert(r@ =~= cursor_report(m));
                self.push_response(r);
            }
        } else if fb == 0x63 {
            let mut r: Vec<u8> = Vec::new();
            r.push(0x1b);
            r.push(0x5b);
            r.push(0x3f);
            r.push(0x31);
            r.push(0x3b);
            r.push(0x32);
            r.push(0x63);
            assert(r@ =~= device_attributes());
            self.push_response(r);
        }
    }

    fn execute_csi(&mut self, fb: u8, buf: &[u8])
        requires
            model_live(old(self)@),
            csi_ok(old(self)@, fb, buf@),
        ensures
            final(self)@ == m_execute_csi(old(self)@, fb, buf@),
            model_live(final(self)@),
    {
        let private = buf.len() > 0 && buf[0] == 0x3f;
        let params = if private {
            let rest = slice_from(buf, 1);
            assert(rest@ =~= buf@.drop_first());
            parse_params(rest.as_slice())
        } else {
            parse_params(buf)
        };
        assert(params@ == seq_params(buf@));
        if (0x41 <= fb && fb <= 0x48) || fb == 0x66 || fb == 0x64 || fb == 0x72 {
            self.csi_cursor(fb, &params);
        } else if fb == 0x4a || fb == 0x4b || fb == 0x4c || fb == 0x4d || fb == 0x50 || fb == 0x40
            || fb == 0x58 || fb == 0x53 || fb == 0x54 {
            self.csi_edit(fb, &params);
        } else {
            self.csi_other(fb, &params, private);
        }
    }
}


// ---------------------------------------------------------------------------
// Byte processing (implementation)
// ---------------------------------------------------------------------------

impl VTerm {
    fn process_normal(&mut self, b: u8)
        requires
            model_live(old(self)@),
            old(self)@.state is Normal,
            step_ok(old(self)@, b),
        ensures
            final(self)@ == m_normal(old(self)@, b),
            model_live(final(self)@),
    {
        let ghost m = self@;
        if b == 0x1b {
            self.state = ParseState::Escape;
            assert(self@ =~= m_normal(m, b));
        } else if b == 0x08 {
            self.pending_wrap = false;
            if self.cursor_col > 0 {
                self.cursor_col = self.cursor_col - 1;
            }
            assert(self@ =~= m_normal(m, b));
        } else if b == 0x09 {
            self.pending_wrap = false;
            let next_tab = ((self.cursor_col / 8) + 1) * 8;
            self.cursor_col = min_u16(next_tab, self.cols - 1);
            assert(self@ =~= m_normal(m, b));
        } else if 0x0a <= b && b <= 0x0c {
            self.pending_wrap = false;
            self.line_feed();
        } else if b == 0x0d {
            self.pending_wrap = false;
            self.cursor_col = 0;
            assert(self@ =~= m_normal(m, b));
        } else if b < 0x20 {
        } else if b <= 0x7e {
            self.put_char(b as char);
        } else if b == 0x7f {
        } else if b >= 0xc0 {
            self.utf8_buf.clear();
            self.utf8_buf.push(b);
            self.utf8_remaining = if b >= 0xf0 {
                3
            } else if b >= 0xe0 {
                2
            } else {
                1
            };
            assert(self@ =~= m_normal(m, b));
        } else if self.utf8_buf.len() > 0 && self.utf8_remaining > 0 {
            self.utf8_buf.push(b);
            self.utf8_remaining = self.utf8_remaining - 1;
            if self.utf8_remaining == 0 {
                let ch = decode_utf8_char(self.utf8_buf.as_slice());
                self.utf8_buf.clear();
                assert(self@ =~= (VtModel { utf8_buf: Seq::empty(), utf8_remaining: 0, ..m }));
                self.put_char(ch);
            } else {
                assert(self@ =~= m_normal(m, b));
            }
        }
    }

    fn process_escape(&mut self, b: u8)
        requires
            model_live(old(self)@),
            old(self)@.state is Normal,
        ensures
            final(self)@ == m_escape(old(self)@, b),
            model_live(final(self)@),
    {
        let ghost m = self@;
        if b == 0x5b {
            self.state = ParseState::Csi(Vec::new());
            assert(self@ =~= m_escape(m, b));
        } else if b == 0x5d {
            self.state = ParseState::Osc(Vec::new());
            assert(self@ =~= m_escape(m, b));
        } else if b == 0x44 {
            self.line_feed();
        } else if b == 0x45 {
            self.cursor_col = 0;
            assert(self@ =~= (VtModel { cursor_col: 0, ..m }));
            self.line_feed();
        } else if b == 0x4d {
            self.reverse_index();
        } else if b == 0x37 {
            self.saved_cursor = (self.cursor_row, self.cursor_col);
            assert(self@ =~= m_escape(m, b));
        } else if b == 0x38 {
            self.cursor_row = min_u16(self.saved_cursor.0, self.rows - 1);
            self.cursor_col = min_u16(self.saved_cursor.1, self.cols - 1);
            assert(self@ =~= m_escape(m, b));
        } else if b == 0x63 {
            self.full_reset();
        }
    }

    fn process_byte(&mut self, b: u8)
        requires
            model_live(old(self)@),
            step_ok(old(self)@, b),
        ensures
            final(self)@ == m_step(old(self)@, b),
            model_live(final(self)@),
    {
        let ghost m = self@;
        let mut st = ParseState::Normal;
        std::mem::swap(&mut st, &mut self.state);
        assert(self@ =~= (VtModel { state: ParseMode::Normal, ..m }));
        match st {
            ParseState::Normal => {
                self.process_normal(b);
            },
            ParseState::Escape => {
                self.process_escape(b);
            },
            ParseState::Csi(buf) => {
                let mut buf = buf;
                if (0x30 <= b && b <= 0x39) || b == 0x3b || b == 0x3f || b == 0x3e || b == 0x21 || b
                    == 0x20 {
                    buf.push(b);
                    self.state = ParseState::Csi(buf);
                    assert(self@ =~= m_step(m, b));
                } else if 0x40 <= b && b <= 0x7e {
                    self.execute_csi(b, buf.as_slice());
                }
            },
            ParseState::Osc(buf) => {
                let mut buf = buf;
                if b == 0x07 || b == 0x1b {
                    self.execute_osc(buf.as_slice());
                } else {
                    if buf.len() < 4096 {
                        buf.push(b);
                    }
                    self.state = ParseState::Osc(buf);
                    assert(self@ =~= m_step(m, b));
                }
            },
        }
    }

    /// Whether the next byte `b` can be processed: a tab or a cursor
    /// movement would not take the cursor past the `u16` range, and a line
    /// deletion would not read past the screen.
    pub fn step_allowed(&self, b: u8) -> (r: bool)
        requires
            model_live(self@),
        ensures
            r == step_ok(self@, b),
    {
        match &self.state {
            ParseState::Normal => b != 0x09 || ((self.cursor_col as u32) / 8 + 1) * 8 <= 0xFFFF,
            ParseState::Csi(buf) => {
                if (0x30 <= b && b <= 0x39) || b == 0x3b || b == 0x3f || b == 0x3e || b == 0x21 || b == 0x20 || !(0x40 <= b
                    && b <= 0x7e) {
                    return true;
                }
                let private = buf.len() > 0 && buf[0] == 0x3f;
                let params = if private {
                    let rest = slice_from(buf.as_slice(), 1);
                    assert(rest@ =~= buf@.drop_first());
                    parse_params(rest.as_slice())
                } else {
                    parse_params(buf.as_slice())
                };
                let first: u16 = if params.len() > 0 { params[0] } else { 1 };
                let n: u16 = if first >= 1 { first } else { 1 };
                assert(n == count_param(seq_params(buf@)));
                if (b == 0x42 || b == 0x45) && (self.cursor_row as u32) + (n as u32) > 0xFFFF {
                    return false;
                }
                if b == 0x43 && (self.cursor_col as u32) + (n as u32) > 0xFFFF {
                    return false;
                }
                if b == 0x4d {
                    let below: u32 = if self.scroll_bot >= self.cursor_row { (self.scroll_bot - self.cursor_row) as u32 } else { 0 };
                    let lines: u32 = if (n as u32) <= below + 1 { n as u32 } else { below + 1 };
                    if self.cursor_row == 0 && lines == (self.scroll_bot as u32) + 1 && (self.scroll_bot as u32) + 1 >= (
                    self.rows as u32) {
                        return false;
                    }
                }
                true
            },
            _ => true,
        }
    }

    /// Processes the bytes of `data` in order for as long as each can be
    /// processed, and returns how many were; when that is fewer than all,
    /// the next one cannot be.
    pub fn feed_checked(&mut self, data: &[u8]) -> (n: usize)
        requires
            model_live(old(self)@),
        ensures
            n <= data@.len(),
            feed_ok(old(self)@, data@.take(n as int)),
            final(self)@ == m_feed(old(self)@, data@.take(n as int)),
            n < data@.len() ==> !step_ok(final(self)@, data@[n as int]),
            n == data@.len() <==> feed_ok(old(self)@, data@),
            model_live(final(self)@),
    {
        let mut i: usize = 0;
        assert(data@.take(0) =~= Seq::<u8>::empty());
        while i < data.len()
            invariant_except_break
                i <= data@.len(),
                model_live(self@),
                self@ == m_feed(old(self)@, data@.take(i as int)),
                feed_ok(old(self)@, data@.take(i as int)),
            ensures
                i <= data@.len(),
                model_live(self@),
                self@ == m_feed(old(self)@, data@.take(i as int)),
                feed_ok(old(self)@, data@.take(i as int)),
                i < data@.len() ==> !step_ok(self@, data@[i as int]),
            decreases data@.len() - i,
        {
            if !self.step_allowed(data[i]) {
                break;
            }
            proof {
                lemma_feed_push(old(self)@, data@.take(i as int), data@[i as int]);
                assert(data@.take(i + 1) =~= data@.take(i as int).push(data@[i as int]));
            }
            self.process_byte(data[i]);
            i = i + 1;
        }
        proof {
            if i < data@.len() {
                lemma_feed_ok_prefix(old(self)@, data@, i as int);
            } else {
                assert(data@.take(i as int) =~= data@);
            }
        }
        i
    }

    /// Process bytes written by the program running in the terminal.
    pub fn feed(&mut self, data: &[u8])
        requires
            model_live(old(self)@),
            feed_ok(old(self)@, data@),
        ensures
            final(self)@ == m_feed(old(self)@, data@),
            model_live(final(self)@),
    {
        let mut i: usize = 0;
        assert(data@.skip(0) =~= data@);
        while i < data.len()
            invariant
                i <= data@.len(),
                model_live(self@),
                m_feed(old(self)@, data@) == m_feed(self@, data@.skip(i as int)),
                feed_ok(self@, data@.skip(i as int)),
            decreases data@.len() - i,
        {
            assert(data@.skip(i as int)[0] == data@[i as int]);
            assert(data@.skip(i as int).drop_first() =~= data@.skip(i + 1));
            self.process_byte(data[i]);
            i = i + 1;
        }
        assert(data@.skip(i as int).len() == 0);
    }
}


// ---------------------------------------------------------------------------
// Resize
// ---------------------------------------------------------------------------

/// Rows `[0, k)` of a `cols`-wide grid pushed onto the scrollback in order.
pub open spec fn push_rows(sb: Seq<Seq<VTermCell>>, cells: Seq<VTermCell>, cols: int, k: int, max: usize) -> Seq<Seq<VTermCell>>
    decreases k,
{
    if k <= 0 {
        sb
    } else {
        push_capped(push_rows(sb, cells, cols, k - 1, max), cells.subrange((k - 1) * cols, k * cols), max)
    }
}

/// Lines pulled back from the scrollback when the screen grows.
pub open spec fn pull_count(m: VtModel, rows: u16) -> int {
    min_int(rows - m.rows, m.scrollback.len() as int)
}

/// Cell (r, c) of the screen after resizing to `cols` x `rows`: shrinking
/// keeps the bottom rows, growing pulls lines back from the scrollback
/// above the old content; columns are cut or padded with blanks.
pub open spec fn resized_cell(m: VtModel, cols: u16, rows: u16, r: int, c: int) -> VTermCell {
    let oc = m.cols as nat;
    let copy = min_int(m.cols as int, cols as int);
    if rows < m.rows {
        if c < copy {
            gat(m.cells, oc, r + (m.rows - rows), c)
        } else {
            blank()
        }
    } else if rows > m.rows {
        let pull = pull_count(m, rows);
        let base = m.scrollback.len() - pull;
        if pull <= r < pull + m.rows && c < copy {
            gat(m.cells, oc, r - pull, c)
        } else if r < pull && c < min_int(m.scrollback[base + r].len() as int, cols as int) {
            m.scrollback[base + r][c]
        } else {
            blank()
        }
    } else {
        if c < copy {
            gat(m.cells, oc, r, c)
        } else {
            blank()
        }
    }
}

/// The alternate grid after resizing: the top-left part that fits is kept.
pub open spec fn resized_alt_cell(a: Seq<VTermCell>, oc: u16, or: u16, cols: u16, rows: u16, r: int, c: int) -> VTermCell {
    if r < min_int(or as int, rows as int) && c < min_int(oc as int, cols as int) {
        gat(a, oc as nat, r, c)
    } else {
        blank()
    }
}

/// The model after resizing to `cols` x `rows`.
pub open spec fn m_resize(m: VtModel, cols: u16, rows: u16) -> VtModel {
    let pull = pull_count(m, rows);
    let cursor_row: int = if rows < m.rows {
        sat_sub(m.cursor_row as int, m.rows - rows)
    } else if rows > m.rows {
        min_int(m.cursor_row + pull, rows - 1)
    } else {
        m.cursor_row as int
    };
    VtModel {
        cells: grid_from(cols as nat, rows as nat, |r: int, c: int| resized_cell(m, cols, rows, r, c)),
        scrollback: if rows < m.rows {
            push_rows(m.scrollback, m.cells, m.cols as int, m.rows - rows, m.scrollback_max)
        } else if rows > m.rows {
            m.scrollback.take(m.scrollback.len() - pull)
        } else {
            m.scrollback
        },
        cols,
        rows,
        scroll_bot: sat_sub(rows as int, 1) as u16,
        scroll_top: if m.scroll_top >= rows { 0 } else { m.scroll_top },
        cursor_col: min_int(m.cursor_col as int, sat_sub(cols as int, 1)) as u16,
        cursor_row: min_int(cursor_row, sat_sub(rows as int, 1)) as u16,
        alt_cells: match m.alt_cells {
            Some(a) => Some(
                grid_from(cols as nat, rows as nat, |r: int, c: int| resized_alt_cell(a, m.cols, m.rows, cols, rows, r, c)),
            ),
            None => None,
        },
        ..m
    }
}

fn subrange_vec(v: &Vec<VTermCell>, from: usize, to: usize) -> (r: Vec<VTermCell>)
    requires
        from <= to <= v@.len(),
    ensures
        r@ == v@.subrange(from as int, to as int),
{
    let mut r: Vec<VTermCell> = Vec::new();
    let mut i = from;
    while i < to
        invariant
            from <= i <= to <= v@.len(),
            r@ == v@.subrange(from as int, i as int),
        decreases to - i,
    {
        r.push(v[i]);
        i = i + 1;
        assert(r@ =~= v@.subrange(from as int, i as int));
    }
    r
}

/// Copy an `nrows` x `ncols` block from rows `src_row0..` of `src` to rows
/// `dst_row0..` of `dst`.
fn copy_block(
    dst: &mut Vec<VTermCell>,
    dcols: usize,
    drows: usize,
    src: &Vec<VTermCell>,
    scols: usize,
    srows: usize,
    dst_row0: usize,
    src_row0: usize,
    nrows: usize,
    ncols: usize,
)
    requires
        old(dst)@.len() == dcols * drows,
        src@.len() == scols * srows,
        dcols * drows <= usize::MAX,
        scols * srows <= usize::MAX,
        dst_row0 + nrows <= drows,
        src_row0 + nrows <= srows,
        ncols <= dcols,
        ncols <= scols,
    ensures
        final(dst)@.len() == dcols * drows,
        forall|r: int, c: int|
            0 <= r < drows && 0 <= c < dcols ==> #[trigger] gat(final(dst)@, dcols as nat, r, c) == if dst_row0
                <= r < dst_row0 + nrows && c < ncols {
                gat(src@, scols as nat, r - dst_row0 + src_row0, c)
            } else {
                gat(old(dst)@, dcols as nat, r, c)
            },
{
    let mut i: usize = 0;
    while i < nrows
        invariant
            dst@.len() == dcols * drows,
            src@.len() == scols * srows,
            dcols * drows <= usize::MAX,
            scols * srows <= usize::MAX,
            dst_row0 + nrows <= drows,
            src_row0 + nrows <= srows,
            ncols <= dcols,
            ncols <= scols,
            i <= nrows,
            forall|r: int, c: int|
                0 <= r < drows && 0 <= c < dcols ==> #[trigger] gat(dst@, dcols as nat, r, c) == if dst_row0
                    <= r < dst_row0 + i && c < ncols {
                    gat(src@, scols as nat, r - dst_row0 + src_row0, c)
                } else {
                    gat(old(dst)@, dcols as nat, r, c)
                },
        decreases nrows - i,
    {
        let mut c: usize = 0;
        while c < ncols
            invariant
                dst@.len() == dcols * drows,
                src@.len() == scols * srows,
                dcols * drows <= usize::MAX,
                scols * srows <= usize::MAX,
                dst_row0 + nrows <= drows,
                src_row0 + nrows <= srows,
                ncols <= dcols,
                ncols <= scols,
                i < nrows,
                c <= ncols,
                forall|r: int, k: int|
                    0 <= r < drows && 0 <= k < dcols ==> #[trigger] gat(dst@, dcols as nat, r, k) == if (dst_row0
                        <= r < dst_row0 + i && k < ncols) || (r == dst_row0 + i && k < c) {
                        gat(src@, scols as nat, r - dst_row0 + src_row0, k)
                    } else {
                        gat(old(dst)@, dcols as nat, r, k)
                    },
            decreases ncols - c,
        {
            proof {
                lemma_index_bounds(dcols as nat, drows as nat, (dst_row0 + i) as int, c as int);
                lemma_index_bounds(scols as nat, srows as nat, (src_row0 + i) as int, c as int);
            }
            let v = src[(src_row0 + i) * scols + c];
            let ghost prev = dst@;
            dst.set((dst_row0 + i) * dcols + c, v);
            proof {
                assert forall|r: int, k: int| 0 <= r < drows && 0 <= k < dcols implies #[trigger] gat(dst@, dcols as nat, r, k) == if (dst_row0 <= r < dst_row0 + i && k < ncols) || (r == dst_row0 + i && k < c + 1) {
                    gat(src@, scols as nat, r - dst_row0 + src_row0, k)
                } else {
                    gat(old(dst)@, dcols as nat, r, k)
                } by {
                    lemma_index_bounds(dcols as nat, drows as nat, r, k);
                    if r * dcols + k == (dst_row0 + i) * dcols + c {
                        assert(r == dst_row0 + i && k == c);
                    } else {
                        assert(gat(dst@, dcols as nat, r, k) == gat(prev, dcols as nat, r, k));
                    }
                }
            }
            c = c + 1;
        }
        i = i + 1;
    }
}

/// Copy the first `n` cells of `line` into row `row` of `dst`.
fn copy_line(dst: &mut Vec<VTermCell>, dcols: usize, drows: usize, row: usize, line: &Vec<VTermCell>, n: usize)
    requires
        old(dst)@.len() == dcols * drows,
        dcols * drows <= usize::MAX,
        row < drows,
        n <= dcols,
        n <= line@.len(),
    ensures
        final(dst)@.len() == dcols * drows,
        forall|r: int, c: int|
            0 <= r < drows && 0 <= c < dcols ==> #[trigger] gat(final(dst)@, dcols as nat, r, c) == if r
                == row && c < n {
                line@[c]
            } else {
                gat(old(dst)@, dcols as nat, r, c)
            },
{
    let mut c: usize = 0;
    while c < n
        invariant
            dst@.len() == dcols * drows,
            dcols * drows <= usize::MAX,
            row < drows,
            n <= dcols,
            n <= line@.len(),
            c <= n,
            forall|r: int, k: int|
                0 <= r < drows && 0 <= k < dcols ==> #[trigger] gat(dst@, dcols as nat, r, k) == if r == row
                    && k < c {
                    line@[k]
                } else {
                    gat(old(dst)@, dcols as nat, r, k)
                },
        decreases n - c,
    {
        proof {
            lemma_index_bounds(dcols as nat, drows as nat, row as int, c as int);
        }
        let ghost prev = dst@;
        dst.set(row * dcols + c, line[c]);
        proof {
            assert forall|r: int, k: int| 0 <= r < drows && 0 <= k < dcols implies #[trigger] gat(dst@, dcols as nat, r, k) == if r == row && k < c + 1 {
                line@[k]
            } else {
                gat(old(dst)@, dcols as nat, r, k)
            } by {
                lemma_index_bounds(dcols as nat, drows as nat, r, k);
                if r * dcols + k == row * dcols + c {
                    assert(r == row && k == c);
                } else {
                    assert(gat(dst@, dcols as nat, r, k) == gat(prev, dcols as nat, r, k));
                }
            }
        }
        c = c + 1;
    }
}

proof fn lemma_blank_gat(n: nat, cols: nat, rows: nat, r: int, c: int)
    requires
        n == cols * rows,
        0 <= r < rows,
        0 <= c < cols,
    ensures
        gat(Seq::new(n, |i: int| blank()), cols, r, c) == blank(),
{
    lemma_index_bounds(cols, rows, r, c);
}

/// Fill the top `pull` rows of `dst` from the last `pull` scrollback lines,
/// each cut to the grid width.
fn pull_lines(dst: &mut Vec<VTermCell>, dcols: usize, drows: usize, sb: &Vec<Vec<VTermCell>>, pull: usize)
    requires
        old(dst)@.len() == dcols * drows,
        dcols * drows <= usize::MAX,
        pull <= sb@.len(),
        pull <= drows,
    ensures
        final(dst)@.len() == dcols * drows,
        forall|r: int, c: int|
            0 <= r < drows && 0 <= c < dcols ==> #[trigger] gat(final(dst)@, dcols as nat, r, c) == if r < pull
                && c < min_int(sb@[sb@.len() - pull + r]@.len() as int, dcols as int) {
                sb@[sb@.len() - pull + r]@[c]
            } else {
                gat(old(dst)@, dcols as nat, r, c)
            },
{
    let sb_len = sb.len();
    let sb_base = sb_len - pull;
    let mut i: usize = 0;
    while i < pull
        invariant
            i <= pull <= sb@.len(),
            sb_len == sb@.len(),
            sb_base == sb@.len() - pull,
            pull <= drows,
            dst@.len() == dcols * drows,
            dcols * drows <= usize::MAX,
            forall|r: int, c: int|
                0 <= r < drows && 0 <= c < dcols ==> #[trigger] gat(dst@, dcols as nat, r, c) == if r < i && c
                    < min_int(sb@[sb_base + r]@.len() as int, dcols as int) {
                    sb@[sb_base + r]@[c]
                } else {
                    gat(old(dst)@, dcols as nat, r, c)
                },
        decreases pull - i,
    {
        let line = &sb[sb_base + i];
        let n = if line.len() < dcols { line.len() } else { dcols };
        copy_line(dst, dcols, drows, i, line, n);
        i = i + 1;
    }
}

/// The alternate grid cut or padded to the new size, top-left anchored.
fn resized_alt(alt: &Vec<VTermCell>, oc: u16, or: u16, cols: u16, rows: u16) -> (r: Vec<VTermCell>)
    requires
        alt@.len() == oc * or,
    ensures
        r@ == grid_from(
            cols as nat,
            rows as nat,
            |r: int, c: int| resized_alt_cell(alt@, oc, or, cols, rows, r, c),
        ),
{
    proof {
        lemma_dims_fit(cols, rows);
        lemma_dims_fit(oc, or);
    }
    let ncols = cols as usize;
    let nrows = rows as usize;
    let new_size = ncols * nrows;
    let copy_rows: usize = if (or as usize) < nrows { or as usize } else { nrows };
    let copy_cols: usize = if (oc as usize) < ncols { oc as usize } else { ncols };
    let mut new_alt = blank_cells(new_size);
    copy_block(&mut new_alt, ncols, nrows, alt, oc as usize, or as usize, 0, 0, copy_rows, copy_cols);
    proof {
        let g = |r: int, c: int| resized_alt_cell(alt@, oc, or, cols, rows, r, c);
        assert forall|r: int, c: int| 0 <= r < nrows && 0 <= c < ncols implies #[trigger] new_alt@[r
            * (ncols as nat) + c] == g(r, c) by {
            lemma_blank_gat(new_size as nat, ncols as nat, nrows as nat, r, c);
            assert(gat(new_alt@, ncols as nat, r, c) == resized_alt_cell(alt@, oc, or, cols, rows, r, c));
        }
        lemma_grid_ext(new_alt@, ncols as nat, nrows as nat, g);
    }
    new_alt
}

impl VTerm {
    /// Push the top `delta` rows of the screen onto the scrollback.
    fn push_top_rows(&mut self, delta: usize)
        requires
            model_wf(old(self)@),
            delta <= old(self).rows,
        ensures
            final(self)@ == (VtModel {
                scrollback: push_rows(
                    old(self)@.scrollback,
                    old(self)@.cells,
                    old(self)@.cols as int,
                    delta as int,
                    old(self)@.scrollback_max,
                ),
                ..old(self)@
            }),
    {
        let ghost m = self@;
        proof {
            lemma_dims_fit(self.cols, self.rows);
        }
        let old_cols = self.cols as usize;
        let old_rows = self.rows as usize;
        let mut r: usize = 0;
        while r < delta
            invariant
                r <= delta <= old_rows,
                old_rows == m.rows,
                old_cols == m.cols,
                self.cells@ == m.cells,
                m.cells.len() == m.cols * m.rows,
                old_cols * old_rows <= usize::MAX,
                self.scrollback_max == m.scrollback_max,
                self@ == (VtModel { scrollback: self@.scrollback, ..m }),
                rows_view(self.scrollback@) == push_rows(
                    m.scrollback,
                    m.cells,
                    m.cols as int,
                    r as int,
                    m.scrollback_max,
                ),
            decreases delta - r,
        {
            proof {
                lemma_mul_le(r as int + 1, old_rows as int, old_cols as int);
                lemma_mul_le(r as int, r as int + 1, old_cols as int);
            }
            let row_start = r * old_cols;
            let row = subrange_vec(&self.cells, row_start, row_start + old_cols);
            let ghost sb0 = self.scrollback@;
            self.scrollback.push(row);
            assert(rows_view(self.scrollback@) =~= rows_view(sb0).push(row@));
            if self.scrollback.len() > self.scrollback_max {
                let ghost sb1 = self.scrollback@;
                self.scrollback.remove(0);
                assert(rows_view(self.scrollback@) =~= rows_view(sb1).drop_first());
            }
            assert(self@ =~= (VtModel { scrollback: self@.scrollback, ..m }));
            r = r + 1;
        }
    }

    /// The main grid at the new size; moves lines between the screen and
    /// the scrollback and shifts the cursor row with the content.
    fn resized_main(&mut self, cols: u16, rows: u16) -> (g: Vec<VTermCell>)
        requires
            model_wf(old(self)@),
        ensures
            g@ == grid_from(
                cols as nat,
                rows as nat,
                |r: int, c: int| resized_cell(old(self)@, cols, rows, r, c),
            ),
            final(self)@ == (VtModel {
                scrollback: m_resize(old(self)@, cols, rows).scrollback,
                cursor_row: if rows < old(self)@.rows {
                    sat_sub(old(self)@.cursor_row as int, old(self)@.rows - rows) as u16
                } else if rows > old(self)@.rows {
                    min_int(old(self)@.cursor_row + pull_count(old(self)@, rows), rows - 1) as u16
                } else {
                    old(self)@.cursor_row
                },
                ..old(self)@
            }),
    {
        let ghost m = self@;
        proof {
            lemma_dims_fit(cols, rows);
            lemma_dims_fit(self.cols, self.rows);
        }
        let old_cols = self.cols as usize;
        let old_rows = self.rows as usize;
        let ncols = cols as usize;
        let nrows = rows as usize;
        let new_size = ncols * nrows;
        let mut new_cells = blank_cells(new_size);
        let copy_cols: usize = if old_cols < ncols { old_cols } else { ncols };
        if nrows < old_rows {
            let delta = old_rows - nrows;
            self.push_top_rows(delta);
            copy_block(&mut new_cells, ncols, nrows, &self.cells, old_cols, old_rows, 0, delta, nrows, copy_cols);
            self.cursor_row = self.cursor_row.saturating_sub(delta as u16);
        } else if nrows > old_rows {
            let delta = nrows - old_rows;
            let sb_len = self.scrollback.len();
            let pull = if delta < sb_len { delta } else { sb_len };
            copy_block(&mut new_cells, ncols, nrows, &self.cells, old_cols, old_rows, pull, 0, old_rows, copy_cols);
            pull_lines(&mut new_cells, ncols, nrows, &self.scrollback, pull);
            let sb_base = sb_len - pull;
            let ghost sb_old = self.scrollback@;
            self.scrollback.truncate(sb_base);
            assert(rows_view(self.scrollback@) =~= rows_view(sb_old).take(sb_base as int));
            let cr = self.cursor_row as usize + pull;
            self.cursor_row = if cr < nrows - 1 { cr as u16 } else { (nrows - 1) as u16 };
            proof {
                assert forall|r: int, c: int| 0 <= r < nrows && 0 <= c < ncols implies #[trigger] gat(
                    new_cells@,
                    ncols as nat,
                    r,
                    c,
                ) == resized_cell(m, cols, rows, r, c) by {
                    lemma_blank_gat(new_size as nat, ncols as nat, nrows as nat, r, c);
                    if r < pull {
                        assert(m.scrollback[sb_base + r] == sb_old[sb_base + r]@);
                    }
                }
            }
        } else {
            copy_block(&mut new_cells, ncols, nrows, &self.cells, old_cols, old_rows, 0, 0, old_rows, copy_cols);
        }
        proof {
            assert forall|r: int, c: int| 0 <= r < nrows && 0 <= c < ncols implies #[trigger] gat(
                new_cells@,
                ncols as nat,
                r,
                c,
            ) == resized_cell(m, cols, rows, r, c) by {
                lemma_blank_gat(new_size as nat, ncols as nat, nrows as nat, r, c);
            }
            let f = |r: int, c: int| resized_cell(m, cols, rows, r, c);
            assert forall|r: int, c: int| 0 <= r < nrows && 0 <= c < ncols implies #[trigger] new_cells@[r
                * (ncols as nat) + c] == f(r, c) by {
                assert(gat(new_cells@, ncols as nat, r, c) == resized_cell(m, cols, rows, r, c));
            }
            lemma_grid_ext(new_cells@, ncols as nat, nrows as nat, f);
        }
        assert(self@ =~= (VtModel {
            scrollback: m_resize(m, cols, rows).scrollback,
            cursor_row: self.cursor_row,
            ..m
        }));
        new_cells
    }

    /// Resize the screen to `cols` x `rows`. Shrinking keeps the bottom rows
    /// and moves the top ones to the scrollback; growing pulls lines back
    /// from the scrollback; the alternate grid is cut or padded.
    pub fn resize(&mut self, cols: u16, rows: u16)
        requires
            model_wf(old(self)@),
        ensures
            final(self)@ == m_resize(old(self)@, cols, rows),
            model_wf(final(self)@),
    {
        let ghost m = self@;
        let old_cols = self.cols;
        let old_rows = self.rows;
        let new_cells = self.resized_main(cols, rows);
        self.cells = new_cells;
        self.cols = cols;
        self.rows = rows;
        self.scroll_bot = if rows >= 1 { rows - 1 } else { 0 };
        if self.scroll_top >= rows {
            self.scroll_top = 0;
        }
        let last_col: u16 = if cols >= 1 { cols - 1 } else { 0 };
        let last_row: u16 = if rows >= 1 { rows - 1 } else { 0 };
        self.cursor_col = min_u16(self.cursor_col, last_col);
        self.cursor_row = min_u16(self.cursor_row, last_row);
        let mut alt_taken: Option<Vec<VTermCell>> = None;
        std::mem::swap(&mut alt_taken, &mut self.alt_cells);
        match alt_taken {
            Some(alt) => {
                let new_alt = resized_alt(&alt, old_cols, old_rows, cols, rows);
                self.alt_cells = Some(new_alt);
            },
            None => {},
        }
        proof {
            lemma_dims_fit(cols, rows);
        }
        assert(self@ =~= m_resize(m, cols, rows));
    }
}

// ---------------------------------------------------------------------------
// Selection text
// ---------------------------------------------------------------------------

/// The character a pane shows at (row, c) when its top `sb_lines` rows show
/// scrollback lines; places with no stored cell read as a space.
pub open spec fn view_char(m: VtModel, sb_lines: int, row: int, c: int) -> char {
    if row < sb_lines {
        let idx = sat_sub(m.scrollback.len() as int, m.scroll_offset as int) + row;
        if idx < m.scrollback.len() && c < m.scrollback[idx].len() {
            m.scrollback[idx][c].ch
        } else {
            ' '
        }
    } else {
        let vr = row - sb_lines;
        if vr < m.rows && c < m.cols {
            gat(m.cells, m.cols as nat, vr, c).ch
        } else {
            ' '
        }
    }
}

/// `s` without its trailing spaces.
pub open spec fn trim_end_spaces(s: Seq<char>) -> Seq<char>
    decreases s.len(),
{
    if s.len() > 0 && s.last() == ' ' {
        trim_end_spaces(s.drop_last())
    } else {
        s
    }
}

/// Scrollback lines shown at the top of a pane `pane_h` rows high.
pub open spec fn sel_sb_lines(m: VtModel, pane_h: usize) -> int {
    min_int(min_int(m.scroll_offset as int, m.scrollback.len() as int), pane_h as int)
}

/// The selected part of pane row `row`, trailing spaces removed.
pub open spec fn sel_line(m: VtModel, pane_h: usize, pane_w: usize, r1: u16, c1: u16, r2: u16, c2: u16, row: int) -> Seq<
    char,
> {
    let from: int = if row == r1 {
        c1 as int
    } else {
        0
    };
    let to: int = if row == r2 {
        c2 + 1
    } else {
        (pane_w as u16) as int
    };
    let n: nat = if from < to {
        (to - from) as nat
    } else {
        0
    };
    trim_end_spaces(Seq::new(n, |i: int| view_char(m, sel_sb_lines(m, pane_h), row, from + i)))
}

/// The first `n` selected rows, each but the last row of the selection
/// followed by a newline.
pub open spec fn sel_text_rows(
    m: VtModel,
    pane_h: usize,
    pane_w: usize,
    r1: u16,
    c1: u16,
    r2: u16,
    c2: u16,
    n: int,
) -> Seq<char>
    decreases n,
{
    if n <= 0 {
        Seq::empty()
    } else {
        let row = r1 + n - 1;
        sel_text_rows(m, pane_h, pane_w, r1, c1, r2, c2, n - 1) + sel_line(m, pane_h, pane_w, r1, c1, r2, c2, row) + if row
            < r2 {
            seq!['\n']
        } else {
            Seq::empty()
        }
    }
}

/// The selected text, or `None` when nothing is selected or the selection
/// holds only white space.
pub open spec fn spec_selection_text(m: VtModel, pane_h: usize, pane_w: usize) -> Option<Seq<char>> {
    match spec_sel_range(m) {
        Some(((r1, c1), (r2, c2))) => {
            let t = sel_text_rows(m, pane_h, pane_w, r1, c1, r2, c2, r2 - r1 + 1);
            if all_white_space(t) {
                None
            } else {
                Some(t)
            }
        },
        None => None,
    }
}

/// What `selection_text` needs: the selection does not end in the last
/// possible column (the end column plus one must fit in a `u16`).
pub open spec fn selection_ok(m: VtModel) -> bool {
    spec_sel_range(m) matches Some((_, (_, c2))) ==> c2 < 0xFFFF
}

impl VTerm {
    fn view_char_at(&self, sb_lines: usize, row: usize, c: usize) -> (ch: char)
        requires
            model_wf(self@),
            sb_lines <= self.scroll_offset,
            sb_lines <= self@.scrollback.len(),
        ensures
            ch == view_char(self@, sb_lines as int, row as int, c as int),
    {
        if row < sb_lines {
            let len = self.scrollback.len();
            let base = if len >= self.scroll_offset {
                len - self.scroll_offset
            } else {
                0
            };
            let idx = base + row;
            if idx < len && c < self.scrollback[idx].len() {
                self.scrollback[idx][c].ch
            } else {
                ' '
            }
        } else {
            let vr = row - sb_lines;
            if vr < self.rows as usize && c < self.cols as usize {
                proof {
                    lemma_dims_fit(self.cols, self.rows);
                    lemma_index_bounds(self.cols as nat, self.rows as nat, vr as int, c as int);
                }
                self.cells[vr * (self.cols as usize) + c].ch
            } else {
                ' '
            }
        }
    }

    /// Text of the selected region: scrollback rows first when the view is
    /// scrolled back, trailing spaces trimmed per row, rows joined by
    /// newlines. `None` without a selection or when it holds only white space.
    pub fn selection_text(&self, pane_h: usize, pane_w: usize) -> (r: Option<String>)
        requires
            model_wf(self@),
            selection_ok(self@),
        ensures
            match r {
                Some(s) => spec_selection_text(self@, pane_h, pane_w) == Some(s@),
                None => spec_selection_text(self@, pane_h, pane_w) is None,
            },
    {
        let ((r1, c1), (r2, c2)) = match self.sel_range() {
            Some(x) => x,
            None => return None,
        };
        let ghost m = self@;
        let sb_len = self.scrollback.len();
        let off = self.scroll_offset;
        let a = if off < sb_len { off } else { sb_len };
        let sb_lines = if a < pane_h { a } else { pane_h };
        let mut text: Vec<char> = Vec::new();
        let mut row: u32 = r1 as u32;
        while row <= r2 as u32
            invariant
                model_wf(self@),
                self@ == m,
                spec_sel_range(m) == Some(((r1, c1), (r2, c2))),
                r1 <= r2,
                c2 < 0xFFFF,
                r1 <= row <= r2 + 1,
                sb_lines == sel_sb_lines(m, pane_h),
                sb_lines <= self.scroll_offset,
                sb_lines <= m.scrollback.len(),
                text@ == sel_text_rows(m, pane_h, pane_w, r1, c1, r2, c2, row - r1),
            decreases r2 + 1 - row,
        {
            let from: usize = if row == r1 as u32 { c1 as usize } else { 0 };
            let to: usize = if row == r2 as u32 { c2 as usize + 1 } else { (#[verifier::truncate] (pane_w as u16)) as usize };
            let ghost n: nat = if from < to { (to - from) as nat } else { 0 };
            let ghost full = Seq::new(n, |i: int| view_char(m, sb_lines as int, row as int, from + i));
            let mut line: Vec<char> = Vec::new();
            let mut c = from;
            while c < to
                invariant
                    model_wf(self@),
                    self@ == m,
                    sb_lines <= self.scroll_offset,
                    sb_lines <= m.scrollback.len(),
                    from <= c,
                    c <= to || c == from,
                    from < to ==> n == to - from,
                    from >= to ==> n == 0,
                    line@ == full.take(c - from),
                    full == Seq::new(n, |i: int| view_char(m, sb_lines as int, row as int, from + i)),
                decreases to - c,
            {
                let ch = self.view_char_at(sb_lines, row as usize, c);
                line.push(ch);
                c = c + 1;
                assert(line@ =~= full.take(c - from));
            }
            assert(line@ =~= full);
            while line.len() > 0 && line[line.len() - 1] == ' '
                invariant
                    trim_end_spaces(line@) == trim_end_spaces(full),
                decreases line@.len(),
            {
                let ghost before = line@;
                line.pop();
                assert(line@ =~= before.drop_last());
            }
            assert(trim_end_spaces(line@) == line@);
            let ghost prev = text@;
            let mut k: usize = 0;
            while k < line.len()
                invariant
                    k <= line@.len(),
                    text@ == prev + line@.take(k as int),
                decreases line@.len() - k,
            {
                text.push(line[k]);
                k = k + 1;
                assert(text@ =~= prev + line@.take(k as int));
            }
            assert(line@.take(line@.len() as int) =~= line@);
            if row < r2 as u32 {
                text.push('\n');
            }
            proof {
                assert(line@ == sel_line(m, pane_h, pane_w, r1, c1, r2, c2, row as int));
                let mid = prev + line@;
                if row < r2 {
                    assert(text@ =~= mid + seq!['\n']);
                } else {
                    assert(text@ =~= mid + Seq::<char>::empty());
                }
            }
            row = row + 1;
        }
        if is_all_white_space(&text) {
            None
        } else {
            Some(string_from_chars(text.as_slice()))
        }
    }
}


/// The attribute parameters of SGR each turn one attribute on or off and
/// leave the rest of the pen as it was: 1 bold, 3 italic, 4 underline and
/// 7 inverse on; 22, 23, 24 and 27 the same ones off; 0 everything back to
/// the default. So an attribute turned on and then off again is as before.
pub proof fn lemma_sgr_attributes(pen: Pen, params: Seq<u16>, i: int)
    requires
        0 <= i < params.len(),
    ensures
        params[i] == 1 ==> sgr_one(pen, params, i) == (Pen { bold: true, ..pen }, i),
        params[i] == 3 ==> sgr_one(pen, params, i) == (Pen { italic: true, ..pen }, i),
        params[i] == 4 ==> sgr_one(pen, params, i) == (Pen { underline: true, ..pen }, i),
        params[i] == 7 ==> sgr_one(pen, params, i) == (Pen { inverse: true, ..pen }, i),
        params[i] == 22 ==> sgr_one(pen, params, i) == (Pen { bold: false, ..pen }, i),
        params[i] == 23 ==> sgr_one(pen, params, i) == (Pen { italic: false, ..pen }, i),
        params[i] == 24 ==> sgr_one(pen, params, i) == (Pen { underline: false, ..pen }, i),
        params[i] == 27 ==> sgr_one(pen, params, i) == (Pen { inverse: false, ..pen }, i),
        params[i] == 0 ==> sgr_one(pen, params, i).0 == pen_reset(),
        ({
            let on = sgr_one(pen, seq![4u16], 0).0;
            !pen.underline ==> sgr_one(on, seq![24u16], 0).0 == pen
        }),
        ({
            let on = sgr_one(pen, seq![3u16], 0).0;
            !pen.italic ==> sgr_one(on, seq![23u16], 0).0 == pen
        }),
        ({
            let on = sgr_one(pen, seq![1u16], 0).0;
            !pen.bold ==> sgr_one(on, seq![22u16], 0).0 == pen
        }),
        ({
            let on = sgr_one(pen, seq![7u16], 0).0;
            !pen.inverse ==> sgr_one(on, seq![27u16], 0).0 == pen
        }),
{
}

} // verus!

//! Screen model: a grid of styled cells with a double buffer, and the
//! diff-based ANSI output that redraws only the cells that changed.
use vstd::prelude::*;
use vstd::utf8::encode_scalar;
use crate::bytes::{decimal, push_all, push_utf8, write_usize};
use crate::terminal::ColorMode;
use crate::unicode::{char_width, spec_char_width};

verus! {

// ---------------------------------------------------------------------------
// Color, Cell, CellStyle
// ---------------------------------------------------------------------------

#[derive(Clone, Copy, PartialEq, Eq, Debug, Structural)]
pub enum Color {
    Default,
    Ansi(u8),
    Color256(u8),
    Rgb(u8, u8, u8),
}

#[derive(Clone, Copy, PartialEq, Eq, Debug, Structural)]
pub struct Cell {
    pub ch: char,
    pub fg: Color,
    pub bg: Color,
    pub bold: bool,
    pub underline: bool,
    pub inverse: bool,
    pub italic: bool,
    /// True for the second column of a double-width character.
    pub wide_cont: bool,
}

/// The blank cell: a space with default colors and no attributes.
pub open spec fn blank_cell() -> Cell {
    Cell {
        ch: ' ',
        fg: Color::Default,
        bg: Color::Default,
        bold: false,
        underline: false,
        inverse: false,
        italic: false,
        wide_cont: false,
    }
}

impl Default for Cell {
    fn default() -> (c: Self)
        ensures
            c == blank_cell(),
    {
        Cell {
            ch: ' ',
            fg: Color::Default,
            bg: Color::Default,
            bold: false,
            underline: false,
            inverse: false,
            italic: false,
            wide_cont: false,
        }
    }
}

/// Style attributes for a cell (used by put_cell_styled).
#[derive(Clone, Copy, Debug)]
pub struct CellStyle {
    pub fg: Color,
    pub bg: Color,
    pub bold: bool,
    pub underline: bool,
    pub inverse: bool,
    pub italic: bool,
}

/// The cell that shows `ch` in `style`; `wide_cont` marks the right half of
/// a double-width character.
pub open spec fn styled_cell(ch: char, style: CellStyle, wide_cont: bool) -> Cell {
    Cell {
        ch,
        fg: style.fg,
        bg: style.bg,
        bold: style.bold,
        underline: style.underline,
        inverse: style.inverse,
        italic: style.italic,
        wide_cont,
    }
}

/// The style `put_char` uses: colors and bold, no other attribute.
pub open spec fn plain_style(fg: Color, bg: Color, bold: bool) -> CellStyle {
    CellStyle { fg, bg, bold, underline: false, inverse: false, italic: false }
}

// ---------------------------------------------------------------------------
// Grid model
// ---------------------------------------------------------------------------

/// The grid `cells` (row-major, `w` columns, `h` rows) after writing `cell`
/// at (`row`, `col`); positions outside the grid leave it unchanged.
pub open spec fn grid_put(cells: Seq<Cell>, w: nat, h: nat, row: int, col: int, cell: Cell) -> Seq<
    Cell,
> {
    if 0 <= row < h && 0 <= col < w {
        cells.update(row * w + col, cell)
    } else {
        cells
    }
}

/// The grid after drawing character `ch` at (`row`, `col`): a wide character
/// takes two cells (the second marked `wide_cont`), or becomes a blank when
/// it does not fit before the right edge.
pub open spec fn grid_put_styled(
    cells: Seq<Cell>,
    w: nat,
    h: nat,
    row: int,
    col: int,
    ch: char,
    style: CellStyle,
) -> Seq<Cell> {
    if spec_char_width(ch) == 2 {
        if col + 1 < w {
            grid_put(
                grid_put(cells, w, h, row, col, styled_cell(ch, style, false)),
                w,
                h,
                row,
                col + 1,
                styled_cell(' ', style, true),
            )
        } else {
            grid_put(cells, w, h, row, col, styled_cell(' ', style, false))
        }
    } else {
        grid_put(cells, w, h, row, col, styled_cell(ch, style, false))
    }
}

/// Columns a character advances the pen by in `put_str`: its width, at least 1.
pub open spec fn advance(ch: char) -> nat {
    if spec_char_width(ch) == 0 {
        1
    } else {
        spec_char_width(ch)
    }
}

/// The grid after drawing `text` from (`row`, `col`), character by character,
/// until the text ends or the pen reaches the right edge.
pub open spec fn grid_put_str(
    cells: Seq<Cell>,
    w: nat,
    h: nat,
    row: int,
    col: int,
    text: Seq<char>,
    style: CellStyle,
) -> Seq<Cell>
    decreases text.len(),
{
    if text.len() == 0 || col >= w {
        cells
    } else {
        grid_put_str(
            grid_put_styled(cells, w, h, row, col, text[0], style),
            w,
            h,
            row,
            col + advance(text[0]),
            text.drop_first(),
            style,
        )
    }
}

proof fn lemma_grid_index(w: nat, h: nat, row: int, col: int)
    requires
        0 <= row < h,
        0 <= col < w,
    ensures
        0 <= row * w <= row * w + col < w * h,
{
    assert(0 <= row * w + col < w * h) by (nonlinear_arith)
        requires
            0 <= row < h,
            0 <= col < w,
    ;
    assert(0 <= row * w) by (nonlinear_arith)
        requires
            0 <= row,
    ;
}

// ---------------------------------------------------------------------------
// Screen — flat Vec<Cell> with double-buffer swap
// ---------------------------------------------------------------------------

pub struct Screen {
    pub width: usize,
    pub height: usize,
    pub cells: Vec<Cell>,
    pub prev_cells: Vec<Cell>,
    pub first_frame: bool,
}

/// The grid of `n` blank cells.
pub open spec fn blank_grid(n: nat) -> Seq<Cell> {
    Seq::new(n, |i: int| blank_cell())
}

fn blank_vec(n: usize) -> (v: Vec<Cell>)
    ensures
        v@ == blank_grid(n as nat),
{
    let mut v: Vec<Cell> = Vec::new();
    let mut i: usize = 0;
    while i < n
        invariant
            i <= n,
            v@ == blank_grid(i as nat),
        decreases n - i,
    {
        v.push(Cell::default());
        i = i + 1;
        assert(v@ =~= blank_grid(i as nat));
    }
    v
}

impl Screen {
    /// Both buffers hold `width * height` cells.
    pub open spec fn wf(&self) -> bool {
        &&& self.width * self.height <= usize::MAX
        &&& self.cells@.len() == self.width * self.height
        &&& self.prev_cells@.len() == self.width * self.height
    }

    pub fn new(width: usize, height: usize) -> (s: Self)
        requires
            width * height <= usize::MAX,
        ensures
            s.wf(),
            s.width == width,
            s.height == height,
            s.cells@ == blank_grid((width * height) as nat),
            s.prev_cells@ == blank_grid((width * height) as nat),
            s.first_frame,
    {
        let size = width * height;
        Screen {
            width,
            height,
            cells: blank_vec(size),
            prev_cells: blank_vec(size),
            first_frame: true,
        }
    }

    pub fn width(&self) -> (w: usize)
        ensures
            w == self.width,
    {
        self.width
    }

    pub fn height(&self) -> (h: usize)
        ensures
            h == self.height,
    {
        self.height
    }

    /// Reset every cell of the frame being built to the blank cell.
    pub fn clear(&mut self)
        ensures
            final(self).cells@ == blank_grid(old(self).cells@.len()),
            final(self).prev_cells == old(self).prev_cells,
            final(self).width == old(self).width,
            final(self).height == old(self).height,
            final(self).first_frame == old(self).first_frame,
    {
        let n = self.cells.len();
        let mut i: usize = 0;
        while i < n
            invariant
                i <= n == self.cells@.len() == old(self).cells@.len(),
                forall|j: int| 0 <= j < i ==> self.cells@[j] == blank_cell(),
                self.prev_cells == old(self).prev_cells,
                self.width == old(self).width,
                self.height == old(self).height,
                self.first_frame == old(self).first_frame,
            decreases n - i,
        {
            self.cells.set(i, Cell::default());
            i = i + 1;
        }
        assert(self.cells@ =~= blank_grid(n as nat));
    }

    pub fn put_cell(&mut self, row: usize, col: usize, cell: Cell)
        requires
            old(self).wf(),
        ensures
            final(self).wf(),
            final(self).cells@ == grid_put(
                old(self).cells@,
                old(self).width as nat,
                old(self).height as nat,
                row as int,
                col as int,
                cell,
            ),
            final(self).prev_cells == old(self).prev_cells,
            final(self).width == old(self).width,
            final(self).height == old(self).height,
            final(self).first_frame == old(self).first_frame,
    {
        if row < self.height && col < self.width {
            proof {
                lemma_grid_index(self.width as nat, self.height as nat, row as int, col as int);
            }
            let i = row * self.width + col;
            self.cells.set(i, cell);
        }
    }

    pub fn put_cell_styled(&mut self, row: usize, col: usize, ch: char, style: CellStyle)
        requires
            old(self).wf(),
        ensures
            final(self).wf(),
            final(self).cells@ == grid_put_styled(
                old(self).cells@,
                old(self).width as nat,
                old(self).height as nat,
                row as int,
                col as int,
                ch,
                style,
            ),
            final(self).prev_cells == old(self).prev_cells,
            final(self).width == old(self).width,
            final(self).height == old(self).height,
            final(self).first_frame == old(self).first_frame,
    {
        let w = char_width(ch);
        if w == 2 {
            if col < self.width && col + 1 < self.width {
                self.put_cell(
                    row,
                    col,
                    Cell {
                        ch,
                        fg: style.fg,
                        bg: style.bg,
                        bold: style.bold,
                        underline: style.underline,
                        inverse: style.inverse,
                        italic: style.italic,
                        wide_cont: false,
                    },
                );
                self.put_cell(
                    row,
                    col + 1,
                    Cell {
                        ch: ' ',
                        fg: style.fg,
                        bg: style.bg,
                        bold: style.bold,
                        underline: style.underline,
                        inverse: style.inverse,
                        italic: style.italic,
                        wide_cont: true,
                    },
                );
            } else {
                self.put_cell(
                    row,
                    col,
                    Cell {
                        ch: ' ',
                        fg: style.fg,
                        bg: style.bg,
                        bold: style.bold,
                        underline: style.underline,
                        inverse: style.inverse,
                        italic: style.italic,
                        wide_cont: false,
                    },
                );
            }
        } else {
            self.put_cell(
                row,
                col,
                Cell {
                    ch,
                    fg: style.fg,
                    bg: style.bg,
                    bold: style.bold,
                    underline: style.underline,
                    inverse: style.inverse,
                    italic: style.italic,
                    wide_cont: false,
                },
            );
        }
    }

    pub fn put_char(&mut self, row: usize, col: usize, ch: char, fg: Color, bg: Color, bold: bool)
        requires
            old(self).wf(),
        ensures
            final(self).wf(),
            final(self).cells@ == grid_put_styled(
                old(self).cells@,
                old(self).width as nat,
                old(self).height as nat,
                row as int,
                col as int,
                ch,
                plain_style(fg, bg, bold),
            ),
            final(self).prev_cells == old(self).prev_cells,
            final(self).width == old(self).width,
            final(self).height == old(self).height,
            final(self).first_frame == old(self).first_frame,
    {
        let style = CellStyle {
            fg,
            bg,
            bold,
            underline: false,
            inverse: false,
            italic: false,
        };
        self.put_cell_styled(row, col, ch, style);
    }

    pub fn put_str(&mut self, row: usize, col: usize, text: &str, fg: Color, bg: Color, bold: bool)
        requires
            old(self).wf(),
        ensures
            final(self).wf(),
            final(self).cells@ == (if row < old(self).height {
                grid_put_str(
                    old(self).cells@,
                    old(self).width as nat,
                    old(self).height as nat,
                    row as int,
                    col as int,
                    text@,
                    plain_style(fg, bg, bold),
                )
            } else {
                old(self).cells@
            }),
            final(self).prev_cells == old(self).prev_cells,
            final(self).width == old(self).width,
            final(self).height == old(self).height,
            final(self).first_frame == old(self).first_frame,
    {
        if row >= self.height {
            return ;
        }
        let ghost style = plain_style(fg, bg, bold);
        let ghost w = self.width as nat;
        let ghost h = self.height as nat;
        let chars = crate::text::chars_of(text);
        let mut c = col;
        let mut k: usize = 0;
        assert(text@.skip(0) =~= text@);
        while k < chars.len() && c < self.width
            invariant
                self.wf(),
                self.width == old(self).width,
                self.height == old(self).height,
                row < self.height,
                k <= chars@.len(),
                chars@ == text@,
                w == self.width,
                h == self.height,
                style == plain_style(fg, bg, bold),
                self.prev_cells == old(self).prev_cells,
                self.first_frame == old(self).first_frame,
                grid_put_str(old(self).cells@, w, h, row as int, col as int, text@, style)
                    == grid_put_str(self.cells@, w, h, row as int, c as int, text@.skip(k as int), style),
            decreases chars@.len() - k,
        {
            let ch = chars[k];
            let ghost before = self.cells@;
            assert(text@.skip(k as int)[0] == ch);
            assert(text@.skip(k as int).drop_first() =~= text@.skip(k + 1));
            self.put_char(row, c, ch, fg, bg, bold);
            let cw = char_width(ch);
            let adv: usize = if cw == 0 { 1 } else { cw };
            assert(grid_put_str(before, w, h, row as int, c as int, text@.skip(k as int), style)
                == grid_put_str(self.cells@, w, h, row as int, c + adv, text@.skip(k + 1), style));
            k = k + 1;
            if c > usize::MAX - adv {
                assert(grid_put_str(self.cells@, w, h, row as int, c + adv, text@.skip(k as int), style)
                    == self.cells@);
                return ;
            }
            c = c + adv;
        }
        if k == chars.len() {
            assert(text@.skip(k as int).len() == 0);
        }
    }

    // -- Rendering ---------------------------------------------------------

    /// Build the bytes that bring the terminal from the previous frame to this
    /// one, then make this frame the previous one and start a blank frame.
    /// Returns the bytes to write (the caller writes them to the terminal,
    /// between a hide-cursor and a show-cursor sequence when not empty).
    pub fn flush<F: Fn(u8, u8, u8) -> u8>(&mut self, color_mode: &ColorMode, ansi16: &F) -> (out:
        Vec<u8>)
        requires
            old(self).wf(),
            ansi16_is_function(ansi16),
        ensures
            out@ == diff_output(old(self).cells@, old(self).prev_cells@, old(self).first_frame, old(self).width as nat, old(self).height as nat, *color_mode, ansi16_spec(ansi16)),
            final(self).wf(),
            final(self).prev_cells@ == old(self).cells@,
            final(self).cells@ == blank_grid(old(self).cells@.len()),
            !final(self).first_frame,
            final(self).width == old(self).width,
            final(self).height == old(self).height,
    {
        let buf = self.build_diff_output(color_mode, ansi16);
        self.first_frame = false;
        std::mem::swap(&mut self.cells, &mut self.prev_cells);
        self.clear();
        buf
    }

    // -- Resize ------------------------------------------------------------

    pub fn resize(&mut self, width: usize, height: usize)
        requires
            width * height <= usize::MAX,
        ensures
            final(self).wf(),
            final(self).width == width,
            final(self).height == height,
            final(self).cells@ == blank_grid((width * height) as nat),
            final(self).prev_cells@ == blank_grid((width * height) as nat),
            final(self).first_frame,
    {
        self.width = width;
        self.height = height;
        let size = width * height;
        self.cells = blank_vec(size);
        self.prev_cells = blank_vec(size);
        self.first_frame = true;
    }

    pub fn cell_at(&self, row: usize, col: usize) -> (c: &Cell)
        requires
            self.wf(),
            row < self.height,
            col < self.width,
        ensures
            *c == self.cells@[row * self.width + col],
    {
        proof {
            lemma_grid_index(self.width as nat, self.height as nat, row as int, col as int);
        }
        &self.cells[row * self.width + col]
    }

    /// The bytes that redraw every changed cell (every cell on the first
    /// frame), followed by an attribute reset when anything was emitted.
    pub fn build_diff_output<F: Fn(u8, u8, u8) -> u8>(&self, color_mode: &ColorMode, ansi16: &F) -> (out:
        Vec<u8>)
        requires
            self.wf(),
            ansi16_is_function(ansi16),
        ensures
            out@ == diff_output(self.cells@, self.prev_cells@, self.first_frame, self.width as nat, self.height as nat, *color_mode, ansi16_spec(ansi16)),
    {
        let mut buf: Vec<u8> = Vec::new();
        let mut st = Sgr::initial();
        let ghost w = self.width as nat;
        let ghost h = self.height as nat;
        let ghost q = ansi16_spec(ansi16);
        let ghost total = diff_body(self.cells@, self.prev_cells@, self.first_frame, w, h, *color_mode, q, 0, 0, Sgr::initial());
        let mut row: usize = 0;
        while row < self.height
            invariant
                self.wf(),
                w == self.width,
                h == self.height,
                q == ansi16_spec(ansi16),
                ansi16_is_function(ansi16),
                row <= h,
                total == buf@ + diff_body(self.cells@, self.prev_cells@, self.first_frame, w, h, *color_mode, q, row as int, 0, st),
            decreases h - row,
        {
            let mut col: usize = 0;
            while col < self.width
                invariant
                    self.wf(),
                    w == self.width,
                    h == self.height,
                    q == ansi16_spec(ansi16),
                    ansi16_is_function(ansi16),
                    row < h,
                    col <= w,
                    total == buf@ + diff_body(self.cells@, self.prev_cells@, self.first_frame, w, h, *color_mode, q, row as int, col as int, st),
                decreases w - col,
            {
                proof {
                    lemma_grid_index(w, h, row as int, col as int);
                }
                let i = row * self.width + col;
                let cell = self.cells[i];
                let ghost old_buf = buf@;
                let ghost old_st = st;
                if !cell.wide_cont {
                    let changed = if self.first_frame {
                        true
                    } else {
                        self.prev_cells[i] != cell
                    };
                    if changed {
                        st = emit_cell(&mut buf, row, col, cell, st, color_mode, ansi16);
                    }
                }
                proof {
                    if !cell.wide_cont && (self.first_frame || self.prev_cells@[i as int] != cell) {
                        let e = cell_bytes(row as int, col as int, cell, old_st, *color_mode, q);
                        let rest = diff_body(self.cells@, self.prev_cells@, self.first_frame, w, h, *color_mode, q, row as int, col + 1, st);
                        assert(old_buf + (e + rest) =~= (old_buf + e) + rest);
                    }
                }
                col = col + 1;
            }
            row = row + 1;
        }
        if buf.len() > 0 {
            buf.push(0x1b);
            buf.push(0x5b);
            buf.push(0x30);
            buf.push(0x6d);
        }
        assert(buf@ =~= diff_output(self.cells@, self.prev_cells@, self.first_frame, w, h, *color_mode, q));
        buf
    }
}

// ---------------------------------------------------------------------------
// ANSI output model
// ---------------------------------------------------------------------------

/// The rendition the terminal is known to be in while the diff is emitted.
#[derive(Clone, Copy)]
pub struct Sgr {
    pub fg: Color,
    pub bg: Color,
    pub bold: bool,
    pub underline: bool,
    pub inverse: bool,
    pub italic: bool,
}

impl Sgr {
    pub open spec fn spec_initial() -> Sgr {
        Sgr {
            fg: Color::Default,
            bg: Color::Default,
            bold: false,
            underline: false,
            inverse: false,
            italic: false,
        }
    }

    #[verifier::when_used_as_spec(spec_initial)]
    pub fn initial() -> (s: Sgr)
        ensures
            s == Sgr::spec_initial(),
    {
        Sgr {
            fg: Color::Default,
            bg: Color::Default,
            bold: false,
            underline: false,
            inverse: false,
            italic: false,
        }
    }
}

/// The 16-color quantizer handed in by the caller is a function: it accepts
/// every color and gives one answer for each.
pub open spec fn ansi16_is_function<F: Fn(u8, u8, u8) -> u8>(f: &F) -> bool {
    forall|r: u8, g: u8, b: u8|
        {
            &&& #[trigger] f.requires((r, g, b))
            &&& exists|n: u8| f.ensures((r, g, b), n)
            &&& forall|n1: u8, n2: u8|
                f.ensures((r, g, b), n1) && f.ensures((r, g, b), n2) ==> n1 == n2
        }
}

/// The answer of the caller's 16-color quantizer, as a spec function.
pub open spec fn ansi16_spec<F: Fn(u8, u8, u8) -> u8>(f: &F) -> spec_fn(u8, u8, u8) -> u8 {
    |r: u8, g: u8, b: u8| choose|n: u8| f.ensures((r, g, b), n)
}

/// `CSI row;col H` with 1-based coordinates.
pub open spec fn cursor_pos_bytes(row: nat, col: nat) -> Seq<u8> {
    seq![0x1bu8, 0x5bu8] + decimal(row + 1) + seq![0x3bu8] + decimal(col + 1) + seq![0x48u8]
}

/// A 0-255 palette index mapped to the xterm palette index of the nearest color.
pub open spec fn spec_rgb_to_ansi256(r: u8, g: u8, b: u8) -> u8 {
    if r == g && g == b {
        if r < 8 {
            16
        } else if r > 248 {
            231
        } else if r == 248 {
            255
        } else {
            (((r - 8) * 24 / 240) + 232) as u8
        }
    } else {
        (16 + 36 * spec_cube_index(r) + 6 * spec_cube_index(g) + spec_cube_index(b)) as u8
    }
}

/// Index (0-5) of the nearest level of the 6x6x6 color cube.
pub open spec fn spec_cube_index(v: u8) -> u8 {
    if v < 48 {
        0
    } else if v < 115 {
        1
    } else if v < 155 {
        2
    } else if v < 195 {
        3
    } else if v < 235 {
        4
    } else {
        5
    }
}

/// RGB of an xterm palette entry: the 16 basic colors, the 6x6x6 cube and
/// the gray ramp.
pub open spec fn spec_ansi256_to_rgb(n: u8) -> (u8, u8, u8) {
    if n < 16 {
        ansi_basic_rgb(n)
    } else if n < 232 {
        let idx = n - 16;
        (cube_level((idx / 36) as u8), cube_level(((idx % 36) / 6) as u8), cube_level((idx % 6) as u8))
    } else {
        let v = (8 + 10 * (n - 232)) as u8;
        (v, v, v)
    }
}

pub open spec fn cube_level(i: u8) -> u8 {
    if i == 0 {
        0
    } else {
        (55 + 40 * i) as u8
    }
}

pub open spec fn ansi_basic_rgb(n: u8) -> (u8, u8, u8) {
    if n == 0 {
        (0, 0, 0)
    } else if n == 1 {
        (128, 0, 0)
    } else if n == 2 {
        (0, 128, 0)
    } else if n == 3 {
        (128, 128, 0)
    } else if n == 4 {
        (0, 0, 128)
    } else if n == 5 {
        (128, 0, 128)
    } else if n == 6 {
        (0, 128, 128)
    } else if n == 7 {
        (192, 192, 192)
    } else if n == 8 {
        (128, 128, 128)
    } else if n == 9 {
        (255, 0, 0)
    } else if n == 10 {
        (0, 255, 0)
    } else if n == 11 {
        (255, 255, 0)
    } else if n == 12 {
        (0, 0, 255)
    } else if n == 13 {
        (255, 0, 255)
    } else if n == 14 {
        (0, 255, 255)
    } else {
        (255, 255, 255)
    }
}

/// The color actually sent for `color` in `mode`: RGB becomes the nearest
/// palette entry on 256-color terminals; RGB and palette colors become the
/// quantizer's answer on 16-color terminals; everything else is unchanged.
pub open spec fn spec_effective_color(color: Color, mode: ColorMode, q: spec_fn(u8, u8, u8) -> u8) -> Color {
    match (color, mode) {
        (Color::Rgb(r, g, b), ColorMode::Color256) => Color::Color256(spec_rgb_to_ansi256(r, g, b)),
        (Color::Rgb(r, g, b), ColorMode::Color16) => Color::Ansi(q(r, g, b)),
        (Color::Color256(n), ColorMode::Color16) => {
            let (r, g, b) = spec_ansi256_to_rgb(n);
            Color::Ansi(q(r, g, b))
        },
        _ => color,
    }
}

/// The SGR sequence that selects `color` as foreground (`fg`) or background.
pub open spec fn color_bytes(color: Color, fg: bool) -> Seq<u8> {
    match color {
        Color::Default => if fg {
            seq![0x1bu8, 0x5bu8, 0x33u8, 0x39u8, 0x6du8]
        } else {
            seq![0x1bu8, 0x5bu8, 0x34u8, 0x39u8, 0x6du8]
        },
        Color::Ansi(n) => {
            let code: nat = if fg {
                if n < 8 { (30 + n) as nat } else { (90 + n - 8) as nat }
            } else {
                if n < 8 { (40 + n) as nat } else { (100 + n - 8) as nat }
            };
            seq![0x1bu8, 0x5bu8] + decimal(code) + seq![0x6du8]
        },
        Color::Color256(n) => (if fg {
            seq![0x1bu8, 0x5bu8, 0x33u8, 0x38u8, 0x3bu8, 0x35u8, 0x3bu8]
        } else {
            seq![0x1bu8, 0x5bu8, 0x34u8, 0x38u8, 0x3bu8, 0x35u8, 0x3bu8]
        }) + decimal(n as nat) + seq![0x6du8],
        Color::Rgb(r, g, b) => (if fg {
            seq![0x1bu8, 0x5bu8, 0x33u8, 0x38u8, 0x3bu8, 0x32u8, 0x3bu8]
        } else {
            seq![0x1bu8, 0x5bu8, 0x34u8, 0x38u8, 0x3bu8, 0x32u8, 0x3bu8]
        }) + decimal(r as nat) + seq![0x3bu8] + decimal(g as nat) + seq![0x3bu8] + decimal(
            b as nat,
        ) + seq![0x6du8],
    }
}

/// `CSI on m` when the flag turns on, `CSI off m` when it turns off, nothing
/// when it is unchanged.
pub open spec fn flag_bytes(cur: bool, want: bool, on: Seq<u8>, off: Seq<u8>) -> Seq<u8> {
    if cur == want {
        Seq::empty()
    } else if want {
        on
    } else {
        off
    }
}

/// The rendition after drawing `cell`.
pub open spec fn sgr_of(cell: Cell) -> Sgr {
    Sgr {
        fg: cell.fg,
        bg: cell.bg,
        bold: cell.bold,
        underline: cell.underline,
        inverse: cell.inverse,
        italic: cell.italic,
    }
}

/// The rendition changes for `cell` in the order bold, italic, underline,
/// inverse.
pub open spec fn attr_bytes(cell: Cell, st: Sgr) -> Seq<u8> {
    flag_bytes(
        st.bold,
        cell.bold,
        seq![0x1bu8, 0x5bu8, 0x31u8, 0x6du8],
        seq![0x1bu8, 0x5bu8, 0x32u8, 0x32u8, 0x6du8],
    ) + flag_bytes(
        st.italic,
        cell.italic,
        seq![0x1bu8, 0x5bu8, 0x33u8, 0x6du8],
        seq![0x1bu8, 0x5bu8, 0x32u8, 0x33u8, 0x6du8],
    ) + flag_bytes(
        st.underline,
        cell.underline,
        seq![0x1bu8, 0x5bu8, 0x34u8, 0x6du8],
        seq![0x1bu8, 0x5bu8, 0x32u8, 0x34u8, 0x6du8],
    ) + flag_bytes(
        st.inverse,
        cell.inverse,
        seq![0x1bu8, 0x5bu8, 0x37u8, 0x6du8],
        seq![0x1bu8, 0x5bu8, 0x32u8, 0x37u8, 0x6du8],
    )
}

/// The foreground then background color changes for `cell`.
pub open spec fn color_change_bytes(cell: Cell, st: Sgr, mode: ColorMode, q: spec_fn(u8, u8, u8) -> u8) -> Seq<u8> {
    (if cell.fg != st.fg {
        color_bytes(spec_effective_color(cell.fg, mode, q), true)
    } else {
        Seq::empty()
    }) + (if cell.bg != st.bg {
        color_bytes(spec_effective_color(cell.bg, mode, q), false)
    } else {
        Seq::empty()
    })
}

/// The bytes for one changed cell: cursor move, rendition changes, colors,
/// then the character in UTF-8.
pub open spec fn cell_bytes(
    row: int,
    col: int,
    cell: Cell,
    st: Sgr,
    mode: ColorMode,
    q: spec_fn(u8, u8, u8) -> u8,
) -> Seq<u8> {
    cursor_pos_bytes(row as nat, col as nat) + attr_bytes(cell, st) + color_change_bytes(cell, st, mode, q)
        + encode_scalar(cell.ch as u32)
}

/// The output for the cells from (`row`, `col`) on, in row-major order,
/// starting in rendition `st`: continuation cells and unchanged cells
/// (unless `full`) are skipped.
pub open spec fn diff_body(
    cells: Seq<Cell>,
    prev: Seq<Cell>,
    full: bool,
    w: nat,
    h: nat,
    mode: ColorMode,
    q: spec_fn(u8, u8, u8) -> u8,
    row: int,
    col: int,
    st: Sgr,
) -> Seq<u8>
    decreases h - row, w - col,
{
    if row < 0 || col < 0 || row >= h {
        Seq::empty()
    } else if col >= w {
        diff_body(cells, prev, full, w, h, mode, q, row + 1, 0, st)
    } else {
        let i = row * w + col;
        let cell = cells[i];
        if !cell.wide_cont && (full || prev[i] != cell) {
            cell_bytes(row, col, cell, st, mode, q) + diff_body(cells, prev, full, w, h, mode, q, row, col + 1, sgr_of(cell))
        } else {
            diff_body(cells, prev, full, w, h, mode, q, row, col + 1, st)
        }
    }
}

/// The whole frame diff: the body, then `CSI 0 m` when the body is not empty.
pub open spec fn diff_output(
    cells: Seq<Cell>,
    prev: Seq<Cell>,
    full: bool,
    w: nat,
    h: nat,
    mode: ColorMode,
    q: spec_fn(u8, u8, u8) -> u8,
) -> Seq<u8> {
    let body = diff_body(cells, prev, full, w, h, mode, q, 0, 0, Sgr::spec_initial());
    if body.len() > 0 {
        body + seq![0x1bu8, 0x5bu8, 0x30u8, 0x6du8]
    } else {
        body
    }
}

/// When nothing changed since the last frame, the diff from any position on is empty.
pub proof fn lemma_unchanged_body_empty(
    cells: Seq<Cell>,
    w: nat,
    h: nat,
    mode: ColorMode,
    q: spec_fn(u8, u8, u8) -> u8,
    row: int,
    col: int,
    st: Sgr,
)
    ensures
        diff_body(cells, cells, false, w, h, mode, q, row, col, st) == Seq::<u8>::empty(),
    decreases h - row, w - col,
{
    if row < 0 || col < 0 || row >= h {
    } else if col >= w {
        lemma_unchanged_body_empty(cells, w, h, mode, q, row + 1, 0, st);
    } else {
        lemma_unchanged_body_empty(cells, w, h, mode, q, row, col + 1, st);
    }
}

/// A frame identical to the previous one, after the first frame, produces no output.
pub proof fn lemma_unchanged_frame_no_output(
    cells: Seq<Cell>,
    w: nat,
    h: nat,
    mode: ColorMode,
    q: spec_fn(u8, u8, u8) -> u8,
)
    ensures
        diff_output(cells, cells, false, w, h, mode, q) == Seq::<u8>::empty(),
{
    lemma_unchanged_body_empty(cells, w, h, mode, q, 0, 0, Sgr::spec_initial());
}

/// `CSI on m` when the flag turns on, `CSI 2 off m` when it turns off.
fn push_attrs(buf: &mut Vec<u8>, cell: Cell, st: Sgr)
    ensures
        final(buf)@ == old(buf)@ + attr_bytes(cell, st),
{
    push_flag(buf, st.bold, cell.bold, 0x31, 0x32);
    push_flag(buf, st.italic, cell.italic, 0x33, 0x33);
    push_flag(buf, st.underline, cell.underline, 0x34, 0x34);
    push_flag(buf, st.inverse, cell.inverse, 0x37, 0x37);
    proof {
        lemma_concat4(
            old(buf)@,
            flag_bytes(st.bold, cell.bold, seq![0x1bu8, 0x5bu8, 0x31u8, 0x6du8], seq![0x1bu8, 0x5bu8, 0x32u8, 0x32u8, 0x6du8]),
            flag_bytes(st.italic, cell.italic, seq![0x1bu8, 0x5bu8, 0x33u8, 0x6du8], seq![0x1bu8, 0x5bu8, 0x32u8, 0x33u8, 0x6du8]),
            flag_bytes(st.underline, cell.underline, seq![0x1bu8, 0x5bu8, 0x34u8, 0x6du8], seq![0x1bu8, 0x5bu8, 0x32u8, 0x34u8, 0x6du8]),
            flag_bytes(st.inverse, cell.inverse, seq![0x1bu8, 0x5bu8, 0x37u8, 0x6du8], seq![0x1bu8, 0x5bu8, 0x32u8, 0x37u8, 0x6du8]),
        );
    }
}

fn push_colors<F: Fn(u8, u8, u8) -> u8>(buf: &mut Vec<u8>, cell: Cell, st: Sgr, mode: &ColorMode, ansi16: &F)
    requires
        ansi16_is_function(ansi16),
    ensures
        final(buf)@ == old(buf)@ + color_change_bytes(cell, st, *mode, ansi16_spec(ansi16)),
{
    if cell.fg != st.fg {
        let c = effective_color(cell.fg, mode, ansi16);
        write_fg_color(buf, c);
    }
    let ghost mid = buf@;
    if cell.bg != st.bg {
        let c = effective_color(cell.bg, mode, ansi16);
        write_bg_color(buf, c);
    }
    assert(buf@ =~= old(buf)@ + color_change_bytes(cell, st, *mode, ansi16_spec(ansi16)));
}

proof fn lemma_concat4(s: Seq<u8>, a: Seq<u8>, b: Seq<u8>, c: Seq<u8>, d: Seq<u8>)
    ensures
        s + a + b + c + d == s + (a + b + c + d),
{
    assert(s + a + b + c + d =~= s + (a + b + c + d));
}

fn push_flag(buf: &mut Vec<u8>, cur: bool, want: bool, on: u8, off: u8)
    ensures
        final(buf)@ == old(buf)@ + flag_bytes(
            cur,
            want,
            seq![0x1bu8, 0x5bu8, on, 0x6du8],
            seq![0x1bu8, 0x5bu8, 0x32u8, off, 0x6du8],
        ),
{
    if cur != want {
        buf.push(0x1b);
        buf.push(0x5b);
        if want {
            buf.push(on);
        } else {
            buf.push(0x32);
            buf.push(off);
        }
        buf.push(0x6d);
    }
    assert(buf@ =~= old(buf)@ + flag_bytes(
            cur,
            want,
            seq![0x1bu8, 0x5bu8, on, 0x6du8],
            seq![0x1bu8, 0x5bu8, 0x32u8, off, 0x6du8],
        ));
}

fn emit_cell<F: Fn(u8, u8, u8) -> u8>(
    buf: &mut Vec<u8>,
    row: usize,
    col: usize,
    cell: Cell,
    st: Sgr,
    mode: &ColorMode,
    ansi16: &F,
) -> (st2: Sgr)
    requires
        ansi16_is_function(ansi16),
        row < usize::MAX,
        col < usize::MAX,
    ensures
        final(buf)@ == old(buf)@ + cell_bytes(row as int, col as int, cell, st, *mode, ansi16_spec(ansi16)),
        st2 == sgr_of(cell),
{
    let ghost q = ansi16_spec(ansi16);
    let ghost start = buf@;
    write_cursor_pos(buf, row, col);
    push_attrs(buf, cell, st);
    push_colors(buf, cell, st, mode, ansi16);
    push_utf8(buf, cell.ch);
    proof {
        lemma_concat4(start, cursor_pos_bytes(row as nat, col as nat), attr_bytes(cell, st), color_change_bytes(cell, st, *mode, q), encode_scalar(cell.ch as u32));
    }
    Sgr {
        fg: cell.fg,
        bg: cell.bg,
        bold: cell.bold,
        underline: cell.underline,
        inverse: cell.inverse,
        italic: cell.italic,
    }
}

pub fn write_cursor_pos(buf: &mut Vec<u8>, row: usize, col: usize)
    requires
        row < usize::MAX,
        col < usize::MAX,
    ensures
        final(buf)@ == old(buf)@ + cursor_pos_bytes(row as nat, col as nat),
{
    buf.push(0x1b);
    buf.push(0x5bu8);
    write_usize(buf, row + 1);
    buf.push(0x3bu8);
    write_usize(buf, col + 1);
    buf.push(0x48u8);
    assert(buf@ =~= old(buf)@ + cursor_pos_bytes(row as nat, col as nat));
}

pub fn write_fg_color(buf: &mut Vec<u8>, color: Color)
    ensures
        final(buf)@ == old(buf)@ + color_bytes(color, true),
{
    write_color(buf, color, true)
}

pub fn write_bg_color(buf: &mut Vec<u8>, color: Color)
    ensures
        final(buf)@ == old(buf)@ + color_bytes(color, false),
{
    write_color(buf, color, false)
}

fn write_color(buf: &mut Vec<u8>, color: Color, fg: bool)
    ensures
        final(buf)@ == old(buf)@ + color_bytes(color, fg),
{
    let lead: u8 = if fg { 0x33u8 } else { 0x34u8 };
    match color {
        Color::Default => {
            buf.push(0x1b);
            buf.push(0x5bu8);
            buf.push(lead);
            buf.push(0x39u8);
            buf.push(0x6du8);
        },
        Color::Ansi(n) => {
            let code: usize = if fg {
                if n < 8 { 30 + n as usize } else { 90 + n as usize - 8 }
            } else {
                if n < 8 { 40 + n as usize } else { 100 + n as usize - 8 }
            };
            buf.push(0x1b);
            buf.push(0x5bu8);
            write_usize(buf, code);
            buf.push(0x6du8);
        },
        Color::Color256(n) => {
            buf.push(0x1b);
            buf.push(0x5bu8);
            buf.push(lead);
            buf.push(0x38u8);
            buf.push(0x3bu8);
            buf.push(0x35u8);
            buf.push(0x3bu8);
            write_usize(buf, n as usize);
            buf.push(0x6du8);
        },
        Color::Rgb(r, g, b) => {
            buf.push(0x1b);
            buf.push(0x5bu8);
            buf.push(lead);
            buf.push(0x38u8);
            buf.push(0x3bu8);
            buf.push(0x32u8);
            buf.push(0x3bu8);
            write_usize(buf, r as usize);
            buf.push(0x3bu8);
            write_usize(buf, g as usize);
            buf.push(0x3bu8);
            write_usize(buf, b as usize);
            buf.push(0x6du8);
        },
    }
    assert(buf@ =~= old(buf)@ + color_bytes(color, fg));
}

// ---------------------------------------------------------------------------
// Color downgrade
// ---------------------------------------------------------------------------

/// The color to send for `color` on a terminal with capability `mode`;
/// `ansi16` maps an RGB color to the nearest of the 16 basic colors.
pub fn effective_color<F: Fn(u8, u8, u8) -> u8>(color: Color, mode: &ColorMode, ansi16: &F) -> (c:
    Color)
    requires
        ansi16_is_function(ansi16),
    ensures
        c == spec_effective_color(color, *mode, ansi16_spec(ansi16)),
{
    match (color, mode) {
        (Color::Rgb(r, g, b), ColorMode::Color256) => Color::Color256(rgb_to_ansi256(r, g, b)),
        (Color::Rgb(r, g, b), ColorMode::Color16) => {
            assert(ansi16.requires((r, g, b)));
            let n = ansi16(r, g, b);
            Color::Ansi(n)
        },
        (Color::Color256(n), ColorMode::Color16) => {
            let (r, g, b) = ansi256_to_rgb(n);
            assert(ansi16.requires((r, g, b)));
            let m = ansi16(r, g, b);
            Color::Ansi(m)
        },
        _ => color,
    }
}

/// Convert an RGB color to the nearest xterm-256 palette index.
///
/// The xterm-256 palette is:
///   0-7:     standard ANSI colors
///   8-15:    bright ANSI colors
///   16-231:  6x6x6 color cube
///   232-255: 24-step grayscale ramp
pub fn rgb_to_ansi256(r: u8, g: u8, b: u8) -> (n: u8)
    ensures
        n == spec_rgb_to_ansi256(r, g, b),
{
    if r == g && g == b {
        if r < 8 {
            return 16;
        }
        if r > 248 {
            return 231;
        }
        if r == 248 {
            return 255;
        }
        return (((r as u16 - 8) * 24 / 240) as u8) + 232;
    }
    let ri = color_cube_index(r);
    let gi = color_cube_index(g);
    let bi = color_cube_index(b);
    16 + 36 * ri + 6 * gi + bi
}

fn color_cube_index(v: u8) -> (i: u8)
    ensures
        i == spec_cube_index(v),
        i <= 5,
{
    if v < 48 {
        0
    } else if v < 115 {
        1
    } else if v < 155 {
        2
    } else if v < 195 {
        3
    } else if v < 235 {
        4
    } else {
        5
    }
}

/// RGB value of an xterm-256 palette entry.
pub fn ansi256_to_rgb(n: u8) -> (c: (u8, u8, u8))
    ensures
        c == spec_ansi256_to_rgb(n),
{
    if n < 16 {
        ansi_basic(n)
    } else if n < 232 {
        let idx = n - 16;
        let ri = idx / 36;
        let gi = (idx % 36) / 6;
        let bi = idx % 6;
        (cube(ri), cube(gi), cube(bi))
    } else {
        let v = 8 + 10 * (n - 232);
        (v, v, v)
    }
}

fn cube(i: u8) -> (v: u8)
    requires
        i <= 5,
    ensures
        v == cube_level(i),
{
    if i == 0 {
        0
    } else {
        55 + 40 * i
    }
}

fn ansi_basic(n: u8) -> (c: (u8, u8, u8))
    requires
        n < 16,
    ensures
        c == ansi_basic_rgb(n),
{
    match n {
        0 => (0, 0, 0),
        1 => (128, 0, 0),
        2 => (0, 128, 0),
        3 => (128, 128, 0),
        4 => (0, 0, 128),
        5 => (128, 0, 128),
        6 => (0, 128, 128),
        7 => (192, 192, 192),
        8 => (128, 128, 128),
        9 => (255, 0, 0),
        10 => (0, 255, 0),
        11 => (255, 255, 0),
        12 => (0, 0, 255),
        13 => (255, 0, 255),
        14 => (0, 255, 255),
        _ => (255, 255, 255),
    }
}

} // verus!

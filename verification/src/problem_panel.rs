//! Problem Panel — captures build/run output, parses errors, and lets the
//! user navigate to source locations.
//!
//! Parsers supported:
//!   - Rust / Cargo  (`error[E0425]: msg` then `  --> file:line:col`)
//!   - GCC / Clang   (`file:line:col: error: msg`)
//!   - Python        (`File "file", line N` then `SyntaxError: msg`)
//!   - Generic       (`file:line:col: msg`)
use vstd::prelude::*;
use crate::strs::{
    contains_char, find, find_char, find_char_exec, find_str, lemma_find_from_bounds, first_word, first_word_exec, parse_u32, parse_u32_exec, pieces_view, rsplitn,
    rsplitn_exec, split_once, splitn, splitn_exec, strip_prefix, strip_prefix_str, sub_chars,
};
use crate::text::{chars_of, str_to_lowercase, string_from_chars, to_lower, trim, trim_chars, trim_start};

verus! {

// ── Types ────────────────────────────────────────────────────

#[derive(Clone, Copy, Debug, PartialEq, Eq, Structural)]
pub enum Severity {
    Error,
    Warning,
    Info,
    Note,
}

impl Severity {
    pub fn label(self) -> (r: &'static str)
        ensures
            r@ == match self {
                Severity::Error => "E"@,
                Severity::Warning => "W"@,
                Severity::Info => "I"@,
                Severity::Note => "N"@,
            },
    {
        match self {
            Severity::Error => "E",
            Severity::Warning => "W",
            Severity::Info => "I",
            Severity::Note => "N",
        }
    }
}

#[derive(Clone, Debug)]
pub struct Problem {
    pub severity: Severity,
    pub file: String,
    /// 1-based.
    pub line: u32,
    /// 1-based.
    pub col: u32,
    pub message: String,
    /// "E0425", "W0001", etc.
    pub code: Option<String>,
}

pub struct ProblemModel {
    pub severity: Severity,
    pub file: Seq<char>,
    pub line: u32,
    pub col: u32,
    pub message: Seq<char>,
    pub code: Option<Seq<char>>,
}

pub open spec fn opt_str_view(o: Option<String>) -> Option<Seq<char>> {
    match o {
        Some(s) => Some(s@),
        None => None,
    }
}

impl View for Problem {
    type V = ProblemModel;

    open spec fn view(&self) -> ProblemModel {
        ProblemModel {
            severity: self.severity,
            file: self.file@,
            line: self.line,
            col: self.col,
            message: self.message@,
            code: opt_str_view(self.code),
        }
    }
}

pub open spec fn problems_view(v: Seq<Problem>) -> Seq<ProblemModel> {
    v.map_values(|p: Problem| p@)
}

/// Collapse-group key for the cargo-check section (cannot appear in file paths).
pub const BUILD_GROUP_KEY: &'static str = "\0build";

/// Prefix for per-file collapse keys within the cargo-check section.
pub const CARGO_FILE_PREFIX: &'static str = "\0cargo:";

/// A single row in the Problems panel display (cargo check only):
/// the section header, a header per file, and the problems of the file.
#[derive(Clone, Debug, PartialEq)]
pub enum RowKind {
    /// Top-level collapsible header for the cargo-check section.
    CargoSectionHeader,
    /// Collapsible per-file header within the cargo-check section.
    CargoFileHeader(String),
    /// An actual problem; the index into `items`.
    Item(usize),
}

pub enum RowModel {
    SectionHeader,
    FileHeader(Seq<char>),
    Item(usize),
}

impl View for RowKind {
    type V = RowModel;

    open spec fn view(&self) -> RowModel {
        match self {
            RowKind::CargoSectionHeader => RowModel::SectionHeader,
            RowKind::CargoFileHeader(f) => RowModel::FileHeader(f@),
            RowKind::Item(i) => RowModel::Item(*i),
        }
    }
}

pub open spec fn rows_view(v: Seq<RowKind>) -> Seq<RowModel> {
    v.map_values(|r: RowKind| r@)
}

// ── The model ────────────────────────────────────────────────

pub struct PanelModel {
    pub visible: bool,
    pub focused: bool,
    pub items: Seq<ProblemModel>,
    pub lsp_items: Seq<ProblemModel>,
    pub selected: usize,
    pub scroll: usize,
    pub collapsed: Set<Seq<char>>,
    pub source_cmd: Option<Seq<char>>,
    pub elapsed_ms: u64,
    /// Text received after the last complete line.
    pub capture: Seq<char>,
    pub pending_severity: Option<Severity>,
    pub pending_message: Option<Seq<char>>,
    pub pending_code: Option<Seq<char>>,
    pub pending_py_file: Option<Seq<char>>,
    pub pending_py_line: Option<u32>,
}

pub open spec fn strings_set(v: Seq<String>) -> Set<Seq<char>> {
    Set::new(|k: Seq<char>| exists|i: int| 0 <= i < v.len() && v[i]@ == k)
}

// ── Parsers ──────────────────────────────────────────────────

/// `file:line:col` (or `file:line`, column 1) split from the right; the
/// column is the first word after the last colon.
pub open spec fn spec_split_file_line_col(s: Seq<char>) -> Option<(Seq<char>, u32, u32)> {
    let parts = rsplitn(s, 3, ':');
    if parts.len() < 3 {
        let p2 = rsplitn(s, 2, ':');
        if p2.len() < 2 {
            None
        } else {
            match parse_u32(trim(p2[0])) {
                Some(ln) => Some((p2[1], ln, 1u32)),
                None => None,
            }
        }
    } else {
        match first_word(trim(parts[0])) {
            None => None,
            Some(w) => match (parse_u32(w), parse_u32(trim(parts[1]))) {
                (Some(col), Some(ln)) => Some((parts[2], ln, col)),
                _ => None,
            },
        }
    }
}

/// `file:line:col: severity: message`.
pub open spec fn spec_parse_gcc(line: Seq<char>) -> Option<ProblemModel> {
    if line.len() == 0 || line[0] == ' ' {
        None
    } else {
        let parts = splitn(line, 5, ':');
        if parts.len() < 5 {
            None
        } else {
            let sev = to_lower(trim(parts[3]));
            let severity = if sev == "error"@ {
                Some(Severity::Error)
            } else if sev == "warning"@ || sev == "warn"@ {
                Some(Severity::Warning)
            } else if sev == "note"@ {
                Some(Severity::Note)
            } else {
                None
            };
            match (parse_u32(trim(parts[1])), parse_u32(trim(parts[2])), severity) {
                (Some(ln), Some(col), Some(severity)) => if parts[0].len() == 0 || ln == 0 {
                    None
                } else {
                    Some(
                        ProblemModel {
                            severity,
                            file: parts[0],
                            line: ln,
                            col,
                            message: trim(parts[4]),
                            code: None,
                        },
                    )
                },
                _ => None,
            }
        }
    }
}

/// `file:line:col: message`, where the file has an extension and the
/// message is not empty.
pub open spec fn spec_parse_generic(line: Seq<char>) -> Option<ProblemModel> {
    if line.len() == 0 || line[0] == ' ' {
        None
    } else {
        let parts = splitn(line, 4, ':');
        if parts.len() < 4 {
            None
        } else {
            match (parse_u32(trim(parts[1])), parse_u32(trim(parts[2]))) {
                (Some(ln), Some(col)) => {
                    let file = parts[0];
                    let message = trim(parts[3]);
                    if file.len() == 0 || !file.contains('.') || ln == 0 || message.len() == 0 {
                        None
                    } else {
                        Some(ProblemModel { severity: Severity::Error, file, line: ln, col, message, code: None })
                    }
                },
                _ => None,
            }
        }
    }
}

/// Pending Rust header fields cleared.
pub open spec fn clear_rust_pending(m: PanelModel) -> PanelModel {
    PanelModel { pending_severity: None, pending_message: None, pending_code: None, ..m }
}

/// `  --> file:line:col` after a Rust header: the pending header is used up
/// (even when the location does not parse) and gives the problem.
pub open spec fn spec_rust_location(m: PanelModel, line: Seq<char>) -> (Option<ProblemModel>, PanelModel) {
    match strip_prefix(trim_start(line), "--> "@) {
        None => (None, m),
        Some(loc) => match m.pending_severity {
            None => (None, m),
            Some(sev) => {
                let message = match m.pending_message {
                    Some(s) => s,
                    None => Seq::empty(),
                };
                match spec_split_file_line_col(loc) {
                    None => (None, clear_rust_pending(m)),
                    Some((file, ln, col)) => (
                        Some(ProblemModel { severity: sev, file, line: ln, col, message, code: m.pending_code }),
                        clear_rust_pending(m),
                    ),
                }
            },
        },
    }
}

/// A Rust header with a code: `error[CODE]: message`.
pub open spec fn coded_header(m: PanelModel, sev: Severity, rest: Seq<char>) -> (bool, PanelModel) {
    match find(rest, "]:"@) {
        Some(b) => (
            true,
            PanelModel {
                pending_severity: Some(sev),
                pending_code: Some(rest.take(b)),
                pending_message: Some(trim(rest.skip(b + "]:"@.len()))),
                ..m
            },
        ),
        None => (false, m),
    }
}

/// A Rust header without a code: `error: message`.
pub open spec fn plain_header(m: PanelModel, sev: Severity, rest: Seq<char>) -> (bool, PanelModel) {
    (true, PanelModel { pending_severity: Some(sev), pending_message: Some(trim(rest)), pending_code: None, ..m })
}

/// `error[CODE]: msg`, `error: msg`, `warning[CODE]: msg`, `warning: msg`
/// or `note: msg`: remembered until its location line.
pub open spec fn spec_rust_header(m: PanelModel, line: Seq<char>) -> (bool, PanelModel) {
    match strip_prefix(line, "error["@) {
        Some(r) => coded_header(m, Severity::Error, r),
        None => match strip_prefix(line, "error:"@) {
            Some(r) => plain_header(m, Severity::Error, r),
            None => match strip_prefix(line, "warning["@) {
                Some(r) => coded_header(m, Severity::Warning, r),
                None => match strip_prefix(line, "warning:"@) {
                    Some(r) => plain_header(m, Severity::Warning, r),
                    None => match strip_prefix(line, "note:"@) {
                        Some(r) => plain_header(m, Severity::Note, r),
                        None => (false, m),
                    },
                },
            },
        },
    }
}

/// Python `File "file", line N` with N > 0 (a bad number reads as 0).
pub open spec fn spec_python_header(m: PanelModel, line: Seq<char>) -> (bool, PanelModel) {
    match strip_prefix(trim(line), "File \""@) {
        None => (false, m),
        Some(rest) => match split_once(rest, "\", line "@) {
            None => (false, m),
            Some((file_part, tail)) => {
                let ln: u32 = match parse_u32(trim(tail)) {
                    Some(n) => n,
                    None => 0,
                };
                if ln == 0 {
                    (false, m)
                } else {
                    (true, PanelModel { pending_py_file: Some(file_part), pending_py_line: Some(ln), ..m })
                }
            },
        },
    }
}

/// After a Python header, a line with a colon is the error message.
pub open spec fn spec_python_error(m: PanelModel, line: Seq<char>) -> Option<ProblemModel> {
    match (m.pending_py_file, m.pending_py_line) {
        (Some(file), Some(ln)) => {
            let t = trim(line);
            if t.contains(':') && !(t.len() > 0 && t[0] == ' ') {
                Some(ProblemModel { severity: Severity::Error, file, line: ln, col: 1, message: t, code: None })
            } else {
                None
            }
        },
        _ => None,
    }
}

/// A problem recorded; all pending parser state cleared.
pub open spec fn spec_push(m: PanelModel, p: ProblemModel) -> PanelModel {
    PanelModel {
        items: m.items.push(p),
        pending_severity: None,
        pending_message: None,
        pending_code: None,
        pending_py_file: None,
        pending_py_line: None,
        ..m
    }
}

/// One clean line through the parsers, in order: Rust location, Rust
/// header, Python header, Python error, GCC, generic.
pub open spec fn spec_feed_line(m: PanelModel, line: Seq<char>) -> PanelModel {
    let (loc, m1) = spec_rust_location(m, line);
    match loc {
        Some(p) => spec_push(m1, p),
        None => {
            let (h, m2) = spec_rust_header(m1, line);
            if h {
                m2
            } else {
                let (ph, m3) = spec_python_header(m2, line);
                if ph {
                    m3
                } else {
                    match spec_python_error(m3, line) {
                        Some(p) => spec_push(m3, p),
                        None => match spec_parse_gcc(line) {
                            Some(p) => spec_push(m3, p),
                            None => match spec_parse_generic(line) {
                                Some(p) => spec_push(m3, p),
                                None => m3,
                            },
                        },
                    }
                }
            }
        },
    }
}

// ── ANSI stripping ───────────────────────────────────────────

/// Where a CSI sequence ends: the first final character ('@'..='~') at
/// or after `i`, or the end.
pub open spec fn csi_end(b: Seq<char>, i: int) -> int
    decreases b.len() - i,
{
    if i < 0 || i >= b.len() || ('\x40' <= b[i] <= '\x7e') {
        i
    } else {
        csi_end(b, i + 1)
    }
}

/// Where an OSC sequence ends: after BEL or ESC '\', or at the end.
pub open spec fn osc_end(b: Seq<char>, i: int) -> int
    decreases b.len() - i,
{
    if i < 0 || i >= b.len() {
        i
    } else if b[i] == '\x07' {
        i + 1
    } else if b[i] == '\x1b' && i + 1 < b.len() && b[i + 1] == '\\' {
        i + 2
    } else {
        osc_end(b, i + 1)
    }
}

/// A CSI sequence ends at or after where it starts, and by the end.
pub proof fn lemma_csi_end(b: Seq<char>, i: int)
    ensures
        csi_end(b, i) >= i,
        i >= 0 ==> csi_end(b, i) <= if i > b.len() { i } else { b.len() as int },
    decreases b.len() - i,
{
    if !(i < 0 || i >= b.len() || ('\x40' <= b[i] <= '\x7e')) {
        lemma_csi_end(b, i + 1);
    }
}

/// An OSC sequence ends at or after where it starts, and by the end.
pub proof fn lemma_osc_end(b: Seq<char>, i: int)
    ensures
        osc_end(b, i) >= i,
        i >= 0 ==> osc_end(b, i) <= if i > b.len() { i } else { b.len() as int },
    decreases b.len() - i,
{
    if 0 <= i < b.len() && b[i] != '\x07' && !(b[i] == '\x1b' && i + 1 < b.len() && b[i + 1] == '\\') {
        lemma_osc_end(b, i + 1);
    }
}

/// The text from character `i` on with CSI and OSC sequences and
/// carriage returns removed; every other character is kept as it is.
pub open spec fn strip_from(b: Seq<char>, i: int) -> Seq<char>
    decreases b.len() + 1 - i,
{
    if i < 0 || i >= b.len() {
        Seq::empty()
    } else if b[i] == '\x1b' && i + 1 < b.len() && b[i + 1] == '[' {
        proof {
            lemma_csi_end(b, i + 2);
        }
        strip_from(b, csi_end(b, i + 2) + 1)
    } else if b[i] == '\x1b' && i + 1 < b.len() && b[i + 1] == ']' {
        proof {
            lemma_osc_end(b, i + 2);
        }
        strip_from(b, osc_end(b, i + 2))
    } else if b[i] == '\r' {
        strip_from(b, i + 1)
    } else {
        seq![b[i]] + strip_from(b, i + 1)
    }
}

pub open spec fn spec_strip_ansi(s: Seq<char>) -> Seq<char> {
    strip_from(s, 0)
}

/// Text with nothing to strip comes back unchanged.
pub proof fn lemma_strip_plain(s: Seq<char>, i: int)
    requires
        0 <= i <= s.len(),
        forall|j: int| 0 <= j < s.len() ==> s[j] != '\x1b' && s[j] != '\r',
    ensures
        strip_from(s, i) == s.skip(i),
    decreases s.len() - i,
{
    if i < s.len() {
        lemma_strip_plain(s, i + 1);
        assert(s.skip(i) =~= seq![s[i]] + s.skip(i + 1));
    } else {
        assert(s.skip(i) =~= Seq::<char>::empty());
    }
}

/// Remove ANSI escape sequences (and carriage returns) from a string,
/// keeping every other character.
pub fn strip_ansi(s: &str) -> (r: String)
    ensures
        r@ == spec_strip_ansi(s@),
{
    let bytes = chars_of(s);
    let n = bytes.len();
    let ghost b = bytes@;
    let mut out: Vec<char> = Vec::new();
    let mut i: usize = 0;
    while i < n
        invariant
            b == bytes@,
            n == b.len(),
            out@ + strip_from(b, i as int) == strip_from(b, 0),
        decreases n - i,
    {
        if bytes[i] == '\x1b' && i + 1 < n && bytes[i + 1] == '[' {
            let ghost i0 = i as int;
            i = i + 2;
            while i < n && !('\x40' <= bytes[i] && bytes[i] <= '\x7e')
                invariant
                    b == bytes@,
                    n == b.len(),
                    i0 + 2 <= i <= n,
                    csi_end(b, i as int) == csi_end(b, i0 + 2),
                decreases n - i,
            {
                i = i + 1;
            }
            assert(csi_end(b, i as int) == i);
            if i < n {
                i = i + 1;
            } else {
                assert(strip_from(b, i + 1) == Seq::<char>::empty());
                assert(strip_from(b, i as int) == Seq::<char>::empty());
            }
        } else if bytes[i] == '\x1b' && i + 1 < n && bytes[i + 1] == ']' {
            let ghost i0 = i as int;
            i = i + 2;
            while i < n
                invariant_except_break
                    b == bytes@,
                    n == b.len(),
                    i0 + 2 <= i <= n,
                    osc_end(b, i as int) == osc_end(b, i0 + 2),
                ensures
                    i == osc_end(b, i0 + 2),
                    i0 + 2 <= i <= n,
                decreases n - i,
            {
                if bytes[i] == '\x07' {
                    i = i + 1;
                    break;
                }
                if bytes[i] == '\x1b' && i + 1 < n && bytes[i + 1] == '\\' {
                    i = i + 2;
                    break;
                }
                i = i + 1;
            }
        } else if bytes[i] == '\r' {
            i = i + 1;
        } else {
            let ghost o0 = out@;
            out.push(bytes[i]);
            assert(out@ == o0 + seq![b[i as int]]);
            i = i + 1;
        }
    }
    assert(strip_from(b, i as int) == Seq::<char>::empty());
    assert(out@ =~= strip_from(b, 0));
    string_from_chars(out.as_slice())
}

// ── Display rows ─────────────────────────────────────────────

/// The collapse key of a file's group.
pub open spec fn file_key(file: Seq<char>) -> Seq<char> {
    CARGO_FILE_PREFIX@ + file
}

/// The distinct files of the first `k` items, in the order they first
/// appear.
pub open spec fn files_upto(items: Seq<ProblemModel>, k: int) -> Seq<Seq<char>>
    decreases k,
{
    if k <= 0 {
        Seq::empty()
    } else {
        let p = files_upto(items, k - 1);
        if p.contains(items[k - 1].file) {
            p
        } else {
            p.push(items[k - 1].file)
        }
    }
}

/// The item rows of file `f` among the first `k` items, in order; none
/// when the file's group is collapsed.
pub open spec fn file_rows(items: Seq<ProblemModel>, collapsed: Set<Seq<char>>, f: Seq<char>, k: int) -> Seq<RowModel>
    decreases k,
{
    if k <= 0 {
        Seq::empty()
    } else {
        let p = file_rows(items, collapsed, f, k - 1);
        if items[k - 1].file == f && !collapsed.contains(file_key(f)) {
            p.push(RowModel::Item((k - 1) as usize))
        } else {
            p
        }
    }
}

/// For each file in `files`, in order, its header and then its items.
pub open spec fn grouped_rows(items: Seq<ProblemModel>, collapsed: Set<Seq<char>>, files: Seq<Seq<char>>) -> Seq<RowModel>
    decreases files.len(),
{
    if files.len() == 0 {
        Seq::empty()
    } else {
        grouped_rows(items, collapsed, files.drop_last()) + seq![RowModel::FileHeader(files.last())] + file_rows(
            items,
            collapsed,
            files.last(),
            items.len() as int,
        )
    }
}

/// The rows of the items: one header per distinct file, in the order the
/// files first appear, each followed by that file's items.
pub open spec fn item_rows(items: Seq<ProblemModel>, collapsed: Set<Seq<char>>) -> Seq<RowModel> {
    grouped_rows(items, collapsed, files_upto(items, items.len() as int))
}

/// The display rows of the PROBLEMS tab: nothing without items; otherwise
/// the section header, then (unless the section is collapsed) the rows of
/// the items.
pub open spec fn spec_rows(m: PanelModel) -> Seq<RowModel> {
    if m.items.len() == 0 {
        Seq::empty()
    } else {
        seq![RowModel::SectionHeader] + if m.collapsed.contains(BUILD_GROUP_KEY@) {
            Seq::empty()
        } else {
            item_rows(m.items, m.collapsed)
        }
    }
}

/// `selected` kept on a row: the last one when past the end, 0 when there
/// are none.
pub open spec fn clamp_selected(selected: usize, total: int) -> usize {
    if total == 0 {
        0
    } else if selected >= total {
        (total - 1) as usize
    } else {
        selected
    }
}

// ── Counts ───────────────────────────────────────────────────

pub open spec fn count_sev(s: Seq<ProblemModel>, sev: Severity) -> nat
    decreases s.len(),
{
    if s.len() == 0 {
        0
    } else {
        count_sev(s.drop_last(), sev) + if s.last().severity == sev {
            1nat
        } else {
            0nat
        }
    }
}

pub open spec fn for_file(s: Seq<ProblemModel>, file: Seq<char>) -> Seq<ProblemModel>
    decreases s.len(),
{
    if s.len() == 0 {
        Seq::empty()
    } else if s.last().file == file {
        for_file(s.drop_last(), file).push(s.last())
    } else {
        for_file(s.drop_last(), file)
    }
}

proof fn lemma_count_le(s: Seq<ProblemModel>, sev: Severity)
    ensures
        count_sev(s, sev) <= s.len(),
    decreases s.len(),
{
    if s.len() > 0 {
        lemma_count_le(s.drop_last(), sev);
    }
}

proof fn lemma_for_file_le(s: Seq<ProblemModel>, file: Seq<char>)
    ensures
        for_file(s, file).len() <= s.len(),
    decreases s.len(),
{
    if s.len() > 0 {
        lemma_for_file_le(s.drop_last(), file);
    }
}

/// Errors and warnings among the problems.
fn counts_of(v: &Vec<Problem>, file: Option<&Vec<char>>) -> (r: (usize, usize))
    ensures
        ({
            let s = match file {
                Some(f) => for_file(problems_view(v@), f@),
                None => problems_view(v@),
            };
            r == (count_sev(s, Severity::Error) as usize, count_sev(s, Severity::Warning) as usize)
        }),
{
    let ghost pv = problems_view(v@);
    let n = v.len();
    let mut e: usize = 0;
    let mut w: usize = 0;
    let mut i: usize = 0;
    while i < n
        invariant
            i <= v@.len(),
            n == v@.len(),
            pv == problems_view(v@),
            ({
                let s = match file {
                    Some(f) => for_file(pv.take(i as int), f@),
                    None => pv.take(i as int),
                };
                e == count_sev(s, Severity::Error) && w == count_sev(s, Severity::Warning) && s.len() <= i
            }),
        decreases v@.len() - i,
    {
        assert(pv.take(i + 1).drop_last() =~= pv.take(i as int));
        assert(pv.take(i + 1).last() == v@[i as int]@);
        proof {
            let s0 = match file {
                Some(f) => for_file(pv.take(i as int), f@),
                None => pv.take(i as int),
            };
            lemma_count_le(s0, Severity::Error);
            lemma_count_le(s0, Severity::Warning);
        }
        let take = match file {
            Some(f) => {
                let fv = chars_of(v[i].file.as_str());
                vec_eq(&fv, f)
            },
            None => true,
        };
        let ghost e0 = e;
        let ghost w0 = w;
        if take {
            match v[i].severity {
                Severity::Error => {
                    e = e + 1;
                },
                Severity::Warning => {
                    w = w + 1;
                },
                _ => {},
            }
        }
        proof {
            let p = pv.take(i + 1).last();
            match file {
                Some(f) => {
                    let s0 = for_file(pv.take(i as int), f@);
                    let s1 = for_file(pv.take(i + 1), f@);
                    assert(take == (p.file == f@));
                    if take {
                        assert(s1 == s0.push(p));
                        assert(s1.drop_last() =~= s0);
                    } else {
                        assert(s1 == s0);
                    }
                },
                None => {
                    let s1 = pv.take(i + 1);
                    assert(s1.drop_last() =~= pv.take(i as int));
                },
            }
        }
        i = i + 1;
    }
    assert(pv.take(v@.len() as int) =~= pv);
    (e, w)
}

fn vec_eq(a: &Vec<char>, b: &Vec<char>) -> (r: bool)
    ensures
        r == (a@ == b@),
{
    if a.len() != b.len() {
        return false;
    }
    let mut i: usize = 0;
    while i < a.len()
        invariant
            i <= a@.len(),
            a@.len() == b@.len(),
            forall|j: int| 0 <= j < i ==> a@[j] == b@[j],
        decreases a@.len() - i,
    {
        if a[i] != b[i] {
            return false;
        }
        i = i + 1;
    }
    assert(a@ =~= b@);
    true
}

// ── Parsers (executable) ─────────────────────────────────────

fn string_of(v: &Vec<char>) -> (s: String)
    ensures
        s@ == v@,
{
    string_from_chars(v.as_slice())
}

/// Split `file:line:col` into `(file, line, col)`.
fn split_file_line_col(s: &Vec<char>) -> (r: Option<(String, u32, u32)>)
    ensures
        match r {
            Some((f, l, c)) => spec_split_file_line_col(s@) == Some((f@, l, c)),
            None => spec_split_file_line_col(s@) is None,
        },
{
    let parts = rsplitn_exec(s, 3, ':');
    assert(pieces_view(parts@).len() == parts@.len());
    if parts.len() < 3 {
        let p2 = rsplitn_exec(s, 2, ':');
        assert(pieces_view(p2@).len() == p2@.len());
        if p2.len() < 2 {
            return None;
        }
        assert(pieces_view(p2@)[0] == p2@[0]@ && pieces_view(p2@)[1] == p2@[1]@);
        let ln = match parse_u32_exec(&trim_chars(&p2[0])) {
            Some(n) => n,
            None => return None,
        };
        return Some((string_of(&p2[1]), ln, 1));
    }
    assert(pieces_view(parts@)[0] == parts@[0]@ && pieces_view(parts@)[1] == parts@[1]@ && pieces_view(parts@)[2]
        == parts@[2]@);
    let w = match first_word_exec(&trim_chars(&parts[0])) {
        Some(w) => w,
        None => return None,
    };
    let col = match parse_u32_exec(&w) {
        Some(c) => c,
        None => return None,
    };
    let ln = match parse_u32_exec(&trim_chars(&parts[1])) {
        Some(n) => n,
        None => return None,
    };
    Some((string_of(&parts[2]), ln, col))
}

fn lower_trimmed(v: &Vec<char>) -> (r: Vec<char>)
    ensures
        r@ == to_lower(trim(v@)),
{
    let t = trim_chars(v);
    let s = string_of(&t);
    let l = str_to_lowercase(s.as_str());
    chars_of(l.as_str())
}

/// Parse `file:line:col: severity: message`.
fn parse_gcc(line: &Vec<char>) -> (r: Option<Problem>)
    ensures
        match r {
            Some(p) => spec_parse_gcc(line@) == Some(p@),
            None => spec_parse_gcc(line@) is None,
        },
{
    if line.len() == 0 || line[0] == ' ' {
        return None;
    }
    let parts = splitn_exec(line, 5, ':');
    assert(pieces_view(parts@).len() == parts@.len());
    if parts.len() < 5 {
        return None;
    }
    assert(forall|i: int| 0 <= i < 5 ==> pieces_view(parts@)[i] == #[trigger] parts@[i]@);
    let sev = lower_trimmed(&parts[3]);
    let severity = if crate::text::chars_eq_str(&sev, "error") {
        Some(Severity::Error)
    } else if crate::text::chars_eq_str(&sev, "warning") || crate::text::chars_eq_str(&sev, "warn") {
        Some(Severity::Warning)
    } else if crate::text::chars_eq_str(&sev, "note") {
        Some(Severity::Note)
    } else {
        None
    };
    let ln = parse_u32_exec(&trim_chars(&parts[1]));
    let col = parse_u32_exec(&trim_chars(&parts[2]));
    match (ln, col, severity) {
        (Some(ln), Some(col), Some(severity)) => {
            if parts[0].len() == 0 || ln == 0 {
                None
            } else {
                Some(
                    Problem {
                        severity,
                        file: string_of(&parts[0]),
                        line: ln,
                        col,
                        message: string_of(&trim_chars(&parts[4])),
                        code: None,
                    },
                )
            }
        },
        _ => None,
    }
}

/// Parse `file:line:col: message` — generic fallback.
fn parse_generic(line: &Vec<char>) -> (r: Option<Problem>)
    ensures
        match r {
            Some(p) => spec_parse_generic(line@) == Some(p@),
            None => spec_parse_generic(line@) is None,
        },
{
    if line.len() == 0 || line[0] == ' ' {
        return None;
    }
    let parts = splitn_exec(line, 4, ':');
    assert(pieces_view(parts@).len() == parts@.len());
    if parts.len() < 4 {
        return None;
    }
    assert(forall|i: int| 0 <= i < 4 ==> pieces_view(parts@)[i] == #[trigger] parts@[i]@);
    let ln = parse_u32_exec(&trim_chars(&parts[1]));
    let col = parse_u32_exec(&trim_chars(&parts[2]));
    match (ln, col) {
        (Some(ln), Some(col)) => {
            let message = trim_chars(&parts[3]);
            if parts[0].len() == 0 || !contains_char(&parts[0], '.') || ln == 0 || message.len() == 0 {
                None
            } else {
                Some(
                    Problem {
                        severity: Severity::Error,
                        file: string_of(&parts[0]),
                        line: ln,
                        col,
                        message: string_of(&message),
                        code: None,
                    },
                )
            }
        },
        _ => None,
    }
}

// ── ProblemPanel ─────────────────────────────────────────────

pub struct ProblemPanel {
    pub visible: bool,
    pub focused: bool,
    /// Build-output items (from task runner).
    pub items: Vec<Problem>,
    /// LSP-sourced diagnostic items (updated on every LSP sync).
    pub lsp_items: Vec<Problem>,
    /// A display-row index into `compute_rows()`.
    pub selected: usize,
    pub scroll: usize,
    /// Keys of currently collapsed groups (file keys and the build key).
    pub collapsed_groups: Vec<String>,
    /// Command that produced this output (e.g. "cargo build").
    pub source_cmd: Option<String>,
    /// Elapsed milliseconds for the last task (set externally).
    pub elapsed_ms: u64,
    /// Text after the last complete line.
    capture_buf: String,
    pending_severity: Option<Severity>,
    pending_message: Option<String>,
    pending_code: Option<String>,
    pending_py_file: Option<String>,
    pending_py_line: Option<u32>,
}

impl View for ProblemPanel {
    type V = PanelModel;

    closed spec fn view(&self) -> PanelModel {
        PanelModel {
            visible: self.visible,
            focused: self.focused,
            items: problems_view(self.items@),
            lsp_items: problems_view(self.lsp_items@),
            selected: self.selected,
            scroll: self.scroll,
            collapsed: strings_set(self.collapsed_groups@),
            source_cmd: opt_str_view(self.source_cmd),
            elapsed_ms: self.elapsed_ms,
            capture: self.capture_buf@,
            pending_severity: self.pending_severity,
            pending_message: opt_str_view(self.pending_message),
            pending_code: opt_str_view(self.pending_code),
            pending_py_file: opt_str_view(self.pending_py_file),
            pending_py_line: self.pending_py_line,
        }
    }
}

impl ProblemPanel {
    pub fn new() -> (pp: Self)
        ensures
            pp@ == (PanelModel {
                visible: false,
                focused: false,
                items: Seq::empty(),
                lsp_items: Seq::empty(),
                selected: 0,
                scroll: 0,
                collapsed: Set::empty(),
                source_cmd: None,
                elapsed_ms: 0,
                capture: Seq::empty(),
                pending_severity: None,
                pending_message: None,
                pending_code: None,
                pending_py_file: None,
                pending_py_line: None,
            }),
    {
        let pp = ProblemPanel {
            visible: false,
            focused: false,
            items: Vec::new(),
            lsp_items: Vec::new(),
            selected: 0,
            scroll: 0,
            collapsed_groups: Vec::new(),
            source_cmd: None,
            elapsed_ms: 0,
            capture_buf: String::new(),
            pending_severity: None,
            pending_message: None,
            pending_code: None,
            pending_py_file: None,
            pending_py_line: None,
        };
        assert(problems_view(pp.items@) =~= Seq::<ProblemModel>::empty());
        assert(problems_view(pp.lsp_items@) =~= Seq::<ProblemModel>::empty());
        assert(strings_set(pp.collapsed_groups@) =~= Set::<Seq<char>>::empty());
        pp
    }

    /// Forget the build output and the parser state; the LSP items, the
    /// collapsed groups and the source command stay.
    pub fn clear(&mut self)
        ensures
            final(self)@ == (PanelModel {
                items: Seq::empty(),
                selected: 0,
                scroll: 0,
                elapsed_ms: 0,
                capture: Seq::empty(),
                pending_severity: None,
                pending_message: None,
                pending_code: None,
                pending_py_file: None,
                pending_py_line: None,
                ..old(self)@
            }),
    {
        self.items.clear();
        self.selected = 0;
        self.scroll = 0;
        self.elapsed_ms = 0;
        self.capture_buf = String::new();
        self.pending_severity = None;
        self.pending_message = None;
        self.pending_code = None;
        self.pending_py_file = None;
        self.pending_py_line = None;
        assert(problems_view(self.items@) =~= Seq::<ProblemModel>::empty());
        assert(self@ =~= (PanelModel {
            items: Seq::empty(),
            selected: 0,
            scroll: 0,
            elapsed_ms: 0,
            capture: Seq::empty(),
            pending_severity: None,
            pending_message: None,
            pending_code: None,
            pending_py_file: None,
            pending_py_line: None,
            ..old(self)@
        }));
    }

    fn push(&mut self, p: Problem)
        ensures
            final(self)@ == spec_push(old(self)@, p@),
    {
        let ghost pm = p@;
        let ghost it = self.items@;
        self.items.push(p);
        assert(problems_view(self.items@) =~= problems_view(it).push(pm));
        self.pending_severity = None;
        self.pending_message = None;
        self.pending_code = None;
        self.pending_py_file = None;
        self.pending_py_line = None;
        assert(self@ =~= spec_push(old(self)@, pm));
    }

    fn try_rust_location(&mut self, line: &Vec<char>) -> (r: Option<Problem>)
        ensures
            ({
                let (sp, sm) = spec_rust_location(old(self)@, line@);
                &&& final(self)@ == sm
                &&& match r {
                    Some(p) => sp == Some(p@),
                    None => sp is None,
                }
            }),
    {
        let arrow = crate::strs::sub_chars(line, 0, line.len());
        assert(line@.subrange(0, line@.len() as int) =~= line@);
        let arrow = trim_start_chars(&arrow);
        let loc = match strip_prefix_str(&arrow, "--> ") {
            Some(r) => r,
            None => return None,
        };
        let sev = match self.pending_severity {
            Some(s) => s,
            None => return None,
        };
        let mut message: Option<String> = None;
        std::mem::swap(&mut message, &mut self.pending_message);
        let message = match message {
            Some(m) => m,
            None => String::new(),
        };
        let mut code: Option<String> = None;
        std::mem::swap(&mut code, &mut self.pending_code);
        self.pending_severity = None;
        assert(self@ =~= clear_rust_pending(old(self)@));
        let (file, ln, col) = match split_file_line_col(&loc) {
            Some(t) => t,
            None => return None,
        };
        Some(Problem { severity: sev, file, line: ln, col, message, code })
    }

    fn try_rust_header(&mut self, line: &Vec<char>) -> (r: bool)
        ensures
            spec_rust_header(old(self)@, line@) == (r, final(self)@),
    {
        let (sev, rest) = if let Some(r) = strip_prefix_str(line, "error[") {
            (Severity::Error, r)
        } else if let Some(r) = strip_prefix_str(line, "error:") {
            self.set_plain_header(Severity::Error, &r);
            return true;
        } else if let Some(r) = strip_prefix_str(line, "warning[") {
            (Severity::Warning, r)
        } else if let Some(r) = strip_prefix_str(line, "warning:") {
            self.set_plain_header(Severity::Warning, &r);
            return true;
        } else if let Some(r) = strip_prefix_str(line, "note:") {
            self.set_plain_header(Severity::Note, &r);
            return true;
        } else {
            return false;
        };
        let rl = rest.len();
        match find_str(&rest, "]:") {
            Some(b) => {
                let plen = chars_of("]:").len();
                let code = sub_chars(&rest, 0, b);
                let msg = trim_chars(&sub_chars(&rest, b + plen, rl));
                assert(rest@.take(b as int) =~= code@);
                assert(rest@.skip(b + plen) =~= rest@.subrange(b + plen, rest@.len() as int));
                self.pending_severity = Some(sev);
                self.pending_code = Some(string_of(&code));
                self.pending_message = Some(string_of(&msg));
                assert(self@ =~= coded_header(old(self)@, sev, rest@).1);
                true
            },
            None => false,
        }
    }

    fn set_plain_header(&mut self, sev: Severity, rest: &Vec<char>)
        ensures
            final(self)@ == plain_header(old(self)@, sev, rest@).1,
    {
        self.pending_severity = Some(sev);
        self.pending_message = Some(string_of(&trim_chars(rest)));
        self.pending_code = None;
        assert(self@ =~= plain_header(old(self)@, sev, rest@).1);
    }

    fn try_python_header(&mut self, line: &Vec<char>) -> (r: bool)
        ensures
            spec_python_header(old(self)@, line@) == (r, final(self)@),
    {
        let t = trim_chars(line);
        let rest = match strip_prefix_str(&t, "File \"") {
            Some(r) => r,
            None => return false,
        };
        let pos = match find_str(&rest, "\", line ") {
            Some(p) => p,
            None => return false,
        };
        let sep_len = chars_of("\", line ").len();
        let rl = rest.len();
        let file_part = sub_chars(&rest, 0, pos);
        let tail = sub_chars(&rest, pos + sep_len, rl);
        assert(rest@.take(pos as int) =~= file_part@);
        assert(rest@.skip(pos + sep_len) =~= tail@);
        let ln: u32 = match parse_u32_exec(&trim_chars(&tail)) {
            Some(n) => n,
            None => 0,
        };
        if ln == 0 {
            return false;
        }
        self.pending_py_file = Some(string_of(&file_part));
        self.pending_py_line = Some(ln);
        assert(self@ =~= spec_python_header(old(self)@, line@).1);
        true
    }

    fn try_python_error(&self, line: &Vec<char>) -> (r: Option<Problem>)
        ensures
            match r {
                Some(p) => spec_python_error(self@, line@) == Some(p@),
                None => spec_python_error(self@, line@) is None,
            },
    {
        let file = match &self.pending_py_file {
            Some(f) => f.clone(),
            None => return None,
        };
        let ln = match self.pending_py_line {
            Some(l) => l,
            None => return None,
        };
        let t = trim_chars(line);
        if contains_char(&t, ':') && !(t.len() > 0 && t[0] == ' ') {
            Some(Problem { severity: Severity::Error, file, line: ln, col: 1, message: string_of(&t), code: None })
        } else {
            None
        }
    }

    fn feed_chars(&mut self, line: &Vec<char>)
        ensures
            final(self)@ == spec_feed_line(old(self)@, line@),
    {
        if let Some(problem) = self.try_rust_location(line) {
            self.push(problem);
            return;
        }
        if self.try_rust_header(line) {
            return;
        }
        if self.try_python_header(line) {
            return;
        }
        if let Some(problem) = self.try_python_error(line) {
            self.push(problem);
            return;
        }
        if let Some(problem) = parse_gcc(line) {
            self.push(problem);
            return;
        }
        if let Some(problem) = parse_generic(line) {
            self.push(problem);
        }
    }

    /// Parse a single clean (ANSI-stripped) line and update the items list.
    pub fn feed_line(&mut self, line: &str)
        ensures
            final(self)@ == spec_feed_line(old(self)@, line@),
    {
        let v = chars_of(line);
        self.feed_chars(&v);
    }
}

/// Complete lines of `buf` fed through the parsers, each cleaned of ANSI
/// sequences; what follows the last newline is kept for later.
pub open spec fn feed_lines(m: PanelModel, buf: Seq<char>) -> PanelModel
    decreases buf.len(),
{
    match find_char(buf, '\n') {
        None => PanelModel { capture: buf, ..m },
        Some(p) => {
            proof {
                lemma_find_from_bounds(buf, seq!['\n'], 0);
            }
            feed_lines(spec_feed_line(m, spec_strip_ansi(buf.take(p))), buf.skip(p + 1))
        },
    }
}

/// The problem under the cursor, if the cursor is on an item row.
pub open spec fn spec_selected_problem(m: PanelModel) -> Option<ProblemModel> {
    let rows = spec_rows(m);
    if m.selected < rows.len() {
        match rows[m.selected as int] {
            RowModel::Item(i) => if i < m.items.len() {
                Some(m.items[i as int])
            } else {
                None
            },
            _ => None,
        }
    } else {
        None
    }
}

/// The collapse key of a header row.
pub open spec fn row_key(r: RowModel) -> Option<Seq<char>> {
    match r {
        RowModel::SectionHeader => Some(BUILD_GROUP_KEY@),
        RowModel::FileHeader(f) => Some(file_key(f)),
        RowModel::Item(_) => None,
    }
}

/// The group `key` toggled, the cursor kept on a row.
pub open spec fn spec_toggle_group(m: PanelModel, key: Seq<char>) -> PanelModel {
    let c = if m.collapsed.contains(key) {
        m.collapsed.remove(key)
    } else {
        m.collapsed.insert(key)
    };
    let m1 = PanelModel { collapsed: c, ..m };
    PanelModel { selected: clamp_selected(m.selected, spec_rows(m1).len() as int), ..m1 }
}

impl ProblemPanel {
    /// Feed raw output (possibly with incomplete lines and ANSI codes).
    pub fn feed_raw(&mut self, text: &str)
        ensures
            final(self)@ == feed_lines(old(self)@, old(self)@.capture + text@),
    {
        let mut buf = chars_of(self.capture_buf.as_str());
        let t = chars_of(text);
        let mut k: usize = 0;
        while k < t.len()
            invariant
                k <= t@.len(),
                buf@ == old(self)@.capture + t@.take(k as int),
            decreases t@.len() - k,
        {
            buf.push(t[k]);
            k = k + 1;
            assert(buf@ =~= old(self)@.capture + t@.take(k as int));
        }
        assert(t@.take(t@.len() as int) =~= t@);
        loop
            invariant
                feed_lines(self@, buf@) == feed_lines(old(self)@, old(self)@.capture + text@),
            ensures
                feed_lines(self@, buf@) == feed_lines(old(self)@, old(self)@.capture + text@),
                find_char(buf@, '\n') is None,
            decreases buf@.len(),
        {
            match find_char_exec(&buf, '\n') {
                None => {
                    break;
                },
                Some(p) => {
                    proof {
                        lemma_find_from_bounds(buf@, seq!['\n'], 0);
                    }
                    let n = buf.len();
                    let line = sub_chars(&buf, 0, p);
                    let rest = sub_chars(&buf, p + 1, n);
                    assert(buf@.take(p as int) =~= line@);
                    assert(buf@.skip(p + 1) =~= rest@);
                    buf = rest;
                    let clean = strip_ansi(string_of(&line).as_str());
                    self.feed_line(clean.as_str());
                },
            }
        }
        self.capture_buf = string_of(&buf);
        assert(self@ =~= feed_lines(old(self)@, old(self)@.capture + text@));
    }

    /// Whether a group is collapsed.
    fn is_collapsed(&self, key: &Vec<char>) -> (b: bool)
        ensures
            b == self@.collapsed.contains(key@),
    {
        let ks = string_of(key);
        let mut i: usize = 0;
        while i < self.collapsed_groups.len()
            invariant
                i <= self.collapsed_groups@.len(),
                ks@ == key@,
                forall|j: int| 0 <= j < i ==> self.collapsed_groups@[j]@ != key@,
            decreases self.collapsed_groups@.len() - i,
        {
            if self.collapsed_groups[i] == ks {
                return true;
            }
            i = i + 1;
        }
        false
    }

    /// Compute the ordered list of display rows for the PROBLEMS tab
    /// (cargo check only; LSP diagnostics are shown elsewhere).
    pub fn compute_rows(&self) -> (r: Vec<RowKind>)
        ensures
            rows_view(r@) == spec_rows(self@),
    {
        let mut rows: Vec<RowKind> = Vec::new();
        if self.items.len() == 0 {
            assert(rows_view(rows@) =~= spec_rows(self@));
            return rows;
        }
        rows.push(RowKind::CargoSectionHeader);
        if self.is_collapsed(&chars_of(BUILD_GROUP_KEY)) {
            assert(rows_view(rows@) =~= spec_rows(self@));
            return rows;
        }
        let ghost m = self@;
        let files = self.distinct_files();
        let ghost fv = files@.map_values(|f: String| f@);
        assert(fv == files_upto(m.items, m.items.len() as int));
        let prefix = chars_of(CARGO_FILE_PREFIX);
        let mut fi: usize = 0;
        assert(fv.take(0) =~= Seq::<Seq<char>>::empty());
        while fi < files.len()
            invariant
                fi <= files@.len(),
                m == self@,
                fv == files@.map_values(|f: String| f@),
                prefix@ == CARGO_FILE_PREFIX@,
                rows_view(rows@) == seq![RowModel::SectionHeader] + grouped_rows(m.items, m.collapsed, fv.take(fi as int)),
            decreases files@.len() - fi,
        {
            let ghost r0 = rows_view(rows@);
            let f = files[fi].clone();
            let ghost fs = fv[fi as int];
            assert(f@ == fs);
            rows.push(RowKind::CargoFileHeader(f));
            assert(rows_view(rows@) =~= r0.push(RowModel::FileHeader(fs)));
            let mut key = prefix.clone();
            let fc = chars_of(files[fi].as_str());
            let mut j: usize = 0;
            while j < fc.len()
                invariant
                    j <= fc@.len(),
                    key@ == prefix@ + fc@.take(j as int),
                decreases fc@.len() - j,
            {
                key.push(fc[j]);
                j = j + 1;
                assert(key@ =~= prefix@ + fc@.take(j as int));
            }
            assert(fc@.take(fc@.len() as int) =~= fc@);
            let collapsed = self.is_collapsed(&key);
            let ghost r1 = rows_view(rows@);
            let mut i: usize = 0;
            while i < self.items.len()
                invariant
                    i <= self.items@.len(),
                    m == self@,
                    collapsed == m.collapsed.contains(file_key(fs)),
                    files@[fi as int]@ == fs,
                    fi < files@.len(),
                    rows_view(rows@) == r1 + file_rows(m.items, m.collapsed, fs, i as int),
                decreases self.items@.len() - i,
            {
                assert(m.items[i as int] == self.items@[i as int]@);
                if !collapsed && self.items[i].file == files[fi] {
                    let ghost r2 = rows_view(rows@);
                    rows.push(RowKind::Item(i));
                    assert(rows_view(rows@) =~= r2.push(RowModel::Item(i)));
                }
                i = i + 1;
            }
            assert(fv.take(fi + 1).drop_last() =~= fv.take(fi as int));
            assert(rows_view(rows@) =~= seq![RowModel::SectionHeader] + grouped_rows(m.items, m.collapsed, fv.take(fi + 1)));
            fi = fi + 1;
        }
        assert(fv.take(files@.len() as int) =~= fv);
        rows
    }

    /// The distinct files of the items, in the order they first appear.
    fn distinct_files(&self) -> (r: Vec<String>)
        ensures
            r@.map_values(|f: String| f@) == files_upto(self@.items, self@.items.len() as int),
    {
        let mut files: Vec<String> = Vec::new();
        let mut i: usize = 0;
        while i < self.items.len()
            invariant
                i <= self.items@.len(),
                files@.map_values(|f: String| f@) == files_upto(self@.items, i as int),
            decreases self.items@.len() - i,
        {
            let ghost fv = files@.map_values(|f: String| f@);
            assert(self@.items[i as int] == self.items@[i as int]@);
            let mut found = false;
            let mut j: usize = 0;
            while j < files.len()
                invariant
                    j <= files@.len(),
                    i < self.items@.len(),
                    fv == files@.map_values(|f: String| f@),
                    found == exists|k: int| 0 <= k < j && fv[k] == self.items@[i as int].file@,
                decreases files@.len() - j,
            {
                assert(fv[j as int] == files@[j as int]@);
                if files[j] == self.items[i].file {
                    found = true;
                }
                j = j + 1;
            }
            if found {
                proof {
                    let k = choose|k: int| 0 <= k < files@.len() && fv[k] == self.items@[i as int].file@;
                    assert(fv.contains(self@.items[i as int].file));
                }
            } else {
                assert(!fv.contains(self@.items[i as int].file));
                files.push(self.items[i].file.clone());
                assert(files@.map_values(|f: String| f@) =~= fv.push(self@.items[i as int].file));
            }
            i = i + 1;
        }
        files
    }

    /// Update LSP diagnostic items; the cursor stays on a row.
    pub fn set_lsp_items(&mut self, items: Vec<Problem>)
        ensures
            final(self)@ == (PanelModel {
                lsp_items: problems_view(items@),
                selected: clamp_selected(old(self)@.selected, spec_rows(old(self)@).len() as int),
                ..old(self)@
            }),
    {
        self.lsp_items = items;
        let total = self.compute_rows().len();
        assert(spec_rows(self@) == spec_rows(old(self)@));
        if total == 0 {
            self.selected = 0;
        } else if self.selected >= total {
            self.selected = total - 1;
        }
    }

    /// Total display rows (headers + items).
    pub fn all_items_count(&self) -> (n: usize)
        ensures
            n == spec_rows(self@).len(),
    {
        self.compute_rows().len()
    }

    /// A cargo check problem by index into `items`.
    pub fn get_item(&self, idx: usize) -> (r: Option<&Problem>)
        ensures
            match r {
                Some(p) => idx < self@.items.len() && p@ == self@.items[idx as int],
                None => idx >= self@.items.len(),
            },
    {
        if idx < self.items.len() {
            Some(&self.items[idx])
        } else {
            None
        }
    }

    /// The LSP diagnostic items for a file path.
    pub fn lsp_items_for_file<'a>(&'a self, file: &str) -> (r: Vec<&'a Problem>)
        ensures
            r@.map_values(|p: &Problem| p@) == for_file(self@.lsp_items, file@),
    {
        let f = chars_of(file);
        let ghost lv = self@.lsp_items;
        let mut r: Vec<&Problem> = Vec::new();
        let mut i: usize = 0;
        while i < self.lsp_items.len()
            invariant
                i <= self.lsp_items@.len(),
                lv == problems_view(self.lsp_items@),
                f@ == file@,
                r@.map_values(|p: &Problem| p@) == for_file(lv.take(i as int), f@),
            decreases self.lsp_items@.len() - i,
        {
            assert(lv.take(i + 1).drop_last() =~= lv.take(i as int));
            assert(lv.take(i + 1).last() == self.lsp_items@[i as int]@);
            let fc = chars_of(self.lsp_items[i].file.as_str());
            if vec_eq(&fc, &f) {
                let ghost r0 = r@;
                r.push(&self.lsp_items[i]);
                assert(r@.map_values(|p: &Problem| p@) =~= r0.map_values(|p: &Problem| p@).push(self.lsp_items@[i as int]@));
            }
            i = i + 1;
        }
        assert(lv.take(self.lsp_items@.len() as int) =~= lv);
        r
    }

    /// The problem the cursor is on, or None on a header row.
    pub fn selected_problem(&self) -> (r: Option<&Problem>)
        ensures
            match r {
                Some(p) => spec_selected_problem(self@) == Some(p@),
                None => spec_selected_problem(self@) is None,
            },
    {
        let rows = self.compute_rows();
        if self.selected < rows.len() {
            assert(rows_view(rows@)[self.selected as int] == rows@[self.selected as int]@);
            match &rows[self.selected] {
                RowKind::Item(idx) => self.get_item(*idx),
                _ => None,
            }
        } else {
            None
        }
    }

    /// The row at a display index.
    pub fn get_display_row(&self, idx: usize) -> (r: Option<RowKind>)
        ensures
            match r {
                Some(row) => idx < spec_rows(self@).len() && row@ == spec_rows(self@)[idx as int],
                None => idx >= spec_rows(self@).len(),
            },
    {
        let rows = self.compute_rows();
        if idx < rows.len() {
            assert(rows_view(rows@)[idx as int] == rows@[idx as int]@);
            let row = match &rows[idx] {
                RowKind::CargoSectionHeader => RowKind::CargoSectionHeader,
                RowKind::CargoFileHeader(f) => RowKind::CargoFileHeader(f.clone()),
                RowKind::Item(i) => RowKind::Item(*i),
            };
            Some(row)
        } else {
            None
        }
    }

    fn toggle_chars(&mut self, key: &Vec<char>)
        ensures
            final(self)@ == spec_toggle_group(old(self)@, key@),
    {
        let ghost m = self@;
        if self.is_collapsed(key) {
            let ks = string_of(key);
            let mut kept: Vec<String> = Vec::new();
            let mut i: usize = 0;
            while i < self.collapsed_groups.len()
                invariant
                    i <= self.collapsed_groups@.len(),
                    ks@ == key@,
                    self@ == m,
                    strings_set(kept@) == strings_set(self.collapsed_groups@.take(i as int)).remove(key@),
                decreases self.collapsed_groups@.len() - i,
            {
                let ghost k0 = kept@;
                let ghost t0 = self.collapsed_groups@.take(i as int);
                let ghost t1 = self.collapsed_groups@.take(i + 1);
                if !(self.collapsed_groups[i] == ks) {
                    kept.push(self.collapsed_groups[i].clone());
                }
                proof {
                    assert forall|k: Seq<char>| #[trigger] strings_set(kept@).contains(k) == strings_set(t1).remove(key@).contains(k) by {
                        if strings_set(t1).remove(key@).contains(k) {
                            let j = choose|j: int| 0 <= j < t1.len() && t1[j]@ == k;
                            if j < i {
                                assert(t0[j]@ == k);
                                assert(strings_set(k0).contains(k));
                                let j2 = choose|j2: int| 0 <= j2 < k0.len() && k0[j2]@ == k;
                                assert(kept@[j2]@ == k);
                            } else {
                                assert(kept@[k0.len() as int]@ == k);
                            }
                        }
                        if strings_set(kept@).contains(k) {
                            let j = choose|j: int| 0 <= j < kept@.len() && kept@[j]@ == k;
                            if j < k0.len() {
                                assert(k0[j]@ == k);
                                assert(strings_set(t0).remove(key@).contains(k));
                                let j2 = choose|j2: int| 0 <= j2 < t0.len() && t0[j2]@ == k;
                                assert(t1[j2]@ == k);
                            } else {
                                assert(t1[i as int]@ == k);
                            }
                        }
                    }
                    assert(strings_set(kept@) =~= strings_set(t1).remove(key@));
                }
                i = i + 1;
            }
            assert(self.collapsed_groups@.take(self.collapsed_groups@.len() as int) =~= self.collapsed_groups@);
            self.collapsed_groups = kept;
        } else {
            let ghost g0 = self.collapsed_groups@;
            self.collapsed_groups.push(string_of(key));
            proof {
                let g1 = self.collapsed_groups@;
                assert forall|k: Seq<char>| #[trigger] strings_set(g1).contains(k) == strings_set(g0).insert(key@).contains(k) by {
                    if strings_set(g0).contains(k) {
                        let j = choose|j: int| 0 <= j < g0.len() && g0[j]@ == k;
                        assert(g1[j]@ == k);
                    }
                    if k == key@ {
                        assert(g1[g0.len() as int]@ == k);
                    }
                    if strings_set(g1).contains(k) && k != key@ {
                        let j = choose|j: int| 0 <= j < g1.len() && g1[j]@ == k;
                        assert(g0[j]@ == k);
                    }
                }
                assert(strings_set(g1) =~= strings_set(g0).insert(key@));
            }
        }
        let total = self.compute_rows().len();
        if total > 0 && self.selected >= total {
            self.selected = total - 1;
        } else if total == 0 {
            self.selected = 0;
        }
        assert(self@ =~= spec_toggle_group(m, key@));
    }

    /// Toggle the collapsed state of the group identified by `key`; the
    /// cursor stays on a row.
    pub fn toggle_group(&mut self, key: &str)
        ensures
            final(self)@ == spec_toggle_group(old(self)@, key@),
    {
        let k = chars_of(key);
        self.toggle_chars(&k);
    }

    /// Toggle the group whose header the cursor is on; nothing on an item
    /// row.
    pub fn toggle_selected_collapse(&mut self)
        ensures
            final(self)@ == (if old(self)@.selected < spec_rows(old(self)@).len() {
                match row_key(spec_rows(old(self)@)[old(self)@.selected as int]) {
                    Some(k) => spec_toggle_group(old(self)@, k),
                    None => old(self)@,
                }
            } else {
                old(self)@
            }),
    {
        let rows = self.compute_rows();
        if self.selected < rows.len() {
            assert(rows_view(rows@)[self.selected as int] == rows@[self.selected as int]@);
            let key: Option<Vec<char>> = match &rows[self.selected] {
                RowKind::CargoSectionHeader => Some(chars_of(BUILD_GROUP_KEY)),
                RowKind::CargoFileHeader(f) => {
                    let mut k = chars_of(CARGO_FILE_PREFIX);
                    let fc = chars_of(f.as_str());
                    let ghost k0 = k@;
                    let mut j: usize = 0;
                    while j < fc.len()
                        invariant
                            j <= fc@.len(),
                            k@ == k0 + fc@.take(j as int),
                        decreases fc@.len() - j,
                    {
                        k.push(fc[j]);
                        j = j + 1;
                        assert(k@ =~= k0 + fc@.take(j as int));
                    }
                    assert(fc@.take(fc@.len() as int) =~= fc@);
                    Some(k)
                },
                RowKind::Item(_) => None,
            };
            if let Some(k) = key {
                self.toggle_chars(&k);
            }
        }
    }

    /// Errors and warnings of a file among the LSP items.
    pub fn file_counts(&self, file: &str) -> (r: (usize, usize))
        ensures
            r == (count_sev(for_file(self@.lsp_items, file@), Severity::Error) as usize, count_sev(
                for_file(self@.lsp_items, file@),
                Severity::Warning,
            ) as usize),
    {
        let f = chars_of(file);
        counts_of(&self.lsp_items, Some(&f))
    }

    /// Errors and warnings of a file among the build items.
    pub fn cargo_file_counts(&self, file: &str) -> (r: (usize, usize))
        ensures
            r == (count_sev(for_file(self@.items, file@), Severity::Error) as usize, count_sev(
                for_file(self@.items, file@),
                Severity::Warning,
            ) as usize),
    {
        let f = chars_of(file);
        counts_of(&self.items, Some(&f))
    }

    /// Errors and warnings across the LSP items.
    pub fn lsp_counts(&self) -> (r: (usize, usize))
        ensures
            r == (count_sev(self@.lsp_items, Severity::Error) as usize, count_sev(
                self@.lsp_items,
                Severity::Warning,
            ) as usize),
    {
        counts_of(&self.lsp_items, None)
    }

    /// Errors and warnings across the build items.
    pub fn build_counts(&self) -> (r: (usize, usize))
        ensures
            r == (count_sev(self@.items, Severity::Error) as usize, count_sev(self@.items, Severity::Warning) as usize),
    {
        counts_of(&self.items, None)
    }

    /// Errors in the build output only.
    pub fn error_count(&self) -> (n: usize)
        ensures
            n == count_sev(self@.items, Severity::Error),
    {
        let _n = self.items.len();
        proof {
            lemma_count_le(self@.items, Severity::Error);
        }
        counts_of(&self.items, None).0
    }

    /// Warnings in the build output only.
    pub fn warning_count(&self) -> (n: usize)
        ensures
            n == count_sev(self@.items, Severity::Warning),
    {
        let _n = self.items.len();
        proof {
            lemma_count_le(self@.items, Severity::Warning);
        }
        counts_of(&self.items, None).1
    }

    /// Errors across both LSP and build items.
    pub fn total_error_count(&self) -> (n: usize)
        requires
            self@.lsp_items.len() + self@.items.len() <= usize::MAX,
        ensures
            n == count_sev(self@.lsp_items, Severity::Error) + count_sev(self@.items, Severity::Error),
    {
        proof {
            lemma_count_le(self@.items, Severity::Error);
            lemma_count_le(self@.lsp_items, Severity::Error);
        }
        counts_of(&self.lsp_items, None).0 + counts_of(&self.items, None).0
    }

    /// Warnings across both LSP and build items.
    pub fn total_warning_count(&self) -> (n: usize)
        requires
            self@.lsp_items.len() + self@.items.len() <= usize::MAX,
        ensures
            n == count_sev(self@.lsp_items, Severity::Warning) + count_sev(self@.items, Severity::Warning),
    {
        proof {
            lemma_count_le(self@.items, Severity::Warning);
            lemma_count_le(self@.lsp_items, Severity::Warning);
        }
        counts_of(&self.lsp_items, None).1 + counts_of(&self.items, None).1
    }

    pub fn move_up(&mut self)
        ensures
            final(self)@ == (if old(self)@.selected > 0 {
                let s = (old(self)@.selected - 1) as usize;
                PanelModel {
                    selected: s,
                    scroll: if s < old(self)@.scroll {
                        s
                    } else {
                        old(self)@.scroll
                    },
                    ..old(self)@
                }
            } else {
                old(self)@
            }),
    {
        if self.selected > 0 {
            self.selected = self.selected - 1;
            if self.selected < self.scroll {
                self.scroll = self.selected;
            }
        }
    }

    pub fn move_down(&mut self)
        requires
            old(self)@.selected < usize::MAX,
        ensures
            final(self)@ == (if old(self)@.selected + 1 < spec_rows(old(self)@).len() {
                PanelModel { selected: (old(self)@.selected + 1) as usize, ..old(self)@ }
            } else {
                old(self)@
            }),
    {
        if self.selected + 1 < self.compute_rows().len() {
            self.selected = self.selected + 1;
        }
    }

    /// Scroll so that the cursor is inside a window of `visible_rows` rows.
    pub fn clamp_scroll(&mut self, visible_rows: usize)
        requires
            old(self)@.scroll + visible_rows <= usize::MAX,
            old(self)@.selected < usize::MAX,
        ensures
            ({
                let m = old(self)@;
                let s1: int = if m.selected >= m.scroll + visible_rows {
                    m.selected + 1 - visible_rows
                } else {
                    m.scroll as int
                };
                let s2: int = if m.selected < s1 {
                    m.selected as int
                } else {
                    s1
                };
                final(self)@ == PanelModel { scroll: s2 as usize, ..m }
            }),
    {
        if self.selected >= self.scroll + visible_rows {
            self.scroll = self.selected + 1 - visible_rows;
        }
        if self.selected < self.scroll {
            self.scroll = self.selected;
        }
    }
}

/// Leading white space removed.
fn trim_start_chars(s: &Vec<char>) -> (r: Vec<char>)
    ensures
        r@ == trim_start(s@),
{
    let mut lo: usize = 0;
    assert(s@.skip(0) =~= s@);
    while lo < s.len() && crate::text::char_is_white_space(s[lo])
        invariant
            lo <= s@.len(),
            trim_start(s@) == trim_start(s@.skip(lo as int)),
        decreases s@.len() - lo,
    {
        assert(s@.skip(lo as int).drop_first() =~= s@.skip(lo + 1));
        lo = lo + 1;
    }
    assert(s@.subrange(lo as int, s@.len() as int) =~= s@.skip(lo as int));
    sub_chars(s, lo, s.len())
}


// ── Feeding in pieces ────────────────────────────────────────

/// The panel with `c` kept as the unfinished line.
pub open spec fn with_capture(m: PanelModel, c: Seq<char>) -> PanelModel {
    PanelModel { capture: c, ..m }
}

/// A match found in `s` is found at the same place once more text follows.
proof fn lemma_find_from_extend(s: Seq<char>, p: Seq<char>, i: int, b: Seq<char>)
    requires
        crate::strs::find_from(s, p, i) is Some,
    ensures
        crate::strs::find_from(s + b, p, i) == crate::strs::find_from(s, p, i),
    decreases s.len() + 1 - i,
{
    lemma_find_from_bounds(s, p, i);
    assert((s + b).subrange(i, i + p.len()) =~= s.subrange(i, i + p.len()));
    if !crate::strs::occurs_at(s, p, i) {
        lemma_find_from_extend(s, p, i + 1, b);
    }
}

/// Reading a line does not look at, or change, the text kept for later.
proof fn lemma_feed_line_capture(m: PanelModel, line: Seq<char>, c: Seq<char>)
    ensures
        spec_feed_line(with_capture(m, c), line) == with_capture(spec_feed_line(m, line), c),
{
}

/// What a panel reads from text does not depend on the text it kept for
/// later, which the text's unfinished last line replaces.
proof fn lemma_feed_lines_capture(m: PanelModel, buf: Seq<char>, c: Seq<char>)
    ensures
        feed_lines(with_capture(m, c), buf) == feed_lines(m, buf),
    decreases buf.len(),
{
    match find_char(buf, '\n') {
        None => {},
        Some(p) => {
            lemma_find_from_bounds(buf, seq!['\n'], 0);
            let line = spec_strip_ansi(buf.take(p));
            lemma_feed_line_capture(m, line, c);
            let m1 = spec_feed_line(m, line);
            lemma_feed_lines_capture(m1, buf.skip(p + 1), c);
            assert(with_capture(m1, c) == spec_feed_line(with_capture(m, c), line));
        },
    }
}

/// Feeding text in two pieces reads what feeding it at once does: the
/// first piece's unfinished last line is kept and completed by the second.
pub proof fn lemma_feed_lines_split(m: PanelModel, a: Seq<char>, b: Seq<char>)
    ensures
        feed_lines(feed_lines(m, a), feed_lines(m, a).capture + b) == feed_lines(m, a + b),
    decreases a.len(),
{
    match find_char(a, '\n') {
        None => {
            assert(feed_lines(m, a) == with_capture(m, a));
            lemma_feed_lines_capture(m, a + b, a);
        },
        Some(p) => {
            lemma_find_from_bounds(a, seq!['\n'], 0);
            lemma_find_from_extend(a, seq!['\n'], 0, b);
            assert((a + b).take(p) =~= a.take(p));
            assert((a + b).skip(p + 1) =~= a.skip(p + 1) + b);
            let m1 = spec_feed_line(m, spec_strip_ansi(a.take(p)));
            lemma_feed_lines_split(m1, a.skip(p + 1), b);
        },
    }
}

/// `feed_raw(a)` then `feed_raw(b)` leaves a panel as `feed_raw` of the two
/// put together does.
pub proof fn lemma_feed_raw_split(m: PanelModel, a: Seq<char>, b: Seq<char>)
    ensures
        ({
            let m1 = feed_lines(m, m.capture + a);
            feed_lines(m1, m1.capture + b) == feed_lines(m, m.capture + (a + b))
        }),
{
    lemma_feed_lines_split(m, m.capture + a, b);
    assert(m.capture + a + b =~= m.capture + (a + b));
}


/// Toggling a group flips exactly that group's collapsed state, and
/// toggling it again restores the collapsed groups as they were.
pub proof fn lemma_toggle_group_twice(m: PanelModel, key: Seq<char>)
    ensures
        forall|x: Seq<char>|
            #[trigger] spec_toggle_group(m, key).collapsed.contains(x) == (m.collapsed.contains(x) != (x == key)),
        spec_toggle_group(spec_toggle_group(m, key), key).collapsed == m.collapsed,
{
    let m1 = spec_toggle_group(m, key);
    let m2 = spec_toggle_group(m1, key);
    assert(m2.collapsed =~= m.collapsed);
}

} // verus!

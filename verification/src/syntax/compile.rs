//! The pattern compiler: pattern bytes to bytecode, by direct emission
//! with absolute addresses. Forward references are emitted as placeholders
//! and patched once their target is known.
//!
//! `c_alternation` and its companions state the compiler as functions on
//! a compiler state (position in the pattern, groups opened so far,
//! program emitted so far); the executable compiler below follows them.
use vstd::prelude::*;
use vstd::string::StringSliceAdditionalSpecFns;
use crate::syntax::regex::{
    Inst, InstModel, char_len, byte_offset, at_boundary, char_pos_of, prog_view, char_len_exec, saves_ok, save_ok,
    lemma_saves_concat, class_contains, is_word_char,
    lemma_byte_offset_mono,
};
use crate::text::{push_str_chars, push_dec_chars, string_from_chars};
use crate::text::dec_chars;

verus! {

// ── Errors ────────────────────────────────────────────────────

/// A pattern error, with the byte offset where it was found.
#[derive(Debug, Clone, Copy, PartialEq, Eq, Structural)]
pub enum RegexError {
    UnexpectedParen(usize),
    ExpectedBrace(usize),
    ExpectedNumber(usize),
    InvalidNumber(usize),
    InvalidUtf8(usize),
    UnexpectedByte(usize, u8),
    UnexpectedEnd(usize),
    ExpectedParen(usize),
    UnsupportedGroupModifier(usize),
    UnknownEscape(usize, u8),
    EndAfterBackslash(usize),
    UnterminatedClass(usize),
    EndInClass(usize),
    TooManyGroups(usize),
}

/// The message of an error: "Regex error at <offset>: <what>".
pub open spec fn error_message(e: RegexError) -> Seq<char> {
    let (pos, what) = match e {
        RegexError::UnexpectedParen(p) => (p, "unexpected ')'"@),
        RegexError::ExpectedBrace(p) => (p, "expected '}'"@),
        RegexError::ExpectedNumber(p) => (p, "expected number"@),
        RegexError::InvalidNumber(p) => (p, "invalid number"@),
        RegexError::InvalidUtf8(p) => (p, "invalid UTF-8"@),
        RegexError::UnexpectedByte(p, b) => (p, "unexpected '"@ + seq![b as char] + "'"@),
        RegexError::UnexpectedEnd(p) => (p, "unexpected end of pattern"@),
        RegexError::ExpectedParen(p) => (p, "expected ')'"@),
        RegexError::UnsupportedGroupModifier(p) => (p, "unsupported group modifier"@),
        RegexError::UnknownEscape(p, b) => (p, "unknown escape '\\"@ + seq![b as char] + "'"@),
        RegexError::EndAfterBackslash(p) => (p, "unexpected end after '\\'"@),
        RegexError::UnterminatedClass(p) => (p, "unterminated character class"@),
        RegexError::EndInClass(p) => (p, "unexpected end in class"@),
        RegexError::TooManyGroups(p) => (p, "too many groups"@),
    };
    "Regex error at "@ + dec_chars(pos as nat) + ": "@ + what
}

// ── Compiler state ────────────────────────────────────────────

pub struct CState {
    pub pos: int,
    pub gc: int,
    pub prog: Seq<InstModel>,
}

pub open spec fn peek(p: Seq<u8>, pos: int) -> Option<u8> {
    if 0 <= pos < p.len() {
        Some(p[pos])
    } else {
        None
    }
}

/// The character whose encoding starts at byte `pos`, if one does.
pub open spec fn decode_at(cs: Seq<char>, pos: int) -> Option<char> {
    if at_boundary(cs, pos) && char_pos_of(cs, pos) < cs.len() {
        Some(cs[char_pos_of(cs, pos)])
    } else {
        None
    }
}

pub open spec fn emit(st: CState, pos: int, inst: InstModel) -> CState {
    CState { pos, gc: st.gc, prog: st.prog.push(inst) }
}

// ── Scanning the alternatives ─────────────────────────────────

pub open spec fn class_skip_loop(p: Seq<u8>, q: int, first: bool) -> int
    decreases p.len() + 1 - q,
{
    if q >= 0 && (peek(p, q) != Some(0x5du8) || first) && peek(p, q) is Some {
        class_skip_loop(p, if p[q] == 0x5c { q + 2 } else { q + 1 }, false)
    } else {
        q
    }
}

/// Where a character class body starting at `q` ends (past its `]`).
pub open spec fn class_skip(p: Seq<u8>, q: int) -> int {
    let q1 = if peek(p, q) == Some(0x5eu8) { q + 1 } else { q };
    let q2 = class_skip_loop(p, q1, true);
    if peek(p, q2) == Some(0x5du8) {
        q2 + 1
    } else {
        q2
    }
}

pub proof fn lemma_class_skip_loop(p: Seq<u8>, q: int, first: bool)
    requires
        0 <= q,
    ensures
        q <= class_skip_loop(p, q, first),
        class_skip_loop(p, q, first) <= if q <= p.len() + 1 { (p.len() + 1) as int } else { q },
    decreases p.len() + 1 - q,
{
    if (peek(p, q) != Some(0x5du8) || first) && peek(p, q) is Some {
        lemma_class_skip_loop(p, if p[q] == 0x5c { q + 2 } else { q + 1 }, false);
    }
}

/// The start of each top-level alternative from `pos` up to the closing
/// `)` or the end: `starts` followed by the position after each `|`
/// outside brackets and classes.
pub open spec fn scan_alts(p: Seq<u8>, pos: int, depth: nat, starts: Seq<int>) -> Seq<int>
    decreases p.len() + 2 - pos,
{
    if pos < 0 || pos >= p.len() {
        starts
    } else {
        let b = p[pos];
        if b == 0x28 {
            scan_alts(p, pos + 1, depth + 1, starts)
        } else if b == 0x29 {
            if depth == 0 {
                starts
            } else {
                scan_alts(p, pos + 1, (depth - 1) as nat, starts)
            }
        } else if b == 0x7c && depth == 0 {
            scan_alts(p, pos + 1, depth, starts.push(pos + 1))
        } else if b == 0x5c {
            scan_alts(p, if pos + 1 < p.len() { pos + 2 } else { pos + 1 }, depth, starts)
        } else if b == 0x5b {
            proof {
                lemma_class_skip_loop(p, if peek(p, pos + 1) == Some(0x5eu8) { pos + 2 } else { pos + 1 }, true);
            }
            scan_alts(p, class_skip(p, pos + 1), depth, starts)
        } else {
            scan_alts(p, pos + 1, depth, starts)
        }
    }
}

// ── Address fix-ups ───────────────────────────────────────────

/// The address after `t`, in machine arithmetic.
pub open spec fn next_addr(t: usize) -> usize {
    if t == usize::MAX {
        0
    } else {
        (t + 1) as usize
    }
}

pub open spec fn shift_target(t: usize, at: int, i: int) -> usize {
    if t > at || (t == at && i != at) {
        next_addr(t)
    } else {
        t
    }
}

/// Instruction `x`, now at index `i`, after an instruction was inserted
/// at `at`: its jump targets past `at` move by one.
pub open spec fn fix_inst(x: InstModel, at: int, i: int) -> InstModel {
    match x {
        InstModel::Split(a, b) => InstModel::Split(shift_target(a, at, i), shift_target(b, at, i)),
        InstModel::Jump(t) => InstModel::Jump(shift_target(t, at, i)),
        InstModel::Lookahead(n, s) => InstModel::Lookahead(n, if s > at { next_addr(s) } else { s }),
        _ => x,
    }
}

/// `prog` with `inst` inserted at `at`, and the addresses fixed.
pub open spec fn insert_fix(prog: Seq<InstModel>, at: int, inst: InstModel) -> Seq<InstModel> {
    let pr = prog.insert(at, inst);
    Seq::new(pr.len(), |i: int| fix_inst(pr[i], at, i))
}

/// `prog` with each instruction at an index in `fixups` replaced by a
/// jump to `end`, in order.
pub open spec fn set_jumps(prog: Seq<InstModel>, fixups: Seq<int>, end: int) -> Seq<InstModel>
    decreases fixups.len(),
{
    if fixups.len() == 0 {
        prog
    } else {
        set_jumps(prog, fixups.drop_last(), end).update(fixups.last(), InstModel::Jump(end as usize))
    }
}

// ── Counted repetition ────────────────────────────────────────

pub open spec fn repeat(code: Seq<InstModel>, k: nat) -> Seq<InstModel>
    decreases k,
{
    if k == 0 {
        Seq::empty()
    } else {
        repeat(code, (k - 1) as nat) + code
    }
}

/// `k` optional copies of `code`, each behind a split that may skip it.
pub open spec fn opt_copies(prog: Seq<InstModel>, code: Seq<InstModel>, k: nat) -> Seq<InstModel>
    decreases k,
{
    if k == 0 {
        prog
    } else {
        let s = prog.len();
        opt_copies(
            prog.push(InstModel::Split((s + 1) as usize, (s + 1 + code.len()) as usize)) + code,
            code,
            (k - 1) as nat,
        )
    }
}

/// A loop over `code`: a split that enters or skips it, and a jump back.
pub open spec fn star_copy(prog: Seq<InstModel>, code: Seq<InstModel>) -> Seq<InstModel> {
    let s = prog.len();
    prog.push(InstModel::Split((s + 1) as usize, (s + 2 + code.len()) as usize)) + code + seq![
        InstModel::Jump(s as usize),
    ]
}

pub open spec fn is_digit(b: u8) -> bool {
    0x30 <= b <= 0x39
}

/// The end of the run of digits from `q`.
pub open spec fn digits_end(p: Seq<u8>, q: int) -> int
    decreases p.len() - q,
{
    if 0 <= q < p.len() && is_digit(p[q]) {
        digits_end(p, q + 1)
    } else {
        q
    }
}

/// The value of a run of decimal digits.
pub open spec fn dec_value(d: Seq<u8>) -> nat
    decreases d.len(),
{
    if d.len() == 0 {
        0
    } else {
        dec_value(d.drop_last()) * 10 + (d.last() - 0x30) as nat
    }
}

/// A decimal number at `q`: its value and the position after it.
pub open spec fn parse_dec(p: Seq<u8>, q: int) -> Result<(usize, int), RegexError> {
    let e = digits_end(p, q);
    if e == q {
        Err(RegexError::ExpectedNumber(q as usize))
    } else if dec_value(p.subrange(q, e)) > usize::MAX {
        Err(RegexError::InvalidNumber(q as usize))
    } else {
        Ok((dec_value(p.subrange(q, e)) as usize, e))
    }
}

/// The repetition bounds `{min}`, `{min,}` or `{min,max}` from `q` (just
/// past the `{`), and the position after the `}`.
pub open spec fn parse_counts(p: Seq<u8>, q: int) -> Result<(usize, Option<usize>, int), RegexError> {
    match parse_dec(p, q) {
        Err(e) => Err(e),
        Ok((min, q1)) => {
            let mx: Result<(Option<usize>, int), RegexError> = if peek(p, q1) == Some(0x2cu8) {
                if peek(p, q1 + 1) == Some(0x7du8) {
                    Ok((None, q1 + 1))
                } else {
                    match parse_dec(p, q1 + 1) {
                        Err(e) => Err(e),
                        Ok((m, q3)) => Ok((Some(m), q3)),
                    }
                }
            } else {
                Ok((Some(min), q1))
            };
            match mx {
                Err(e) => Err(e),
                Ok((max, q2)) => if peek(p, q2) == Some(0x7du8) {
                    Ok((min, max, q2 + 1))
                } else if peek(p, q2) is Some {
                    Err(RegexError::ExpectedBrace((q2 + 1) as usize))
                } else {
                    Err(RegexError::ExpectedBrace(q2 as usize))
                },
            }
        },
    }
}

/// `{..}` after an atom emitted at `atom_start..atom_end`: the atom's code
/// repeated `min` times, then `max - min` optional copies, or a loop when
/// there is no maximum.
pub open spec fn c_counted(p: Seq<u8>, st: CState, atom_start: int, atom_end: int) -> Result<
    CState,
    RegexError,
> {
    match parse_counts(p, st.pos + 1) {
        Err(e) => Err(e),
        Ok((min, max, q)) => {
            let code = st.prog.subrange(atom_start, atom_end);
            let base = st.prog.take(atom_start) + repeat(code, min as nat);
            let prog = match max {
                Some(m) => opt_copies(base, code, if m > min { (m - min) as nat } else { 0 }),
                None => star_copy(base, code),
            };
            Ok(CState { pos: q, gc: st.gc, prog })
        },
    }
}

// ── Escapes and classes ───────────────────────────────────────

pub open spec fn word_ranges() -> Seq<(char, char)> {
    seq![('a', 'z'), ('A', 'Z'), ('0', '9'), ('_', '_')]
}

pub open spec fn digit_ranges() -> Seq<(char, char)> {
    seq![('0', '9')]
}

pub open spec fn space_ranges() -> Seq<(char, char)> {
    seq![(' ', ' '), ('\t', '\t'), ('\n', '\n'), ('\r', '\r'), ('\u{0B}', '\u{0B}'), ('\u{0C}', '\u{0C}')]
}

pub open spec fn is_ascii_punct(b: u8) -> bool {
    (0x21 <= b <= 0x2f) || (0x3a <= b <= 0x40) || (0x5b <= b <= 0x60) || (0x7b <= b <= 0x7e)
}

/// The instruction for the escape whose letter is `b`.
pub open spec fn escape_inst(b: u8) -> Option<InstModel> {
    if b == 0x77 {
        Some(InstModel::CharClass(word_ranges()))
    } else if b == 0x57 {
        Some(InstModel::NegCharClass(word_ranges()))
    } else if b == 0x64 {
        Some(InstModel::CharClass(digit_ranges()))
    } else if b == 0x44 {
        Some(InstModel::NegCharClass(digit_ranges()))
    } else if b == 0x73 {
        Some(InstModel::CharClass(space_ranges()))
    } else if b == 0x53 {
        Some(InstModel::NegCharClass(space_ranges()))
    } else if b == 0x62 {
        Some(InstModel::AssertWordBoundary)
    } else if b == 0x42 {
        Some(InstModel::AssertNotWordBoundary)
    } else if b == 0x6e {
        Some(InstModel::Literal('\n'))
    } else if b == 0x74 {
        Some(InstModel::Literal('\t'))
    } else if b == 0x72 {
        Some(InstModel::Literal('\r'))
    } else if 0x31 <= b <= 0x39 {
        Some(InstModel::Backref((b - 0x30) as usize))
    } else if is_ascii_punct(b) {
        Some(InstModel::Literal(b as char))
    } else {
        None
    }
}

/// An escape; `st.pos` is just past the backslash.
pub open spec fn c_escape(p: Seq<u8>, st: CState) -> Result<CState, RegexError> {
    match peek(p, st.pos) {
        None => Err(RegexError::EndAfterBackslash(st.pos as usize)),
        Some(b) => match escape_inst(b) {
            Some(inst) => Ok(emit(st, st.pos + 1, inst)),
            None => Err(RegexError::UnknownEscape(st.pos as usize, b)),
        },
    }
}

/// The character an escaped byte stands for inside a class.
pub open spec fn class_escape(b: u8) -> char {
    if b == 0x6e {
        '\n'
    } else if b == 0x74 {
        '\t'
    } else if b == 0x72 {
        '\r'
    } else {
        b as char
    }
}

/// One class member at `q`: the character and the position after it.
pub open spec fn class_atom(p: Seq<u8>, cs: Seq<char>, q: int) -> Result<(char, int), RegexError> {
    match peek(p, q) {
        None => Err(RegexError::EndInClass(q as usize)),
        Some(b) => if b == 0x5c {
            match peek(p, q + 1) {
                None => Err(RegexError::EndInClass((q + 1) as usize)),
                Some(b2) => Ok((class_escape(b2), q + 2)),
            }
        } else if b >= 0x80 {
            match decode_at(cs, q) {
                None => Err(RegexError::InvalidUtf8(q as usize)),
                Some(c) => Ok((c, q + char_len(c))),
            }
        } else {
            Ok((b as char, q + 1))
        },
    }
}

/// The members of a class from `q` up to its `]`: the position of the
/// `]` and the ranges. A `]` first in the class is a member.
pub open spec fn class_items(
    p: Seq<u8>,
    cs: Seq<char>,
    q: int,
    first: bool,
    ranges: Seq<(char, char)>,
) -> Result<(int, Seq<(char, char)>), RegexError>
    decreases p.len() - q,
{
    if !(peek(p, q) != Some(0x5du8) || first) {
        Ok((q, ranges))
    } else if peek(p, q) is None {
        Err(RegexError::UnterminatedClass(q as usize))
    } else {
        match class_atom(p, cs, q) {
            Err(e) => Err(e),
            Ok((lo, q1)) => if peek(p, q1) == Some(0x2du8) && peek(p, q1 + 1) != Some(0x5du8) {
                match class_atom(p, cs, q1 + 1) {
                    Err(e) => Err(e),
                    // Class members move forward within the pattern.
                    Ok((hi, q2)) => if q < q2 <= p.len() {
                        class_items(p, cs, q2, false, ranges.push((lo, hi)))
                    } else {
                        Ok((q2, ranges.push((lo, hi))))
                    },
                }
            } else if q < q1 <= p.len() {
                class_items(p, cs, q1, false, ranges.push((lo, lo)))
            } else {
                Ok((q1, ranges.push((lo, lo))))
            },
        }
    }
}

/// A class; `st.pos` is at its `[`.
pub open spec fn c_class(p: Seq<u8>, cs: Seq<char>, st: CState) -> Result<CState, RegexError> {
    let q = st.pos + 1;
    let neg = peek(p, q) == Some(0x5eu8);
    let q1 = if neg { q + 1 } else { q };
    match class_items(p, cs, q1, true, Seq::empty()) {
        Err(e) => Err(e),
        Ok((q2, ranges)) => Ok(
            emit(
                st,
                q2 + 1,
                if neg {
                    InstModel::NegCharClass(ranges)
                } else {
                    InstModel::CharClass(ranges)
                },
            ),
        ),
    }
}

/// Inline mode flags up to `)`: the position after it, or where an
/// unsupported byte was found.
pub open spec fn skip_flags(p: Seq<u8>, q: int) -> Result<int, int>
    decreases p.len() - q,
{
    match peek(p, q) {
        None => Err(q),
        Some(b) => if b == 0x29 {
            Ok(q + 1)
        } else if (0x41 <= b <= 0x5a) || (0x61 <= b <= 0x7a) || b == 0x2d {
            skip_flags(p, q + 1)
        } else {
            Err(q + 1)
        },
    }
}

/// The closing `)` of a group.
pub open spec fn close_paren(p: Seq<u8>, st: CState) -> Result<CState, RegexError> {
    match peek(p, st.pos) {
        Some(b) => if b == 0x29 {
            Ok(CState { pos: st.pos + 1, gc: st.gc, prog: st.prog })
        } else {
            Err(RegexError::ExpectedParen((st.pos + 1) as usize))
        },
        None => Err(RegexError::ExpectedParen(st.pos as usize)),
    }
}

/// Groups that a program may hold.
pub open spec fn group_limit() -> int {
    usize::MAX / 2 - 1
}

// ── The recursive part ────────────────────────────────────────

/// Alternatives `a|b|..` from `st.pos` up to `)` or the end.
pub open spec fn c_alternation(p: Seq<u8>, cs: Seq<char>, st: CState) -> Result<CState, RegexError>
    decreases p.len() + 2 - st.pos, 5int, 0int,
{
    let starts = scan_alts(p, st.pos, 0, seq![st.pos]);
    if starts.len() == 1 {
        c_sequence(p, cs, st)
    } else {
        c_alt_loop(p, cs, st, starts, 0, Seq::empty(), st.pos)
    }
}

/// Alternatives `i..` of an alternation that starts at `p0`: each but
/// the last behind a split to the next, followed by a jump to the end
/// (recorded in `fixups`).
pub open spec fn c_alt_loop(
    p: Seq<u8>,
    cs: Seq<char>,
    st: CState,
    starts: Seq<int>,
    i: int,
    fixups: Seq<int>,
    p0: int,
) -> Result<CState, RegexError>
    decreases p.len() + 2 - p0, 4int, starts.len() - i,
{
    if i < 0 || i >= starts.len() {
        Ok(CState { pos: st.pos, gc: st.gc, prog: set_jumps(st.prog, fixups, st.prog.len() as int) })
    } else if !(p0 <= starts[i] <= p.len()) {
        // Alternatives start within the alternation.
        Ok(st)
    } else if i < starts.len() - 1 {
        let split_pc = st.prog.len() as int;
        match c_sequence(
            p,
            cs,
            CState { pos: starts[i], gc: st.gc, prog: st.prog.push(InstModel::Split(0, 0)) },
        ) {
            Err(e) => Err(e),
            Ok(s2) => {
                let jump_pc = s2.prog.len() as int;
                let prog = s2.prog.push(InstModel::Jump(0)).update(
                    split_pc,
                    InstModel::Split((split_pc + 1) as usize, (jump_pc + 1) as usize),
                );
                c_alt_loop(
                    p,
                    cs,
                    CState { pos: s2.pos, gc: s2.gc, prog },
                    starts,
                    i + 1,
                    fixups.push(jump_pc),
                    p0,
                )
            },
        }
    } else {
        match c_sequence(p, cs, CState { pos: starts[i], gc: st.gc, prog: st.prog }) {
            Err(e) => Err(e),
            Ok(s2) => c_alt_loop(p, cs, s2, starts, i + 1, fixups, p0),
        }
    }
}

/// Quantified atoms up to `)`, `|` or the end.
pub open spec fn c_sequence(p: Seq<u8>, cs: Seq<char>, st: CState) -> Result<CState, RegexError>
    decreases p.len() + 2 - st.pos, 3int, 0int,
{
    match peek(p, st.pos) {
        None => Ok(st),
        Some(b) => if b == 0x29 || b == 0x7c {
            Ok(st)
        } else {
            match c_quantifier(p, cs, st) {
                Err(e) => Err(e),
                // Each quantified atom moves forward within the pattern.
                Ok(s2) => if st.pos < s2.pos <= p.len() {
                    c_sequence(p, cs, s2)
                } else {
                    Ok(s2)
                },
            }
        },
    }
}

/// An atom and its quantifier, if any.
pub open spec fn c_quantifier(p: Seq<u8>, cs: Seq<char>, st: CState) -> Result<CState, RegexError>
    decreases p.len() + 2 - st.pos, 2int, 0int,
{
    let atom_start = st.prog.len() as int;
    match c_atom(p, cs, st) {
        Err(e) => Err(e),
        Ok(s1) => {
            let atom_end = s1.prog.len() as int;
            match peek(p, s1.pos) {
                Some(b) => if b == 0x2a {
                    let pr = insert_fix(s1.prog, atom_start, InstModel::Split(0, 0)).push(
                        InstModel::Jump(atom_start as usize),
                    );
                    Ok(
                        CState {
                            pos: s1.pos + 1,
                            gc: s1.gc,
                            prog: pr.update(
                                atom_start,
                                InstModel::Split((atom_start + 1) as usize, pr.len() as usize),
                            ),
                        },
                    )
                } else if b == 0x2b {
                    let pr = s1.prog.push(InstModel::Split(atom_start as usize, 0));
                    Ok(
                        CState {
                            pos: s1.pos + 1,
                            gc: s1.gc,
                            prog: pr.update(
                                atom_end,
                                InstModel::Split(atom_start as usize, pr.len() as usize),
                            ),
                        },
                    )
                } else if b == 0x3f {
                    let pr = insert_fix(s1.prog, atom_start, InstModel::Split(0, 0));
                    Ok(
                        CState {
                            pos: s1.pos + 1,
                            gc: s1.gc,
                            prog: pr.update(
                                atom_start,
                                InstModel::Split((atom_start + 1) as usize, pr.len() as usize),
                            ),
                        },
                    )
                } else if b == 0x7b {
                    c_counted(p, s1, atom_start, atom_end)
                } else {
                    Ok(s1)
                },
                None => Ok(s1),
            }
        },
    }
}

/// One atom at `st.pos`.
pub open spec fn c_atom(p: Seq<u8>, cs: Seq<char>, st: CState) -> Result<CState, RegexError>
    decreases p.len() + 2 - st.pos, 1int, 0int,
{
    match peek(p, st.pos) {
        None => Err(RegexError::UnexpectedEnd(st.pos as usize)),
        Some(b) => if b == 0x28 {
            c_group(p, cs, st)
        } else if b == 0x5b {
            c_class(p, cs, st)
        } else if b == 0x5e {
            Ok(emit(st, st.pos + 1, InstModel::AssertStart))
        } else if b == 0x24 {
            Ok(emit(st, st.pos + 1, InstModel::AssertEnd))
        } else if b == 0x2e {
            Ok(emit(st, st.pos + 1, InstModel::AnyChar))
        } else if b == 0x5c {
            c_escape(p, CState { pos: st.pos + 1, gc: st.gc, prog: st.prog })
        } else if b != 0x29 && b != 0x7c && b != 0x2a && b != 0x2b && b != 0x3f && b != 0x7b {
            if b >= 0x80 {
                match decode_at(cs, st.pos) {
                    None => Err(RegexError::InvalidUtf8(st.pos as usize)),
                    Some(c) => Ok(emit(st, st.pos + char_len(c), InstModel::Literal(c))),
                }
            } else {
                Ok(emit(st, st.pos + 1, InstModel::Literal(b as char)))
            }
        } else {
            Err(RegexError::UnexpectedByte(st.pos as usize, b))
        },
    }
}

/// A group at its `(`: `(?:..)`, a lookahead `(?=..)` or `(?!..)`,
/// inline flags `(?i)` (which change nothing), or a capturing group.
pub open spec fn c_group(p: Seq<u8>, cs: Seq<char>, st: CState) -> Result<CState, RegexError>
    decreases p.len() + 2 - st.pos, 0int, 0int,
{
    let q = st.pos + 1;
    if st.pos < 0 || st.pos >= p.len() {
        Ok(st)
    } else if peek(p, q) == Some(0x3fu8) {
        let q2 = q + 1;
        match peek(p, q2) {
            Some(b) => if b == 0x3a {
                match c_alternation(p, cs, CState { pos: q2 + 1, gc: st.gc, prog: st.prog }) {
                    Err(e) => Err(e),
                    Ok(s2) => close_paren(p, s2),
                }
            } else if b == 0x3d || b == 0x21 {
                let neg = b == 0x21;
                let la_pc = st.prog.len() as int;
                match c_alternation(
                    p,
                    cs,
                    CState { pos: q2 + 1, gc: st.gc, prog: st.prog.push(InstModel::Lookahead(neg, 0)) },
                ) {
                    Err(e) => Err(e),
                    Ok(s2) => {
                        let pr = s2.prog.push(InstModel::Match);
                        close_paren(
                            p,
                            CState {
                                pos: s2.pos,
                                gc: s2.gc,
                                prog: pr.update(la_pc, InstModel::Lookahead(neg, pr.len() as usize)),
                            },
                        )
                    },
                }
            } else {
                match skip_flags(p, q2) {
                    Ok(np) => Ok(CState { pos: np, gc: st.gc, prog: st.prog }),
                    Err(ep) => Err(RegexError::UnsupportedGroupModifier(ep as usize)),
                }
            },
            None => match skip_flags(p, q2) {
                Ok(np) => Ok(CState { pos: np, gc: st.gc, prog: st.prog }),
                Err(ep) => Err(RegexError::UnsupportedGroupModifier(ep as usize)),
            },
        }
    } else if st.gc + 1 > group_limit() {
        Err(RegexError::TooManyGroups(q as usize))
    } else {
        let gid = st.gc + 1;
        match c_alternation(
            p,
            cs,
            CState { pos: q, gc: gid, prog: st.prog.push(InstModel::SaveStart(gid as usize)) },
        ) {
            Err(e) => Err(e),
            Ok(s2) => close_paren(p, emit(s2, s2.pos, InstModel::SaveEnd(gid as usize))),
        }
    }
}

/// The whole pattern: the program and the number of groups, the whole
/// match included.
pub open spec fn spec_compile(p: Seq<u8>, cs: Seq<char>) -> Result<(Seq<InstModel>, nat), RegexError> {
    match c_alternation(p, cs, CState { pos: 0, gc: 0, prog: Seq::empty() }) {
        Err(e) => Err(e),
        Ok(s) => if s.pos < p.len() {
            Err(RegexError::UnexpectedParen(s.pos as usize))
        } else {
            Ok((s.prog.push(InstModel::Match), (s.gc + 1) as nat))
        },
    }
}


// ── The executable compiler ───────────────────────────────────

pub open spec fn ints(v: Seq<usize>) -> Seq<int> {
    v.map_values(|x: usize| x as int)
}

/// The message of an error.
pub fn error_string(e: RegexError) -> (s: String)
    ensures
        s@ == error_message(e),
{
    let mut v: Vec<char> = Vec::new();
    push_str_chars(&mut v, "Regex error at ");
    let pos = match e {
        RegexError::UnexpectedParen(p) => p,
        RegexError::ExpectedBrace(p) => p,
        RegexError::ExpectedNumber(p) => p,
        RegexError::InvalidNumber(p) => p,
        RegexError::InvalidUtf8(p) => p,
        RegexError::UnexpectedByte(p, _) => p,
        RegexError::UnexpectedEnd(p) => p,
        RegexError::ExpectedParen(p) => p,
        RegexError::UnsupportedGroupModifier(p) => p,
        RegexError::UnknownEscape(p, _) => p,
        RegexError::EndAfterBackslash(p) => p,
        RegexError::UnterminatedClass(p) => p,
        RegexError::EndInClass(p) => p,
        RegexError::TooManyGroups(p) => p,
    };
    push_dec_chars(&mut v, pos);
    push_str_chars(&mut v, ": ");
    match e {
        RegexError::UnexpectedParen(_) => push_str_chars(&mut v, "unexpected ')'"),
        RegexError::ExpectedBrace(_) => push_str_chars(&mut v, "expected '}'"),
        RegexError::ExpectedNumber(_) => push_str_chars(&mut v, "expected number"),
        RegexError::InvalidNumber(_) => push_str_chars(&mut v, "invalid number"),
        RegexError::InvalidUtf8(_) => push_str_chars(&mut v, "invalid UTF-8"),
        RegexError::UnexpectedByte(_, b) => {
            push_str_chars(&mut v, "unexpected '");
            v.push(b as char);
            push_str_chars(&mut v, "'");
        },
        RegexError::UnexpectedEnd(_) => push_str_chars(&mut v, "unexpected end of pattern"),
        RegexError::ExpectedParen(_) => push_str_chars(&mut v, "expected ')'"),
        RegexError::UnsupportedGroupModifier(_) => push_str_chars(&mut v, "unsupported group modifier"),
        RegexError::UnknownEscape(_, b) => {
            push_str_chars(&mut v, "unknown escape '\\");
            v.push(b as char);
            push_str_chars(&mut v, "'");
        },
        RegexError::EndAfterBackslash(_) => push_str_chars(&mut v, "unexpected end after '\\'"),
        RegexError::UnterminatedClass(_) => push_str_chars(&mut v, "unterminated character class"),
        RegexError::EndInClass(_) => push_str_chars(&mut v, "unexpected end in class"),
        RegexError::TooManyGroups(_) => push_str_chars(&mut v, "too many groups"),
    }
    let s = string_from_chars(v.as_slice());
    assert(s@ =~= error_message(e));
    s
}

struct Compiler<'a> {
    pattern: &'a [u8],
    chars: Vec<char>,
    offs: Vec<usize>,
    pos: usize,
    group_count: usize,
    program: Vec<Inst>,
}

fn word_ranges_exec() -> (r: Vec<(char, char)>)
    ensures
        r@ == word_ranges(),
{
    let mut r: Vec<(char, char)> = Vec::new();
    r.push(('a', 'z'));
    r.push(('A', 'Z'));
    r.push(('0', '9'));
    r.push(('_', '_'));
    assert(r@ =~= word_ranges());
    r
}

fn digit_ranges_exec() -> (r: Vec<(char, char)>)
    ensures
        r@ == digit_ranges(),
{
    let mut r: Vec<(char, char)> = Vec::new();
    r.push(('0', '9'));
    assert(r@ =~= digit_ranges());
    r
}

fn space_ranges_exec() -> (r: Vec<(char, char)>)
    ensures
        r@ == space_ranges(),
{
    let mut r: Vec<(char, char)> = Vec::new();
    r.push((' ', ' '));
    r.push(('\t', '\t'));
    r.push(('\n', '\n'));
    r.push(('\r', '\r'));
    r.push(('\u{0B}', '\u{0B}'));
    r.push(('\u{0C}', '\u{0C}'));
    assert(r@ =~= space_ranges());
    r
}

fn escape_inst_exec(b: u8) -> (r: Option<Inst>)
    ensures
        match r {
            Some(i) => escape_inst(b) == Some(i@),
            None => escape_inst(b) is None,
        },
{
    if b == 0x77 {
        Some(Inst::CharClass(word_ranges_exec()))
    } else if b == 0x57 {
        Some(Inst::NegCharClass(word_ranges_exec()))
    } else if b == 0x64 {
        Some(Inst::CharClass(digit_ranges_exec()))
    } else if b == 0x44 {
        Some(Inst::NegCharClass(digit_ranges_exec()))
    } else if b == 0x73 {
        Some(Inst::CharClass(space_ranges_exec()))
    } else if b == 0x53 {
        Some(Inst::NegCharClass(space_ranges_exec()))
    } else if b == 0x62 {
        Some(Inst::AssertWordBoundary)
    } else if b == 0x42 {
        Some(Inst::AssertNotWordBoundary)
    } else if b == 0x6e {
        Some(Inst::Literal('\n'))
    } else if b == 0x74 {
        Some(Inst::Literal('\t'))
    } else if b == 0x72 {
        Some(Inst::Literal('\r'))
    } else if 0x31 <= b && b <= 0x39 {
        Some(Inst::Backref((b - 0x30) as usize))
    } else if (0x21 <= b && b <= 0x2f) || (0x3a <= b && b <= 0x40) || (0x5b <= b && b <= 0x60) || (
    0x7b <= b && b <= 0x7e) {
        Some(Inst::Literal(b as char))
    } else {
        None
    }
}

fn class_escape_exec(b: u8) -> (c: char)
    ensures
        c == class_escape(b),
{
    if b == 0x6e {
        '\n'
    } else if b == 0x74 {
        '\t'
    } else if b == 0x72 {
        '\r'
    } else {
        b as char
    }
}

fn shift_exec(t: usize, at: usize, i: usize) -> (r: usize)
    ensures
        r == shift_target(t, at as int, i as int),
{
    if t > at || (t == at && i != at) {
        if t == usize::MAX {
            0
        } else {
            t + 1
        }
    } else {
        t
    }
}

/// Insert `inst` at `at`, moving the jump targets past it.
fn insert_before(program: &mut Vec<Inst>, at: usize, inst: Inst)
    requires
        at <= old(program)@.len(),
    ensures
        prog_view(final(program)@) == insert_fix(prog_view(old(program)@), at as int, inst@),
        saves_ok(prog_view(old(program)@)) && save_ok(inst@) ==> saves_ok(prog_view(final(program)@)),
{
    let ghost pr = prog_view(old(program)@).insert(at as int, inst@);
    program.insert(at, inst);
    proof {
        assert(prog_view(program@) =~= pr);
    }
    let n = program.len();
    let mut i: usize = 0;
    while i < n
        invariant
            i <= n,
            n == program@.len(),
            pr.len() == n,
            forall|k: int| 0 <= k < i ==> (#[trigger] prog_view(program@)[k]) == fix_inst(pr[k], at as int, k),
            forall|k: int| i <= k < n ==> (#[trigger] prog_view(program@)[k]) == pr[k],
        decreases n - i,
    {
        let ghost before = prog_view(program@);
        proof {
            assert(before[i as int] == program@[i as int]@);
        }
        let fixed: Option<Inst> = match &program[i] {
            Inst::Split(a, b) => Some(Inst::Split(shift_exec(*a, at, i), shift_exec(*b, at, i))),
            Inst::Jump(t) => Some(Inst::Jump(shift_exec(*t, at, i))),
            Inst::Lookahead(neg, s) => Some(
                Inst::Lookahead(
                    *neg,
                    if *s > at {
                        if *s == usize::MAX {
                            0
                        } else {
                            *s + 1
                        }
                    } else {
                        *s
                    },
                ),
            ),
            _ => None,
        };
        match fixed {
            Some(f) => {
                program.set(i, f);
                proof {
                    assert(prog_view(program@) =~= before.update(i as int, f@));
                }
            },
            None => {},
        }
        i = i + 1;
    }
    proof {
        assert(prog_view(program@) =~= insert_fix(prog_view(old(program)@), at as int, inst@));
        if saves_ok(prog_view(old(program)@)) && save_ok(inst@) {
            let pr2 = prog_view(old(program)@).insert(at as int, inst@);
            assert forall|k: int| 0 <= k < prog_view(program@).len() implies save_ok(
                #[trigger] prog_view(program@)[k],
            ) by {
                assert(save_ok(pr2[k]));
            }
        }
    }
}


/// Byte positions of distinct character positions differ.
proof fn lemma_char_pos_unique(cs: Seq<char>, k: int, b: int)
    requires
        0 <= k <= cs.len(),
        byte_offset(cs, k) == b,
    ensures
        at_boundary(cs, b),
        char_pos_of(cs, b) == k,
{
    assert forall|j: int| 0 <= j <= cs.len() && byte_offset(cs, j) == b implies j == k by {
        if j < k {
            lemma_byte_offset_mono(cs, j, k);
        } else if j > k {
            lemma_byte_offset_mono(cs, k, j);
        }
    }
}

impl<'a> Compiler<'a> {
    spec fn st(&self) -> CState {
        CState { pos: self.pos as int, gc: self.group_count as int, prog: prog_view(self.program@) }
    }

    spec fn inv(&self) -> bool {
        &&& self.pattern@.len() <= usize::MAX / 2
        &&& self.offs@.len() == self.chars@.len() + 1
        &&& forall|k: int| 0 <= k <= self.chars@.len() ==> self.offs@[k] == byte_offset(self.chars@, k)
        &&& self.offs@[self.chars@.len() as int] == self.pattern@.len()
        &&& self.pos <= self.pattern@.len()
        &&& self.group_count <= group_limit()
        &&& saves_ok(prog_view(self.program@))
    }

    spec fn same_input(&self, other: &Self) -> bool {
        &&& self.pattern@ == other.pattern@
        &&& self.chars@ == other.chars@
        &&& self.offs@ == other.offs@
    }

    fn byte_at(&self, q: usize) -> (r: Option<u8>)
        ensures
            r == peek(self.pattern@, q as int),
    {
        if q < self.pattern.len() {
            Some(self.pattern[q])
        } else {
            None
        }
    }

    /// The character whose encoding starts at byte `q`.
    fn decode(&self, q: usize) -> (r: Option<char>)
        requires
            self.inv(),
            q < self.pattern@.len(),
        ensures
            r == decode_at(self.chars@, q as int),
            r matches Some(c) ==> q + char_len(c) <= self.pattern@.len(),
    {
        let n = self.chars.len();
        let mut k: usize = 0;
        while k < n && self.offs[k] < q
            invariant
                self.inv(),
                k <= n,
                n == self.chars@.len(),
                forall|j: int| 0 <= j < k ==> self.offs@[j] < q,
            decreases n - k,
        {
            k = k + 1;
        }
        let ghost cs = self.chars@;
        if k < n && self.offs[k] == q {
            proof {
                lemma_char_pos_unique(cs, k as int, q as int);
                lemma_byte_offset_mono(cs, (k + 1) as int, n as int);
            }
            Some(self.chars[k])
        } else {
            proof {
                assert forall|j: int| 0 <= j <= cs.len() implies byte_offset(cs, j) != q by {
                    if j < k {
                    } else if j == k {
                        if k == n {
                            assert(self.offs@[n as int] == self.pattern@.len());
                        }
                    } else {
                        lemma_byte_offset_mono(cs, k as int, j);
                    }
                }
            }
            None
        }
    }

    /// The start of each top-level alternative from the current position.
    fn scan_alternation_ranges(&self) -> (starts: Vec<usize>)
        requires
            self.inv(),
        ensures
            ints(starts@) == scan_alts(self.pattern@, self.pos as int, 0, seq![self.pos as int]),
            starts@.len() >= 1,
            starts@[0] == self.pos,
            forall|j: int| 0 <= j < starts@.len() ==> self.pos <= #[trigger] starts@[j] <= self.pattern@.len(),
    {
        let ghost p = self.pattern@;
        let len = self.pattern.len();
        let mut q = self.pos;
        let mut depth: usize = 0;
        let mut starts: Vec<usize> = Vec::new();
        starts.push(self.pos);
        proof {
            assert(ints(starts@) =~= seq![self.pos as int]);
        }
        loop
            invariant
                self.inv(),
                p == self.pattern@,
                len == p.len(),
                self.pos <= q <= len + 1,
                depth <= q - self.pos,
                starts@.len() >= 1,
                starts@[0] == self.pos,
                forall|j: int| 0 <= j < starts@.len() ==> self.pos <= #[trigger] starts@[j] <= len,
                scan_alts(p, q as int, depth as nat, ints(starts@)) == scan_alts(
                    p,
                    self.pos as int,
                    0,
                    seq![self.pos as int],
                ),
            ensures
                ints(starts@) == scan_alts(p, self.pos as int, 0, seq![self.pos as int]),
                starts@.len() >= 1,
                starts@[0] == self.pos,
                forall|j: int| 0 <= j < starts@.len() ==> self.pos <= #[trigger] starts@[j] <= len,
            decreases len + 2 - q,
        {
            if q >= len {
                break;
            }
            let b = self.pattern[q];
            if b == 0x28 {
                depth = depth + 1;
                q = q + 1;
            } else if b == 0x29 {
                if depth == 0 {
                    break;
                }
                depth = depth - 1;
                q = q + 1;
            } else if b == 0x7c && depth == 0 {
                q = q + 1;
                let ghost old_starts = ints(starts@);
                starts.push(q);
                proof {
                    assert(ints(starts@) =~= old_starts.push(q as int));
                }
            } else if b == 0x5c {
                q = q + 1;
                if q < len {
                    q = q + 1;
                }
            } else if b == 0x5b {
                q = q + 1;
                if q < len && self.pattern[q] == 0x5e {
                    q = q + 1;
                }
                let ghost q_start = q as int;
                let mut first = true;
                while q < len && (self.pattern[q] != 0x5d || first)
                    invariant
                        p == self.pattern@,
                        len == p.len(),
                        len <= usize::MAX / 2,
                        q_start <= q <= len + 1,
                        class_skip_loop(p, q as int, first) == class_skip_loop(p, q_start, true),
                    decreases len + 1 - q,
                {
                    first = false;
                    if self.pattern[q] == 0x5c {
                        q = q + 1;
                    }
                    q = q + 1;
                }
                if q < len && self.pattern[q] == 0x5d {
                    q = q + 1;
                }
            } else {
                q = q + 1;
            }
        }
        starts
    }

    /// One class member at `q`: the character and the position after it.
    fn class_atom(&self, q: usize) -> (r: Result<(char, usize), RegexError>)
        requires
            self.inv(),
            q <= self.pattern@.len(),
        ensures
            match r {
                Ok((c, q1)) => class_atom(self.pattern@, self.chars@, q as int) == Ok::<
                    (char, int),
                    RegexError,
                >((c, q1 as int)) && q < q1 <= self.pattern@.len(),
                Err(e) => class_atom(self.pattern@, self.chars@, q as int) == Err::<
                    (char, int),
                    RegexError,
                >(e),
            },
    {
        match self.byte_at(q) {
            None => Err(RegexError::EndInClass(q)),
            Some(b) => {
                if b == 0x5c {
                    match self.byte_at(q + 1) {
                        None => Err(RegexError::EndInClass(q + 1)),
                        Some(b2) => Ok((class_escape_exec(b2), q + 2)),
                    }
                } else if b >= 0x80 {
                    match self.decode(q) {
                        None => Err(RegexError::InvalidUtf8(q)),
                        Some(c) => Ok((c, q + char_len_exec(c))),
                    }
                } else {
                    Ok((b as char, q + 1))
                }
            },
        }
    }

    /// A decimal number at `q`.
    fn parse_dec(&self, q: usize) -> (r: Result<(usize, usize), RegexError>)
        requires
            self.inv(),
            q <= self.pattern@.len(),
        ensures
            match r {
                Ok((v, e)) => parse_dec(self.pattern@, q as int) == Ok::<(usize, int), RegexError>(
                    (v, e as int),
                ) && q < e <= self.pattern@.len(),
                Err(e) => parse_dec(self.pattern@, q as int) == Err::<(usize, int), RegexError>(e),
            },
    {
        let ghost p = self.pattern@;
        let len = self.pattern.len();
        let mut e = q;
        while e < len && 0x30 <= self.pattern[e] && self.pattern[e] <= 0x39
            invariant
                p == self.pattern@,
                len == p.len(),
                q <= e <= len,
                digits_end(p, e as int) == digits_end(p, q as int),
                forall|j: int| q <= j < e ==> is_digit(#[trigger] p[j]),
            decreases len - e,
        {
            e = e + 1;
        }
        if e == q {
            return Err(RegexError::ExpectedNumber(q));
        }
        let mut v: usize = 0;
        let mut over = false;
        let mut k = q;
        proof {
            assert(p.subrange(q as int, q as int) =~= Seq::<u8>::empty());
        }
        while k < e
            invariant
                p == self.pattern@,
                q <= k <= e <= p.len(),
                forall|j: int| q <= j < e ==> is_digit(#[trigger] p[j]),
                !over ==> v == dec_value(p.subrange(q as int, k as int)),
                over ==> dec_value(p.subrange(q as int, k as int)) > usize::MAX,
            decreases e - k,
        {
            let d = (self.pattern[k] - 0x30) as usize;
            proof {
                assert(p.subrange(q as int, k + 1).drop_last() =~= p.subrange(q as int, k as int));
                assert(p.subrange(q as int, k + 1).last() == p[k as int]);
                assert(is_digit(p[k as int]));
            }
            if !over {
                match v.checked_mul(10) {
                    Some(t) => match t.checked_add(d) {
                        Some(u) => {
                            v = u;
                        },
                        None => {
                            over = true;
                        },
                    },
                    None => {
                        over = true;
                    },
                }
            }
            k = k + 1;
        }
        if over {
            Err(RegexError::InvalidNumber(q))
        } else {
            Ok((v, e))
        }
    }

    /// Repetition bounds from `q`, just past a `{`.
    fn parse_counts(&self, q: usize) -> (r: Result<(usize, Option<usize>, usize), RegexError>)
        requires
            self.inv(),
            q <= self.pattern@.len(),
        ensures
            match r {
                Ok((a, b, c)) => parse_counts(self.pattern@, q as int) == Ok::<
                    (usize, Option<usize>, int),
                    RegexError,
                >((a, b, c as int)) && q < c <= self.pattern@.len(),
                Err(e) => parse_counts(self.pattern@, q as int) == Err::<
                    (usize, Option<usize>, int),
                    RegexError,
                >(e),
            },
    {
        let (min, q1) = match self.parse_dec(q) {
            Ok(x) => x,
            Err(e) => {
                return Err(e);
            },
        };
        let mut max: Option<usize> = Some(min);
        let mut q2 = q1;
        match self.byte_at(q1) {
            Some(b) => if b == 0x2c {
                match self.byte_at(q1 + 1) {
                    Some(b1) => if b1 == 0x7d {
                        max = None;
                        q2 = q1 + 1;
                    } else {
                        match self.parse_dec(q1 + 1) {
                            Ok((m, q3)) => {
                                max = Some(m);
                                q2 = q3;
                            },
                            Err(e) => {
                                return Err(e);
                            },
                        }
                    },
                    None => match self.parse_dec(q1 + 1) {
                        Ok((m, q3)) => {
                            max = Some(m);
                            q2 = q3;
                        },
                        Err(e) => {
                            return Err(e);
                        },
                    },
                }
            },
            None => {},
        }
        match self.byte_at(q2) {
            Some(b) => if b == 0x7d {
                Ok((min, max, q2 + 1))
            } else {
                Err(RegexError::ExpectedBrace(q2 + 1))
            },
            None => Err(RegexError::ExpectedBrace(q2)),
        }
    }
}


/// `r` is what the compiler step `want` gives: the same error, or
/// success with state `fin`.
pub open spec fn outcome(r: Result<(), RegexError>, want: Result<CState, RegexError>, fin: CState) -> bool {
    match r {
        Ok(_) => want == Ok::<CState, RegexError>(fin),
        Err(e) => want == Err::<CState, RegexError>(e),
    }
}

fn push_code(program: &mut Vec<Inst>, code: &Vec<Inst>)
    ensures
        prog_view(final(program)@) == prog_view(old(program)@) + prog_view(code@),
        final(program)@.len() == old(program)@.len() + code@.len(),
        saves_ok(prog_view(old(program)@)) && saves_ok(prog_view(code@)) ==> saves_ok(
            prog_view(final(program)@),
        ),
{
    let mut i: usize = 0;
    while i < code.len()
        invariant
            i <= code@.len(),
            program@.len() == old(program)@.len() + i,
            prog_view(program@) == prog_view(old(program)@) + prog_view(code@).take(i as int),
        decreases code@.len() - i,
    {
        let ghost before = prog_view(program@);
        let c = code[i].duplicate();
        program.push(c);
        proof {
            assert(prog_view(program@) =~= before.push(code@[i as int]@));
            assert(prog_view(code@).take(i + 1) =~= prog_view(code@).take(i as int).push(
                code@[i as int]@,
            ));
        }
        i = i + 1;
    }
    proof {
        assert(prog_view(code@).take(code@.len() as int) =~= prog_view(code@));
        if saves_ok(prog_view(old(program)@)) && saves_ok(prog_view(code@)) {
            lemma_saves_concat(prog_view(old(program)@), prog_view(code@));
        }
    }
}

impl<'a> Compiler<'a> {
    fn emit(&mut self, inst: Inst)
        ensures
            prog_view(final(self).program@) == prog_view(old(self).program@).push(inst@),
            final(self).program@.len() == old(self).program@.len() + 1,
            saves_ok(prog_view(old(self).program@)) && save_ok(inst@) ==> saves_ok(
                prog_view(final(self).program@),
            ),
            final(self).pattern == old(self).pattern,
            final(self).chars == old(self).chars,
            final(self).offs == old(self).offs,
            final(self).pos == old(self).pos,
            final(self).group_count == old(self).group_count,
    {
        self.program.push(inst);
        proof {
            assert(prog_view(self.program@) =~= prog_view(old(self).program@).push(inst@));
        }
    }

    fn set_inst(&mut self, i: usize, inst: Inst)
        requires
            i < old(self).program@.len(),
        ensures
            prog_view(final(self).program@) == prog_view(old(self).program@).update(i as int, inst@),
            final(self).program@.len() == old(self).program@.len(),
            saves_ok(prog_view(old(self).program@)) && save_ok(inst@) ==> saves_ok(
                prog_view(final(self).program@),
            ),
            final(self).pattern == old(self).pattern,
            final(self).chars == old(self).chars,
            final(self).offs == old(self).offs,
            final(self).pos == old(self).pos,
            final(self).group_count == old(self).group_count,
    {
        self.program.set(i, inst);
        proof {
            assert(prog_view(self.program@) =~= prog_view(old(self).program@).update(i as int, inst@));
        }
    }

    /// The closing `)` of a group.
    fn close_paren(&mut self) -> (r: Result<(), RegexError>)
        requires
            old(self).inv(),
        ensures
            final(self).inv(),
            final(self).same_input(old(self)),
            outcome(r, close_paren(old(self).pattern@, old(self).st()), final(self).st()),
            r is Ok ==> final(self).pos > old(self).pos && final(self).program@.len()
                == old(self).program@.len(),
    {
        match self.byte_at(self.pos) {
            Some(b) => if b == 0x29 {
                self.pos = self.pos + 1;
                Ok(())
            } else {
                Err(RegexError::ExpectedParen(self.pos + 1))
            },
            None => Err(RegexError::ExpectedParen(self.pos)),
        }
    }

    /// An escape; the current position is just past the backslash.
    fn escape(&mut self) -> (r: Result<(), RegexError>)
        requires
            old(self).inv(),
        ensures
            final(self).inv(),
            final(self).same_input(old(self)),
            outcome(r, c_escape(old(self).pattern@, old(self).st()), final(self).st()),
            r is Ok ==> final(self).pos > old(self).pos && final(self).program@.len()
                >= old(self).program@.len(),
    {
        match self.byte_at(self.pos) {
            None => Err(RegexError::EndAfterBackslash(self.pos)),
            Some(b) => match escape_inst_exec(b) {
                Some(inst) => {
                    self.pos = self.pos + 1;
                    self.emit(inst);
                    Ok(())
                },
                None => Err(RegexError::UnknownEscape(self.pos, b)),
            },
        }
    }

    /// A class at its `[`.
    fn char_class(&mut self) -> (r: Result<(), RegexError>)
        requires
            old(self).inv(),
            peek(old(self).pattern@, old(self).pos as int) == Some(0x5bu8),
        ensures
            final(self).inv(),
            final(self).same_input(old(self)),
            outcome(r, c_class(old(self).pattern@, old(self).chars@, old(self).st()), final(self).st()),
            r is Ok ==> final(self).pos > old(self).pos && final(self).program@.len()
                >= old(self).program@.len(),
    {
        let ghost p = self.pattern@;
        let ghost cs = self.chars@;
        let ghost s0 = self.st();
        self.pos = self.pos + 1;
        let neg = match self.byte_at(self.pos) {
            Some(b) => b == 0x5e,
            None => false,
        };
        if neg {
            self.pos = self.pos + 1;
        }
        let ghost q1 = self.pos as int;
        let mut ranges: Vec<(char, char)> = Vec::new();
        let mut first = true;
        loop
            invariant
                self.inv(),
                p == self.pattern@,
                cs == self.chars@,
                s0 == old(self).st(),
                p == old(self).pattern@,
                cs == old(self).chars@,
                neg == (peek(p, s0.pos + 1) == Some(0x5eu8)),
                q1 == if neg { s0.pos + 2 } else { s0.pos + 1 },
                s0.pos < q1 <= self.pos,
                self.program@ == old(self).program@,
                self.group_count == old(self).group_count,
                self.same_input(old(self)),
                class_items(p, cs, self.pos as int, first, ranges@) == class_items(
                    p,
                    cs,
                    q1,
                    true,
                    Seq::empty(),
                ),
            ensures
                self.inv(),
                self.same_input(old(self)),
                s0 == old(self).st(),
                self.program@ == old(self).program@,
                self.group_count == old(self).group_count,
                neg == (peek(p, s0.pos + 1) == Some(0x5eu8)),
                q1 == if neg { s0.pos + 2 } else { s0.pos + 1 },
                s0.pos < q1 <= self.pos < p.len(),
                class_items(p, cs, q1, true, Seq::empty()) == Ok::<
                    (int, Seq<(char, char)>),
                    RegexError,
                >((self.pos as int, ranges@)),
            decreases p.len() - self.pos,
        {
            let cont = match self.byte_at(self.pos) {
                Some(b) => b != 0x5d || first,
                None => true,
            };
            if !cont {
                break;
            }
            first = false;
            if self.pos >= self.pattern.len() {
                return Err(RegexError::UnterminatedClass(self.pos));
            }
            let (lo, qa) = match self.class_atom(self.pos) {
                Ok(x) => x,
                Err(e) => {
                    return Err(e);
                },
            };
            let dash = match self.byte_at(qa) {
                Some(b) => b == 0x2d,
                None => false,
            };
            let close_next = match self.byte_at(qa + 1) {
                Some(b) => b == 0x5d,
                None => false,
            };
            if dash && !close_next {
                let (hi, qb) = match self.class_atom(qa + 1) {
                    Ok(x) => x,
                    Err(e) => {
                        return Err(e);
                    },
                };
                ranges.push((lo, hi));
                self.pos = qb;
            } else {
                ranges.push((lo, lo));
                self.pos = qa;
            }
        }
        self.pos = self.pos + 1;
        if neg {
            self.emit(Inst::NegCharClass(ranges));
        } else {
            self.emit(Inst::CharClass(ranges));
        }
        Ok(())
    }

    /// Inline flags up to `)`, from `q`.
    fn skip_flags(&self, q: usize) -> (r: Result<usize, usize>)
        requires
            self.inv(),
            q <= self.pattern@.len(),
        ensures
            match r {
                Ok(np) => skip_flags(self.pattern@, q as int) == Ok::<int, int>(np as int) && q < np
                    <= self.pattern@.len(),
                Err(ep) => skip_flags(self.pattern@, q as int) == Err::<int, int>(ep as int),
            },
    {
        let ghost p = self.pattern@;
        let mut k = q;
        loop
            invariant
                self.inv(),
                p == self.pattern@,
                q <= k <= p.len(),
                skip_flags(p, k as int) == skip_flags(p, q as int),
            decreases p.len() - k,
        {
            match self.byte_at(k) {
                None => {
                    return Err(k);
                },
                Some(b) => {
                    if b == 0x29 {
                        return Ok(k + 1);
                    } else if (0x41 <= b && b <= 0x5a) || (0x61 <= b && b <= 0x7a) || b == 0x2d {
                        k = k + 1;
                    } else {
                        return Err(k + 1);
                    }
                },
            }
        }
    }

    /// `{..}` after the atom emitted at `atom_start..atom_end`.
    fn counted(&mut self, atom_start: usize, atom_end: usize) -> (r: Result<(), RegexError>)
        requires
            old(self).inv(),
            peek(old(self).pattern@, old(self).pos as int) == Some(0x7bu8),
            atom_start <= atom_end == old(self).program@.len(),
        ensures
            final(self).inv(),
            final(self).same_input(old(self)),
            outcome(
                r,
                c_counted(old(self).pattern@, old(self).st(), atom_start as int, atom_end as int),
                final(self).st(),
            ),
            r is Ok ==> final(self).pos > old(self).pos && final(self).program@.len() >= atom_start,
    {
        let ghost p = self.pattern@;
        let ghost s0 = self.st();
        let (min, max, q) = match self.parse_counts(self.pos + 1) {
            Ok(x) => x,
            Err(e) => {
                return Err(e);
            },
        };
        let mut code: Vec<Inst> = Vec::new();
        let mut k = atom_start;
        while k < atom_end
            invariant
                atom_start <= k <= atom_end == self.program@.len(),
                self.inv(),
                self.same_input(old(self)),
                self.pos == old(self).pos,
                self.group_count == old(self).group_count,
                s0 == old(self).st(),
                prog_view(code@) == prog_view(self.program@).subrange(atom_start as int, k as int),
            decreases atom_end - k,
        {
            let c = self.program[k].duplicate();
            let ghost before = prog_view(code@);
            code.push(c);
            proof {
                assert(prog_view(code@) =~= before.push(self.program@[k as int]@));
                assert(prog_view(self.program@).subrange(atom_start as int, k + 1) =~= before.push(
                    self.program@[k as int]@,
                ));
            }
            k = k + 1;
        }
        let ghost cv = prog_view(code@);
        self.program.truncate(atom_start);
        proof {
            assert(prog_view(self.program@) =~= s0.prog.take(atom_start as int));
            assert forall|k: int| 0 <= k < cv.len() implies save_ok(#[trigger] cv[k]) by {
                assert(cv[k] == s0.prog[atom_start + k]);
            }
            assert forall|k: int| 0 <= k < prog_view(self.program@).len() implies save_ok(
                #[trigger] prog_view(self.program@)[k],
            ) by {
                assert(prog_view(self.program@)[k] == s0.prog[k]);
            }
        }
        let mut i: usize = 0;
        while i < min
            invariant
                i <= min,
                self.inv(),
                self.same_input(old(self)),
                self.pos == old(self).pos,
                self.group_count == old(self).group_count,
                s0 == old(self).st(),
                cv == prog_view(code@),
                saves_ok(cv),
                prog_view(self.program@) == s0.prog.take(atom_start as int) + repeat(cv, i as nat),
            decreases min - i,
        {
            push_code(&mut self.program, &code);
            proof {
                assert(repeat(cv, (i + 1) as nat) == repeat(cv, i as nat) + cv);
                assert(prog_view(self.program@) =~= s0.prog.take(atom_start as int) + repeat(
                    cv,
                    (i + 1) as nat,
                ));
            }
            i = i + 1;
        }
        let ghost base = prog_view(self.program@);
        match max {
            Some(m) => {
                let extra = if m > min {
                    m - min
                } else {
                    0
                };
                let mut j: usize = 0;
                while j < extra
                    invariant
                        j <= extra,
                        self.inv(),
                        self.same_input(old(self)),
                        self.pos == old(self).pos,
                        self.group_count == old(self).group_count,
                        s0 == old(self).st(),
                        self.program@.len() >= atom_start,
                        cv == prog_view(code@),
                        saves_ok(cv),
                        opt_copies(prog_view(self.program@), cv, (extra - j) as nat) == opt_copies(
                            base,
                            cv,
                            extra as nat,
                        ),
                    decreases extra - j,
                {
                    let split_pc = self.program.len();
                    let ghost before = prog_view(self.program@);
                    self.emit(Inst::Split(0, 0));
                    push_code(&mut self.program, &code);
                    let after = self.program.len();
                    self.set_inst(split_pc, Inst::Split(split_pc + 1, after));
                    proof {
                        assert(prog_view(self.program@) =~= before.push(
                            InstModel::Split((split_pc + 1) as usize, after),
                        ) + cv);
                    }
                    j = j + 1;
                }
            },
            None => {
                let split_pc = self.program.len();
                let ghost before = prog_view(self.program@);
                self.emit(Inst::Split(0, 0));
                push_code(&mut self.program, &code);
                self.emit(Inst::Jump(split_pc));
                let after = self.program.len();
                self.set_inst(split_pc, Inst::Split(split_pc + 1, after));
                proof {
                    assert(prog_view(self.program@) =~= star_copy(before, cv));
                }
            },
        }
        self.pos = q;
        Ok(())
    }
}


impl<'a> Compiler<'a> {
    /// Alternatives up to `)` or the end.
    #[verifier::rlimit(100)]
    #[verifier::spinoff_prover]
    fn alternation(&mut self) -> (r: Result<(), RegexError>)
        requires
            old(self).inv(),
        ensures
            final(self).inv(),
            final(self).same_input(old(self)),
            outcome(
                r,
                c_alternation(old(self).pattern@, old(self).chars@, old(self).st()),
                final(self).st(),
            ),
            r is Ok ==> final(self).pos >= old(self).pos && final(self).program@.len()
                >= old(self).program@.len(),
        decreases old(self).pattern@.len() + 2 - old(self).pos, 5int, 0int,
    {
        let ghost p = self.pattern@;
        let ghost cs = self.chars@;
        let ghost s0 = self.st();
        let starts = self.scan_alternation_ranges();
        if starts.len() == 1 {
            return self.sequence();
        }
        let n = starts.len();
        let p0 = self.pos;
        let mut fixups: Vec<usize> = Vec::new();
        let mut i: usize = 0;
        proof {
            assert(ints(fixups@) =~= Seq::<int>::empty());
        }
        loop
            invariant
                self.inv(),
                self.same_input(old(self)),
                p == self.pattern@,
                cs == self.chars@,
                s0 == old(self).st(),
                p0 == s0.pos,
                n == starts@.len(),
                n > 1,
                i <= n,
                ints(starts@) == scan_alts(p, p0 as int, 0, seq![p0 as int]),
                forall|j: int| 0 <= j < n ==> p0 <= #[trigger] starts@[j] <= p.len(),
                c_alternation(p, cs, s0) == c_alt_loop(
                    p,
                    cs,
                    self.st(),
                    ints(starts@),
                    i as int,
                    ints(fixups@),
                    p0 as int,
                ),
                forall|j: int| 0 <= j < fixups@.len() ==> #[trigger] fixups@[j] < self.program@.len(),
                self.program@.len() >= s0.prog.len(),
                i > 0 ==> self.pos >= p0,
                i == 0 ==> self.pos == p0,
            ensures
                self.inv(),
                self.same_input(old(self)),
                c_alternation(p, cs, s0) == c_alt_loop(
                    p,
                    cs,
                    self.st(),
                    ints(starts@),
                    n as int,
                    ints(fixups@),
                    p0 as int,
                ),
                n == starts@.len(),
                forall|j: int| 0 <= j < fixups@.len() ==> #[trigger] fixups@[j] < self.program@.len(),
                self.program@.len() >= s0.prog.len(),
                self.pos >= p0,
            decreases n - i,
        {
            if i == n {
                break;
            }
            let ghost cur = self.st();
            let si = starts[i];
            if i < n - 1 {
                let split_pc = self.program.len();
                self.emit(Inst::Split(0, 0));
                self.pos = si;
                match self.sequence() {
                    Err(e) => {
                        return Err(e);
                    },
                    Ok(()) => {},
                }
                let jump_pc = self.program.len();
                self.emit(Inst::Jump(0));
                let ghost old_fix = ints(fixups@);
                fixups.push(jump_pc);
                proof {
                    assert(ints(fixups@) =~= old_fix.push(jump_pc as int));
                }
                let next = self.program.len();
                self.set_inst(split_pc, Inst::Split(split_pc + 1, next));
            } else {
                self.pos = si;
                match self.sequence() {
                    Err(e) => {
                        return Err(e);
                    },
                    Ok(()) => {},
                }
            }
            i = i + 1;
        }
        let end = self.program.len();
        patch_jumps(&mut self.program, &fixups, end);
        Ok(())
    }

    /// Quantified atoms up to `)`, `|` or the end.
    fn sequence(&mut self) -> (r: Result<(), RegexError>)
        requires
            old(self).inv(),
        ensures
            final(self).inv(),
            final(self).same_input(old(self)),
            outcome(r, c_sequence(old(self).pattern@, old(self).chars@, old(self).st()), final(self).st()),
            r is Ok ==> final(self).pos >= old(self).pos && final(self).program@.len()
                >= old(self).program@.len(),
        decreases old(self).pattern@.len() + 2 - old(self).pos, 3int, 0int,
    {
        let ghost p = self.pattern@;
        let ghost cs = self.chars@;
        let ghost s0 = self.st();
        loop
            invariant
                self.inv(),
                self.same_input(old(self)),
                p == self.pattern@,
                cs == self.chars@,
                s0 == old(self).st(),
                c_sequence(p, cs, s0) == c_sequence(p, cs, self.st()),
                self.pos >= s0.pos,
                self.program@.len() >= s0.prog.len(),
            decreases p.len() - self.pos,
        {
            match self.byte_at(self.pos) {
                None => {
                    return Ok(());
                },
                Some(b) => {
                    if b == 0x29 || b == 0x7c {
                        return Ok(());
                    }
                },
            }
            match self.quantifier() {
                Err(e) => {
                    return Err(e);
                },
                Ok(()) => {},
            }
        }
    }

    /// An atom and its quantifier.
    fn quantifier(&mut self) -> (r: Result<(), RegexError>)
        requires
            old(self).inv(),
        ensures
            final(self).inv(),
            final(self).same_input(old(self)),
            outcome(
                r,
                c_quantifier(old(self).pattern@, old(self).chars@, old(self).st()),
                final(self).st(),
            ),
            r is Ok ==> final(self).pos > old(self).pos && final(self).program@.len()
                >= old(self).program@.len(),
        decreases old(self).pattern@.len() + 2 - old(self).pos, 2int, 0int,
    {
        let atom_start = self.program.len();
        match self.atom() {
            Err(e) => {
                return Err(e);
            },
            Ok(()) => {},
        }
        let atom_end = self.program.len();
        match self.byte_at(self.pos) {
            Some(b) => {
                if b == 0x2a {
                    self.pos = self.pos + 1;
                    insert_before(&mut self.program, atom_start, Inst::Split(0, 0));
                    self.emit(Inst::Jump(atom_start));
                    let after = self.program.len();
                    self.set_inst(atom_start, Inst::Split(atom_start + 1, after));
                } else if b == 0x2b {
                    self.pos = self.pos + 1;
                    let split_pc = self.program.len();
                    self.emit(Inst::Split(atom_start, 0));
                    let after = self.program.len();
                    self.set_inst(split_pc, Inst::Split(atom_start, after));
                } else if b == 0x3f {
                    self.pos = self.pos + 1;
                    insert_before(&mut self.program, atom_start, Inst::Split(0, 0));
                    let after = self.program.len();
                    self.set_inst(atom_start, Inst::Split(atom_start + 1, after));
                } else if b == 0x7b {
                    return self.counted(atom_start, atom_end);
                }
            },
            None => {},
        }
        Ok(())
    }

    /// One atom.
    #[verifier::rlimit(30)]
    fn atom(&mut self) -> (r: Result<(), RegexError>)
        requires
            old(self).inv(),
        ensures
            final(self).inv(),
            final(self).same_input(old(self)),
            outcome(r, c_atom(old(self).pattern@, old(self).chars@, old(self).st()), final(self).st()),
            r is Ok ==> final(self).pos > old(self).pos && final(self).program@.len()
                >= old(self).program@.len(),
        decreases old(self).pattern@.len() + 2 - old(self).pos, 1int, 0int,
    {
        match self.byte_at(self.pos) {
            None => Err(RegexError::UnexpectedEnd(self.pos)),
            Some(b) => {
                if b == 0x28 {
                    self.group()
                } else if b == 0x5b {
                    self.char_class()
                } else if b == 0x5e {
                    self.pos = self.pos + 1;
                    self.emit(Inst::AssertStart);
                    Ok(())
                } else if b == 0x24 {
                    self.pos = self.pos + 1;
                    self.emit(Inst::AssertEnd);
                    Ok(())
                } else if b == 0x2e {
                    self.pos = self.pos + 1;
                    self.emit(Inst::AnyChar);
                    Ok(())
                } else if b == 0x5c {
                    self.pos = self.pos + 1;
                    self.escape()
                } else if b != 0x29 && b != 0x7c && b != 0x2a && b != 0x2b && b != 0x3f && b != 0x7b {
                    if b >= 0x80 {
                        match self.decode(self.pos) {
                            None => Err(RegexError::InvalidUtf8(self.pos)),
                            Some(c) => {
                                self.pos = self.pos + char_len_exec(c);
                                self.emit(Inst::Literal(c));
                                Ok(())
                            },
                        }
                    } else {
                        self.pos = self.pos + 1;
                        self.emit(Inst::Literal(b as char));
                        Ok(())
                    }
                } else {
                    Err(RegexError::UnexpectedByte(self.pos, b))
                }
            },
        }
    }

    /// A group at its `(`.
    fn group(&mut self) -> (r: Result<(), RegexError>)
        requires
            old(self).inv(),
            peek(old(self).pattern@, old(self).pos as int) == Some(0x28u8),
        ensures
            final(self).inv(),
            final(self).same_input(old(self)),
            outcome(r, c_group(old(self).pattern@, old(self).chars@, old(self).st()), final(self).st()),
            r is Ok ==> final(self).pos > old(self).pos && final(self).program@.len()
                >= old(self).program@.len(),
        decreases old(self).pattern@.len() + 2 - old(self).pos, 0int, 0int,
    {
        self.pos = self.pos + 1;
        let question = match self.byte_at(self.pos) {
            Some(b) => b == 0x3f,
            None => false,
        };
        if question {
            self.pos = self.pos + 1;
            let kind = self.byte_at(self.pos);
            let (colon, look, neg) = match kind {
                Some(b) => (b == 0x3a, b == 0x3d || b == 0x21, b == 0x21),
                None => (false, false, false),
            };
            if colon {
                self.pos = self.pos + 1;
                match self.alternation() {
                    Err(e) => {
                        return Err(e);
                    },
                    Ok(()) => {},
                }
                self.close_paren()
            } else if look {
                let la_pc = self.program.len();
                self.emit(Inst::Lookahead(neg, 0));
                self.pos = self.pos + 1;
                match self.alternation() {
                    Err(e) => {
                        return Err(e);
                    },
                    Ok(()) => {},
                }
                self.emit(Inst::Match);
                let after = self.program.len();
                self.set_inst(la_pc, Inst::Lookahead(neg, after));
                self.close_paren()
            } else {
                match self.skip_flags(self.pos) {
                    Ok(np) => {
                        self.pos = np;
                        Ok(())
                    },
                    Err(ep) => Err(RegexError::UnsupportedGroupModifier(ep)),
                }
            }
        } else if self.group_count >= usize::MAX / 2 - 1 {
            Err(RegexError::TooManyGroups(self.pos))
        } else {
            self.group_count = self.group_count + 1;
            let gid = self.group_count;
            self.emit(Inst::SaveStart(gid));
            match self.alternation() {
                Err(e) => {
                    return Err(e);
                },
                Ok(()) => {},
            }
            self.emit(Inst::SaveEnd(gid));
            self.close_paren()
        }
    }
}

/// Compile a pattern: the program, ending in `Match`, and the number of
/// groups, the whole match included.
pub fn compile_pattern(pattern: &str) -> (r: Result<(Vec<Inst>, usize), RegexError>)
    requires
        pattern.spec_bytes().len() <= usize::MAX / 2,
    ensures
        match r {
            Ok((prog, ng)) => spec_compile(pattern.spec_bytes(), pattern@) == Ok::<
                (Seq<InstModel>, nat),
                RegexError,
            >((prog_view(prog@), ng as nat)) && 1 <= ng <= usize::MAX / 2 && saves_ok(prog_view(prog@)),
            Err(e) => spec_compile(pattern.spec_bytes(), pattern@) == Err::<
                (Seq<InstModel>, nat),
                RegexError,
            >(e),
        },
{
    let bytes = pattern.as_bytes();
    let chars = crate::text::chars_of(pattern);
    let offs = crate::syntax::regex::byte_offsets(pattern, &chars);
    let mut c = Compiler { pattern: bytes, chars, offs, pos: 0, group_count: 0, program: Vec::new() };
    proof {
        assert(prog_view(c.program@) =~= Seq::<InstModel>::empty());
    }
    assert(c.inv());
    match c.alternation() {
        Err(e) => {
            return Err(e);
        },
        Ok(()) => {},
    }
    if c.pos < c.pattern.len() {
        return Err(RegexError::UnexpectedParen(c.pos));
    }
    c.emit(Inst::Match);
    Ok((c.program, c.group_count + 1))
}


/// Replace each instruction at an index in `fixups` by a jump to `end`.
fn patch_jumps(program: &mut Vec<Inst>, fixups: &Vec<usize>, end: usize)
    requires
        forall|k: int| 0 <= k < fixups@.len() ==> #[trigger] fixups@[k] < old(program)@.len(),
    ensures
        prog_view(final(program)@) == set_jumps(prog_view(old(program)@), ints(fixups@), end as int),
        final(program)@.len() == old(program)@.len(),
        saves_ok(prog_view(old(program)@)) ==> saves_ok(prog_view(final(program)@)),
{
    let ghost pv0 = prog_view(program@);
    let mut j: usize = 0;
    proof {
        assert(ints(fixups@).take(0) =~= Seq::<int>::empty());
    }
    while j < fixups.len()
        invariant
            j <= fixups@.len(),
            program@.len() == old(program)@.len(),
            pv0 == prog_view(old(program)@),
            forall|k: int| 0 <= k < fixups@.len() ==> #[trigger] fixups@[k] < program@.len(),
            prog_view(program@) == set_jumps(pv0, ints(fixups@).take(j as int), end as int),
            saves_ok(pv0) ==> saves_ok(prog_view(program@)),
        decreases fixups@.len() - j,
    {
        proof {
            assert(ints(fixups@).take(j + 1).drop_last() =~= ints(fixups@).take(j as int));
        }
        let ghost before = prog_view(program@);
        program.set(fixups[j], Inst::Jump(end));
        proof {
            assert(prog_view(program@) =~= before.update(fixups@[j as int] as int, InstModel::Jump(end)));
            if saves_ok(before) {
                assert forall|k: int| 0 <= k < prog_view(program@).len() implies save_ok(
                    #[trigger] prog_view(program@)[k],
                ) by {
                    if k != fixups@[j as int] as int {
                        assert(save_ok(before[k]));
                    }
                }
            }
        }
        j = j + 1;
    }
    proof {
        assert(ints(fixups@).take(fixups@.len() as int) =~= ints(fixups@));
    }
}


/// The character whose encoding starts at byte `q` of a text with
/// characters `chars` and character offsets `offs`.
pub(crate) fn decode_char(chars: &Vec<char>, offs: &Vec<usize>, len: usize, q: usize) -> (r: Option<char>)
    requires
        offs@.len() == chars@.len() + 1,
        forall|k: int| 0 <= k <= chars@.len() ==> offs@[k] == byte_offset(chars@, k),
        offs@[chars@.len() as int] == len,
        q < len,
    ensures
        r == decode_at(chars@, q as int),
        r matches Some(c) ==> q + char_len(c) <= len,
{
    let n = chars.len();
    let mut k: usize = 0;
    while k < n && offs[k] < q
        invariant
            k <= n,
            n == chars@.len(),
            offs@.len() == n + 1,
            forall|j: int| 0 <= j < k ==> offs@[j] < q,
        decreases n - k,
    {
        k = k + 1;
    }
    let ghost cs = chars@;
    if k < n && offs[k] == q {
        proof {
            lemma_char_pos_unique(cs, k as int, q as int);
            lemma_byte_offset_mono(cs, (k + 1) as int, n as int);
        }
        Some(chars[k])
    } else {
        proof {
            assert forall|j: int| 0 <= j <= cs.len() implies byte_offset(cs, j) != q by {
                if j < k {
                } else if j == k {
                } else {
                    lemma_byte_offset_mono(cs, k as int, j);
                }
            }
        }
        None
    }
}


/// The class escapes match what they are documented to match: `\w` an ASCII
/// letter, digit or underscore (the same characters `\b` counts as word
/// characters), `\d` an ASCII digit, `\s` space, tab, newline, carriage
/// return, vertical tab or form feed; `\W`, `\D` and `\S` any other
/// character but a newline.
pub proof fn lemma_class_escapes(c: char)
    ensures
        escape_inst(0x77) matches Some(InstModel::CharClass(r)) && (class_contains(r, c) <==> is_word_char(c)),
        escape_inst(0x57) matches Some(InstModel::NegCharClass(r)) && (class_contains(r, c) <==> is_word_char(c)),
        escape_inst(0x64) matches Some(InstModel::CharClass(r)) && (class_contains(r, c) <==> ('0' <= c <= '9')),
        escape_inst(0x44) matches Some(InstModel::NegCharClass(r)) && (class_contains(r, c) <==> ('0' <= c <= '9')),
        escape_inst(0x73) matches Some(InstModel::CharClass(r)) && (class_contains(r, c) <==> (c == ' ' || c == '\t'
            || c == '\n' || c == '\r' || c == '\u{0B}' || c == '\u{0C}')),
{
    let w = word_ranges();
    if is_word_char(c) {
        if 'a' <= c <= 'z' {
            assert(w[0].0 <= c <= w[0].1);
        } else if 'A' <= c <= 'Z' {
            assert(w[1].0 <= c <= w[1].1);
        } else if '0' <= c <= '9' {
            assert(w[2].0 <= c <= w[2].1);
        } else {
            assert(w[3].0 <= c <= w[3].1);
        }
    }
    let d = digit_ranges();
    if '0' <= c <= '9' {
        assert(d[0].0 <= c <= d[0].1);
    }
    let sp = space_ranges();
    if c == ' ' {
        assert(sp[0].0 <= c <= sp[0].1);
    } else if c == '\t' {
        assert(sp[1].0 <= c <= sp[1].1);
    } else if c == '\n' {
        assert(sp[2].0 <= c <= sp[2].1);
    } else if c == '\r' {
        assert(sp[3].0 <= c <= sp[3].1);
    } else if c == '\u{0B}' {
        assert(sp[4].0 <= c <= sp[4].1);
    } else if c == '\u{0C}' {
        assert(sp[5].0 <= c <= sp[5].1);
    }
}

} // verus!

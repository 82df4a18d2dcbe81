//! Bytecode-compiled regex engine with a backtracking VM: the Oniguruma
//! subset needed for TextMate grammars. Single-line matching only, UTF-8
//! aware; match positions are byte offsets.
//!
//! The engine is specified by the meaning of its bytecode: `vm_run` is the
//! VM as a state machine over the characters of the text, with a step
//! budget, and `spec_compile` is the compiler from pattern bytes to
//! bytecode.
use vstd::prelude::*;
use vstd::string::StringSliceAdditionalSpecFns;
use vstd::utf8::{encode_utf8, encode_scalar, char_is_scalar};
use crate::text::chars_of;
use crate::syntax::compile::{RegexError, spec_compile, error_message, compile_pattern, error_string};

verus! {

// ── Public types ──────────────────────────────────────────────

#[derive(Debug, Clone, Copy, PartialEq, Eq, Structural)]
pub struct Match {
    pub start: usize,
    pub end: usize,
}

#[derive(Debug, Clone)]
pub struct Captures {
    pub groups: Vec<Option<Match>>,
}

// ── Bytecode ──────────────────────────────────────────────────

#[derive(Debug)]
pub enum Inst {
    Literal(char),
    AnyChar,
    CharClass(Vec<(char, char)>),
    NegCharClass(Vec<(char, char)>),
    Split(usize, usize),
    Jump(usize),
    Match,
    SaveStart(usize),
    SaveEnd(usize),
    AssertStart,
    AssertEnd,
    AssertWordBoundary,
    AssertNotWordBoundary,
    Backref(usize),
    /// Lookahead(negative, skip_to): the body starts at the next
    /// instruction; when whether it matches differs from `negative`,
    /// execution continues at `skip_to`.
    Lookahead(bool, usize),
}

/// An instruction as a value.
pub enum InstModel {
    Literal(char),
    AnyChar,
    CharClass(Seq<(char, char)>),
    NegCharClass(Seq<(char, char)>),
    Split(usize, usize),
    Jump(usize),
    Match,
    SaveStart(usize),
    SaveEnd(usize),
    AssertStart,
    AssertEnd,
    AssertWordBoundary,
    AssertNotWordBoundary,
    Backref(usize),
    Lookahead(bool, usize),
}

impl View for Inst {
    type V = InstModel;

    open spec fn view(&self) -> InstModel {
        match self {
            Inst::Literal(c) => InstModel::Literal(*c),
            Inst::AnyChar => InstModel::AnyChar,
            Inst::CharClass(r) => InstModel::CharClass(r@),
            Inst::NegCharClass(r) => InstModel::NegCharClass(r@),
            Inst::Split(a, b) => InstModel::Split(*a, *b),
            Inst::Jump(t) => InstModel::Jump(*t),
            Inst::Match => InstModel::Match,
            Inst::SaveStart(g) => InstModel::SaveStart(*g),
            Inst::SaveEnd(g) => InstModel::SaveEnd(*g),
            Inst::AssertStart => InstModel::AssertStart,
            Inst::AssertEnd => InstModel::AssertEnd,
            Inst::AssertWordBoundary => InstModel::AssertWordBoundary,
            Inst::AssertNotWordBoundary => InstModel::AssertNotWordBoundary,
            Inst::Backref(g) => InstModel::Backref(*g),
            Inst::Lookahead(n, s) => InstModel::Lookahead(*n, *s),
        }
    }
}

pub open spec fn prog_view(v: Seq<Inst>) -> Seq<InstModel> {
    v.map_values(|i: Inst| i@)
}

/// The instruction writes no slot of the whole match.
pub open spec fn save_ok(x: InstModel) -> bool {
    match x {
        InstModel::SaveStart(g) => g >= 1,
        InstModel::SaveEnd(g) => g >= 1,
        _ => true,
    }
}

/// Group slots written by the program are those of numbered groups, never
/// the whole match's.
pub open spec fn saves_ok(prog: Seq<InstModel>) -> bool {
    forall|i: int| 0 <= i < prog.len() ==> save_ok(#[trigger] prog[i])
}

pub proof fn lemma_saves_concat(a: Seq<InstModel>, b: Seq<InstModel>)
    requires
        saves_ok(a),
        saves_ok(b),
    ensures
        saves_ok(a + b),
{
    assert forall|i: int| 0 <= i < (a + b).len() implies save_ok(#[trigger] (a + b)[i]) by {
        if i < a.len() {
            assert((a + b)[i] == a[i]);
        } else {
            assert((a + b)[i] == b[i - a.len()]);
        }
    }
}

fn clone_ranges(r: &Vec<(char, char)>) -> (c: Vec<(char, char)>)
    ensures
        c@ == r@,
{
    let mut c: Vec<(char, char)> = Vec::new();
    let mut i: usize = 0;
    while i < r.len()
        invariant
            i <= r@.len(),
            c@ == r@.take(i as int),
        decreases r@.len() - i,
    {
        c.push(r[i]);
        i = i + 1;
        assert(c@ =~= r@.take(i as int));
    }
    assert(r@.take(r@.len() as int) =~= r@);
    c
}

impl Inst {
    pub(crate) fn duplicate(&self) -> (c: Inst)
        ensures
            c@ == self@,
    {
        match self {
            Inst::Literal(c) => Inst::Literal(*c),
            Inst::AnyChar => Inst::AnyChar,
            Inst::CharClass(r) => Inst::CharClass(clone_ranges(r)),
            Inst::NegCharClass(r) => Inst::NegCharClass(clone_ranges(r)),
            Inst::Split(a, b) => Inst::Split(*a, *b),
            Inst::Jump(t) => Inst::Jump(*t),
            Inst::Match => Inst::Match,
            Inst::SaveStart(g) => Inst::SaveStart(*g),
            Inst::SaveEnd(g) => Inst::SaveEnd(*g),
            Inst::AssertStart => Inst::AssertStart,
            Inst::AssertEnd => Inst::AssertEnd,
            Inst::AssertWordBoundary => Inst::AssertWordBoundary,
            Inst::AssertNotWordBoundary => Inst::AssertNotWordBoundary,
            Inst::Backref(g) => Inst::Backref(*g),
            Inst::Lookahead(n, s) => Inst::Lookahead(*n, *s),
        }
    }
}

/// Some range of the class holds `ch`.
pub open spec fn class_contains(r: Seq<(char, char)>, ch: char) -> bool {
    exists|i: int| 0 <= i < r.len() && r[i].0 <= ch && ch <= r[i].1
}

fn class_contains_exec(r: &Vec<(char, char)>, ch: char) -> (b: bool)
    ensures
        b == class_contains(r@, ch),
{
    let mut i: usize = 0;
    while i < r.len()
        invariant
            i <= r@.len(),
            forall|j: int| 0 <= j < i ==> !(r@[j].0 <= ch && ch <= r@[j].1),
        decreases r@.len() - i,
    {
        if r[i].0 <= ch && ch <= r[i].1 {
            return true;
        }
        i = i + 1;
    }
    false
}

// ── Text positions ────────────────────────────────────────────

/// Bytes of one character in UTF-8.
pub open spec fn char_len(c: char) -> nat {
    if (c as u32) < 0x80 {
        1
    } else if (c as u32) < 0x800 {
        2
    } else if (c as u32) < 0x10000 {
        3
    } else {
        4
    }
}

/// The byte offset of character `k`.
pub open spec fn byte_offset(cs: Seq<char>, k: int) -> nat
    decreases k,
{
    if k <= 0 || cs.len() == 0 {
        0
    } else if k > cs.len() {
        byte_offset(cs, cs.len() as int)
    } else {
        byte_offset(cs, k - 1) + char_len(cs[k - 1])
    }
}

/// An ASCII letter, digit or underscore.
pub open spec fn is_word_char(c: char) -> bool {
    ('a' <= c <= 'z') || ('A' <= c <= 'Z') || ('0' <= c <= '9') || c == '_'
}

/// A word character on exactly one side of position `sp`.
pub open spec fn word_boundary(cs: Seq<char>, sp: int) -> bool {
    let before = sp > 0 && sp - 1 < cs.len() && is_word_char(cs[sp - 1]);
    let after = 0 <= sp < cs.len() && is_word_char(cs[sp]);
    before != after
}

// ── The VM ────────────────────────────────────────────────────

/// A thread of the backtracking VM: instruction, character position and
/// the group slots (start and end of each group, as character positions).
pub struct VmState {
    pub pc: int,
    pub sp: int,
    pub groups: Seq<Option<int>>,
}

/// What one instruction does.
pub enum Step {
    /// Go on in this state.
    Next(VmState),
    /// Go on in the first state; remember the second to backtrack to.
    Fork(VmState, VmState),
    /// Backtrack.
    Fail,
    /// The program matched; the slots are final.
    Done(Seq<Option<int>>),
}

/// The (start, end) of each group whose two slots are set.
pub open spec fn slots_to_matches(groups: Seq<Option<int>>, ng: nat) -> Seq<Option<(int, int)>> {
    Seq::new(
        ng,
        |g: int|
            match (groups[2 * g], groups[2 * g + 1]) {
                (Some(s), Some(e)) => Some((s, e)),
                _ => None,
            },
    )
}

/// The character one instruction reads, if it may be consumed: text left
/// and the test passes.
pub open spec fn consumes(inst: InstModel, cs: Seq<char>, sp: int) -> bool {
    0 <= sp < cs.len() && match inst {
        InstModel::Literal(c) => cs[sp] == c,
        InstModel::AnyChar => cs[sp] != '\n',
        InstModel::CharClass(r) => class_contains(r, cs[sp]),
        InstModel::NegCharClass(r) => !class_contains(r, cs[sp]) && cs[sp] != '\n',
        _ => false,
    }
}

pub open spec fn is_consuming(inst: InstModel) -> bool {
    inst is Literal || inst is AnyChar || inst is CharClass || inst is NegCharClass
}

/// The lookahead body (instructions from `pc` up to `end`) matches at
/// `sp`: a VM without groups, with its own budget of steps; back
/// references and nested lookaheads fail there.
pub open spec fn la_run(
    prog: Seq<InstModel>,
    cs: Seq<char>,
    fuel: nat,
    pc: int,
    sp: int,
    stack: Seq<(int, int)>,
    end: int,
) -> bool
    decreases fuel,
{
    if fuel == 0 {
        false
    } else {
        let fail = stack.len() > 0 && la_run(
            prog,
            cs,
            (fuel - 1) as nat,
            stack.last().0,
            stack.last().1,
            stack.drop_last(),
            end,
        );
        if pc < 0 || pc >= end || pc >= prog.len() {
            fail
        } else {
            let inst = prog[pc];
            match inst {
                InstModel::Match => true,
                InstModel::Split(a, b) => la_run(prog, cs, (fuel - 1) as nat, a as int, sp, stack.push((b as int, sp)), end),
                InstModel::Jump(t) => la_run(prog, cs, (fuel - 1) as nat, t as int, sp, stack, end),
                InstModel::AssertStart => if sp == 0 {
                    la_run(prog, cs, (fuel - 1) as nat, pc + 1, sp, stack, end)
                } else {
                    fail
                },
                InstModel::AssertEnd => if sp == cs.len() {
                    la_run(prog, cs, (fuel - 1) as nat, pc + 1, sp, stack, end)
                } else {
                    fail
                },
                InstModel::AssertWordBoundary => if word_boundary(cs, sp) {
                    la_run(prog, cs, (fuel - 1) as nat, pc + 1, sp, stack, end)
                } else {
                    fail
                },
                InstModel::AssertNotWordBoundary => if !word_boundary(cs, sp) {
                    la_run(prog, cs, (fuel - 1) as nat, pc + 1, sp, stack, end)
                } else {
                    fail
                },
                InstModel::SaveStart(_) => la_run(prog, cs, (fuel - 1) as nat, pc + 1, sp, stack, end),
                InstModel::SaveEnd(_) => la_run(prog, cs, (fuel - 1) as nat, pc + 1, sp, stack, end),
                InstModel::Backref(_) => fail,
                InstModel::Lookahead(_, _) => fail,
                _ => if consumes(inst, cs, sp) {
                    la_run(prog, cs, (fuel - 1) as nat, pc + 1, sp + 1, stack, end)
                } else {
                    fail
                },
            }
        }
    }
}

/// Steps allowed to a lookahead body.
pub const LOOKAHEAD_STEPS: usize = 50_000;

/// Steps allowed to one match attempt.
pub const MATCH_STEPS: usize = 100_000;

/// What the instruction at `st.pc` does.
pub open spec fn vm_step(prog: Seq<InstModel>, cs: Seq<char>, st: VmState) -> Step {
    let pc = st.pc;
    let sp = st.sp;
    let groups = st.groups;
    if pc < 0 || pc >= prog.len() {
        Step::Fail
    } else {
        let inst = prog[pc];
        match inst {
            InstModel::Match => Step::Done(groups.update(1, Some(sp))),
            InstModel::Split(a, b) => Step::Fork(
                VmState { pc: a as int, sp, groups },
                VmState { pc: b as int, sp, groups },
            ),
            InstModel::Jump(t) => Step::Next(VmState { pc: t as int, sp, groups }),
            InstModel::SaveStart(g) => Step::Next(
                VmState {
                    pc: pc + 1,
                    sp,
                    groups: if g * 2 < groups.len() {
                        groups.update(g * 2, Some(sp))
                    } else {
                        groups
                    },
                },
            ),
            InstModel::SaveEnd(g) => Step::Next(
                VmState {
                    pc: pc + 1,
                    sp,
                    groups: if g * 2 + 1 < groups.len() {
                        groups.update(g * 2 + 1, Some(sp))
                    } else {
                        groups
                    },
                },
            ),
            InstModel::AssertStart => if sp == 0 {
                Step::Next(VmState { pc: pc + 1, sp, groups })
            } else {
                Step::Fail
            },
            InstModel::AssertEnd => if sp == cs.len() {
                Step::Next(VmState { pc: pc + 1, sp, groups })
            } else {
                Step::Fail
            },
            InstModel::AssertWordBoundary => if word_boundary(cs, sp) {
                Step::Next(VmState { pc: pc + 1, sp, groups })
            } else {
                Step::Fail
            },
            InstModel::AssertNotWordBoundary => if !word_boundary(cs, sp) {
                Step::Next(VmState { pc: pc + 1, sp, groups })
            } else {
                Step::Fail
            },
            InstModel::Backref(g) => {
                if g * 2 + 1 < groups.len() && groups[g * 2] is Some && groups[g * 2 + 1] is Some {
                    let s = groups[g * 2]->0;
                    let e = groups[g * 2 + 1]->0;
                    if 0 <= s <= e <= cs.len() && sp + (e - s) <= cs.len() && cs.subrange(sp, sp + (e - s))
                        == cs.subrange(s, e) {
                        Step::Next(VmState { pc: pc + 1, sp: sp + (e - s), groups })
                    } else {
                        Step::Fail
                    }
                } else {
                    Step::Fail
                }
            },
            InstModel::Lookahead(neg, skip) => if la_run(
                prog,
                cs,
                LOOKAHEAD_STEPS as nat,
                pc + 1,
                sp,
                Seq::empty(),
                skip as int,
            ) != neg {
                Step::Next(VmState { pc: skip as int, sp, groups })
            } else {
                Step::Fail
            },
            _ => if consumes(inst, cs, sp) {
                Step::Next(VmState { pc: pc + 1, sp: sp + 1, groups })
            } else {
                Step::Fail
            },
        }
    }
}

/// The VM with `fuel` steps left: each step runs one instruction, or
/// backtracks to the most recent fork when it fails; out of steps or out
/// of forks it fails. On success, the group slots.
pub open spec fn vm_run(
    prog: Seq<InstModel>,
    cs: Seq<char>,
    fuel: nat,
    st: VmState,
    stack: Seq<VmState>,
) -> Option<Seq<Option<int>>>
    decreases fuel,
{
    if fuel == 0 {
        None
    } else {
        match vm_step(prog, cs, st) {
            Step::Done(g) => Some(g),
            Step::Next(s) => vm_run(prog, cs, (fuel - 1) as nat, s, stack),
            Step::Fork(s, alt) => vm_run(prog, cs, (fuel - 1) as nat, s, stack.push(alt)),
            Step::Fail => if stack.len() == 0 {
                None
            } else {
                vm_run(prog, cs, (fuel - 1) as nat, stack.last(), stack.drop_last())
            },
        }
    }
}

/// One match attempt at character position `start`: all slots empty but
/// the start of the whole match.
pub open spec fn try_match_at(prog: Seq<InstModel>, ng: nat, cs: Seq<char>, start: int) -> Option<
    Seq<Option<(int, int)>>,
> {
    let init = initial_slots(ng * 2, start);
    match vm_run(prog, cs, MATCH_STEPS as nat, VmState { pc: 0, sp: start, groups: init }, Seq::empty()) {
        Some(g) => Some(slots_to_matches(g, ng)),
        None => None,
    }
}

/// The first position at or after `pos` (in characters) where an attempt
/// matches.
pub open spec fn search_from(prog: Seq<InstModel>, ng: nat, cs: Seq<char>, pos: int) -> Option<
    Seq<Option<(int, int)>>,
>
    decreases cs.len() + 1 - pos,
{
    if pos < 0 || pos > cs.len() {
        None
    } else {
        match try_match_at(prog, ng, cs, pos) {
            Some(c) => Some(c),
            None => search_from(prog, ng, cs, pos + 1),
        }
    }
}


// ── UTF-8 offsets ─────────────────────────────────────────────

proof fn lemma_char_len(c: char)
    ensures
        encode_scalar(c as u32).len() == char_len(c),
        1 <= char_len(c) <= 4,
{
    char_is_scalar(c);
}

proof fn lemma_encode_push(a: Seq<char>, c: char)
    ensures
        encode_utf8(a.push(c)) == encode_utf8(a) + encode_scalar(c as u32),
    decreases a.len(),
{
    if a.len() == 0 {
        assert(a.push(c).drop_first() =~= Seq::<char>::empty());
        assert(encode_utf8(Seq::<char>::empty()) =~= Seq::<u8>::empty());
        assert(encode_utf8(a) =~= Seq::<u8>::empty());
        assert(encode_utf8(a.push(c)) =~= encode_scalar(c as u32) + encode_utf8(
            a.push(c).drop_first(),
        ));
        assert(encode_utf8(a.push(c)) =~= encode_utf8(a) + encode_scalar(c as u32));
    } else {
        lemma_encode_push(a.drop_first(), c);
        assert(a.push(c).drop_first() =~= a.drop_first().push(c));
        assert(a.push(c)[0] == a[0]);
        assert(encode_utf8(a.push(c)) =~= encode_utf8(a) + encode_scalar(c as u32));
    }
}

/// The byte offset of character `k` is the length of the UTF-8 encoding
/// of the characters before it.
pub proof fn lemma_byte_offset_encode(cs: Seq<char>, k: int)
    requires
        0 <= k <= cs.len(),
    ensures
        byte_offset(cs, k) == encode_utf8(cs.take(k)).len(),
    decreases k,
{
    if k == 0 {
        assert(cs.take(0) =~= Seq::<char>::empty());
        assert(encode_utf8(Seq::<char>::empty()) =~= Seq::<u8>::empty());
    } else {
        lemma_byte_offset_encode(cs, k - 1);
        assert(cs.take(k) =~= cs.take(k - 1).push(cs[k - 1]));
        lemma_encode_push(cs.take(k - 1), cs[k - 1]);
        lemma_char_len(cs[k - 1]);
    }
}

/// Byte offsets grow strictly with the character position.
pub proof fn lemma_byte_offset_mono(cs: Seq<char>, j: int, k: int)
    requires
        0 <= j <= k <= cs.len(),
    ensures
        byte_offset(cs, j) + (k - j) <= byte_offset(cs, k),
    decreases k,
{
    if j < k {
        lemma_byte_offset_mono(cs, j, k - 1);
        lemma_char_len(cs[k - 1]);
    }
}

pub(crate) fn char_len_exec(c: char) -> (n: usize)
    ensures
        n == char_len(c),
{
    let u = c as u32;
    if u < 0x80 {
        1
    } else if u < 0x800 {
        2
    } else if u < 0x10000 {
        3
    } else {
        4
    }
}

/// The byte offset of every character position of `text`, its end included.
pub(crate) fn byte_offsets(text: &str, cs: &Vec<char>) -> (offs: Vec<usize>)
    requires
        cs@ == text@,
    ensures
        offs@.len() == cs@.len() + 1,
        forall|k: int| 0 <= k <= cs@.len() ==> offs@[k] == byte_offset(cs@, k),
        offs@[cs@.len() as int] == text.spec_bytes().len(),
{
    let total = text.as_bytes().len();
    proof {
        lemma_byte_offset_encode(cs@, cs@.len() as int);
        assert(cs@.take(cs@.len() as int) =~= cs@);
    }
    let mut offs: Vec<usize> = Vec::new();
    offs.push(0);
    let mut off: usize = 0;
    let mut k: usize = 0;
    while k < cs.len()
        invariant
            k <= cs@.len(),
            offs@.len() == k + 1,
            forall|j: int| 0 <= j <= k ==> offs@[j] == byte_offset(cs@, j),
            off == byte_offset(cs@, k as int),
            total == byte_offset(cs@, cs@.len() as int),
        decreases cs@.len() - k,
    {
        proof {
            lemma_byte_offset_mono(cs@, k + 1, cs@.len() as int);
        }
        off = off + char_len_exec(cs[k]);
        k = k + 1;
        offs.push(off);
    }
    offs
}

// ── The VM, executed ──────────────────────────────────────────

struct Thread {
    pc: usize,
    sp: usize,
    groups: Vec<Option<usize>>,
}

pub open spec fn opt_ints(v: Seq<Option<usize>>) -> Seq<Option<int>> {
    v.map_values(
        |o: Option<usize>|
            match o {
                Some(x) => Some(x as int),
                None => None,
            },
    )
}

spec fn tstate(t: Thread) -> VmState {
    VmState { pc: t.pc as int, sp: t.sp as int, groups: opt_ints(t.groups@) }
}

spec fn stack_states(s: Seq<Thread>) -> Seq<VmState> {
    s.map_values(|t: Thread| tstate(t))
}

/// Every set slot lies within the text.
pub open spec fn slots_within(g: Seq<Option<usize>>, n: nat) -> bool {
    forall|i: int| 0 <= i < g.len() && (#[trigger] g[i]) is Some ==> g[i]->0 <= n
}

spec fn thread_ok(t: Thread, nslots: nat, n: nat) -> bool {
    t.sp <= n && t.groups@.len() == nslots && slots_within(t.groups@, n)
}

fn copy_slots(g: &Vec<Option<usize>>) -> (c: Vec<Option<usize>>)
    ensures
        c@ == g@,
{
    let mut c: Vec<Option<usize>> = Vec::new();
    let mut i: usize = 0;
    while i < g.len()
        invariant
            i <= g@.len(),
            c@ == g@.take(i as int),
        decreases g@.len() - i,
    {
        c.push(g[i]);
        i = i + 1;
        assert(c@ =~= g@.take(i as int));
    }
    assert(g@.take(g@.len() as int) =~= g@);
    c
}

/// The slots before an attempt at `start`.
pub open spec fn initial_slots(nslots: nat, start: int) -> Seq<Option<int>> {
    Seq::new(nslots, |i: int| if i == 0 { Some(start) } else { None })
}

pub open spec fn pairs_int(s: Seq<(usize, usize)>) -> Seq<(int, int)> {
    s.map_values(|p: (usize, usize)| (p.0 as int, p.1 as int))
}


/// Runs the lookahead body `body_start..body_end` at `start_sp`.
fn run_lookahead(
    prog: &Vec<Inst>,
    cs: &Vec<char>,
    start_sp: usize,
    body_start: usize,
    body_end: usize,
) -> (b: bool)
    requires
        start_sp <= cs@.len(),
    ensures
        b == la_run(
            prog_view(prog@),
            cs@,
            LOOKAHEAD_STEPS as nat,
            body_start as int,
            start_sp as int,
            Seq::empty(),
            body_end as int,
        ),
{
    let ghost pv = prog_view(prog@);
    let ghost target = la_run(
        pv,
        cs@,
        LOOKAHEAD_STEPS as nat,
        body_start as int,
        start_sp as int,
        Seq::empty(),
        body_end as int,
    );
    let mut stack: Vec<(usize, usize)> = Vec::new();
    let mut pc = body_start;
    let mut sp = start_sp;
    let mut steps: usize = 0;
    proof {
        assert(pairs_int(stack@) =~= Seq::<(int, int)>::empty());
    }
    loop
        invariant
            steps <= LOOKAHEAD_STEPS,
            sp <= cs@.len(),
            forall|i: int| 0 <= i < stack@.len() ==> (#[trigger] stack@[i]).1 <= cs@.len(),
            pv == prog_view(prog@),
            target == la_run(
                pv,
                cs@,
                LOOKAHEAD_STEPS as nat,
                body_start as int,
                start_sp as int,
                Seq::empty(),
                body_end as int,
            ),
            la_run(
                pv,
                cs@,
                (LOOKAHEAD_STEPS - steps) as nat,
                pc as int,
                sp as int,
                pairs_int(stack@),
                body_end as int,
            ) == target,
        decreases LOOKAHEAD_STEPS - steps,
    {
        if steps >= LOOKAHEAD_STEPS {
            return false;
        }
        let ghost fuel = (LOOKAHEAD_STEPS - steps) as nat;
        let ghost st = pairs_int(stack@);
        steps = steps + 1;
        let mut fail = false;
        if pc >= body_end || pc >= prog.len() {
            fail = true;
        } else {
            proof {
                assert(pv[pc as int] == prog@[pc as int]@);
            }
            match &prog[pc] {
                Inst::Match => {
                    return true;
                },
                Inst::Literal(c) => {
                    if sp < cs.len() && cs[sp] == *c {
                        pc = pc + 1;
                        sp = sp + 1;
                    } else {
                        fail = true;
                    }
                },
                Inst::AnyChar => {
                    if sp < cs.len() && cs[sp] != '\n' {
                        pc = pc + 1;
                        sp = sp + 1;
                    } else {
                        fail = true;
                    }
                },
                Inst::CharClass(r) => {
                    if sp < cs.len() && class_contains_exec(r, cs[sp]) {
                        pc = pc + 1;
                        sp = sp + 1;
                    } else {
                        fail = true;
                    }
                },
                Inst::NegCharClass(r) => {
                    if sp < cs.len() && !class_contains_exec(r, cs[sp]) && cs[sp] != '\n' {
                        pc = pc + 1;
                        sp = sp + 1;
                    } else {
                        fail = true;
                    }
                },
                Inst::Split(a, b) => {
                    stack.push((*b, sp));
                    proof {
                        assert(pairs_int(stack@) =~= st.push((*b as int, sp as int)));
                    }
                    pc = *a;
                },
                Inst::Jump(t) => {
                    pc = *t;
                },
                Inst::AssertStart => {
                    if sp == 0 {
                        pc = pc + 1;
                    } else {
                        fail = true;
                    }
                },
                Inst::AssertEnd => {
                    if sp == cs.len() {
                        pc = pc + 1;
                    } else {
                        fail = true;
                    }
                },
                Inst::AssertWordBoundary => {
                    if word_boundary_exec(cs, sp) {
                        pc = pc + 1;
                    } else {
                        fail = true;
                    }
                },
                Inst::AssertNotWordBoundary => {
                    if !word_boundary_exec(cs, sp) {
                        pc = pc + 1;
                    } else {
                        fail = true;
                    }
                },
                Inst::SaveStart(_) => {
                    pc = pc + 1;
                },
                Inst::SaveEnd(_) => {
                    pc = pc + 1;
                },
                Inst::Backref(_) => {
                    fail = true;
                },
                Inst::Lookahead(_, _) => {
                    fail = true;
                },
            }
        }
        if fail {
            match stack.pop() {
                Some(top) => {
                    proof {
                        assert(pairs_int(stack@) =~= st.drop_last());
                        assert(st.last() == (top.0 as int, top.1 as int));
                    }
                    pc = top.0;
                    sp = top.1;
                },
                None => {
                    return false;
                },
            }
        }
    }
}

fn is_word_char_exec(c: char) -> (b: bool)
    ensures
        b == is_word_char(c),
{
    let u = c as u32;
    (0x61 <= u && u <= 0x7a) || (0x41 <= u && u <= 0x5a) || (0x30 <= u && u <= 0x39) || u == 0x5f
}

fn word_boundary_exec(cs: &Vec<char>, sp: usize) -> (b: bool)
    ensures
        b == word_boundary(cs@, sp as int),
{
    let before = sp > 0 && sp - 1 < cs.len() && is_word_char_exec(cs[sp - 1]);
    let after = sp < cs.len() && is_word_char_exec(cs[sp]);
    before != after
}


/// One match attempt at character position `start`: the final slots.
fn run_match(prog: &Vec<Inst>, nslots: usize, cs: &Vec<char>, start: usize) -> (r: Option<
    Vec<Option<usize>>,
>)
    requires
        2 <= nslots,
        start <= cs@.len(),
        saves_ok(prog_view(prog@)),
    ensures
        r matches Some(g) ==> (g@[0] == Some(start) && (g@[1] matches Some(e) && start <= e)),
        match r {
            Some(g) => vm_run(
                prog_view(prog@),
                cs@,
                MATCH_STEPS as nat,
                VmState { pc: 0, sp: start as int, groups: initial_slots(nslots as nat, start as int) },
                Seq::empty(),
            ) == Some(opt_ints(g@)) && g@.len() == nslots && slots_within(g@, cs@.len()),
            None => vm_run(
                prog_view(prog@),
                cs@,
                MATCH_STEPS as nat,
                VmState { pc: 0, sp: start as int, groups: initial_slots(nslots as nat, start as int) },
                Seq::empty(),
            ) is None,
        },
{
    let ghost pv = prog_view(prog@);
    let ghost n = cs@.len();
    let ghost target = vm_run(
        pv,
        cs@,
        MATCH_STEPS as nat,
        VmState { pc: 0, sp: start as int, groups: initial_slots(nslots as nat, start as int) },
        Seq::empty(),
    );
    let mut groups: Vec<Option<usize>> = Vec::new();
    let mut i: usize = 0;
    while i < nslots
        invariant
            i <= nslots,
            groups@.len() == i,
            forall|j: int| 0 <= j < i ==> groups@[j] == (if j == 0 { Some(start) } else { None }),
        decreases nslots - i,
    {
        if i == 0 {
            groups.push(Some(start));
        } else {
            groups.push(None);
        }
        i = i + 1;
    }
    proof {
        assert(opt_ints(groups@) =~= initial_slots(nslots as nat, start as int));
    }
    let mut stack: Vec<Thread> = Vec::new();
    let mut pc: usize = 0;
    let mut sp: usize = start;
    let mut steps: usize = 0;
    proof {
        assert(stack_states(stack@) =~= Seq::<VmState>::empty());
    }
    loop
        invariant
            steps <= MATCH_STEPS,
            sp <= n,
            n == cs@.len(),
            2 <= nslots,
            groups@.len() == nslots,
            slots_within(groups@, n),
            saves_ok(prog_view(prog@)),
            groups@[0] == Some(start),
            start <= sp,
            forall|j: int| 0 <= j < stack@.len() ==> thread_ok(#[trigger] stack@[j], nslots as nat, n),
            forall|j: int|
                0 <= j < stack@.len() ==> (#[trigger] stack@[j]).groups@[0] == Some(start) && start
                    <= stack@[j].sp,
            pv == prog_view(prog@),
            target == vm_run(
                pv,
                cs@,
                MATCH_STEPS as nat,
                VmState { pc: 0, sp: start as int, groups: initial_slots(nslots as nat, start as int) },
                Seq::empty(),
            ),
            vm_run(
                pv,
                cs@,
                (MATCH_STEPS - steps) as nat,
                VmState { pc: pc as int, sp: sp as int, groups: opt_ints(groups@) },
                stack_states(stack@),
            ) == target,
        decreases MATCH_STEPS - steps,
    {
        if steps >= MATCH_STEPS {
            return None;
        }
        let ghost st = stack_states(stack@);
        let ghost cur = VmState { pc: pc as int, sp: sp as int, groups: opt_ints(groups@) };
        steps = steps + 1;
        let mut fail = false;
        if pc >= prog.len() {
            fail = true;
        } else {
            proof {
                assert(pv[pc as int] == prog@[pc as int]@);
            }
            proof {
                assert(save_ok(pv[pc as int]));
            }
            match &prog[pc] {
                Inst::Match => {
                    groups.set(1, Some(sp));
                    proof {
                        assert(opt_ints(groups@) =~= cur.groups.update(1, Some(sp as int)));
                    }
                    return Some(groups);
                },
                Inst::Literal(c) => {
                    if sp < cs.len() && cs[sp] == *c {
                        pc = pc + 1;
                        sp = sp + 1;
                    } else {
                        fail = true;
                    }
                },
                Inst::AnyChar => {
                    if sp < cs.len() && cs[sp] != '\n' {
                        pc = pc + 1;
                        sp = sp + 1;
                    } else {
                        fail = true;
                    }
                },
                Inst::CharClass(r) => {
                    if sp < cs.len() && class_contains_exec(r, cs[sp]) {
                        pc = pc + 1;
                        sp = sp + 1;
                    } else {
                        fail = true;
                    }
                },
                Inst::NegCharClass(r) => {
                    if sp < cs.len() && !class_contains_exec(r, cs[sp]) && cs[sp] != '\n' {
                        pc = pc + 1;
                        sp = sp + 1;
                    } else {
                        fail = true;
                    }
                },
                Inst::Split(a, b) => {
                    let saved = copy_slots(&groups);
                    stack.push(Thread { pc: *b, sp, groups: saved });
                    proof {
                        assert(stack_states(stack@) =~= st.push(
                            VmState { pc: *b as int, sp: sp as int, groups: opt_ints(groups@) },
                        ));
                    }
                    pc = *a;
                },
                Inst::Jump(t) => {
                    pc = *t;
                },
                Inst::SaveStart(g) => {
                    if *g <= (nslots - 1) / 2 && *g * 2 < nslots {
                        groups.set(*g * 2, Some(sp));
                        proof {
                            assert(opt_ints(groups@) =~= cur.groups.update(*g * 2, Some(sp as int)));
                        }
                    }
                    pc = pc + 1;
                },
                Inst::SaveEnd(g) => {
                    if *g <= (nslots - 1) / 2 && *g * 2 + 1 < nslots {
                        groups.set(*g * 2 + 1, Some(sp));
                        proof {
                            assert(opt_ints(groups@) =~= cur.groups.update(*g * 2 + 1, Some(sp as int)));
                        }
                    }
                    pc = pc + 1;
                },
                Inst::AssertStart => {
                    if sp == 0 {
                        pc = pc + 1;
                    } else {
                        fail = true;
                    }
                },
                Inst::AssertEnd => {
                    if sp == cs.len() {
                        pc = pc + 1;
                    } else {
                        fail = true;
                    }
                },
                Inst::AssertWordBoundary => {
                    if word_boundary_exec(cs, sp) {
                        pc = pc + 1;
                    } else {
                        fail = true;
                    }
                },
                Inst::AssertNotWordBoundary => {
                    if !word_boundary_exec(cs, sp) {
                        pc = pc + 1;
                    } else {
                        fail = true;
                    }
                },
                Inst::Backref(g) => {
                    let mut ok = false;
                    if *g <= (nslots - 1) / 2 && *g * 2 + 1 < nslots {
                        match (groups[*g * 2], groups[*g * 2 + 1]) {
                            (Some(s), Some(e)) => {
                                if s <= e && e <= cs.len() && e - s <= cs.len() - sp {
                                    let len = e - s;
                                    let mut k: usize = 0;
                                    while k < len && cs[sp + k] == cs[s + k]
                                        invariant
                                            k <= len,
                                            len == e - s,
                                            cs@.len() <= usize::MAX,
                                            s <= e <= cs@.len(),
                                            sp + len <= cs@.len(),
                                            cs@.subrange(sp as int, sp + k) == cs@.subrange(
                                                s as int,
                                                s + k,
                                            ),
                                        decreases len - k,
                                    {
                                        proof {
                                            assert(cs@.subrange(sp as int, sp + k + 1) =~= cs@.subrange(
                                                sp as int,
                                                sp + k,
                                            ).push(cs@[sp + k]));
                                            assert(cs@.subrange(s as int, s + k + 1) =~= cs@.subrange(
                                                s as int,
                                                s + k,
                                            ).push(cs@[s + k]));
                                        }
                                        k = k + 1;
                                    }
                                    if k == len {
                                        ok = true;
                                        pc = pc + 1;
                                        sp = sp + len;
                                    } else {
                                        proof {
                                            assert(cs@.subrange(sp as int, sp + len)[k as int]
                                                != cs@.subrange(s as int, e as int)[k as int]);
                                        }
                                    }
                                }
                            },
                            _ => {},
                        }
                    }
                    if !ok {
                        fail = true;
                    }
                },
                Inst::Lookahead(neg, skip) => {
                    let m = run_lookahead(prog, cs, sp, pc + 1, *skip);
                    if m != *neg {
                        pc = *skip;
                    } else {
                        fail = true;
                    }
                },
            }
        }
        if fail {
            match stack.pop() {
                Some(top) => {
                    proof {
                        assert(stack_states(stack@) =~= st.drop_last());
                        assert(st.last() == tstate(top));
                    }
                    pc = top.pc;
                    sp = top.sp;
                    groups = top.groups;
                },
                None => {
                    return None;
                },
            }
        }
    }
}


// ── Searching a text ──────────────────────────────────────────

/// `b` is the byte offset of a character position of `cs` (its end
/// included).
pub open spec fn at_boundary(cs: Seq<char>, b: int) -> bool {
    exists|k: int| 0 <= k <= cs.len() && byte_offset(cs, k) == b
}

/// The character position at byte offset `b`.
pub open spec fn char_pos_of(cs: Seq<char>, b: int) -> int {
    choose|k: int| 0 <= k <= cs.len() && byte_offset(cs, k) == b
}

/// Groups as byte ranges.
pub open spec fn to_bytes(cs: Seq<char>, m: Seq<Option<(int, int)>>) -> Seq<Option<(int, int)>> {
    m.map_values(
        |o: Option<(int, int)>|
            match o {
                Some(p) => Some((byte_offset(cs, p.0) as int, byte_offset(cs, p.1) as int)),
                None => None,
            },
    )
}

/// What a search from byte offset `start` finds: the groups of the first
/// match as byte ranges, trying each character position from `start` on.
pub open spec fn spec_captures(prog: Seq<InstModel>, ng: nat, cs: Seq<char>, start: int) -> Option<
    Seq<Option<(int, int)>>,
> {
    if start > byte_offset(cs, cs.len() as int) {
        None
    } else {
        match search_from(prog, ng, cs, char_pos_of(cs, start)) {
            Some(c) => Some(to_bytes(cs, c)),
            None => None,
        }
    }
}

pub open spec fn match_view(m: Option<Match>) -> Option<(int, int)> {
    match m {
        Some(x) => Some((x.start as int, x.end as int)),
        None => None,
    }
}

/// The whole match lies at or after `start` and within the text, and
/// every group starts and ends on character boundaries.
pub open spec fn match_sane(c: Captures, text: Seq<char>, start: int) -> bool {
    &&& c.groups@.len() >= 1
    &&& c.groups@[0] is Some
    &&& start <= c.groups@[0]->0.start <= c.groups@[0]->0.end <= byte_offset(text, text.len() as int)
    &&& forall|g: int|
        0 <= g < c.groups@.len() && (#[trigger] c.groups@[g]) is Some ==> at_boundary(
            text,
            c.groups@[g]->0.start as int,
        ) && at_boundary(text, c.groups@[g]->0.end as int)
}

pub open spec fn captures_view(c: Captures) -> Seq<Option<(int, int)>> {
    c.groups@.map_values(|m: Option<Match>| match_view(m))
}

/// A compiled pattern.
#[derive(Debug)]
pub struct Regex {
    program: Vec<Inst>,
    n_groups: usize,
}

impl Regex {
    #[verifier::type_invariant]
    spec fn well_formed(self) -> bool {
        &&& 1 <= self.n_groups && self.n_groups <= usize::MAX / 2
        &&& saves_ok(prog_view(self.program@))
    }

    /// The bytecode.
    pub closed spec fn prog(self) -> Seq<InstModel> {
        prog_view(self.program@)
    }

    /// The number of groups, the whole match included.
    pub closed spec fn ngroups(self) -> nat {
        self.n_groups as nat
    }

    /// Compile `pattern`; an error gives its message, "Regex error at
    /// <byte offset>: <what>".
    pub fn new(pattern: &str) -> (r: Result<Regex, String>)
        requires
            pattern.spec_bytes().len() <= usize::MAX / 2,
        ensures
            match r {
                Ok(re) => spec_compile(pattern.spec_bytes(), pattern@) == Ok::<
                    (Seq<InstModel>, nat),
                    RegexError,
                >((re.prog(), re.ngroups())),
                Err(m) => spec_compile(pattern.spec_bytes(), pattern@) is Err && m@ == error_message(
                    spec_compile(pattern.spec_bytes(), pattern@)->Err_0,
                ),
            },
    {
        match compile_pattern(pattern) {
            Ok((program, n_groups)) => Ok(Regex { program, n_groups }),
            Err(e) => Err(error_string(e)),
        }
    }

    /// The groups of the first match at or after byte offset `start`, as
    /// byte ranges; group 0 is the whole match.
    pub fn captures(&self, text: &str, start: usize) -> (r: Option<Captures>)
        requires
            start > byte_offset(text@, text@.len() as int) || at_boundary(text@, start as int),
        ensures
            match r {
                Some(c) => spec_captures(self.prog(), self.ngroups(), text@, start as int) == Some(
                    captures_view(c),
                ) && c.groups@.len() == self.ngroups() && match_sane(c, text@, start as int),
                None => spec_captures(self.prog(), self.ngroups(), text@, start as int) is None,
            },
    {
        proof {
            use_type_invariant(self);
        }
        let cs = chars_of(text);
        let offs = byte_offsets(text, &cs);
        let n = cs.len();
        if start > offs[n] {
            return None;
        }
        let mut k0: usize = 0;
        while k0 < n && offs[k0] != start
            invariant
                k0 <= n,
                n == cs@.len(),
                offs@.len() == n + 1,
                forall|j: int| 0 <= j < k0 ==> offs@[j] != start,
            decreases n - k0,
        {
            k0 = k0 + 1;
        }
        proof {
            let w = choose|j: int| 0 <= j <= cs@.len() && byte_offset(cs@, j) == start as int;
            assert(0 <= w <= n && byte_offset(cs@, w) == start);
            assert(w >= k0);
            assert(offs@[k0 as int] == start);
            assert forall|j: int| 0 <= j <= cs@.len() && byte_offset(cs@, j) == start as int implies j
                == k0 by {
                if j < k0 {
                    lemma_byte_offset_mono(cs@, j, k0 as int);
                } else if j > k0 {
                    lemma_byte_offset_mono(cs@, k0 as int, j);
                }
            }
            assert(char_pos_of(cs@, start as int) == k0);
            assert(byte_offset(cs@, k0 as int) == start);
        }
        let ng = self.n_groups;
        let nslots = ng * 2;
        let ghost pv = prog_view(self.program@);
        let mut k = k0;
        loop
            invariant
                k0 <= k <= n,
                n == cs@.len(),
                cs@ == text@,
                nslots == ng * 2,
                1 <= ng <= usize::MAX / 2,
                pv == self.prog(),
                ng == self.ngroups(),
                offs@.len() == n + 1,
                forall|j: int| 0 <= j <= n ==> offs@[j] == byte_offset(cs@, j),
                search_from(pv, ng as nat, cs@, k0 as int) == search_from(pv, ng as nat, cs@, k as int),
                char_pos_of(cs@, start as int) == k0,
                byte_offset(cs@, k0 as int) == start,
                saves_ok(prog_view(self.program@)),
                start <= byte_offset(cs@, n as int),
            decreases n - k,
        {
            match run_match(&self.program, nslots, &cs, k) {
                Some(g) => {
                    let caps = slots_to_captures(&g, ng, &offs, Ghost(cs@));
                    proof {
                        let e = g@[1]->0;
                        assert(g@[1] == Some(e));
                        assert(e <= n) by {
                            assert(g@[1] is Some);
                        }
                        lemma_byte_offset_mono(cs@, k0 as int, k as int);
                        lemma_byte_offset_mono(cs@, k as int, e as int);
                        lemma_byte_offset_mono(cs@, e as int, n as int);
                        assert(caps.groups@[0] == Some(Match { start: offs@[k as int], end: offs@[e as int] }));
                        assert(offs@[k0 as int] == start);
                    }
                    return Some(caps);
                },
                None => {},
            }
            if k == n {
                proof {
                    assert(search_from(pv, ng as nat, cs@, (k + 1) as int) is None);
                }
                return None;
            }
            k = k + 1;
        }
    }

    /// The first match at or after byte offset `start`.
    pub fn find(&self, text: &str, start: usize) -> (r: Option<Match>)
        requires
            start > byte_offset(text@, text@.len() as int) || at_boundary(text@, start as int),
        ensures
            match_view(r) == match spec_captures(self.prog(), self.ngroups(), text@, start as int) {
                Some(c) => c[0],
                None => None,
            },
            r matches Some(m) ==> (start <= m.start <= m.end <= byte_offset(text@, text@.len() as int)
                && at_boundary(text@, m.start as int) && at_boundary(text@, m.end as int)),
    {
        proof {
            use_type_invariant(self);
        }
        match self.captures(text, start) {
            Some(c) => {
                proof {
                    assert(c.groups@.len() >= 1);
                }
                c.groups[0]
            },
            None => None,
        }
    }
}

/// The groups of the final slots `g`, as byte ranges.
fn slots_to_captures(
    g: &Vec<Option<usize>>,
    ng: usize,
    offs: &Vec<usize>,
    Ghost(cs): Ghost<Seq<char>>,
) -> (c: Captures)
    requires
        ng <= usize::MAX / 2,
        g@.len() == ng * 2,
        slots_within(g@, cs.len()),
        offs@.len() == cs.len() + 1,
        forall|j: int| 0 <= j <= cs.len() ==> offs@[j] == byte_offset(cs, j),
    ensures
        captures_view(c) == to_bytes(cs, slots_to_matches(opt_ints(g@), ng as nat)),
        c.groups@.len() == ng,
        forall|j: int|
            0 <= j < c.groups@.len() && (#[trigger] c.groups@[j]) is Some ==> at_boundary(
                cs,
                c.groups@[j]->0.start as int,
            ) && at_boundary(cs, c.groups@[j]->0.end as int),
        ng >= 1 ==> (g@[0] matches Some(a) ==> g@[1] matches Some(b) ==> c.groups@[0] == Some(
            Match { start: offs@[a as int], end: offs@[b as int] },
        )),
{
    let ghost want = to_bytes(cs, slots_to_matches(opt_ints(g@), ng as nat));
    let mut groups: Vec<Option<Match>> = Vec::new();
    let mut i: usize = 0;
    while i < ng
        invariant
            i <= ng,
            ng <= usize::MAX / 2,
            g@.len() == ng * 2,
            slots_within(g@, cs.len()),
            offs@.len() == cs.len() + 1,
            forall|j: int| 0 <= j <= cs.len() ==> offs@[j] == byte_offset(cs, j),
            want == to_bytes(cs, slots_to_matches(opt_ints(g@), ng as nat)),
            groups@.len() == i,
            forall|j: int| 0 <= j < i ==> match_view(#[trigger] groups@[j]) == want[j],
            forall|j: int|
                0 <= j < i && (#[trigger] groups@[j]) is Some ==> at_boundary(
                    cs,
                    groups@[j]->0.start as int,
                ) && at_boundary(cs, groups@[j]->0.end as int),
            i > 0 ==> (g@[0] matches Some(a) ==> g@[1] matches Some(b) ==> groups@[0] == Some(
                Match { start: offs@[a as int], end: offs@[b as int] },
            )),
        decreases ng - i,
    {
        let m = match (g[2 * i], g[2 * i + 1]) {
            (Some(s), Some(e)) => {
                proof {
                    assert(g@[2 * i as int] is Some);
                    assert(g@[2 * i + 1] is Some);
                    assert(byte_offset(cs, s as int) == offs@[s as int]);
                    assert(byte_offset(cs, e as int) == offs@[e as int]);
                }
                Some(Match { start: offs[s], end: offs[e] })
            },
            _ => None,
        };
        groups.push(m);
        i = i + 1;
    }
    let c = Captures { groups };
    assert(captures_view(c) =~= want);
    c
}


/// The character position at byte offset `b`, found in the table of
/// offsets of `cs`.
pub(crate) fn byte_offset_vec_pos(offs: &Vec<usize>, b: usize, Ghost(cs): Ghost<Seq<char>>) -> (k: usize)
    requires
        offs@.len() == cs.len() + 1,
        forall|j: int| 0 <= j <= cs.len() ==> offs@[j] == byte_offset(cs, j),
        at_boundary(cs, b as int),
    ensures
        k == char_pos_of(cs, b as int),
        k <= cs.len(),
        byte_offset(cs, k as int) == b,
{
    let n = offs.len() - 1;
    let mut k: usize = 0;
    while k < n && offs[k] != b
        invariant
            k <= n,
            n == cs.len(),
            offs@.len() == n + 1,
            forall|j: int| 0 <= j < k ==> offs@[j] != b,
        decreases n - k,
    {
        k = k + 1;
    }
    proof {
        let w = choose|j: int| 0 <= j <= cs.len() && byte_offset(cs, j) == b as int;
        assert(w >= k);
        assert(offs@[k as int] == b);
        assert forall|j: int| 0 <= j <= cs.len() && byte_offset(cs, j) == b as int implies j == k by {
            if j < k {
                lemma_byte_offset_mono(cs, j, k as int);
            } else if j > k {
                lemma_byte_offset_mono(cs, k as int, j);
            }
        }
    }
    k
}

} // verus!

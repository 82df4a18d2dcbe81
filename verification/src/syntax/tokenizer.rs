//! Line-by-line tokenizing with TextMate grammars: scope tokens for each
//! line, and the open regions carried from one line to the next.
use vstd::prelude::*;
use vstd::string::StringSliceAdditionalSpecFns;
use vstd::std_specs::cmp::PartialEqSpecImpl;
use crate::syntax::regex::{
    Captures, Match, Regex, at_boundary, char_pos_of, byte_offset_vec_pos, captures_view, byte_offset,
    spec_captures, match_sane, char_len, char_len_exec,
};
use crate::syntax::grammar::{Grammar, Pattern, IncludeTarget, spec_find_repository, spec_region_children};
use crate::syntax::compile::spec_compile;
use vstd::utf8::encode_utf8;
use crate::text::{chars_of, push_char, char_is_white_space, is_white_space, string_from_chars};

verus! {

// ── Public types ──────────────────────────────────────────────

#[derive(Debug, Clone)]
pub struct ScopeToken {
    pub start: usize,
    pub end: usize,
    pub scopes: Vec<String>,
}

/// The regions open at the end of a line, innermost last.
#[derive(Debug, Clone)]
pub struct LineState {
    pub stack: Vec<ActiveRegion>,
}

#[derive(Debug, Clone)]
pub struct ActiveRegion {
    pub scope_name: Option<String>,
    pub content_name: Option<String>,
    pub end_pattern: String,
    pub region_id: Option<usize>,
    /// Where the begin match ended, in the line where it was found.
    pub begin_end_pos: usize,
    /// Scopes of the end delimiter's capture groups.
    pub end_captures: Vec<(usize, String)>,
}

/// A region as values.
pub struct RegionModel {
    pub scope_name: Option<Seq<char>>,
    pub content_name: Option<Seq<char>>,
    pub end_pattern: Seq<char>,
    pub region_id: Option<usize>,
    pub begin_end_pos: int,
    pub end_captures: Seq<(usize, Seq<char>)>,
}

pub open spec fn cap_scopes_view(v: Seq<(usize, String)>) -> Seq<(usize, Seq<char>)> {
    v.map_values(|p: (usize, String)| (p.0, p.1@))
}

impl View for ActiveRegion {
    type V = RegionModel;

    open spec fn view(&self) -> RegionModel {
        RegionModel {
            scope_name: opt_view(self.scope_name),
            content_name: opt_view(self.content_name),
            end_pattern: self.end_pattern@,
            region_id: self.region_id,
            begin_end_pos: self.begin_end_pos as int,
            end_captures: cap_scopes_view(self.end_captures@),
        }
    }
}

pub open spec fn stack_view(s: Seq<ActiveRegion>) -> Seq<RegionModel> {
    s.map_values(|r: ActiveRegion| r@)
}

pub open spec fn opt_view(o: Option<String>) -> Option<Seq<char>> {
    match o {
        Some(s) => Some(s@),
        None => None,
    }
}

/// Two regions are the same when their scope, end pattern and region
/// agree.
pub open spec fn same_region(a: ActiveRegion, b: ActiveRegion) -> bool {
    &&& opt_view(a.scope_name) == opt_view(b.scope_name)
    &&& a.end_pattern@ == b.end_pattern@
    &&& a.region_id == b.region_id
}

/// Two states are the same when their stacks hold the same regions.
pub open spec fn same_state(a: LineState, b: LineState) -> bool {
    &&& a.stack@.len() == b.stack@.len()
    &&& forall|i: int| 0 <= i < a.stack@.len() ==> same_region(#[trigger] a.stack@[i], b.stack@[i])
}

fn str_eq(a: &str, b: &str) -> (r: bool)
    ensures
        r == (a@ == b@),
{
    let v = chars_of(a);
    crate::text::chars_eq_str(&v, b)
}

fn opt_str_eq(a: &Option<String>, b: &Option<String>) -> (r: bool)
    ensures
        r == (opt_view(*a) == opt_view(*b)),
{
    match (a, b) {
        (Some(x), Some(y)) => str_eq(x.as_str(), y.as_str()),
        (None, None) => true,
        _ => false,
    }
}

fn region_eq(a: &ActiveRegion, b: &ActiveRegion) -> (r: bool)
    ensures
        r == same_region(*a, *b),
{
    opt_str_eq(&a.scope_name, &b.scope_name) && str_eq(a.end_pattern.as_str(), b.end_pattern.as_str())
        && a.region_id == b.region_id
}

impl PartialEq for ActiveRegion {
    fn eq(&self, other: &Self) -> (r: bool) {
        region_eq(self, other)
    }
}

impl PartialEqSpecImpl for ActiveRegion {
    open spec fn obeys_eq_spec() -> bool {
        true
    }

    open spec fn eq_spec(&self, other: &Self) -> bool {
        same_region(*self, *other)
    }
}

fn state_eq(a: &LineState, b: &LineState) -> (r: bool)
    ensures
        r == same_state(*a, *b),
{
    if a.stack.len() != b.stack.len() {
        return false;
    }
    let mut i: usize = 0;
    while i < a.stack.len()
        invariant
            i <= a.stack@.len(),
            a.stack@.len() == b.stack@.len(),
            forall|j: int| 0 <= j < i ==> same_region(#[trigger] a.stack@[j], b.stack@[j]),
        decreases a.stack@.len() - i,
    {
        if !region_eq(&a.stack[i], &b.stack[i]) {
            return false;
        }
        i = i + 1;
    }
    true
}

impl PartialEq for LineState {
    fn eq(&self, other: &Self) -> (r: bool) {
        state_eq(self, other)
    }
}

impl PartialEqSpecImpl for LineState {
    open spec fn obeys_eq_spec() -> bool {
        true
    }

    open spec fn eq_spec(&self, other: &Self) -> bool {
        same_state(*self, *other)
    }
}

impl LineState {
    /// No region open.
    pub fn initial() -> (s: LineState)
        ensures
            s.stack@.len() == 0,
    {
        LineState { stack: Vec::new() }
    }
}

// ── Scopes ────────────────────────────────────────────────────

/// Splitting on white space, left to right: the words finished so far
/// and the word being read.
pub open spec fn ws_fold(s: Seq<char>) -> (Seq<Seq<char>>, Seq<char>)
    decreases s.len(),
{
    if s.len() == 0 {
        (Seq::empty(), Seq::empty())
    } else {
        let (words, cur) = ws_fold(s.drop_last());
        if is_white_space(s.last()) {
            if cur.len() > 0 {
                (words.push(cur), Seq::empty())
            } else {
                (words, Seq::empty())
            }
        } else {
            (words, cur.push(s.last()))
        }
    }
}

/// The white-space separated words of `s`.
pub open spec fn ws_words(s: Seq<char>) -> Seq<Seq<char>> {
    let (words, cur) = ws_fold(s);
    if cur.len() > 0 {
        words.push(cur)
    } else {
        words
    }
}

pub open spec fn views(v: Seq<String>) -> Seq<Seq<char>> {
    v.map_values(|s: String| s@)
}

/// Push each white-space separated part of a scope field.
pub fn push_scope(scopes: &mut Vec<String>, s: &str)
    ensures
        views(final(scopes)@) == views(old(scopes)@) + ws_words(s@),
{
    let cs = chars_of(s);
    let mut cur: Vec<char> = Vec::new();
    let mut i: usize = 0;
    proof {
        assert(cs@.take(0) =~= Seq::<char>::empty());
        assert(views(scopes@) =~= views(old(scopes)@) + ws_fold(cs@.take(0)).0);
    }
    while i < cs.len()
        invariant
            i <= cs@.len(),
            cs@ == s@,
            views(scopes@) == views(old(scopes)@) + ws_fold(cs@.take(i as int)).0,
            cur@ == ws_fold(cs@.take(i as int)).1,
        decreases cs@.len() - i,
    {
        proof {
            assert(cs@.take(i + 1).drop_last() =~= cs@.take(i as int));
            assert(cs@.take(i + 1).last() == cs@[i as int]);
        }
        let c = cs[i];
        if char_is_white_space(c) {
            if cur.len() > 0 {
                let w = string_from_chars(cur.as_slice());
                let ghost before = views(scopes@);
                scopes.push(w);
                proof {
                    assert(views(scopes@) =~= before.push(w@));
                }
                cur = Vec::new();
            }
        } else {
            cur.push(c);
        }
        i = i + 1;
    }
    proof {
        assert(cs@.take(cs@.len() as int) =~= cs@);
    }
    if cur.len() > 0 {
        let w = string_from_chars(cur.as_slice());
        let ghost before = views(scopes@);
        scopes.push(w);
        proof {
            assert(views(scopes@) =~= before.push(w@));
        }
    }
}

pub open spec fn opt_words(o: Option<Seq<char>>) -> Seq<Seq<char>> {
    match o {
        Some(s) => ws_words(s),
        None => Seq::empty(),
    }
}

/// The scopes of the regions of `stack`, outermost first: each region's
/// name, then its content name.
pub open spec fn stack_scopes(stack: Seq<RegionModel>) -> Seq<Seq<char>>
    decreases stack.len(),
{
    if stack.len() == 0 {
        Seq::empty()
    } else {
        stack_scopes(stack.drop_last()) + opt_words(stack.last().scope_name) + opt_words(
            stack.last().content_name,
        )
    }
}

pub open spec fn leaf_words(leaf: Option<&str>) -> Seq<Seq<char>> {
    match leaf {
        Some(s) => ws_words(s@),
        None => Seq::empty(),
    }
}

/// The scopes of a token inside `stack`, with an optional leaf scope.
pub fn build_scopes_from_stack(stack: &[ActiveRegion], leaf: Option<&str>) -> (r: Vec<String>)
    ensures
        views(r@) == stack_scopes(stack_view(stack@)) + leaf_words(leaf),
{
    let mut scopes: Vec<String> = Vec::new();
    let mut i: usize = 0;
    proof {
        assert(stack@.take(0) =~= Seq::<ActiveRegion>::empty());
        assert(stack_view(stack@.take(0)) =~= Seq::<RegionModel>::empty());
        assert(views(scopes@) =~= stack_scopes(stack_view(stack@.take(0))));
    }
    while i < stack.len()
        invariant
            i <= stack@.len(),
            views(scopes@) == stack_scopes(stack_view(stack@.take(i as int))),
        decreases stack@.len() - i,
    {
        proof {
            assert(stack@.take(i + 1).drop_last() =~= stack@.take(i as int));
            assert(stack_view(stack@.take(i + 1)).drop_last() =~= stack_view(stack@.take(i as int)));
        }
        let region = &stack[i];
        match &region.scope_name {
            Some(s) => push_scope(&mut scopes, s.as_str()),
            None => {},
        }
        match &region.content_name {
            Some(s) => push_scope(&mut scopes, s.as_str()),
            None => {},
        }
        proof {
            assert(views(scopes@) =~= stack_scopes(stack_view(stack@.take(i + 1))));
        }
        i = i + 1;
    }
    proof {
        assert(stack@.take(stack@.len() as int) =~= stack@);
    }
    match leaf {
        Some(l) => push_scope(&mut scopes, l),
        None => {
            assert(views(scopes@) =~= stack_scopes(stack_view(stack@)) + leaf_words(leaf));
        },
    }
    scopes
}

/// The scopes of the end delimiter of `popped`, just closed above `stack`.
pub fn build_scopes_from_stack_with_popped(stack: &[ActiveRegion], popped: &ActiveRegion) -> (r: Vec<
    String,
>)
    ensures
        views(r@) == stack_scopes(stack_view(stack@)) + opt_words(opt_view(popped.scope_name)),
{
    match &popped.scope_name {
        Some(s) => build_scopes_from_stack(stack, Some(s.as_str())),
        None => build_scopes_from_stack(stack, None),
    }
}

// ── End patterns ──────────────────────────────────────────────

/// The characters that `regex_escape` puts a backslash before.
pub open spec fn is_regex_meta(c: char) -> bool {
    c == '\\' || c == '.' || c == '*' || c == '+' || c == '?' || c == '(' || c == ')' || c == '['
        || c == ']' || c == '{' || c == '}' || c == '|' || c == '^' || c == '$'
}

/// Text escaped to match itself literally.
pub open spec fn spec_regex_escape(s: Seq<char>) -> Seq<char>
    decreases s.len(),
{
    if s.len() == 0 {
        Seq::empty()
    } else {
        spec_regex_escape(s.drop_last()) + if is_regex_meta(s.last()) {
            seq!['\\', s.last()]
        } else {
            seq![s.last()]
        }
    }
}

fn regex_escape_chars(out: &mut Vec<char>, s: &[char])
    ensures
        final(out)@ == old(out)@ + spec_regex_escape(s@),
{
    let mut i: usize = 0;
    proof {
        assert(s@.take(0) =~= Seq::<char>::empty());
        assert(out@ =~= old(out)@ + spec_regex_escape(s@.take(0)));
    }
    while i < s.len()
        invariant
            i <= s@.len(),
            out@ == old(out)@ + spec_regex_escape(s@.take(i as int)),
        decreases s@.len() - i,
    {
        proof {
            assert(s@.take(i + 1).drop_last() =~= s@.take(i as int));
        }
        let c = s[i];
        if c == '\\' || c == '.' || c == '*' || c == '+' || c == '?' || c == '(' || c == ')' || c
            == '[' || c == ']' || c == '{' || c == '}' || c == '|' || c == '^' || c == '$' {
            out.push('\\');
        }
        out.push(c);
        proof {
            assert(out@ =~= old(out)@ + spec_regex_escape(s@.take(i + 1)));
        }
        i = i + 1;
    }
    proof {
        assert(s@.take(s@.len() as int) =~= s@);
    }
}

/// Escape the characters of `s` that have a meaning in a pattern.
pub fn regex_escape(s: &str) -> (r: String)
    ensures
        r@ == spec_regex_escape(s@),
{
    let cs = chars_of(s);
    let mut out: Vec<char> = Vec::new();
    regex_escape_chars(&mut out, cs.as_slice());
    string_from_chars(out.as_slice())
}

/// Every set group of `caps` starts and ends on character boundaries of
/// `text`.
pub open spec fn groups_on_boundaries(caps: Seq<Option<(int, int)>>, text: Seq<char>) -> bool {
    forall|g: int|
        0 <= g < caps.len() && (#[trigger] caps[g]) is Some ==> at_boundary(text, caps[g].unwrap().0)
            && at_boundary(text, caps[g].unwrap().1)
}

/// The text of group `g`: the characters between its byte offsets.
pub open spec fn group_text(caps: Seq<Option<(int, int)>>, text: Seq<char>, g: int) -> Seq<char> {
    text.subrange(char_pos_of(text, caps[g].unwrap().0), char_pos_of(text, caps[g].unwrap().1))
}

/// An end pattern with each `\<digit>` replaced by the escaped text of
/// that group of the begin match (nothing when the group is unset,
/// absent, or ends before it starts); other bytes are kept, each read as
/// one character.
pub open spec fn spec_resolve_end(raw: Seq<u8>, caps: Seq<Option<(int, int)>>, text: Seq<char>) -> Seq<
    char,
>
    decreases raw.len(),
{
    if raw.len() == 0 {
        Seq::empty()
    } else if raw[0] == 0x5c && raw.len() > 1 && 0x30 <= raw[1] <= 0x39 {
        let d = (raw[1] - 0x30) as int;
        (if d < caps.len() && caps[d] is Some && caps[d].unwrap().0 <= caps[d].unwrap().1 {
            spec_regex_escape(group_text(caps, text, d))
        } else {
            Seq::empty()
        }) + spec_resolve_end(raw.skip(2), caps, text)
    } else {
        seq![raw[0] as char] + spec_resolve_end(raw.skip(1), caps, text)
    }
}

/// The end pattern of a region opened by a match with `captures` in
/// `text`, back references resolved.
pub fn resolve_end_pattern(raw: &str, captures: &Captures, text: &str) -> (r: String)
    requires
        groups_on_boundaries(captures_view(*captures), text@),
    ensures
        r@ == spec_resolve_end(raw.spec_bytes(), captures_view(*captures), text@),
{
    let b = raw.as_bytes();
    let tc = chars_of(text);
    let offs = crate::syntax::regex::byte_offsets(text, &tc);
    let mut out: Vec<char> = Vec::new();
    let mut i: usize = 0;
    proof {
        assert(b@.skip(0) =~= b@);
    }
    while i < b.len()
        invariant
            i <= b@.len(),
            b@ == raw.spec_bytes(),
            tc@ == text@,
            groups_on_boundaries(captures_view(*captures), text@),
            offs@.len() == tc@.len() + 1,
            forall|k: int| 0 <= k <= tc@.len() ==> offs@[k] == crate::syntax::regex::byte_offset(tc@, k),
            out@ + spec_resolve_end(b@.skip(i as int), captures_view(*captures), text@) == spec_resolve_end(
                raw.spec_bytes(),
                captures_view(*captures),
                text@,
            ),
        decreases b@.len() - i,
    {
        let ghost rest = b@.skip(i as int);
        if b[i] == 0x5c && i + 1 < b.len() && 0x30 <= b[i + 1] && b[i + 1] <= 0x39 {
            let d = (b[i + 1] - 0x30) as usize;
            proof {
                assert(rest[0] == b@[i as int] && rest[1] == b@[i + 1]);
                assert(rest.skip(2) =~= b@.skip(i + 2));
            }
            if d < captures.groups.len() {
                match captures.groups[d] {
                    Some(m) => if m.start <= m.end {
                        proof {
                            assert(captures_view(*captures)[d as int] == Some((m.start as int, m.end as int)));
                        }
                        let lo = byte_offset_vec_pos(&offs, m.start, Ghost(tc@));
                        let hi = byte_offset_vec_pos(&offs, m.end, Ghost(tc@));
                        proof {
                            if lo > hi {
                                crate::syntax::regex::lemma_byte_offset_mono(tc@, hi as int, lo as int);
                            }
                        }
                        let piece = crate::strs::sub_chars(&tc, lo, hi);
                        let ghost before = out@;
                        regex_escape_chars(&mut out, piece.as_slice());
                        proof {
                            assert(out@ == before + spec_regex_escape(group_text(captures_view(*captures), text@, d as int)));
                            assert(out@ + spec_resolve_end(b@.skip(i + 2), captures_view(*captures), text@) =~= before
                                + spec_resolve_end(rest, captures_view(*captures), text@));
                        }
                    } else {
                        assert(out@ + spec_resolve_end(b@.skip(i + 2), captures_view(*captures), text@) =~= out@
                            + spec_resolve_end(rest, captures_view(*captures), text@));
                    },
                    None => {
                        assert(out@ + spec_resolve_end(b@.skip(i + 2), captures_view(*captures), text@) =~= out@
                            + spec_resolve_end(rest, captures_view(*captures), text@));
                    },
                }
            } else {
                assert(out@ + spec_resolve_end(b@.skip(i + 2), captures_view(*captures), text@) =~= out@
                    + spec_resolve_end(rest, captures_view(*captures), text@));
            }
            i = i + 2;
        } else {
            let ghost before = out@;
            out.push(b[i] as char);
            proof {
                assert(rest[0] == b@[i as int]);
                assert(rest.skip(1) =~= b@.skip(i + 1));
                assert(out@ + spec_resolve_end(b@.skip(i + 1), captures_view(*captures), text@) =~= before
                    + spec_resolve_end(rest, captures_view(*captures), text@));
            }
            i = i + 1;
        }
    }
    proof {
        assert(b@.skip(b@.len() as int) =~= Seq::<u8>::empty());
        assert(out@ + Seq::<char>::empty() =~= out@);
    }
    string_from_chars(out.as_slice())
}


// ── Finding the earliest match ────────────────────────────────

/// The whole match of a search with `re` from byte `pos`.
pub open spec fn find_spec(re: Regex, line: Seq<char>, pos: int) -> Option<(int, int)> {
    match spec_captures(re.prog(), re.ngroups(), line, pos) {
        Some(c) => c[0],
        None => None,
    }
}

/// A match of a pattern at `pos` with length `len`, and the groups of the
/// match when the pattern gives scopes to them.
pub struct CandModel {
    pub pos: int,
    pub len: int,
    pub pat: Pattern,
    pub caps: Option<Seq<Option<(int, int)>>>,
}

/// The patterns an include stands for.
pub open spec fn include_target(g: Grammar, t: IncludeTarget) -> Option<Seq<Pattern>> {
    match t {
        IncludeTarget::Repository(k) => spec_find_repository(g.repository@, k@),
        IncludeTarget::SelfRef => Some(g.patterns@),
    }
}

/// Where pattern `p` first matches from `pos`; an include gives the
/// earliest match of its patterns, and includes nest at most nine deep.
pub open spec fn pat_cand(g: Grammar, p: Pattern, line: Seq<char>, pos: int, depth: int) -> Option<
    CandModel,
>
    decreases 9 - depth, 0int, 0int,
{
    if depth > 8 {
        None
    } else {
        match p {
            Pattern::Match { regex, captures, .. } => match find_spec(regex, line, pos) {
                Some(m) => Some(
                    CandModel {
                        pos: m.0,
                        len: m.1 - m.0,
                        pat: p,
                        caps: if captures@.len() == 0 {
                            None
                        } else {
                            spec_captures(regex.prog(), regex.ngroups(), line, pos)
                        },
                    },
                ),
                None => None,
            },
            Pattern::Region { begin, begin_captures, .. } => match find_spec(begin, line, pos) {
                Some(m) => Some(
                    CandModel {
                        pos: m.0,
                        len: m.1 - m.0,
                        pat: p,
                        caps: if begin_captures@.len() == 0 {
                            None
                        } else {
                            spec_captures(begin.prog(), begin.ngroups(), line, pos)
                        },
                    },
                ),
                None => None,
            },
            Pattern::Include(t) => match include_target(g, t) {
                Some(ps) => earliest(g, ps, line, pos, depth + 1),
                None => None,
            },
        }
    }
}

/// `c` beats `best`: it starts earlier, or at the same place and is longer.
pub open spec fn beats(c: CandModel, best: Option<CandModel>) -> bool {
    match best {
        Some(b) => c.pos < b.pos || (c.pos == b.pos && c.len > b.len),
        None => true,
    }
}

/// The earliest match among `pats`: the first to start earliest, the
/// longest among those.
pub open spec fn earliest(g: Grammar, pats: Seq<Pattern>, line: Seq<char>, pos: int, depth: int) -> Option<
    CandModel,
>
    decreases 9 - depth, 1int, pats.len(),
{
    if depth > 8 || pats.len() == 0 {
        None
    } else {
        let best = earliest(g, pats.drop_last(), line, pos, depth);
        match pat_cand(g, pats.last(), line, pos, depth) {
            Some(c) => if beats(c, best) {
                Some(c)
            } else {
                best
            },
            None => best,
        }
    }
}

pub struct MatchCandidate<'a> {
    pub pos: usize,
    pub len: usize,
    pub pat: &'a Pattern,
    pub caps: Option<Captures>,
}

pub open spec fn opt_caps_view(c: Option<Captures>) -> Option<Seq<Option<(int, int)>>> {
    match c {
        Some(x) => Some(captures_view(x)),
        None => None,
    }
}

pub open spec fn cand_view(c: Option<MatchCandidate>) -> Option<CandModel> {
    match c {
        Some(x) => Some(CandModel { pos: x.pos as int, len: x.len as int, pat: *x.pat, caps: opt_caps_view(x.caps) }),
        None => None,
    }
}

/// A candidate lies at or after `pos` within the line, on character
/// boundaries, and its groups start and end on boundaries.
pub open spec fn cand_sane(c: MatchCandidate, line: Seq<char>, pos: int) -> bool {
    &&& pos <= c.pos
    &&& c.pos + c.len <= byte_offset(line, line.len() as int)
    &&& at_boundary(line, c.pos as int)
    &&& at_boundary(line, c.pos + c.len)
    &&& (c.caps matches Some(cc) ==> groups_on_boundaries(captures_view(cc), line))
    &&& !(*c.pat is Include)
}

fn one_candidate<'a>(re: &Regex, scopes_len: usize, p: &'a Pattern, line: &str, pos: usize) -> (r: Option<
    MatchCandidate<'a>,
>)
    requires
        at_boundary(line@, pos as int),
        !(*p is Include),
    ensures
        cand_view(r) == match find_spec(*re, line@, pos as int) {
            Some(m) => Some(
                CandModel {
                    pos: m.0,
                    len: m.1 - m.0,
                    pat: *p,
                    caps: if scopes_len == 0 {
                        None
                    } else {
                        spec_captures(re.prog(), re.ngroups(), line@, pos as int)
                    },
                },
            ),
            None => None,
        },
        r matches Some(c) ==> cand_sane(c, line@, pos as int),
{
    match re.find(line, pos) {
        Some(m) => {
            let caps = if scopes_len == 0 {
                None
            } else {
                let c = re.captures(line, pos);
                proof {
                    if c is Some {
                        let cc = c->0;
                        assert forall|g: int|
                            0 <= g < captures_view(cc).len() && (#[trigger] captures_view(cc)[g]) is Some implies at_boundary(
                            line@,
                            captures_view(cc)[g].unwrap().0,
                        ) && at_boundary(line@, captures_view(cc)[g].unwrap().1) by {
                            assert(cc.groups@[g] is Some);
                        }
                    }
                }
                c
            };
            Some(MatchCandidate { pos: m.start, len: m.end - m.start, pat: p, caps })
        },
        None => None,
    }
}

/// The earliest match among `patterns` from byte `pos`.
pub fn find_earliest_match<'a>(
    g: &'a Grammar,
    patterns: &'a [Pattern],
    line: &str,
    pos: usize,
    depth: usize,
) -> (r: Option<MatchCandidate<'a>>)
    requires
        at_boundary(line@, pos as int),
    ensures
        cand_view(r) == earliest(*g, patterns@, line@, pos as int, depth as int),
        r matches Some(c) ==> cand_sane(c, line@, pos as int),
    decreases 9 - depth, 1int, patterns@.len(),
{
    if depth > 8 {
        return None;
    }
    let mut best: Option<MatchCandidate<'a>> = None;
    let mut i: usize = 0;
    proof {
        assert(patterns@.take(0) =~= Seq::<Pattern>::empty());
    }
    while i < patterns.len()
        invariant
            i <= patterns@.len(),
            depth <= 8,
            at_boundary(line@, pos as int),
            cand_view(best) == earliest(*g, patterns@.take(i as int), line@, pos as int, depth as int),
            best matches Some(c) ==> cand_sane(c, line@, pos as int),
        decreases patterns@.len() - i,
    {
        proof {
            assert(patterns@.take(i + 1).drop_last() =~= patterns@.take(i as int));
            assert(patterns@.take(i + 1).last() == patterns@[i as int]);
        }
        let p = &patterns[i];
        let cand: Option<MatchCandidate<'a>> = match p {
            Pattern::Match { regex, captures, .. } => one_candidate(regex, captures.len(), p, line, pos),
            Pattern::Region { begin, begin_captures, .. } => one_candidate(
                begin,
                begin_captures.len(),
                p,
                line,
                pos,
            ),
            Pattern::Include(t) => {
                let resolved: Option<&'a [Pattern]> = match t {
                    IncludeTarget::Repository(key) => g.find_repository(key.as_str()),
                    IncludeTarget::SelfRef => Some(g.patterns.as_slice()),
                };
                match resolved {
                    Some(pats) => find_earliest_match(g, pats, line, pos, depth + 1),
                    None => None,
                }
            },
        };
        proof {
            assert(cand_view(cand) == pat_cand(*g, patterns@[i as int], line@, pos as int, depth as int));
        }
        match cand {
            Some(c) => {
                let wins = match &best {
                    Some(b) => c.pos < b.pos || (c.pos == b.pos && c.len > b.len),
                    None => true,
                };
                if wins {
                    best = Some(c);
                }
            },
            None => {},
        }
        i = i + 1;
    }
    proof {
        assert(patterns@.take(patterns@.len() as int) =~= patterns@);
    }
    best
}


// ── Capture tokens ────────────────────────────────────────────

pub struct TokModel {
    pub start: int,
    pub end: int,
    pub scopes: Seq<Seq<char>>,
}

pub open spec fn tok_view(t: ScopeToken) -> TokModel {
    TokModel { start: t.start as int, end: t.end as int, scopes: views(t.scopes@) }
}

pub open spec fn toks_view(v: Seq<ScopeToken>) -> Seq<TokModel> {
    v.map_values(|t: ScopeToken| tok_view(t))
}

pub open spec fn str_opt_view(o: Option<&str>) -> Option<Seq<char>> {
    match o {
        Some(s) => Some(s@),
        None => None,
    }
}

/// The groups with a capture scope (other than group 0) that are set and
/// lie within the match, in the order of the scopes.
pub open spec fn cap_regions(
    caps: Seq<Option<(int, int)>>,
    cs: Seq<(usize, Seq<char>)>,
    ms: int,
    me: int,
) -> Seq<(int, int, Seq<char>)>
    decreases cs.len(),
{
    if cs.len() == 0 {
        Seq::empty()
    } else {
        let prev = cap_regions(caps, cs.drop_last(), ms, me);
        let idx = cs.last().0 as int;
        if idx != 0 && idx < caps.len() && caps[idx] is Some && caps[idx].unwrap().0 >= ms
            && caps[idx].unwrap().1 <= me {
            prev.push((caps[idx].unwrap().0, caps[idx].unwrap().1, cs.last().1))
        } else {
            prev
        }
    }
}

/// `x` inserted into `sorted` after every region starting no later.
pub open spec fn insert_by_start(sorted: Seq<(int, int, Seq<char>)>, x: (int, int, Seq<char>)) -> Seq<
    (int, int, Seq<char>),
>
    decreases sorted.len(),
{
    if sorted.len() == 0 {
        seq![x]
    } else if sorted.last().0 <= x.0 {
        sorted.push(x)
    } else {
        insert_by_start(sorted.drop_last(), x).push(sorted.last())
    }
}

/// The regions sorted by start, regions with equal starts in their order.
pub open spec fn sort_by_start(s: Seq<(int, int, Seq<char>)>) -> Seq<(int, int, Seq<char>)>
    decreases s.len(),
{
    if s.len() == 0 {
        Seq::empty()
    } else {
        insert_by_start(sort_by_start(s.drop_last()), s.last())
    }
}

/// The scope of group 0 among the capture scopes, else the match's name.
pub open spec fn cap0_scope(cs: Seq<(usize, Seq<char>)>, overall: Option<Seq<char>>) -> Option<Seq<char>>
    decreases cs.len(),
{
    if cs.len() == 0 {
        overall
    } else if cs[0].0 == 0 {
        Some(cs[0].1)
    } else {
        cap0_scope(cs.drop_first(), overall)
    }
}

/// Tokens for sorted regions from `pos` to the match end `me`: a gap
/// before each region, the region with its scope added, and a gap after
/// the last.
pub open spec fn emit_regions(base: Seq<Seq<char>>, regs: Seq<(int, int, Seq<char>)>, pos: int, me: int) -> Seq<
    TokModel,
>
    decreases regs.len(),
{
    if regs.len() == 0 {
        if pos < me {
            seq![TokModel { start: pos, end: me, scopes: base }]
        } else {
            Seq::empty()
        }
    } else {
        let r = regs[0];
        (if pos < r.0 {
            seq![TokModel { start: pos, end: r.0, scopes: base }]
        } else {
            Seq::empty()
        }) + seq![TokModel { start: r.0, end: r.1, scopes: base + ws_words(r.2) }] + emit_regions(
            base,
            regs.drop_first(),
            r.1,
            me,
        )
    }
}

/// The tokens of a match `ms..me` whose groups have scopes.
pub open spec fn capture_tokens(
    stack: Seq<RegionModel>,
    caps: Seq<Option<(int, int)>>,
    cs: Seq<(usize, Seq<char>)>,
    overall: Option<Seq<char>>,
    ms: int,
    me: int,
) -> Seq<TokModel> {
    let regs = sort_by_start(cap_regions(caps, cs, ms, me));
    let base = stack_scopes(stack) + opt_words(cap0_scope(cs, overall));
    if regs.len() == 0 {
        seq![TokModel { start: ms, end: me, scopes: base }]
    } else {
        emit_regions(base, regs, ms, me)
    }
}

proof fn lemma_insert_by_start(s: Seq<(int, int, Seq<char>)>, x: (int, int, Seq<char>), j: int)
    requires
        0 <= j <= s.len(),
        j == 0 || s[j - 1].0 <= x.0,
        forall|k: int| j <= k < s.len() ==> (#[trigger] s[k]).0 > x.0,
    ensures
        insert_by_start(s, x) == s.insert(j, x),
    decreases s.len(),
{
    if s.len() == 0 {
        assert(s.insert(j, x) =~= seq![x]);
    } else if j == s.len() {
        assert(s.insert(j, x) =~= s.push(x));
    } else {
        assert(s.last().0 > x.0);
        lemma_insert_by_start(s.drop_last(), x, j);
        assert(s.insert(j, x) =~= s.drop_last().insert(j, x).push(s.last()));
    }
}

pub open spec fn regs_view(v: Seq<(usize, usize, usize)>, cs: Seq<(usize, Seq<char>)>) -> Seq<
    (int, int, Seq<char>),
> {
    v.map_values(|r: (usize, usize, usize)| (r.0 as int, r.1 as int, cs[r.2 as int].1))
}

fn push_token(tokens: &mut Vec<ScopeToken>, start: usize, end: usize, scopes: Vec<String>)
    ensures
        toks_view(final(tokens)@) == toks_view(old(tokens)@).push(
            TokModel { start: start as int, end: end as int, scopes: views(scopes@) },
        ),
{
    tokens.push(ScopeToken { start, end, scopes });
    proof {
        assert(toks_view(tokens@) =~= toks_view(old(tokens)@).push(
            TokModel { start: start as int, end: end as int, scopes: views(scopes@) },
        ));
    }
}

/// Push the tokens of a match `match_start..match_end` whose groups have
/// scopes.
pub fn emit_capture_tokens(
    tokens: &mut Vec<ScopeToken>,
    captures: &Captures,
    capture_scopes: &[(usize, String)],
    stack: &[ActiveRegion],
    overall_name: Option<&str>,
    match_start: usize,
    match_end: usize,
)
    ensures
        toks_view(final(tokens)@) == toks_view(old(tokens)@) + capture_tokens(
            stack_view(stack@),
            captures_view(*captures),
            cap_scopes_view(capture_scopes@),
            str_opt_view(overall_name),
            match_start as int,
            match_end as int,
        ),
{
    let ghost caps = captures_view(*captures);
    let ghost csv = cap_scopes_view(capture_scopes@);
    let ghost ms = match_start as int;
    let ghost me = match_end as int;
    // The regions, in the order of the scopes.
    let mut regions: Vec<(usize, usize, usize)> = Vec::new();
    let mut k: usize = 0;
    proof {
        assert(csv.take(0) =~= Seq::<(usize, Seq<char>)>::empty());
        assert(regs_view(regions@, csv) =~= cap_regions(caps, csv.take(0), ms, me));
    }
    while k < capture_scopes.len()
        invariant
            k <= capture_scopes@.len(),
            csv == cap_scopes_view(capture_scopes@),
            caps == captures_view(*captures),
            ms == match_start,
            me == match_end,
            forall|j: int| 0 <= j < regions@.len() ==> (#[trigger] regions@[j]).2 < capture_scopes@.len(),
            regs_view(regions@, csv) == cap_regions(caps, csv.take(k as int), ms, me),
        decreases capture_scopes@.len() - k,
    {
        proof {
            assert(csv.take(k + 1).drop_last() =~= csv.take(k as int));
            assert(csv.take(k + 1).last() == csv[k as int]);
        }
        let idx = capture_scopes[k].0;
        if idx != 0 && idx < captures.groups.len() {
            match captures.groups[idx] {
                Some(m) => {
                    if m.start >= match_start && m.end <= match_end {
                        let ghost before = regs_view(regions@, csv);
                        regions.push((m.start, m.end, k));
                        proof {
                            assert(regs_view(regions@, csv) =~= before.push(
                                (m.start as int, m.end as int, csv[k as int].1),
                            ));
                        }
                    }
                },
                None => {},
            }
        }
        k = k + 1;
    }
    proof {
        assert(csv.take(capture_scopes@.len() as int) =~= csv);
    }
    // Sorted by start, stably.
    let mut sorted: Vec<(usize, usize, usize)> = Vec::new();
    let mut i: usize = 0;
    proof {
        assert(regs_view(regions@, csv).take(0) =~= Seq::<(int, int, Seq<char>)>::empty());
        assert(regs_view(sorted@, csv) =~= sort_by_start(regs_view(regions@, csv).take(0)));
    }
    while i < regions.len()
        invariant
            i <= regions@.len(),
            forall|j: int| 0 <= j < regions@.len() ==> (#[trigger] regions@[j]).2 < capture_scopes@.len(),
            forall|j: int| 0 <= j < sorted@.len() ==> (#[trigger] sorted@[j]).2 < capture_scopes@.len(),
            regs_view(sorted@, csv) == sort_by_start(regs_view(regions@, csv).take(i as int)),
        decreases regions@.len() - i,
    {
        let x = regions[i];
        let mut j = sorted.len();
        while j > 0 && sorted[j - 1].0 > x.0
            invariant
                j <= sorted@.len(),
                forall|k2: int| j <= k2 < sorted@.len() ==> (#[trigger] sorted@[k2]).0 > x.0,
            decreases j,
        {
            j = j - 1;
        }
        let ghost sv = regs_view(sorted@, csv);
        let ghost xv = (x.0 as int, x.1 as int, csv[x.2 as int].1);
        proof {
            lemma_insert_by_start(sv, xv, j as int);
            assert(regs_view(regions@, csv).take(i + 1).drop_last() =~= regs_view(regions@, csv).take(
                i as int,
            ));
            assert(regs_view(regions@, csv).take(i + 1).last() == xv);
        }
        sorted.insert(j, x);
        proof {
            assert(regs_view(sorted@, csv) =~= sv.insert(j as int, xv));
        }
        i = i + 1;
    }
    proof {
        assert(regs_view(regions@, csv).take(regions@.len() as int) =~= regs_view(regions@, csv));
    }
    let ghost regs = regs_view(sorted@, csv);
    // The scope of the whole match.
    let mut cap0: Option<&str> = overall_name;
    let mut q: usize = 0;
    proof {
        assert(csv.skip(0) =~= csv);
    }
    while q < capture_scopes.len()
        invariant_except_break
            cap0 == overall_name,
        invariant
            q <= capture_scopes@.len(),
            csv == cap_scopes_view(capture_scopes@),
            cap0_scope(csv, str_opt_view(overall_name)) == cap0_scope(
                csv.skip(q as int),
                str_opt_view(overall_name),
            ),
        ensures
            str_opt_view(cap0) == cap0_scope(csv, str_opt_view(overall_name)),
        decreases capture_scopes@.len() - q,
    {
        proof {
            assert(csv.skip(q as int)[0] == csv[q as int]);
            assert(csv.skip(q as int).drop_first() =~= csv.skip(q + 1));
        }
        if capture_scopes[q].0 == 0 {
            cap0 = Some(capture_scopes[q].1.as_str());
            break;
        }
        q = q + 1;
    }

    let ghost base = stack_scopes(stack_view(stack@)) + opt_words(cap0_scope(csv, str_opt_view(overall_name)));
    if sorted.len() == 0 {
        let scopes = build_scopes_from_stack(stack, cap0);
        push_token(tokens, match_start, match_end, scopes);
        proof {
            assert(toks_view(tokens@) =~= toks_view(old(tokens)@) + seq![
                TokModel { start: ms, end: me, scopes: base },
            ]);
        }
        return;
    }
    let mut pos = match_start;
    let mut r: usize = 0;
    proof {
        assert(regs.skip(0) =~= regs);
        assert(toks_view(tokens@) + emit_regions(base, regs.skip(0), pos as int, me) =~= toks_view(
            old(tokens)@,
        ) + emit_regions(base, regs, ms, me));
    }
    while r < sorted.len()
        invariant
            r <= sorted@.len(),
            regs == regs_view(sorted@, csv),
            csv == cap_scopes_view(capture_scopes@),
            forall|j: int| 0 <= j < sorted@.len() ==> (#[trigger] sorted@[j]).2 < capture_scopes@.len(),
            str_opt_view(cap0) == cap0_scope(csv, str_opt_view(overall_name)),
            base == stack_scopes(stack_view(stack@)) + opt_words(cap0_scope(csv, str_opt_view(overall_name))),
            me == match_end,
            toks_view(tokens@) + emit_regions(base, regs.skip(r as int), pos as int, me) == toks_view(
                old(tokens)@,
            ) + emit_regions(base, regs, ms, me),
        decreases sorted@.len() - r,
    {
        let (cstart, cend, ci) = sorted[r];
        let ghost before = toks_view(tokens@);
        proof {
            assert(regs.skip(r as int)[0] == regs[r as int]);
            assert(regs.skip(r as int).drop_first() =~= regs.skip(r + 1));
        }
        if pos < cstart {
            let scopes = build_scopes_from_stack(stack, cap0);
            push_token(tokens, pos, cstart, scopes);
        }
        let mut scopes = build_scopes_from_stack(stack, cap0);
        push_scope(&mut scopes, capture_scopes[ci].1.as_str());
        push_token(tokens, cstart, cend, scopes);
        proof {
            let gap: Seq<TokModel> = if pos < cstart {
                seq![TokModel { start: pos as int, end: cstart as int, scopes: base }]
            } else {
                Seq::empty()
            };
            assert(toks_view(tokens@) =~= before + gap + seq![
                TokModel { start: cstart as int, end: cend as int, scopes: base + ws_words(csv[ci as int].1) },
            ]);
        }
        pos = cend;
        r = r + 1;
    }
    proof {
        assert(regs.skip(sorted@.len() as int) =~= Seq::<(int, int, Seq<char>)>::empty());
    }
    if pos < match_end {
        let scopes = build_scopes_from_stack(stack, cap0);
        push_token(tokens, pos, match_end, scopes);
    }
    proof {
        assert(toks_view(tokens@) =~= toks_view(old(tokens)@) + capture_tokens(
            stack_view(stack@),
            caps,
            csv,
            str_opt_view(overall_name),
            ms,
            me,
        ));
    }
}


// ── End patterns of open regions ──────────────────────────────

/// The number of bytes of a line.
pub open spec fn total(line: Seq<char>) -> int {
    byte_offset(line, line.len() as int) as int
}

/// The end pattern `pat` compiled and searched from `pos`: the whole
/// match and the groups. None when the pattern does not compile (or is
/// too long to), or nothing matches.
pub open spec fn end_match(pat: Seq<char>, line: Seq<char>, pos: int) -> Option<
    ((int, int), Option<Seq<Option<(int, int)>>>),
> {
    if encode_utf8(pat).len() > usize::MAX / 2 {
        None
    } else {
        match spec_compile(encode_utf8(pat), pat) {
            Err(_) => None,
            Ok((prog, ng)) => match spec_captures(prog, ng, line, pos) {
                Some(c) => match c[0] {
                    Some(m) => if m.0 < pos {
                        None
                    } else {
                        Some((m, Some(c)))
                    },
                    None => None,
                },
                None => None,
            },
        }
    }
}

/// Compile `pattern` and search it from `pos`.
fn try_compile_and_match(pattern: &str, line: &str, pos: usize) -> (r: Option<(Match, Option<Captures>)>)
    requires
        at_boundary(line@, pos as int),
    ensures
        match r {
            Some((m, c)) => end_match(pattern@, line@, pos as int) == Some(
                ((m.start as int, m.end as int), opt_caps_view(c)),
            ) && pos <= m.start <= m.end <= total(line@) && at_boundary(line@, m.start as int)
                && at_boundary(line@, m.end as int) && (c matches Some(cc) ==> groups_on_boundaries(
                captures_view(cc),
                line@,
            )),
            None => end_match(pattern@, line@, pos as int) is None,
        },
{
    if pattern.as_bytes().len() > usize::MAX / 2 {
        return None;
    }
    let re = match Regex::new(pattern) {
        Ok(r) => r,
        Err(_) => {
            return None;
        },
    };
    let m = match re.find(line, pos) {
        Some(m) => m,
        None => {
            return None;
        },
    };
    if m.start < pos {
        return None;
    }
    let caps = re.captures(line, pos);
    proof {
        if caps is Some {
            let cc = caps->0;
            assert forall|g: int|
                0 <= g < captures_view(cc).len() && (#[trigger] captures_view(cc)[g]) is Some implies at_boundary(
                line@,
                captures_view(cc)[g].unwrap().0,
            ) && at_boundary(line@, captures_view(cc)[g].unwrap().1) by {
                assert(cc.groups@[g] is Some);
            }
        }
    }
    Some((m, caps))
}

// ── The line loop ─────────────────────────────────────────────

pub struct TokState {
    pub pos: int,
    pub stack: Seq<RegionModel>,
    pub toks: Seq<TokModel>,
}

/// The patterns tried at a position: the children of the innermost open
/// region (none when it has no known children), or the grammar's.
pub open spec fn active_patterns(g: Grammar, stack: Seq<RegionModel>) -> Seq<Pattern> {
    if stack.len() > 0 {
        match stack.last().region_id {
            Some(rid) => match spec_region_children(g, rid) {
                Some(ch) => ch,
                None => Seq::empty(),
            },
            None => Seq::empty(),
        }
    } else {
        g.patterns@
    }
}

/// The tokens of a match `ms..me`: per-group tokens when the pattern
/// gives its groups scopes, else one token with the pattern's name.
pub open spec fn match_tokens(
    stack: Seq<RegionModel>,
    name: Option<Seq<char>>,
    cs: Seq<(usize, Seq<char>)>,
    caps: Option<Seq<Option<(int, int)>>>,
    ms: int,
    me: int,
) -> Seq<TokModel> {
    if cs.len() > 0 && caps is Some {
        capture_tokens(stack, caps->0, cs, name, ms, me)
    } else {
        seq![TokModel { start: ms, end: me, scopes: stack_scopes(stack) + opt_words(name) }]
    }
}

/// After an empty match at `st.pos` before the end, one character
/// becomes a token of its own.
pub open spec fn zero_width(line: Seq<char>, st: TokState, len: int) -> TokState {
    if len == 0 && st.pos < total(line) {
        let cl = char_len(line[char_pos_of(line, st.pos)]) as int;
        TokState {
            pos: st.pos + cl,
            stack: st.stack,
            toks: st.toks.push(TokModel { start: st.pos, end: st.pos + cl, scopes: stack_scopes(st.stack) }),
        }
    } else {
        st
    }
}

/// A gap token from `pos` up to `to`, if not empty.
pub open spec fn gap(stack: Seq<RegionModel>, pos: int, to: int) -> Seq<TokModel> {
    if pos < to {
        seq![TokModel { start: pos, end: to, scopes: stack_scopes(stack) }]
    } else {
        Seq::empty()
    }
}

/// A match of pattern `c.pat`: its tokens, and for a region, the region
/// opened with its end pattern's back references resolved.
pub open spec fn cand_step(line: Seq<char>, st: TokState, c: CandModel) -> TokState {
    let me = c.pos + c.len;
    let toks0 = st.toks + gap(st.stack, st.pos, c.pos);
    match c.pat {
        Pattern::Match { name, captures, .. } => zero_width(
            line,
            TokState {
                pos: me,
                stack: st.stack,
                toks: toks0 + match_tokens(st.stack, opt_view(name), cap_scopes_view(captures@), c.caps, c.pos, me),
            },
            c.len,
        ),
        Pattern::Region { id, name, content_name, end_pattern, begin_captures, end_captures, .. } => {
            let resolved = match c.caps {
                Some(cv) => spec_resolve_end(encode_utf8(end_pattern@), cv, line),
                None => end_pattern@,
            };
            let region = RegionModel {
                scope_name: opt_view(name),
                content_name: opt_view(content_name),
                end_pattern: resolved,
                region_id: Some(id),
                begin_end_pos: me,
                end_captures: cap_scopes_view(end_captures@),
            };
            zero_width(
                line,
                TokState {
                    pos: me,
                    stack: st.stack.push(region),
                    toks: toks0 + match_tokens(
                        st.stack,
                        opt_view(name),
                        cap_scopes_view(begin_captures@),
                        c.caps,
                        c.pos,
                        me,
                    ),
                },
                c.len,
            )
        },
        Pattern::Include(_) => st,
    }
}

/// The end of the innermost region found at `es..ee`: the gap before it,
/// the delimiter's tokens (none when empty), and the region closed.
pub open spec fn end_step(st: TokState, em: ((int, int), Option<Seq<Option<(int, int)>>>)) -> TokState {
    let es = em.0.0;
    let ee = em.0.1;
    let region = st.stack.last();
    let rest = st.stack.drop_last();
    let single = seq![TokModel { start: es, end: ee, scopes: stack_scopes(rest) + opt_words(region.scope_name) }];
    let delim = if es < ee {
        if region.end_captures.len() > 0 {
            match em.1 {
                Some(cv) => capture_tokens(rest, cv, region.end_captures, region.scope_name, es, ee),
                None => single,
            }
        } else {
            single
        }
    } else {
        Seq::empty()
    };
    TokState { pos: ee, stack: rest, toks: st.toks + gap(st.stack, st.pos, es) + delim }
}

/// The rest of the line as one token in the current scopes.
pub open spec fn rest_step(line: Seq<char>, st: TokState) -> TokState {
    TokState {
        pos: total(line),
        stack: st.stack,
        toks: st.toks.push(TokModel { start: st.pos, end: total(line), scopes: stack_scopes(st.stack) }),
    }
}

/// One step at `st.pos`: inside a region, its end unless a child pattern
/// matches before it; otherwise the earliest pattern match, or the rest of
/// the line when nothing matches.
pub open spec fn tok_step(g: Grammar, line: Seq<char>, st: TokState) -> TokState {
    let child = earliest(g, active_patterns(g, st.stack), line, st.pos, 0);
    if st.stack.len() > 0 {
        let endr = end_match(st.stack.last().end_pattern, line, st.pos);
        let child_first = match (child, endr) {
            (Some(c), Some(e)) => c.pos < e.0.0,
            _ => false,
        };
        if child_first {
            cand_step(line, st, child->0)
        } else {
            match endr {
                Some(e) => end_step(st, e),
                None => match child {
                    Some(c) => cand_step(line, st, c),
                    None => rest_step(line, st),
                },
            }
        }
    } else {
        match child {
            Some(c) => cand_step(line, st, c),
            None => rest_step(line, st),
        }
    }
}

/// Steps move forward in the line, or close a region in place.
pub open spec fn progress(line: Seq<char>, a: TokState, b: TokState) -> bool {
    &&& b.pos <= total(line)
    &&& (b.pos > a.pos || (b.pos == a.pos && b.stack.len() < a.stack.len()))
}

/// Steps from `st` to the end of the line.
pub open spec fn tok_loop(g: Grammar, line: Seq<char>, st: TokState) -> TokState
    decreases total(line) - st.pos, st.stack.len(),
{
    if st.pos < 0 || st.pos >= total(line) {
        st
    } else {
        let nx = tok_step(g, line, st);
        if progress(line, st, nx) {
            tok_loop(g, line, nx)
        } else {
            nx
        }
    }
}

/// At the end of the line, regions whose end pattern matches there with
/// an empty match close.
pub open spec fn close_eol(line: Seq<char>, stack: Seq<RegionModel>) -> Seq<RegionModel>
    decreases stack.len(),
{
    if stack.len() == 0 {
        stack
    } else {
        match end_match(stack.last().end_pattern, line, total(line)) {
            Some(e) => if e.0.0 == total(line) && e.0.1 == total(line) {
                close_eol(line, stack.drop_last())
            } else {
                stack
            },
            None => stack,
        }
    }
}

/// The tokens of a line and the regions open after it, from the regions
/// open before it.
pub open spec fn spec_tokenize(g: Grammar, line: Seq<char>, stack: Seq<RegionModel>) -> (Seq<TokModel>, Seq<
    RegionModel,
>) {
    let fin = tok_loop(g, line, TokState { pos: 0, stack, toks: Seq::empty() });
    (fin.toks, close_eol(line, fin.stack))
}


/// The tokens of a line tokenized from `stack` (see [`spec_tokenize`]).
pub closed spec fn tokens_of_line(g: Grammar, line: Seq<char>, stack: Seq<RegionModel>) -> Seq<TokModel> {
    spec_tokenize(g, line, stack).0
}

/// The regions open after a line tokenized from `stack` (see
/// [`spec_tokenize`]).
pub closed spec fn stack_after_line(g: Grammar, line: Seq<char>, stack: Seq<RegionModel>) -> Seq<RegionModel> {
    spec_tokenize(g, line, stack).1
}

/// The two parts are those of [`spec_tokenize`].
pub proof fn lemma_tokenize_parts(g: Grammar, line: Seq<char>, stack: Seq<RegionModel>)
    ensures
        spec_tokenize(g, line, stack) == (tokens_of_line(g, line, stack), stack_after_line(g, line, stack)),
{
}

// ── Copies ────────────────────────────────────────────────────

fn clone_opt_string(o: &Option<String>) -> (r: Option<String>)
    ensures
        opt_view(r) == opt_view(*o),
{
    match o {
        Some(s) => Some(s.clone()),
        None => None,
    }
}

fn clone_cap_scopes(v: &Vec<(usize, String)>) -> (r: Vec<(usize, String)>)
    ensures
        cap_scopes_view(r@) == cap_scopes_view(v@),
{
    let mut r: Vec<(usize, String)> = Vec::new();
    let mut i: usize = 0;
    while i < v.len()
        invariant
            i <= v@.len(),
            cap_scopes_view(r@) == cap_scopes_view(v@).take(i as int),
        decreases v@.len() - i,
    {
        let ghost before = cap_scopes_view(r@);
        r.push((v[i].0, v[i].1.clone()));
        proof {
            assert(cap_scopes_view(r@) =~= before.push((v@[i as int].0, v@[i as int].1@)));
            assert(cap_scopes_view(v@).take(i + 1) =~= cap_scopes_view(v@).take(i as int).push(
                (v@[i as int].0, v@[i as int].1@),
            ));
        }
        i = i + 1;
    }
    proof {
        assert(cap_scopes_view(v@).take(v@.len() as int) =~= cap_scopes_view(v@));
    }
    r
}

fn clone_region(a: &ActiveRegion) -> (r: ActiveRegion)
    ensures
        r@ == a@,
{
    ActiveRegion {
        scope_name: clone_opt_string(&a.scope_name),
        content_name: clone_opt_string(&a.content_name),
        end_pattern: a.end_pattern.clone(),
        region_id: a.region_id,
        begin_end_pos: a.begin_end_pos,
        end_captures: clone_cap_scopes(&a.end_captures),
    }
}

pub(crate) fn clone_stack(v: &Vec<ActiveRegion>) -> (r: Vec<ActiveRegion>)
    ensures
        stack_view(r@) == stack_view(v@),
{
    let mut r: Vec<ActiveRegion> = Vec::new();
    let mut i: usize = 0;
    while i < v.len()
        invariant
            i <= v@.len(),
            stack_view(r@) == stack_view(v@).take(i as int),
        decreases v@.len() - i,
    {
        let ghost before = stack_view(r@);
        let c = clone_region(&v[i]);
        r.push(c);
        proof {
            assert(stack_view(r@) =~= before.push(v@[i as int]@));
            assert(stack_view(v@).take(i + 1) =~= stack_view(v@).take(i as int).push(v@[i as int]@));
        }
        i = i + 1;
    }
    proof {
        assert(stack_view(v@).take(v@.len() as int) =~= stack_view(v@));
    }
    r
}

fn opt_as_str(o: &Option<String>) -> (r: Option<&str>)
    ensures
        str_opt_view(r) == opt_view(*o),
{
    match o {
        Some(s) => Some(s.as_str()),
        None => None,
    }
}

// ── The tokenizer ─────────────────────────────────────────────

pub struct Tokenizer<'a> {
    grammar: &'a Grammar,
}

/// Push the tokens of a match `ms..me` of a pattern with `name` whose
/// groups have `scopes`.
fn push_match_tokens(
    tokens: &mut Vec<ScopeToken>,
    stack: &[ActiveRegion],
    name: &Option<String>,
    scopes: &Vec<(usize, String)>,
    caps: &Option<Captures>,
    ms: usize,
    me: usize,
)
    ensures
        toks_view(final(tokens)@) == toks_view(old(tokens)@) + match_tokens(
            stack_view(stack@),
            opt_view(*name),
            cap_scopes_view(scopes@),
            opt_caps_view(*caps),
            ms as int,
            me as int,
        ),
{
    let nm = opt_as_str(name);
    if scopes.len() > 0 && caps.is_some() {
        match caps {
            Some(cc) => emit_capture_tokens(tokens, cc, scopes.as_slice(), stack, nm, ms, me),
            None => {},
        }
    } else {
        let sc = build_scopes_from_stack(stack, nm);
        push_token(tokens, ms, me, sc);
        proof {
            assert(toks_view(tokens@) =~= toks_view(old(tokens)@) + match_tokens(
                stack_view(stack@),
                opt_view(*name),
                cap_scopes_view(scopes@),
                opt_caps_view(*caps),
                ms as int,
                me as int,
            ));
        }
    }
}

fn push_gap(tokens: &mut Vec<ScopeToken>, stack: &[ActiveRegion], pos: usize, to: usize)
    ensures
        toks_view(final(tokens)@) == toks_view(old(tokens)@) + gap(stack_view(stack@), pos as int, to as int),
{
    if pos < to {
        let sc = build_scopes_from_stack(stack, None);
        push_token(tokens, pos, to, sc);
        proof {
            assert(toks_view(tokens@) =~= toks_view(old(tokens)@) + gap(stack_view(stack@), pos as int, to as int));
        }
    } else {
        assert(toks_view(tokens@) =~= toks_view(old(tokens)@) + gap(stack_view(stack@), pos as int, to as int));
    }
}

impl<'a> Tokenizer<'a> {
    pub fn new(grammar: &'a Grammar) -> (t: Tokenizer<'a>)
        ensures
            t.grammar() == *grammar,
    {
        Tokenizer { grammar }
    }

    /// The grammar this tokenizer reads.
    pub closed spec fn grammar(&self) -> Grammar {
        *self.grammar
    }

    /// The patterns to try under `stack`; None for none.
    fn active(&self, stack: &[ActiveRegion]) -> (r: Option<&'a [Pattern]>)
        ensures
            match r {
                Some(p) => p@ == active_patterns(*self.grammar, stack_view(stack@)),
                None => active_patterns(*self.grammar, stack_view(stack@)) == Seq::<Pattern>::empty(),
            },
    {
        if stack.len() > 0 {
            let last = stack.len() - 1;
            proof {
                assert(stack_view(stack@).last() == stack@[last as int]@);
            }
            match stack[last].region_id {
                Some(rid) => self.grammar.find_region_children(rid),
                None => None,
            }
        } else {
            Some(self.grammar.patterns.as_slice())
        }
    }

    /// One step of the line loop at `pos`; the new position.
    #[verifier::rlimit(100)]
    #[verifier::spinoff_prover]
    fn step(
        &self,
        tokens: &mut Vec<ScopeToken>,
        stack: &mut Vec<ActiveRegion>,
        pos: usize,
        line: &str,
        lc: &Vec<char>,
        offs: &Vec<usize>,
        len: usize,
    ) -> (np: usize)
        requires
            lc@ == line@,
            offs@.len() == lc@.len() + 1,
            forall|k: int| 0 <= k <= lc@.len() ==> offs@[k] == byte_offset(lc@, k),
            len == total(line@),
            pos < len,
            at_boundary(line@, pos as int),
        ensures
            ({
                let st = TokState {
                    pos: pos as int,
                    stack: stack_view(old(stack)@),
                    toks: toks_view(old(tokens)@),
                };
                let nx = tok_step(self.grammar(), line@, st);
                &&& np == nx.pos
                &&& stack_view(final(stack)@) == nx.stack
                &&& toks_view(final(tokens)@) == nx.toks
                &&& progress(line@, st, nx)
            }),
            at_boundary(line@, np as int),
    {
        let g = self.grammar;
        let ghost st = TokState { pos: pos as int, stack: stack_view(stack@), toks: toks_view(tokens@) };
        let pats = self.active(stack.as_slice());
        let child = match pats {
            Some(p) => find_earliest_match(g, p, line, pos, 0),
            None => None,
        };
        proof {
            assert(cand_view(child) == earliest(*g, active_patterns(*g, st.stack), line@, pos as int, 0));
        }
        if stack.len() > 0 {
            let last = stack.len() - 1;
            proof {
                assert(st.stack.last() == stack@[last as int]@);
            }
            let endr = try_compile_and_match(stack[last].end_pattern.as_str(), line, pos);
            let child_first = match (&child, &endr) {
                (Some(c), Some((m, _))) => c.pos < m.start,
                _ => false,
            };
            if !child_first {
                match endr {
                    Some((m, ecaps)) => {
                        end_branch(tokens, stack, pos, m, ecaps);
                        return m.end;
                    },
                    None => {
                        if child.is_none() {
                            rest_branch(tokens, stack.as_slice(), pos, len);
                            proof {
                                assert(byte_offset(line@, line@.len() as int) == len as int);
                                assert(at_boundary(line@, len as int));
                            }
                            return len;
                        }
                    },
                }
            }
        }
        match child {
            Some(c) => cand_branch(tokens, stack, pos, c, line, lc, offs, len),
            None => {
                rest_branch(tokens, stack.as_slice(), pos, len);
                proof {
                    assert(byte_offset(line@, line@.len() as int) == len as int);
                    assert(at_boundary(line@, len as int));
                }
                len
            },
        }
    }

    /// The tokens of `line` and the regions open after it, from the regions
    /// open before it.
    #[verifier::rlimit(60)]
    #[verifier::spinoff_prover]
    /// [`Self::tokenize_line`], its result stated by parts.
    pub fn tokenize_parts(&self, line: &str, state: &LineState) -> (r: (Vec<ScopeToken>, LineState))
        ensures
            toks_view(r.0@) == tokens_of_line(self.grammar(), line@, stack_view(state.stack@)),
            stack_view(r.1.stack@) == stack_after_line(self.grammar(), line@, stack_view(state.stack@)),
    {
        self.tokenize_line(line, state)
    }

    pub fn tokenize_line(&self, line: &str, state: &LineState) -> (r: (Vec<ScopeToken>, LineState))
        ensures
            (toks_view(r.0@), stack_view(r.1.stack@)) == spec_tokenize(
                self.grammar(),
                line@,
                stack_view(state.stack@),
            ),
    {
        let lc = chars_of(line);
        let offs = crate::syntax::regex::byte_offsets(line, &lc);
        let len = offs[lc.len()];
        let ghost n = lc@.len();
        proof {
            assert(byte_offset(lc@, 0) == 0);
            assert(byte_offset(lc@, n as int) == len);
        }
        let mut tokens: Vec<ScopeToken> = Vec::new();
        let mut stack = clone_stack(&state.stack);
        let mut pos: usize = 0;
        let ghost target = tok_loop(
            self.grammar(),
            line@,
            TokState { pos: 0, stack: stack_view(state.stack@), toks: Seq::empty() },
        );
        proof {
            assert(toks_view(tokens@) =~= Seq::<TokModel>::empty());
        }
        while pos < len
            invariant
                lc@ == line@,
                n == lc@.len(),
                offs@.len() == n + 1,
                forall|k: int| 0 <= k <= n ==> offs@[k] == byte_offset(lc@, k),
                len == total(line@),
                pos <= len,
                at_boundary(line@, pos as int),
                tok_loop(
                    self.grammar(),
                    line@,
                    TokState { pos: pos as int, stack: stack_view(stack@), toks: toks_view(tokens@) },
                ) == target,
            decreases len - pos, stack@.len(),
        {
            pos = self.step(&mut tokens, &mut stack, pos, line, &lc, &offs, len);
        }
        proof {
            assert(byte_offset(line@, line@.len() as int) == len as int);
            assert(at_boundary(line@, len as int));
        }
        close_at_eol(&mut stack, line, len);
        (tokens, LineState { stack })
    }
}

/// The rest of the line from `pos` as one token.
fn rest_branch(tokens: &mut Vec<ScopeToken>, stack: &[ActiveRegion], pos: usize, len: usize)
    ensures
        toks_view(final(tokens)@) == toks_view(old(tokens)@).push(
            TokModel { start: pos as int, end: len as int, scopes: stack_scopes(stack_view(stack@)) },
        ),
{
    let sc = build_scopes_from_stack(stack, None);
    push_token(tokens, pos, len, sc);
    assert(leaf_words(None) =~= Seq::<Seq<char>>::empty());
    assert(stack_scopes(stack_view(stack@)) + leaf_words(None) =~= stack_scopes(stack_view(stack@)));
}

/// The end of the innermost region found at `m`.
fn end_branch(
    tokens: &mut Vec<ScopeToken>,
    stack: &mut Vec<ActiveRegion>,
    pos: usize,
    m: Match,
    ecaps: Option<Captures>,
)
    requires
        old(stack)@.len() > 0,
    ensures
        ({
            let st = TokState { pos: pos as int, stack: stack_view(old(stack)@), toks: toks_view(old(tokens)@) };
            let nx = end_step(st, ((m.start as int, m.end as int), opt_caps_view(ecaps)));
            &&& stack_view(final(stack)@) == nx.stack
            &&& toks_view(final(tokens)@) == nx.toks
        }),
{
    let ghost st = TokState { pos: pos as int, stack: stack_view(stack@), toks: toks_view(tokens@) };
    push_gap(tokens, stack.as_slice(), pos, m.start);
    let region = stack.pop().unwrap();
    proof {
        assert(stack_view(stack@) =~= st.stack.drop_last());
        assert(region@ == st.stack.last());
    }
    let ghost t1 = toks_view(tokens@);
    if m.start < m.end {
        if region.end_captures.len() > 0 {
            match &ecaps {
                Some(cc) => emit_capture_tokens(
                    tokens,
                    cc,
                    region.end_captures.as_slice(),
                    stack.as_slice(),
                    opt_as_str(&region.scope_name),
                    m.start,
                    m.end,
                ),
                None => {
                    let sc = build_scopes_from_stack_with_popped(stack.as_slice(), &region);
                    push_token(tokens, m.start, m.end, sc);
                },
            }
        } else {
            let sc = build_scopes_from_stack_with_popped(stack.as_slice(), &region);
            push_token(tokens, m.start, m.end, sc);
        }
    }
    proof {
        let e = ((m.start as int, m.end as int), opt_caps_view(ecaps));
        assert(toks_view(tokens@) =~= end_step(st, e).toks);
    }
}

/// A match of the candidate `c`; the new position.
#[verifier::rlimit(40)]
fn cand_branch(
    tokens: &mut Vec<ScopeToken>,
    stack: &mut Vec<ActiveRegion>,
    pos: usize,
    c: MatchCandidate,
    line: &str,
    lc: &Vec<char>,
    offs: &Vec<usize>,
    len: usize,
) -> (np: usize)
    requires
        cand_sane(c, line@, pos as int),
        lc@ == line@,
        offs@.len() == lc@.len() + 1,
        forall|k: int| 0 <= k <= lc@.len() ==> offs@[k] == byte_offset(lc@, k),
        len == total(line@),
        pos < len,
    ensures
        ({
            let st = TokState { pos: pos as int, stack: stack_view(old(stack)@), toks: toks_view(old(tokens)@) };
            let nx = cand_step(line@, st, cand_view(Some(c))->0);
            &&& np == nx.pos
            &&& stack_view(final(stack)@) == nx.stack
            &&& toks_view(final(tokens)@) == nx.toks
        }),
        pos < np <= len,
        at_boundary(line@, np as int),
{
    let ghost st = TokState { pos: pos as int, stack: stack_view(stack@), toks: toks_view(tokens@) };
    push_gap(tokens, stack.as_slice(), pos, c.pos);
    let me = c.pos + c.len;
    match c.pat {
        Pattern::Match { name, captures, .. } => {
            push_match_tokens(tokens, stack.as_slice(), name, captures, &c.caps, c.pos, me);
        },
        Pattern::Region { id, name, content_name, end_pattern, begin_captures, end_captures, .. } => {
            let resolved = match &c.caps {
                Some(cc) => resolve_end_pattern(end_pattern.as_str(), cc, line),
                None => end_pattern.clone(),
            };
            push_match_tokens(tokens, stack.as_slice(), name, begin_captures, &c.caps, c.pos, me);
            let region = ActiveRegion {
                scope_name: clone_opt_string(name),
                content_name: clone_opt_string(content_name),
                end_pattern: resolved,
                region_id: Some(*id),
                begin_end_pos: me,
                end_captures: clone_cap_scopes(end_captures),
            };
            let ghost sv = stack_view(stack@);
            stack.push(region);
            proof {
                assert(stack_view(stack@) =~= sv.push(region@));
            }
        },
        Pattern::Include(_) => {},
    }
    let mut np = me;
    if c.len == 0 && np < len {
        let k = byte_offset_vec_pos(offs, np, Ghost(lc@));
        proof {
            if k == lc@.len() {
                assert(byte_offset(lc@, lc@.len() as int) == len);
            }
        }
        let cl = char_len_exec(lc[k]);
        proof {
            assert(byte_offset(lc@, k + 1) == byte_offset(lc@, k as int) + char_len(lc@[k as int]));
            assert(byte_offset(lc@, k + 1) == np + cl);
            assert(at_boundary(line@, (np + cl) as int));
            lemma_byte_offset_mono_r(lc@, k + 1);
            assert(leaf_words(None) =~= Seq::<Seq<char>>::empty());
        }
        let sc = build_scopes_from_stack(stack.as_slice(), None);
        push_token(tokens, np, np + cl, sc);
        np = np + cl;
    }
    proof {
        if c.len == 0 && me == len {
            assert(np == len);
        }
    }
    np
}

proof fn lemma_byte_offset_mono_r(cs: Seq<char>, k: int)
    requires
        0 <= k <= cs.len(),
    ensures
        byte_offset(cs, k) <= byte_offset(cs, cs.len() as int),
{
    crate::syntax::regex::lemma_byte_offset_mono(cs, k, cs.len() as int);
}

/// Close the regions whose end pattern matches empty at the end of the
/// line.
fn close_at_eol(stack: &mut Vec<ActiveRegion>, line: &str, len: usize)
    requires
        len == total(line@),
        at_boundary(line@, len as int),
    ensures
        stack_view(final(stack)@) == close_eol(line@, stack_view(old(stack)@)),
{
    loop
        invariant
            len == total(line@),
            at_boundary(line@, len as int),
            close_eol(line@, stack_view(stack@)) == close_eol(line@, stack_view(old(stack)@)),
        ensures
            close_eol(line@, stack_view(stack@)) == stack_view(stack@),
            close_eol(line@, stack_view(stack@)) == close_eol(line@, stack_view(old(stack)@)),
        decreases stack@.len(),
    {
        if stack.len() == 0 {
            break;
        }
        let last = stack.len() - 1;
        proof {
            assert(stack_view(stack@).last() == stack@[last as int]@);
        }
        match try_compile_and_match(stack[last].end_pattern.as_str(), line, len) {
            Some((m, _)) => {
                if m.start == len && m.end == len {
                    let ghost sv = stack_view(stack@);
                    stack.pop();
                    proof {
                        assert(stack_view(stack@) =~= sv.drop_last());
                    }
                } else {
                    break;
                }
            },
            None => {
                break;
            },
        }
    }
}

} // verus!

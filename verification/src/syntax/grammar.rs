//! TextMate grammars: patterns that match a line (`match`), regions
//! between a begin and an end pattern (`begin`/`end`), and includes of
//! named pattern lists of the repository or of the whole grammar.
use vstd::prelude::*;
use crate::syntax::regex::{Regex, InstModel};
use crate::syntax::json_parser::{JsonValue, spec_get, jget, jstr};
use crate::syntax::compile::spec_compile;
use crate::strs::parse_usize;
use vstd::utf8::encode_utf8;
use crate::text::chars_of;

verus! {

#[derive(Debug)]
pub struct Grammar {
    pub name: String,
    pub scope_name: String,
    pub file_types: Vec<String>,
    pub patterns: Vec<Pattern>,
    pub repository: Vec<(String, Vec<Pattern>)>,
}

#[derive(Debug)]
pub enum Pattern {
    Match { name: Option<String>, regex: Regex, captures: Vec<(usize, String)> },
    Region {
        id: usize,
        name: Option<String>,
        content_name: Option<String>,
        begin: Regex,
        end_pattern: String,
        begin_captures: Vec<(usize, String)>,
        end_captures: Vec<(usize, String)>,
        patterns: Vec<Pattern>,
    },
    Include(IncludeTarget),
}

#[derive(Debug)]
pub enum IncludeTarget {
    Repository(String),
    SelfRef,
}

fn str_eq(a: &str, b: &str) -> (r: bool)
    ensures
        r == (a@ == b@),
{
    let v = chars_of(a);
    crate::text::chars_eq_str(&v, b)
}

/// The patterns of the first repository entry named `key`.
pub open spec fn spec_find_repository(repo: Seq<(String, Vec<Pattern>)>, key: Seq<char>) -> Option<
    Seq<Pattern>,
>
    decreases repo.len(),
{
    if repo.len() == 0 {
        None
    } else if repo[0].0@ == key {
        Some(repo[0].1@)
    } else {
        spec_find_repository(repo.drop_first(), key)
    }
}

/// The children of the region with `id`, searching depth-first in order.
pub open spec fn search_region(pats: Seq<Pattern>, id: usize) -> Option<Seq<Pattern>>
    decreases pats,
{
    if pats.len() == 0 {
        None
    } else {
        let rest = search_region(pats.drop_first(), id);
        match pats[0] {
            Pattern::Region { id: rid, patterns, .. } => {
                if rid == id {
                    Some(patterns@)
                } else {
                    proof {
                        assert(decreases_to!(pats => pats[0]));
                    }
                    match search_region(patterns@, id) {
                        Some(found) => Some(found),
                        None => rest,
                    }
                }
            },
            _ => rest,
        }
    }
}

/// The children of the region with `id`: in the top-level patterns, then
/// in each repository entry.
pub open spec fn spec_region_children(g: Grammar, id: usize) -> Option<Seq<Pattern>> {
    match search_region(g.patterns@, id) {
        Some(f) => Some(f),
        None => search_repo_regions(g.repository@, id),
    }
}

pub open spec fn search_repo_regions(repo: Seq<(String, Vec<Pattern>)>, id: usize) -> Option<Seq<Pattern>>
    decreases repo.len(),
{
    if repo.len() == 0 {
        None
    } else {
        match search_region(repo[0].1@, id) {
            Some(f) => Some(f),
            None => search_repo_regions(repo.drop_first(), id),
        }
    }
}

fn search_patterns(pats: &[Pattern], id: usize) -> (r: Option<&[Pattern]>)
    ensures
        match r {
            Some(f) => search_region(pats@, id) == Some(f@),
            None => search_region(pats@, id) is None,
        },
    decreases pats@,
{
    let mut i: usize = 0;
    proof {
        assert(pats@.skip(0) =~= pats@);
    }
    while i < pats.len()
        invariant
            i <= pats@.len(),
            search_region(pats@, id) == search_region(pats@.skip(i as int), id),
        decreases pats@.len() - i,
    {
        proof {
            assert(pats@.skip(i as int)[0] == pats@[i as int]);
            assert(pats@.skip(i as int).drop_first() =~= pats@.skip(i + 1));
        }
        match &pats[i] {
            Pattern::Region { id: rid, patterns, .. } => {
                if *rid == id {
                    return Some(patterns.as_slice());
                }
                proof {
                    assert(decreases_to!(pats@ => pats@[i as int]));
                }
                match search_patterns(patterns.as_slice(), id) {
                    Some(found) => {
                        return Some(found);
                    },
                    None => {},
                }
            },
            _ => {},
        }
        i = i + 1;
    }
    proof {
        assert(pats@.skip(pats@.len() as int) =~= Seq::<Pattern>::empty());
    }
    None
}

impl Grammar {
    /// The patterns of the first repository entry named `key`.
    pub fn find_repository(&self, key: &str) -> (r: Option<&[Pattern]>)
        ensures
            match r {
                Some(p) => spec_find_repository(self.repository@, key@) == Some(p@),
                None => spec_find_repository(self.repository@, key@) is None,
            },
    {
        let mut i: usize = 0;
        proof {
            assert(self.repository@.skip(0) =~= self.repository@);
        }
        while i < self.repository.len()
            invariant
                i <= self.repository@.len(),
                spec_find_repository(self.repository@, key@) == spec_find_repository(
                    self.repository@.skip(i as int),
                    key@,
                ),
            decreases self.repository@.len() - i,
        {
            proof {
                assert(self.repository@.skip(i as int)[0] == self.repository@[i as int]);
                assert(self.repository@.skip(i as int).drop_first() =~= self.repository@.skip(i + 1));
            }
            if str_eq(self.repository[i].0.as_str(), key) {
                return Some(self.repository[i].1.as_slice());
            }
            i = i + 1;
        }
        proof {
            assert(self.repository@.skip(self.repository@.len() as int) =~= Seq::<
                (String, Vec<Pattern>),
            >::empty());
        }
        None
    }

    /// The children of the region with `id`, in the top-level patterns or
    /// in the repository.
    pub fn find_region_children(&self, id: usize) -> (r: Option<&[Pattern]>)
        ensures
            match r {
                Some(p) => spec_region_children(*self, id) == Some(p@),
                None => spec_region_children(*self, id) is None,
            },
    {
        match search_patterns(self.patterns.as_slice(), id) {
            Some(f) => {
                return Some(f);
            },
            None => {},
        }
        let mut i: usize = 0;
        proof {
            assert(self.repository@.skip(0) =~= self.repository@);
        }
        while i < self.repository.len()
            invariant
                i <= self.repository@.len(),
                search_region(self.patterns@, id) is None,
                search_repo_regions(self.repository@, id) == search_repo_regions(
                    self.repository@.skip(i as int),
                    id,
                ),
            decreases self.repository@.len() - i,
        {
            proof {
                assert(self.repository@.skip(i as int)[0] == self.repository@[i as int]);
                assert(self.repository@.skip(i as int).drop_first() =~= self.repository@.skip(i + 1));
            }
            match search_patterns(self.repository[i].1.as_slice(), id) {
                Some(f) => {
                    return Some(f);
                },
                None => {},
            }
            i = i + 1;
        }
        proof {
            assert(self.repository@.skip(self.repository@.len() as int) =~= Seq::<
                (String, Vec<Pattern>),
            >::empty());
        }
        None
    }
}


// ── Loading from JSON ─────────────────────────────────────────

pub proof fn lemma_get_smaller(pairs: Seq<(String, JsonValue)>, key: Seq<char>)
    ensures
        spec_get(pairs, key) matches Some(v) ==> decreases_to!(pairs => v),
    decreases pairs.len(),
{
    if pairs.len() > 0 {
        if pairs[0].0@ == key {
            assert(decreases_to!(pairs => pairs[0]));
        } else {
            lemma_get_smaller(pairs.drop_first(), key);
        }
    }
}

/// A regex model: the program and group count a pattern compiles to, when
/// it compiles.
pub open spec fn compiled(s: Seq<char>) -> Option<(Seq<InstModel>, nat)> {
    if encode_utf8(s).len() > usize::MAX / 2 {
        None
    } else {
        match spec_compile(encode_utf8(s), s) {
            Ok(x) => Some(x),
            Err(_) => None,
        }
    }
}

/// A pattern as values: its regexes by their programs.
pub enum PatModel {
    Match {
        name: Option<Seq<char>>,
        regex: (Seq<InstModel>, nat),
        captures: Seq<(usize, Seq<char>)>,
    },
    Region {
        id: usize,
        name: Option<Seq<char>>,
        content_name: Option<Seq<char>>,
        begin: (Seq<InstModel>, nat),
        end_pattern: Seq<char>,
        begin_captures: Seq<(usize, Seq<char>)>,
        end_captures: Seq<(usize, Seq<char>)>,
        patterns: Seq<PatModel>,
    },
    IncludeRepository(Seq<char>),
    IncludeSelf,
}

pub open spec fn str_opt(o: Option<String>) -> Option<Seq<char>> {
    match o {
        Some(s) => Some(s@),
        None => None,
    }
}

pub open spec fn caps_view(v: Seq<(usize, String)>) -> Seq<(usize, Seq<char>)> {
    v.map_values(|p: (usize, String)| (p.0, p.1@))
}

pub open spec fn pat_view(p: Pattern) -> PatModel
    decreases p,
{
    match p {
        Pattern::Match { name, regex, captures } => PatModel::Match {
            name: str_opt(name),
            regex: (regex.prog(), regex.ngroups()),
            captures: caps_view(captures@),
        },
        Pattern::Region { id, name, content_name, begin, end_pattern, begin_captures, end_captures, patterns } =>
            PatModel::Region {
            id,
            name: str_opt(name),
            content_name: str_opt(content_name),
            begin: (begin.prog(), begin.ngroups()),
            end_pattern: end_pattern@,
            begin_captures: caps_view(begin_captures@),
            end_captures: caps_view(end_captures@),
            patterns: pats_view(patterns@),
        },
        Pattern::Include(IncludeTarget::Repository(k)) => PatModel::IncludeRepository(k@),
        Pattern::Include(IncludeTarget::SelfRef) => PatModel::IncludeSelf,
    }
}

pub open spec fn pats_view(s: Seq<Pattern>) -> Seq<PatModel>
    decreases s,
{
    if s.len() == 0 {
        Seq::empty()
    } else {
        pats_view(s.drop_last()).push(pat_view(s.last()))
    }
}

/// The capture scopes of a `captures` object: members whose key is a
/// group number and whose value has a string `name`, sorted by group
/// number, equal numbers in their order. None when absent or not an
/// object.
pub open spec fn spec_parse_captures(j: Option<JsonValue>) -> Option<Seq<(usize, Seq<char>)>> {
    match j {
        Some(JsonValue::Object(o)) => Some(sort_by_idx(capture_members(o@))),
        _ => None,
    }
}

pub open spec fn capture_members(o: Seq<(String, JsonValue)>) -> Seq<(usize, Seq<char>)>
    decreases o.len(),
{
    if o.len() == 0 {
        Seq::empty()
    } else {
        let prev = capture_members(o.drop_last());
        match (parse_usize(o.last().0@), jstr(jget(o.last().1, "name"@))) {
            (Some(idx), Some(name)) => prev.push((idx, name)),
            _ => prev,
        }
    }
}

pub open spec fn insert_by_idx(sorted: Seq<(usize, Seq<char>)>, x: (usize, Seq<char>)) -> Seq<(usize, Seq<char>)>
    decreases sorted.len(),
{
    if sorted.len() == 0 {
        seq![x]
    } else if sorted.last().0 <= x.0 {
        sorted.push(x)
    } else {
        insert_by_idx(sorted.drop_last(), x).push(sorted.last())
    }
}

pub open spec fn sort_by_idx(s: Seq<(usize, Seq<char>)>) -> Seq<(usize, Seq<char>)>
    decreases s.len(),
{
    if s.len() == 0 {
        Seq::empty()
    } else {
        insert_by_idx(sort_by_idx(s.drop_last()), s.last())
    }
}

pub open spec fn or_empty(o: Option<Seq<(usize, Seq<char>)>>) -> Seq<(usize, Seq<char>)> {
    match o {
        Some(v) => v,
        None => Seq::empty(),
    }
}

/// An include target: `$self`, `#key` of the repository, or anything else
/// (another grammar) read as `$self`.
pub open spec fn spec_include(t: Seq<char>) -> PatModel {
    if t == "$self"@ {
        PatModel::IncludeSelf
    } else if t.len() > 0 && t[0] == '#' {
        PatModel::IncludeRepository(t.drop_first())
    } else {
        PatModel::IncludeSelf
    }
}

/// A region's capture scopes under `key`, else under `captures`.
pub open spec fn region_caps(j: JsonValue, key: Seq<char>) -> Option<Seq<(usize, Seq<char>)>> {
    match spec_parse_captures(jget(j, key)) {
        Some(c) => Some(c),
        None => spec_parse_captures(jget(j, "captures"@)),
    }
}

/// The nested patterns of a region object, numbered from `ctr`.
pub open spec fn spec_children(j: JsonValue, ctr: usize) -> (Seq<PatModel>, usize)
    decreases j, 1int,
{
    match jget(j, "patterns"@) {
        Some(JsonValue::Array(a)) => {
            proof {
                if let JsonValue::Object(o) = j {
                    lemma_get_smaller(o@, "patterns"@);
                }
            }
            spec_pattern_array(a@, ctr)
        },
        _ => (Seq::empty(), ctr),
    }
}

/// A region object whose begin regex compiled to `begin`; it takes the
/// number that follows its children's.
pub open spec fn spec_region(j: JsonValue, begin: (Seq<InstModel>, nat), ctr: usize) -> (PatModel, usize)
    decreases j, 2int,
{
    let (children, c2) = spec_children(j, ctr);
    (
        PatModel::Region {
            id: c2,
            name: jstr(jget(j, "name"@)),
            content_name: jstr(jget(j, "contentName"@)),
            begin,
            end_pattern: match jstr(jget(j, "end"@)) {
                Some(e) => e,
                None => Seq::empty(),
            },
            begin_captures: or_empty(region_caps(j, "beginCaptures"@)),
            end_captures: or_empty(region_caps(j, "endCaptures"@)),
            patterns: children,
        },
        crate::syntax::compile::next_addr(c2),
    )
}

/// One pattern object; regions are numbered from `ctr` after their
/// children. A pattern whose regex does not compile is skipped.
pub open spec fn spec_pattern(j: JsonValue, ctr: usize) -> (Option<PatModel>, usize)
    decreases j, 3int,
{
    match jstr(jget(j, "include"@)) {
        Some(t) => (Some(spec_include(t)), ctr),
        None => match jstr(jget(j, "begin"@)) {
            Some(b) => match compiled(b) {
                None => (None, ctr),
                Some(begin) => {
                    let (p, c) = spec_region(j, begin, ctr);
                    (Some(p), c)
                },
            },
            None => match jstr(jget(j, "match"@)) {
                Some(m) => match compiled(m) {
                    None => (None, ctr),
                    Some(regex) => (
                        Some(
                            PatModel::Match {
                                name: jstr(jget(j, "name"@)),
                                regex,
                                captures: or_empty(spec_parse_captures(jget(j, "captures"@))),
                            },
                        ),
                        ctr,
                    ),
                },
                None => (None, ctr),
            },
        },
    }
}

/// The patterns of an array, in order, skipping entries that are not
/// patterns.
pub open spec fn spec_pattern_array(a: Seq<JsonValue>, ctr: usize) -> (Seq<PatModel>, usize)
    decreases a, 0int,
{
    if a.len() == 0 {
        (Seq::empty(), ctr)
    } else {
        let (prev, c1) = spec_pattern_array(a.drop_last(), ctr);
        proof {
            assert(decreases_to!(a => a[a.len() - 1]));
        }
        match spec_pattern(a.last(), c1) {
            (Some(p), c2) => (prev.push(p), c2),
            (None, c2) => (prev, c2),
        }
    }
}


pub open spec fn opt_pat_view(o: Option<Pattern>) -> Option<PatModel> {
    match o {
        Some(p) => Some(pat_view(p)),
        None => None,
    }
}

pub open spec fn opt_caps_view(o: Option<Vec<(usize, String)>>) -> Option<Seq<(usize, Seq<char>)>> {
    match o {
        Some(v) => Some(caps_view(v@)),
        None => None,
    }
}

pub(crate) fn json_str_of<'b>(j: &'b JsonValue, key: &str) -> (r: Option<&'b str>)
    ensures
        match r {
            Some(s) => jstr(jget(*j, key@)) == Some(s@),
            None => jstr(jget(*j, key@)) is None,
        },
{
    match j.get(key) {
        Some(v) => v.as_str(),
        None => None,
    }
}

fn insert_by_idx_exec(sorted: &mut Vec<(usize, String)>, x: (usize, String))
    ensures
        caps_view(final(sorted)@) == insert_by_idx(caps_view(old(sorted)@), (x.0, x.1@)),
{
    let mut j = sorted.len();
    while j > 0 && sorted[j - 1].0 > x.0
        invariant
            j <= sorted@.len(),
            sorted@ == old(sorted)@,
            forall|k: int| j <= k < sorted@.len() ==> (#[trigger] sorted@[k]).0 > x.0,
        decreases j,
    {
        j = j - 1;
    }
    let ghost sv = caps_view(sorted@);
    let ghost xv = (x.0, x.1@);
    proof {
        lemma_insert_by_idx(sv, xv, j as int);
    }
    sorted.insert(j, x);
    proof {
        assert(caps_view(sorted@) =~= sv.insert(j as int, xv));
    }
}

proof fn lemma_insert_by_idx(s: Seq<(usize, Seq<char>)>, x: (usize, Seq<char>), j: int)
    requires
        0 <= j <= s.len(),
        j == 0 || s[j - 1].0 <= x.0,
        forall|k: int| j <= k < s.len() ==> (#[trigger] s[k]).0 > x.0,
    ensures
        insert_by_idx(s, x) == s.insert(j, x),
    decreases s.len(),
{
    if s.len() == 0 {
        assert(s.insert(j, x) =~= seq![x]);
    } else if j == s.len() {
        assert(s.insert(j, x) =~= s.push(x));
    } else {
        lemma_insert_by_idx(s.drop_last(), x, j);
        assert(s.insert(j, x) =~= s.drop_last().insert(j, x).push(s.last()));
    }
}

/// The capture scopes of a `captures` object.
fn parse_captures(j: Option<&JsonValue>) -> (r: Option<Vec<(usize, String)>>)
    ensures
        opt_caps_view(r) == spec_parse_captures(match j {
            Some(x) => Some(*x),
            None => None,
        }),
{
    let obj = match j {
        Some(x) => match x.as_object() {
            Some(o) => o,
            None => {
                return None;
            },
        },
        None => {
            return None;
        },
    };
    let mut members: Vec<(usize, String)> = Vec::new();
    let mut i: usize = 0;
    proof {
        assert(obj@.take(0) =~= Seq::<(String, JsonValue)>::empty());
        assert(caps_view(members@) =~= capture_members(obj@.take(0)));
    }
    while i < obj.len()
        invariant
            i <= obj@.len(),
            caps_view(members@) == capture_members(obj@.take(i as int)),
        decreases obj@.len() - i,
    {
        proof {
            assert(obj@.take(i + 1).drop_last() =~= obj@.take(i as int));
            assert(obj@.take(i + 1).last() == obj@[i as int]);
        }
        let key = chars_of(obj[i].0.as_str());
        match crate::strs::parse_usize_exec(&key) {
            Some(idx) => match json_str_of(&obj[i].1, "name") {
                Some(name) => {
                    let ghost before = caps_view(members@);
                    members.push((idx, name.to_owned()));
                    proof {
                        assert(caps_view(members@) =~= before.push((idx, name@)));
                    }
                },
                None => {},
            },
            None => {},
        }
        i = i + 1;
    }
    proof {
        assert(obj@.take(obj@.len() as int) =~= obj@);
    }
    let mut sorted: Vec<(usize, String)> = Vec::new();
    let mut k: usize = 0;
    proof {
        assert(caps_view(members@).take(0) =~= Seq::<(usize, Seq<char>)>::empty());
        assert(caps_view(sorted@) =~= sort_by_idx(caps_view(members@).take(0)));
    }
    while k < members.len()
        invariant
            k <= members@.len(),
            caps_view(sorted@) == sort_by_idx(caps_view(members@).take(k as int)),
        decreases members@.len() - k,
    {
        proof {
            assert(caps_view(members@).take(k + 1).drop_last() =~= caps_view(members@).take(k as int));
            assert(caps_view(members@).take(k + 1).last() == (members@[k as int].0, members@[k as int].1@));
        }
        let x = (members[k].0, members[k].1.clone());
        insert_by_idx_exec(&mut sorted, x);
        k = k + 1;
    }
    proof {
        assert(caps_view(members@).take(members@.len() as int) =~= caps_view(members@));
    }
    Some(sorted)
}

fn parse_include(target: &str) -> (p: Pattern)
    ensures
        pat_view(p) == spec_include(target@),
{
    let t = chars_of(target);
    if crate::text::chars_eq_str(&t, "$self") {
        Pattern::Include(IncludeTarget::SelfRef)
    } else if t.len() > 0 && t[0] == '#' {
        let rest = crate::strs::sub_chars(&t, 1, t.len());
        proof {
            assert(rest@ =~= t@.drop_first());
        }
        Pattern::Include(IncludeTarget::Repository(crate::text::string_from_chars(rest.as_slice())))
    } else {
        Pattern::Include(IncludeTarget::SelfRef)
    }
}

fn compile_opt(s: &str) -> (r: Option<Regex>)
    ensures
        match r {
            Some(re) => compiled(s@) == Some((re.prog(), re.ngroups())),
            None => compiled(s@) is None,
        },
{
    if s.as_bytes().len() > usize::MAX / 2 {
        return None;
    }
    match Regex::new(s) {
        Ok(re) => Some(re),
        Err(_) => None,
    }
}

fn next_id(c: usize) -> (r: usize)
    ensures
        r == crate::syntax::compile::next_addr(c),
{
    if c == usize::MAX {
        0
    } else {
        c + 1
    }
}

fn region_caps_exec(j: &JsonValue, key: &str) -> (r: Vec<(usize, String)>)
    ensures
        caps_view(r@) == or_empty(region_caps(*j, key@)),
{
    let c = match parse_captures(j.get(key)) {
        Some(c) => Some(c),
        None => parse_captures(j.get("captures")),
    };
    match c {
        Some(c) => c,
        None => {
            let e: Vec<(usize, String)> = Vec::new();
            proof {
                assert(caps_view(e@) =~= Seq::<(usize, Seq<char>)>::empty());
            }
            e
        },
    }
}

fn opt_owned(s: Option<&str>) -> (r: Option<String>)
    ensures
        str_opt(r) == match s {
            Some(x) => Some(x@),
            None => None::<Seq<char>>,
        },
{
    match s {
        Some(x) => Some(x.to_owned()),
        None => None,
    }
}

fn parse_children(j: &JsonValue, ctr: usize) -> (r: (Vec<Pattern>, usize))
    ensures
        (pats_view(r.0@), r.1) == spec_children(*j, ctr),
    decreases *j, 1int,
{
    match j.get("patterns") {
        Some(v) => match v {
            JsonValue::Array(a) => {
                proof {
                    if let JsonValue::Object(o) = j {
                        lemma_get_smaller(o@, "patterns"@);
                    }
                }
                parse_pattern_array(a.as_slice(), ctr)
            },
            _ => {
                let e: Vec<Pattern> = Vec::new();
                proof {
                    assert(pats_view(e@) =~= Seq::<PatModel>::empty());
                }
                (e, ctr)
            },
        },
        None => {
            let e: Vec<Pattern> = Vec::new();
            proof {
                assert(pats_view(e@) =~= Seq::<PatModel>::empty());
            }
            (e, ctr)
        },
    }
}

fn parse_region(j: &JsonValue, begin: Regex, ctr: usize) -> (r: (Pattern, usize))
    ensures
        (pat_view(r.0), r.1) == spec_region(*j, (begin.prog(), begin.ngroups()), ctr),
    decreases *j, 2int,
{
    let end_pattern = match json_str_of(j, "end") {
        Some(e) => e.to_owned(),
        None => {
            proof {
                reveal_strlit("");
            }
            "".to_owned()
        },
    };
    let begin_captures = region_caps_exec(j, "beginCaptures");
    let end_captures = region_caps_exec(j, "endCaptures");
    let (patterns, c2) = parse_children(j, ctr);
    let name = opt_owned(json_str_of(j, "name"));
    let content_name = opt_owned(json_str_of(j, "contentName"));
    let p = Pattern::Region {
        id: c2,
        name,
        content_name,
        begin,
        end_pattern,
        begin_captures,
        end_captures,
        patterns,
    };
    proof {
        let ghost end_v: Seq<char> = match jstr(jget(*j, "end"@)) {
            Some(e) => e,
            None => Seq::empty(),
        };
        assert(end_pattern@ == end_v);
        assert(pat_view(p) == spec_region(*j, (begin.prog(), begin.ngroups()), ctr).0);
    }
    (p, next_id(c2))
}

/// One pattern object.
fn parse_pattern(j: &JsonValue, ctr: usize) -> (r: (Option<Pattern>, usize))
    ensures
        (opt_pat_view(r.0), r.1) == spec_pattern(*j, ctr),
    decreases *j, 3int,
{
    match json_str_of(j, "include") {
        Some(t) => {
            return (Some(parse_include(t)), ctr);
        },
        None => {},
    }
    match json_str_of(j, "begin") {
        Some(b) => {
            return match compile_opt(b) {
                Some(re) => {
                    let (p, c) = parse_region(j, re, ctr);
                    (Some(p), c)
                },
                None => (None, ctr),
            };
        },
        None => {},
    }
    match json_str_of(j, "match") {
        Some(m) => {
            let regex = match compile_opt(m) {
                Some(re) => re,
                None => {
                    return (None, ctr);
                },
            };
            let name = opt_owned(json_str_of(j, "name"));
            let captures = match parse_captures(j.get("captures")) {
                Some(c) => c,
                None => {
                    let e: Vec<(usize, String)> = Vec::new();
                    proof {
                        assert(caps_view(e@) =~= Seq::<(usize, Seq<char>)>::empty());
                    }
                    e
                },
            };
            (Some(Pattern::Match { name, regex, captures }), ctr)
        },
        None => (None, ctr),
    }
}

/// The patterns of an array.
fn parse_pattern_array(a: &[JsonValue], ctr: usize) -> (r: (Vec<Pattern>, usize))
    ensures
        (pats_view(r.0@), r.1) == spec_pattern_array(a@, ctr),
    decreases a@, 0int,
{
    let mut out: Vec<Pattern> = Vec::new();
    let mut c = ctr;
    let mut i: usize = 0;
    proof {
        assert(a@.take(0) =~= Seq::<JsonValue>::empty());
        assert(pats_view(out@) =~= Seq::<PatModel>::empty());
    }
    while i < a.len()
        invariant
            i <= a@.len(),
            (pats_view(out@), c) == spec_pattern_array(a@.take(i as int), ctr),
        decreases a@.len() - i,
    {
        proof {
            assert(a@.take(i + 1).drop_last() =~= a@.take(i as int));
            assert(a@.take(i + 1).last() == a@[i as int]);
            assert(decreases_to!(a@ => a@[i as int]));
        }
        let (p, c2) = parse_pattern(&a[i], c);
        match p {
            Some(pat) => {
                let ghost olds = out@;
                out.push(pat);
                proof {
                    assert(out@.drop_last() =~= olds);
                    assert(pats_view(out@) == pats_view(olds).push(pat_view(out@.last())));
                }
            },
            None => {},
        }
        c = c2;
        i = i + 1;
    }
    proof {
        assert(a@.take(a@.len() as int) =~= a@);
    }
    (out, c)
}


/// A repository entry: a `patterns` array, or one pattern object.
pub open spec fn spec_repo_entry(j: JsonValue, ctr: usize) -> (Seq<PatModel>, usize) {
    match jget(j, "patterns"@) {
        Some(JsonValue::Array(a)) => spec_pattern_array(a@, ctr),
        _ => match spec_pattern(j, ctr) {
            (Some(p), c) => (seq![p], c),
            (None, c) => (Seq::empty(), c),
        },
    }
}

/// The repository entries in order, numbered from `ctr`.
pub open spec fn spec_repository(pairs: Seq<(String, JsonValue)>, ctr: usize) -> (
    Seq<(Seq<char>, Seq<PatModel>)>,
    usize,
)
    decreases pairs.len(),
{
    if pairs.len() == 0 {
        (Seq::empty(), ctr)
    } else {
        let (prev, c1) = spec_repository(pairs.drop_last(), ctr);
        let (e, c2) = spec_repo_entry(pairs.last().1, c1);
        (prev.push((pairs.last().0@, e)), c2)
    }
}

/// The strings of an array, skipping other values.
pub open spec fn str_items(a: Seq<JsonValue>) -> Seq<Seq<char>>
    decreases a.len(),
{
    if a.len() == 0 {
        Seq::empty()
    } else {
        match a.last() {
            JsonValue::String(s) => str_items(a.drop_last()).push(s@),
            _ => str_items(a.drop_last()),
        }
    }
}

/// A grammar as values.
pub struct GrammarModel {
    pub name: Seq<char>,
    pub scope_name: Seq<char>,
    pub file_types: Seq<Seq<char>>,
    pub patterns: Seq<PatModel>,
    pub repository: Seq<(Seq<char>, Seq<PatModel>)>,
}

pub open spec fn repo_view(r: Seq<(String, Vec<Pattern>)>) -> Seq<(Seq<char>, Seq<PatModel>)> {
    r.map_values(|e: (String, Vec<Pattern>)| (e.0@, pats_view(e.1@)))
}

pub open spec fn grammar_view(g: Grammar) -> GrammarModel {
    GrammarModel {
        name: g.name@,
        scope_name: g.scope_name@,
        file_types: g.file_types@.map_values(|s: String| s@),
        patterns: pats_view(g.patterns@),
        repository: repo_view(g.repository@),
    }
}

/// The grammar a JSON document describes: `scopeName` is required; `name`
/// defaults to it; the repository is read before the top-level patterns,
/// and region ids are numbered from 0 in that order.
pub open spec fn spec_from_json(j: JsonValue) -> Result<GrammarModel, Seq<char>> {
    match jstr(jget(j, "scopeName"@)) {
        None => Err("Grammar missing required 'scopeName' field"@),
        Some(scope) => {
            let (repo, c) = match jget(j, "repository"@) {
                Some(JsonValue::Object(o)) => spec_repository(o@, 0),
                _ => (Seq::empty(), 0usize),
            };
            Ok(
                GrammarModel {
                    name: match jstr(jget(j, "name"@)) {
                        Some(n) => n,
                        None => scope,
                    },
                    scope_name: scope,
                    file_types: match jget(j, "fileTypes"@) {
                        Some(JsonValue::Array(a)) => str_items(a@),
                        _ => Seq::empty(),
                    },
                    patterns: match jget(j, "patterns"@) {
                        Some(JsonValue::Array(a)) => spec_pattern_array(a@, c).0,
                        _ => Seq::empty(),
                    },
                    repository: repo,
                },
            )
        },
    }
}

fn singleton(p: Option<Pattern>) -> (r: Vec<Pattern>)
    ensures
        pats_view(r@) == match opt_pat_view(p) {
            Some(q) => seq![q],
            None => Seq::<PatModel>::empty(),
        },
{
    let mut out: Vec<Pattern> = Vec::new();
    match p {
        Some(pat) => {
            out.push(pat);
            proof {
                assert(out@.drop_last() =~= Seq::<Pattern>::empty());
                assert(pats_view(Seq::<Pattern>::empty()) =~= Seq::<PatModel>::empty());
                assert(pats_view(out@) =~= seq![pat_view(out@[0])]);
            }
        },
        None => {
            proof {
                assert(pats_view(out@) =~= Seq::<PatModel>::empty());
            }
        },
    }
    out
}

fn parse_repo_entry(j: &JsonValue, ctr: usize) -> (r: (Vec<Pattern>, usize))
    ensures
        (pats_view(r.0@), r.1) == spec_repo_entry(*j, ctr),
{
    match j.get("patterns") {
        Some(v) => match v {
            JsonValue::Array(a) => {
                return parse_pattern_array(a.as_slice(), ctr);
            },
            _ => {},
        },
        None => {},
    }
    let (p, c) = parse_pattern(j, ctr);
    (singleton(p), c)
}

fn parse_repository(pairs: &[(String, JsonValue)]) -> (r: (Vec<(String, Vec<Pattern>)>, usize))
    ensures
        (repo_view(r.0@), r.1) == spec_repository(pairs@, 0),
{
    let mut out: Vec<(String, Vec<Pattern>)> = Vec::new();
    let mut c: usize = 0;
    let mut i: usize = 0;
    proof {
        assert(pairs@.take(0) =~= Seq::<(String, JsonValue)>::empty());
        assert(repo_view(out@) =~= Seq::<(Seq<char>, Seq<PatModel>)>::empty());
    }
    while i < pairs.len()
        invariant
            i <= pairs@.len(),
            (repo_view(out@), c) == spec_repository(pairs@.take(i as int), 0),
        decreases pairs@.len() - i,
    {
        proof {
            assert(pairs@.take(i + 1).drop_last() =~= pairs@.take(i as int));
            assert(pairs@.take(i + 1).last() == pairs@[i as int]);
        }
        let (e, c2) = parse_repo_entry(&pairs[i].1, c);
        let key = pairs[i].0.clone();
        let ghost olds = out@;
        out.push((key, e));
        proof {
            assert(repo_view(out@) =~= repo_view(olds).push((pairs@[i as int].0@, pats_view(e@))));
        }
        c = c2;
        i = i + 1;
    }
    proof {
        assert(pairs@.take(pairs@.len() as int) =~= pairs@);
    }
    (out, c)
}

pub(crate) fn parse_str_items(a: &[JsonValue]) -> (r: Vec<String>)
    ensures
        r@.map_values(|s: String| s@) == str_items(a@),
{
    let mut out: Vec<String> = Vec::new();
    let mut i: usize = 0;
    proof {
        assert(a@.take(0) =~= Seq::<JsonValue>::empty());
        assert(out@.map_values(|s: String| s@) =~= Seq::<Seq<char>>::empty());
    }
    while i < a.len()
        invariant
            i <= a@.len(),
            out@.map_values(|s: String| s@) == str_items(a@.take(i as int)),
        decreases a@.len() - i,
    {
        proof {
            assert(a@.take(i + 1).drop_last() =~= a@.take(i as int));
            assert(a@.take(i + 1).last() == a@[i as int]);
        }
        match a[i].as_str() {
            Some(s) => {
                let ghost olds = out@;
                out.push(s.to_owned());
                proof {
                    assert(out@.map_values(|s: String| s@) =~= olds.map_values(|s: String| s@).push(s@));
                }
            },
            None => {},
        }
        i = i + 1;
    }
    proof {
        assert(a@.take(a@.len() as int) =~= a@);
    }
    out
}

impl Grammar {
    /// Loads a grammar from its JSON document; fails only when
    /// `scopeName` is missing. Regexes that do not compile leave their
    /// pattern out.
    pub fn from_json(json: &JsonValue) -> (r: Result<Grammar, String>)
        ensures
            match r {
                Ok(g) => spec_from_json(*json) == Ok::<GrammarModel, Seq<char>>(grammar_view(g)),
                Err(e) => spec_from_json(*json) == Err::<GrammarModel, Seq<char>>(e@),
            },
    {
        let scope_name = match json_str_of(json, "scopeName") {
            Some(s) => s.to_owned(),
            None => {
                return Err("Grammar missing required 'scopeName' field".to_owned());
            },
        };
        let name = match json_str_of(json, "name") {
            Some(n) => n.to_owned(),
            None => scope_name.clone(),
        };
        let file_types = match json.get("fileTypes") {
            Some(v) => match v.as_array() {
                Some(a) => parse_str_items(a),
                None => Vec::new(),
            },
            None => Vec::new(),
        };
        let (repository, c) = match json.get("repository") {
            Some(v) => match v.as_object() {
                Some(o) => parse_repository(o),
                None => (Vec::new(), 0),
            },
            None => (Vec::new(), 0),
        };
        let patterns = match json.get("patterns") {
            Some(v) => match v.as_array() {
                Some(a) => parse_pattern_array(a, c).0,
                None => Vec::new(),
            },
            None => Vec::new(),
        };
        let g = Grammar { name, scope_name, file_types, patterns, repository };
        proof {
            assert(g.file_types@.map_values(|s: String| s@) == match jget(*json, "fileTypes"@) {
                Some(JsonValue::Array(a)) => str_items(a@),
                _ => Seq::<Seq<char>>::empty(),
            });
            assert(pats_view(g.patterns@) == match jget(*json, "patterns"@) {
                Some(JsonValue::Array(a)) => spec_pattern_array(a@, c).0,
                _ => Seq::<PatModel>::empty(),
            });
            assert(repo_view(g.repository@) =~= match jget(*json, "repository"@) {
                Some(JsonValue::Object(o)) => spec_repository(o@, 0).0,
                _ => Seq::<(Seq<char>, Seq<PatModel>)>::empty(),
            });
        }
        Ok(g)
    }
}

} // verus!

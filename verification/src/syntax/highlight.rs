//! From tokens to colors: styled spans of a line, the lookups the
//! renderer makes in them, and the scopes of LSP semantic tokens.
use vstd::prelude::*;
use crate::render::Color;
use crate::text::{chars_of, chars_eq_str};
use crate::paths::{path_extension, path_extension_of};
use crate::syntax::json_parser::{JsonValue, jget};
use crate::text::{to_lower, str_to_lowercase};
use crate::vsix_import::{ends_with, str_array};
use crate::syntax::grammar::Grammar;
use crate::syntax::theme::{Theme, resolve_texts, lemma_resolve_texts};
use crate::syntax::tokenizer::{
    LineState, ScopeToken, Tokenizer, TokModel, RegionModel, stack_view, toks_view, clone_stack, views,
    tokens_of_line, stack_after_line,
};
use crate::strs::{starts_with, starts_with_str};

verus! {

// ── Types ────────────────────────────────────────────────────

pub struct StyledSpan {
    /// Byte offsets in the line.
    pub start: usize,
    pub end: usize,
    pub fg: Color,
    pub bold: bool,
    /// Inside a `string.*` or `comment.*` scope: semantic tokens do not
    /// recolor it.
    pub is_string_or_comment: bool,
}

/// A semantic token span of one line, its color already resolved.
pub struct SemanticSpan {
    pub line: u32,
    /// Character columns, end exclusive.
    pub start_char: u32,
    pub end_char: u32,
    pub fg: Color,
    pub bold: bool,
}

/// A language the editor knows: its name, file extensions, grammar file
/// and line-comment prefix.
pub struct LanguageDef {
    pub name: String,
    pub extensions: Vec<String>,
    pub grammar_file: String,
    pub comment: Option<String>,
}

/// The language a user grammar file defines: named by the file's name
/// without `.tmLanguage.json`, lowercased, for the extensions listed in
/// its `fileTypes`; none for other files or when it lists none.
pub open spec fn spec_user_language(file_name: Seq<char>, grammar: JsonValue) -> Option<(Seq<char>, Seq<Seq<char>>)> {
    if !ends_with(file_name, ".tmLanguage.json"@) {
        None
    } else {
        let exts = str_array(jget(grammar, "fileTypes"@));
        if exts.len() == 0 {
            None
        } else {
            Some((to_lower(file_name.take(file_name.len() - ".tmLanguage.json"@.len())), exts))
        }
    }
}

/// The language definition for a user grammar file, given its name and
/// parsed contents (see [`spec_user_language`]).
pub fn language_from_grammar(file_name: &str, grammar: &JsonValue) -> (r: Option<LanguageDef>)
    ensures
        match r {
            Some(l) => spec_user_language(file_name@, *grammar) == Some(
                (l.name@, l.extensions@.map_values(|s: String| s@)),
            ) && l.grammar_file@ == file_name@ && l.comment is None,
            None => spec_user_language(file_name@, *grammar) is None,
        },
{
    let v = chars_of(file_name);
    proof {
        reveal_strlit(".tmLanguage.json");
    }
    if !crate::vsix_import::ends_with_exec(&v, ".tmLanguage.json") {
        return None;
    }
    let extensions = match grammar.get("fileTypes") {
        Some(JsonValue::Array(a)) => crate::syntax::grammar::parse_str_items(a.as_slice()),
        _ => Vec::new(),
    };
    proof {
        if extensions@.len() == 0 {
            assert(extensions@.map_values(|s: String| s@).len() == 0);
        }
    }
    if extensions.len() == 0 {
        return None;
    }
    let cut = v.len() - 16;
    let stem = crate::text::string_from_chars(crate::strs::sub_chars(&v, 0, cut).as_slice());
    proof {
        assert(stem@ =~= file_name@.take(file_name@.len() - ".tmLanguage.json"@.len()));
    }
    let name = str_to_lowercase(stem.as_str());
    Some(LanguageDef { name, extensions, grammar_file: file_name.to_owned(), comment: None })
}

// ── Highlighter ──────────────────────────────────────────────

/// A buffer's highlighter: the grammar and theme, and the region stack
/// after each line, cached; lines before `valid_until` are up to date.
pub struct Highlighter {
    pub grammar: Grammar,
    pub theme: Theme,
    lang: Option<String>,
    line_states: Vec<LineState>,
    valid_until: usize,
}

/// A scope that is a string or a comment.
pub open spec fn string_or_comment(scopes: Seq<Seq<char>>) -> bool {
    exists|i: int| 0 <= i < scopes.len() && (starts_with(#[trigger] scopes[i], "string"@) || starts_with(scopes[i], "comment"@))
}

/// A styled span as values: start, end, color, bold, string or comment.
pub open spec fn span_view(s: StyledSpan) -> (int, int, Color, bool, bool) {
    (s.start as int, s.end as int, s.fg, s.bold, s.is_string_or_comment)
}

/// The styled span of a token under a theme.
pub open spec fn span_of(theme: Theme, t: TokModel) -> (int, int, Color, bool, bool) {
    let b = resolve_texts(theme.token_rules@, t.scopes);
    (t.start, t.end, b.fg, b.bold, string_or_comment(t.scopes))
}

/// The region stack after a line whose text the caller gave (none: the
/// line does not exist, and nothing is open after it).
pub open spec fn next_state(g: Grammar, text: Option<String>, prev: Seq<RegionModel>) -> Seq<RegionModel> {
    match text {
        Some(t) => stack_after_line(g, t@, prev),
        None => Seq::empty(),
    }
}

fn string_or_comment_exec(scopes: &Vec<String>) -> (b: bool)
    ensures
        b == string_or_comment(views(scopes@)),
{
    let mut i: usize = 0;
    while i < scopes.len()
        invariant
            i <= scopes@.len(),
            forall|j: int| 0 <= j < i ==> !(starts_with(#[trigger] views(scopes@)[j], "string"@) || starts_with(views(scopes@)[j], "comment"@)),
        decreases scopes@.len() - i,
    {
        let v = chars_of(scopes[i].as_str());
        if starts_with_str(&v, "string") || starts_with_str(&v, "comment") {
            proof {
                assert(views(scopes@)[i as int] == scopes@[i as int]@);
            }
            return true;
        }
        i = i + 1;
    }
    false
}

impl Highlighter {
    pub closed spec fn grammar_spec(&self) -> Grammar {
        self.grammar
    }

    pub closed spec fn theme_spec(&self) -> Theme {
        self.theme
    }

    pub closed spec fn states(&self) -> Seq<Seq<RegionModel>> {
        self.line_states@.map_values(|s: LineState| stack_view(s.stack@))
    }

    pub closed spec fn valid(&self) -> nat {
        self.valid_until as nat
    }

    pub closed spec fn lang(&self) -> Option<Seq<char>> {
        match self.lang {
            Some(s) => Some(s@),
            None => None,
        }
    }

    /// The cache is no longer than the lines it was computed for.
    pub closed spec fn wf(&self) -> bool {
        self.valid_until <= self.line_states@.len()
    }

    pub fn new(grammar: Grammar, theme: Theme) -> (h: Highlighter)
        ensures
            h.wf(),
            h.grammar_spec() == grammar,
            h.theme_spec() == theme,
            h.lang() is None,
            h.states().len() == 0,
            h.valid() == 0,
    {
        let h = Highlighter { grammar, theme, lang: None, line_states: Vec::new(), valid_until: 0 };
        proof {
            assert(h.states() =~= Seq::<Seq<RegionModel>>::empty());
        }
        h
    }

    pub fn with_lang(self, lang: &str) -> (h: Highlighter)
        requires
            self.wf(),
        ensures
            h.wf(),
            h.lang() == Some(lang@),
            h.grammar_spec() == self.grammar_spec(),
            h.theme_spec() == self.theme_spec(),
            h.states() == self.states(),
            h.valid() == self.valid(),
    {
        let mut h = self;
        h.lang = Some(lang.to_owned());
        h
    }

    pub fn language(&self) -> (r: Option<&str>)
        ensures
            match r {
                Some(s) => self.lang() == Some(s@),
                None => self.lang() is None,
            },
    {
        match &self.lang {
            Some(s) => Some(s.as_str()),
            None => None,
        }
    }

    /// Forgets the cached states from `line` on.
    pub fn invalidate_from(&mut self, line: usize)
        requires
            old(self).wf(),
        ensures
            final(self).wf(),
            final(self).grammar_spec() == old(self).grammar_spec(),
            final(self).theme_spec() == old(self).theme_spec(),
            final(self).lang() == old(self).lang(),
            final(self).valid() == if line < old(self).valid() { line as nat } else { old(self).valid() },
            final(self).states() == if line < old(self).states().len() { old(self).states().take(line as int) } else { old(self).states() },
    {
        if line < self.valid_until {
            self.valid_until = line;
        }
        let ghost before = self.states();
        self.line_states.truncate(line);
        proof {
            if line < before.len() {
                assert(self.states() =~= before.take(line as int));
            } else {
                assert(self.states() =~= before);
            }
        }
    }

    /// The region stack after line `line - 1` (none open before line 0).
    fn state_before(&self, line: usize) -> (r: Vec<crate::syntax::tokenizer::ActiveRegion>)
        requires
            line == 0 || line - 1 < self.states().len(),
        ensures
            stack_view(r@) == if line == 0 { Seq::<RegionModel>::empty() } else { self.states()[line - 1] },
    {
        if line == 0 {
            let v: Vec<crate::syntax::tokenizer::ActiveRegion> = Vec::new();
            proof {
                assert(stack_view(v@) =~= Seq::<RegionModel>::empty());
            }
            v
        } else {
            clone_stack(&self.line_states[line - 1].stack)
        }
    }

    /// Stores the state after line `at`, which is at most one past the
    /// cache's end.
    fn store_state(&mut self, at: usize, st: LineState)
        requires
            at <= old(self).states().len(),
        ensures
            final(self).grammar == old(self).grammar,
            final(self).theme == old(self).theme,
            final(self).lang == old(self).lang,
            final(self).valid_until == old(self).valid_until,
            final(self).states() == if at < old(self).states().len() {
                old(self).states().update(at as int, stack_view(st.stack@))
            } else {
                old(self).states().push(stack_view(st.stack@))
            },
    {
        let ghost before = self.states();
        if at < self.line_states.len() {
            self.line_states.set(at, st);
            proof {
                assert(self.states() =~= before.update(at as int, stack_view(st.stack@)));
            }
        } else {
            self.line_states.push(st);
            proof {
                assert(self.states() =~= before.push(stack_view(st.stack@)));
            }
        }
    }

    /// Recomputes the state after the first line that is not up to date,
    /// from its text as the caller gave it.
    #[verifier::spinoff_prover]
    #[verifier::rlimit(60)]
    fn refresh_next(&mut self, got: Option<String>)
        requires
            old(self).wf(),
            old(self).valid_until < usize::MAX,
        ensures
            final(self).wf(),
            final(self).grammar == old(self).grammar,
            final(self).theme == old(self).theme,
            final(self).lang == old(self).lang,
            final(self).valid_until == old(self).valid_until + 1,
            ({
                let vu = old(self).valid_until as int;
                let x = next_state(
                    old(self).grammar,
                    got,
                    if vu == 0 { Seq::<RegionModel>::empty() } else { old(self).states()[vu - 1] },
                );
                final(self).states() == if vu < old(self).states().len() {
                    old(self).states().update(vu, x)
                } else {
                    old(self).states().push(x)
                }
            }),
    {
        let vu = self.valid_until;
        let prev = self.state_before(vu);
        let new_state = match &got {
            Some(t) => {
                let tokenizer = Tokenizer::new(&self.grammar);
                let (_, st) = tokenizer.tokenize_parts(t.as_str(), &LineState { stack: prev });
                st
            },
            None => LineState::initial(),
        };
        proof {
            if got is None {
                assert(stack_view(new_state.stack@) =~= Seq::<RegionModel>::empty());
            }
        }
        self.store_state(vu, new_state);
        self.valid_until = vu + 1;
        proof {
            assert(self.states().len() == self.line_states@.len());
        }
    }

    /// The styled spans of tokens under the theme.
    fn style_tokens(&self, tokens: &Vec<ScopeToken>) -> (spans: Vec<StyledSpan>)
        ensures
            spans@.map_values(|s: StyledSpan| span_view(s)) == toks_view(tokens@).map_values(
                |t: TokModel| span_of(self.theme, t),
            ),
    {
        let mut spans: Vec<StyledSpan> = Vec::new();
        let mut i: usize = 0;
        let ghost toks = toks_view(tokens@);
        proof {
            assert(spans@.map_values(|s: StyledSpan| span_view(s)) =~= toks.take(0).map_values(|t: TokModel| span_of(self.theme, t)));
        }
        while i < tokens.len()
            invariant
                i <= tokens@.len(),
                toks == toks_view(tokens@),
                spans@.map_values(|s: StyledSpan| span_view(s)) == toks.take(i as int).map_values(|t: TokModel| span_of(self.theme, t)),
            decreases tokens@.len() - i,
        {
            let tok = &tokens[i];
            let style = self.theme.resolve(tok.scopes.as_slice());
            proof {
                lemma_resolve_texts(self.theme.token_rules@, tok.scopes@);
            }
            let sc = string_or_comment_exec(&tok.scopes);
            let ghost before_spans = spans@.map_values(|s: StyledSpan| span_view(s));
            spans.push(StyledSpan { start: tok.start, end: tok.end, fg: style.fg, bold: style.bold, is_string_or_comment: sc });
            proof {
                assert(toks[i as int] == crate::syntax::tokenizer::tok_view(*tok));
                assert(spans@.map_values(|s: StyledSpan| span_view(s)) =~= before_spans.push(span_of(self.theme, toks[i as int])));
                assert(toks.take(i + 1).map_values(|t: TokModel| span_of(self.theme, t)) =~= toks.take(i as int).map_values(
                    |t: TokModel| span_of(self.theme, t),
                ).push(span_of(self.theme, toks[i as int])));
            }
            i = i + 1;
        }
        proof {
            assert(toks.take(toks.len() as int) =~= toks);
        }
        spans
    }

    /// Brings the cached states up to date before line `line`, from the
    /// lines `get_line` gives.
    #[verifier::spinoff_prover]
    #[verifier::rlimit(60)]
    fn refresh_until<F: Fn(usize) -> Option<String>>(&mut self, line: usize, get_line: &F, texts: &mut Ghost<Map<int, Option<String>>>)
        requires
            old(self).wf(),
            line < usize::MAX,
            forall|k: usize| call_requires(*get_line, (k,)),
        ensures
            final(self).wf(),
            final(self).grammar == old(self).grammar,
            final(self).theme == old(self).theme,
            final(self).lang == old(self).lang,
            final(self).valid_until == if old(self).valid_until > line { old(self).valid_until } else { line },
            final(self).states().len() >= old(self).states().len(),
            final(self).states().len() >= line,
            forall|k: int| 0 <= k < old(self).states().len() && (k < old(self).valid_until || k >= final(self).valid_until) ==> final(self).states()[k] == old(self).states()[k],
            forall|k: int| old(self).valid_until <= k < final(self).valid_until ==> #[trigger] final(texts)@.dom().contains(k),
            forall|k: int| old(self).valid_until <= k < final(self).valid_until ==> call_ensures(*get_line, (k as usize,), #[trigger] final(texts)@[k]),
            forall|k: int|
                old(self).valid_until <= k < final(self).valid_until ==> #[trigger] final(self).states()[k] == next_state(
                    old(self).grammar,
                    final(texts)@[k],
                    if k == 0 { Seq::<RegionModel>::empty() } else { final(self).states()[k - 1] },
                ),
    {
        let ghost old_states = self.states();
        let ghost old_valid = self.valid_until;
        let ghost g = self.grammar;
        let ghost mut seen: Map<int, Option<String>> = Map::empty();
        while self.valid_until < line
            invariant
                self.valid_until <= self.line_states@.len(),
                self.states().len() == self.line_states@.len(),
                old_valid <= self.valid_until,
                self.valid_until <= line || self.valid_until == old_valid,
                line < usize::MAX,
                self.grammar == g,
                self.theme == old(self).theme,
                self.lang == old(self).lang,
                forall|k: usize| call_requires(*get_line, (k,)),
                self.states().len() >= old_states.len(),
                forall|k: int| 0 <= k < old_states.len() && (k < old_valid || k >= self.valid_until) ==> self.states()[k] == old_states[k],
                forall|k: int|
                    old_valid <= k < self.valid_until ==> seen.dom().contains(k) && call_ensures(*get_line, (k as usize,), seen[k])
                        && #[trigger] self.states()[k] == next_state(
                        g,
                        seen[k],
                        if k == 0 { Seq::<RegionModel>::empty() } else { self.states()[k - 1] },
                    ),
            decreases line - self.valid_until,
        {
            let vu = self.valid_until;
            let got = get_line(vu);
            let ghost before = self.states();
            self.refresh_next(got);
            proof {
                seen = seen.insert(vu as int, got);
                assert(self.states().len() == self.line_states@.len());
                assert forall|k: int|
                    old_valid <= k < self.valid_until implies seen.dom().contains(k) && call_ensures(*get_line, (k as usize,), seen[k])
                        && #[trigger] self.states()[k] == next_state(
                        g,
                        seen[k],
                        if k == 0 { Seq::<RegionModel>::empty() } else { self.states()[k - 1] },
                    ) by {
                    if k == vu {
                        if vu > 0 {
                            assert(self.states()[vu - 1] == before[vu - 1]);
                        }
                    } else {
                        assert(self.states()[k] == before[k]);
                        if k > 0 {
                            assert(self.states()[k - 1] == before[k - 1]);
                        }
                    }
                }
            }
        }
        proof {
            assert(g == old(self).grammar);
            assert(old_valid == old(self).valid_until);
            assert forall|k: int| old(self).valid_until <= k < self.valid_until implies #[trigger] seen.dom().contains(k) by {
                let sk = self.states()[k];
            }
            assert forall|k: int| old(self).valid_until <= k < self.valid_until implies call_ensures(*get_line, (k as usize,), #[trigger] seen[k]) by {
                let sk = self.states()[k];
            }
        }
        *texts = Ghost(seen);
    }

    /// Styles line `line` of the text, whose characters are `text`. The
    /// states of the lines before it that are not up to date are
    /// recomputed first, in order, from the lines `get_line` gives.
    #[verifier::spinoff_prover]
    #[verifier::rlimit(60)]
    pub fn style_line<F: Fn(usize) -> Option<String>>(&mut self, line: usize, text: &str, get_line: F) -> (r: Vec<StyledSpan>)
        requires
            old(self).wf(),
            line < usize::MAX,
            forall|k: usize| call_requires(get_line, (k,)),
        ensures
            final(self).wf(),
            final(self).grammar_spec() == old(self).grammar_spec(),
            final(self).theme_spec() == old(self).theme_spec(),
            final(self).lang() == old(self).lang(),
            final(self).valid() == if old(self).valid() > line + 1 { old(self).valid() } else { (line + 1) as nat },
            final(self).states().len() > line,
            forall|k: int| 0 <= k < old(self).states().len() && k != line && (k < old(self).valid() || k > line) ==> final(self).states()[k] == old(self).states()[k],
            forall|k: int| old(self).valid() <= k < line ==> #[trigger] recomputed_from(get_line, old(self).grammar_spec(), final(self).states(), k),
            ({
                let start = if line == 0 { Seq::<RegionModel>::empty() } else { final(self).states()[line - 1] };
                &&& final(self).states()[line as int] == stack_after_line(old(self).grammar_spec(), text@, start)
                &&& r@.map_values(|s: StyledSpan| span_view(s)) == tokens_of_line(old(self).grammar_spec(), text@, start).map_values(
                    |t: TokModel| span_of(old(self).theme_spec(), t),
                )
            }),
    {
        let mut texts: Ghost<Map<int, Option<String>>> = Ghost(Map::empty());
        self.refresh_until(line, &get_line, &mut texts);
        let ghost mid = self.states();
        let start = self.state_before(line);
        let tokenizer = Tokenizer::new(&self.grammar);
        let (tokens, new_state) = tokenizer.tokenize_parts(text, &LineState { stack: start });
        self.store_state(line, new_state);
        if self.valid_until <= line {
            self.valid_until = line + 1;
        }
        proof {
            assert(self.states().len() == self.line_states@.len());
            assert forall|k: int| 0 <= k < line implies self.states()[k] == mid[k] by {}
            lemma_refreshed(old(self).grammar, get_line, texts@, mid, self.states(), old(self).valid_until as int, line as int);
        }
        self.style_tokens(&tokens)
    }
}

/// State `k` of `states` is the one that some line `get_line` can give
/// for `k` leaves after the state before it.
pub open spec fn recomputed_from<F: Fn(usize) -> Option<String>>(
    get_line: F,
    g: Grammar,
    states: Seq<Seq<RegionModel>>,
    k: int,
) -> bool {
    exists|t: Option<String>|
        #![trigger call_ensures(get_line, (k as usize,), t)]
        call_ensures(get_line, (k as usize,), t) && states[k] == next_state(
            g,
            t,
            if k == 0 { Seq::<RegionModel>::empty() } else { states[k - 1] },
        )
}

/// Each state that a refresh recomputed is the one its line gives after
/// the state before it, and stays so while the states before it are kept.
proof fn lemma_refreshed<F: Fn(usize) -> Option<String>>(
    g: Grammar,
    get_line: F,
    texts: Map<int, Option<String>>,
    mid: Seq<Seq<RegionModel>>,
    fin: Seq<Seq<RegionModel>>,
    lo: int,
    hi: int,
)
    requires
        0 <= lo,
        hi <= mid.len(),
        hi <= fin.len(),
        forall|k: int| lo <= k < hi ==> #[trigger] texts.dom().contains(k),
        forall|k: int| lo <= k < hi ==> call_ensures(get_line, (k as usize,), #[trigger] texts[k]),
        forall|k: int|
            lo <= k < hi ==> #[trigger] mid[k] == next_state(
                g,
                texts[k],
                if k == 0 { Seq::<RegionModel>::empty() } else { mid[k - 1] },
            ),
        forall|k: int| 0 <= k < hi ==> fin[k] == mid[k],
    ensures
        forall|k: int| lo <= k < hi ==> #[trigger] recomputed_from(get_line, g, fin, k),
{
    assert forall|k: int| lo <= k < hi implies #[trigger] recomputed_from(get_line, g, fin, k) by {
        let t = texts[k];
        assert(texts.dom().contains(k));
        let m = mid[k];
        assert(fin[k] == mid[k]);
        if k > 0 {
            assert(fin[k - 1] == mid[k - 1]);
        }
        assert(call_ensures(get_line, (k as usize,), t));
    }
}

/// The region stack after the first `n` lines of a document, each
/// tokenized from the stack the line before it left.
pub open spec fn history_state(g: Grammar, doc: Seq<Seq<char>>, n: int) -> Seq<RegionModel>
    decreases n,
{
    if n <= 0 {
        Seq::empty()
    } else {
        stack_after_line(g, doc[n - 1], history_state(g, doc, n - 1))
    }
}

/// `get_line` gives the lines of `doc`: for each line before `n`, any text
/// it can return is that line.
pub open spec fn gives_doc<F: Fn(usize) -> Option<String>>(get_line: F, doc: Seq<Seq<char>>, n: int) -> bool {
    forall|k: int, t: Option<String>|
        0 <= k < n && #[trigger] call_ensures(get_line, (k as usize,), t) ==> (t matches Some(s) && s@ == doc[k])
}

/// Styling agrees with tokenizing the whole document from its first line:
/// when every state before line `n` was recomputed from the lines
/// `get_line` gives, and those are the document's lines, each state is
/// the one the document's lines leave from scratch. With `style_line` on
/// a highlighter whose states are all out of date (`valid() == 0`, as new
/// or after `invalidate_from(0)`), the line is thus tokenized from the
/// state the whole history before it leaves.
pub proof fn lemma_style_from_scratch<F: Fn(usize) -> Option<String>>(
    g: Grammar,
    get_line: F,
    doc: Seq<Seq<char>>,
    states: Seq<Seq<RegionModel>>,
    n: int,
)
    requires
        0 <= n <= states.len(),
        n <= doc.len(),
        forall|k: int| 0 <= k < n ==> #[trigger] recomputed_from(get_line, g, states, k),
        gives_doc(get_line, doc, n),
    ensures
        forall|k: int| 0 <= k < n ==> #[trigger] states[k] == history_state(g, doc, k + 1),
    decreases n,
{
    if n > 0 {
        lemma_style_from_scratch(g, get_line, doc, states, n - 1);
        let k = n - 1;
        assert(recomputed_from(get_line, g, states, k));
        let t = choose|t: Option<String>|
            #![trigger call_ensures(get_line, (k as usize,), t)]
            call_ensures(get_line, (k as usize,), t) && states[k] == next_state(
                g,
                t,
                if k == 0 { Seq::<RegionModel>::empty() } else { states[k - 1] },
            );
        assert(t matches Some(s) && s@ == doc[k]);
        if k > 0 {
            assert(states[k - 1] == history_state(g, doc, k));
        } else {
            assert(history_state(g, doc, 0) == Seq::<RegionModel>::empty());
        }
        let s = t->0;
        assert(states[k] == stack_after_line(g, s@, history_state(g, doc, k)));
        assert(history_state(g, doc, n) == stack_after_line(g, doc[k], history_state(g, doc, k)));
    }
}

// ── Language lookup ──────────────────────────────────────────

fn str_eq(a: &str, b: &str) -> (r: bool)
    ensures
        r == (a@ == b@),
{
    let v = chars_of(a);
    chars_eq_str(&v, b)
}

/// The first language with extension `ext`.
pub open spec fn language_with_ext(languages: Seq<LanguageDef>, ext: Seq<char>) -> Option<Seq<char>>
    decreases languages.len(),
{
    if languages.len() == 0 {
        None
    } else if exists|j: int|
        0 <= j < languages[0].extensions@.len() && (#[trigger] languages[0].extensions@[j])@ == ext {
        Some(languages[0].name@)
    } else {
        language_with_ext(languages.drop_first(), ext)
    }
}

/// The language of a file, by the extension of its path.
pub fn detect_language(path: &str, languages: &[LanguageDef]) -> (r: Option<String>)
    ensures
        r matches Some(s) ==> path_extension_of(path@) is Some,
        match path_extension_of(path@) {
            Some(ext) => match r {
                Some(s) => language_with_ext(languages@, ext) == Some(s@),
                None => language_with_ext(languages@, ext) is None,
            },
            None => r is None,
        },
{
    let ext = match path_extension(path) {
        Some(e) => e,
        None => {
            return None;
        },
    };
    let mut i: usize = 0;
    proof {
        assert(languages@.skip(0) =~= languages@);
    }
    while i < languages.len()
        invariant
            i <= languages@.len(),
            path_extension_of(path@) == Some(ext@),
            language_with_ext(languages@, ext@) == language_with_ext(languages@.skip(i as int), ext@),
        decreases languages@.len() - i,
    {
        let lang = &languages[i];
        proof {
            assert(languages@.skip(i as int)[0] == languages@[i as int]);
            assert(languages@.skip(i as int).drop_first() =~= languages@.skip(i + 1));
        }
        let mut j: usize = 0;
        while j < lang.extensions.len()
            invariant
                j <= lang.extensions@.len(),
                i < languages@.len(),
                *lang == languages@[i as int],
                path_extension_of(path@) == Some(ext@),
                language_with_ext(languages@, ext@) == language_with_ext(languages@.skip(i as int), ext@),
                languages@.skip(i as int)[0] == languages@[i as int],
                forall|k: int| 0 <= k < j ==> (#[trigger] lang.extensions@[k])@ != ext@,
            decreases lang.extensions@.len() - j,
        {
            if str_eq(lang.extensions[j].as_str(), ext.as_str()) {
                return Some(lang.name.clone());
            }
            j = j + 1;
        }
        i = i + 1;
    }
    proof {
        assert(languages@.skip(languages@.len() as int) =~= Seq::<LanguageDef>::empty());
    }
    None
}

/// The comment prefix of the first language named `lang`.
pub open spec fn spec_comment_prefix(languages: Seq<LanguageDef>, lang: Seq<char>) -> Option<Seq<char>>
    decreases languages.len(),
{
    if languages.len() == 0 {
        None
    } else if languages[0].name@ == lang {
        match languages[0].comment {
            Some(c) => Some(c@),
            None => None,
        }
    } else {
        spec_comment_prefix(languages.drop_first(), lang)
    }
}

pub fn comment_prefix(lang: &str, languages: &[LanguageDef]) -> (r: Option<String>)
    ensures
        match r {
            Some(s) => spec_comment_prefix(languages@, lang@) == Some(s@),
            None => spec_comment_prefix(languages@, lang@) is None,
        },
{
    let mut i: usize = 0;
    proof {
        assert(languages@.skip(0) =~= languages@);
    }
    while i < languages.len()
        invariant
            i <= languages@.len(),
            spec_comment_prefix(languages@, lang@) == spec_comment_prefix(
                languages@.skip(i as int),
                lang@,
            ),
        decreases languages@.len() - i,
    {
        proof {
            assert(languages@.skip(i as int)[0] == languages@[i as int]);
            assert(languages@.skip(i as int).drop_first() =~= languages@.skip(i + 1));
        }
        if str_eq(languages[i].name.as_str(), lang) {
            return match &languages[i].comment {
                Some(c) => Some(c.clone()),
                None => None,
            };
        }
        i = i + 1;
    }
    proof {
        assert(languages@.skip(languages@.len() as int) =~= Seq::<LanguageDef>::empty());
    }
    None
}

// ── Span lookups ─────────────────────────────────────────────

pub open spec fn covers(s: StyledSpan, off: int) -> bool {
    s.start <= off < s.end
}

/// The style at byte `off`: the first span covering it that has a color;
/// the default color otherwise. The background is always the default.
pub open spec fn spec_lookup_style(spans: Seq<StyledSpan>, off: int) -> (Color, Color, bool)
    decreases spans.len(),
{
    if spans.len() == 0 {
        (Color::Default, Color::Default, false)
    } else if covers(spans[0], off) && spans[0].fg != Color::Default {
        (spans[0].fg, Color::Default, spans[0].bold)
    } else {
        spec_lookup_style(spans.drop_first(), off)
    }
}

pub fn lookup_style(spans: &[StyledSpan], byte_offset: usize) -> (r: (Color, Color, bool))
    ensures
        r == spec_lookup_style(spans@, byte_offset as int),
{
    let mut i: usize = 0;
    proof {
        assert(spans@.skip(0) =~= spans@);
    }
    while i < spans.len()
        invariant
            i <= spans@.len(),
            spec_lookup_style(spans@, byte_offset as int) == spec_lookup_style(
                spans@.skip(i as int),
                byte_offset as int,
            ),
        decreases spans@.len() - i,
    {
        proof {
            assert(spans@.skip(i as int)[0] == spans@[i as int]);
            assert(spans@.skip(i as int).drop_first() =~= spans@.skip(i + 1));
        }
        let s = &spans[i];
        if byte_offset >= s.start && byte_offset < s.end && s.fg != Color::Default {
            return (s.fg, Color::Default, s.bold);
        }
        i = i + 1;
    }
    proof {
        assert(spans@.skip(spans@.len() as int) =~= Seq::<StyledSpan>::empty());
    }
    (Color::Default, Color::Default, false)
}

/// Whether the first span covering byte `off` is a string or comment.
pub open spec fn spec_in_string_or_comment(spans: Seq<StyledSpan>, off: int) -> bool
    decreases spans.len(),
{
    if spans.len() == 0 {
        false
    } else if covers(spans[0], off) {
        spans[0].is_string_or_comment
    } else {
        spec_in_string_or_comment(spans.drop_first(), off)
    }
}

pub fn is_in_string_or_comment(spans: &[StyledSpan], byte_offset: usize) -> (r: bool)
    ensures
        r == spec_in_string_or_comment(spans@, byte_offset as int),
{
    let mut i: usize = 0;
    proof {
        assert(spans@.skip(0) =~= spans@);
    }
    while i < spans.len()
        invariant
            i <= spans@.len(),
            spec_in_string_or_comment(spans@, byte_offset as int) == spec_in_string_or_comment(
                spans@.skip(i as int),
                byte_offset as int,
            ),
        decreases spans@.len() - i,
    {
        proof {
            assert(spans@.skip(i as int)[0] == spans@[i as int]);
            assert(spans@.skip(i as int).drop_first() =~= spans@.skip(i + 1));
        }
        let s = &spans[i];
        if byte_offset >= s.start && byte_offset < s.end {
            return s.is_string_or_comment;
        }
        i = i + 1;
    }
    proof {
        assert(spans@.skip(spans@.len() as int) =~= Seq::<StyledSpan>::empty());
    }
    false
}

/// Spans sorted by line.
pub open spec fn sorted_by_line(spans: Seq<SemanticSpan>) -> bool {
    forall|i: int, j: int| 0 <= i <= j < spans.len() ==> spans[i].line <= spans[j].line
}

/// The color at (`line`, `col`): the first span of that line covering
/// the column whose color is not the default.
pub open spec fn spec_semantic_at(spans: Seq<SemanticSpan>, line: u32, col: u32) -> Option<(Color, bool)>
    decreases spans.len(),
{
    if spans.len() == 0 {
        None
    } else if spans[0].line == line && spans[0].start_char <= col < spans[0].end_char && spans[0].fg
        != Color::Default {
        Some((spans[0].fg, spans[0].bold))
    } else {
        spec_semantic_at(spans.drop_first(), line, col)
    }
}

/// The color of a semantic token at (`line`, `char_col`); the spans are
/// sorted by line.
pub fn lookup_semantic_span(spans: &[SemanticSpan], line: u32, char_col: u32) -> (r: Option<(Color, bool)>)
    requires
        sorted_by_line(spans@),
    ensures
        r == spec_semantic_at(spans@, line, char_col),
{
    // The first span on or after `line`.
    let mut lo: usize = 0;
    let mut hi: usize = spans.len();
    while lo < hi
        invariant
            lo <= hi <= spans@.len(),
            sorted_by_line(spans@),
            forall|k: int| 0 <= k < lo ==> (#[trigger] spans@[k]).line < line,
            forall|k: int| hi <= k < spans@.len() ==> (#[trigger] spans@[k]).line >= line,
        decreases hi - lo,
    {
        let mid = lo + (hi - lo) / 2;
        if spans[mid].line < line {
            proof {
                assert forall|k: int| 0 <= k < mid + 1 implies (#[trigger] spans@[k]).line < line by {
                    assert(spans@[k].line <= spans@[mid as int].line);
                }
            }
            lo = mid + 1;
        } else {
            proof {
                assert forall|k: int| mid <= k < spans@.len() implies (#[trigger] spans@[k]).line
                    >= line by {
                    assert(spans@[mid as int].line <= spans@[k].line);
                }
            }
            hi = mid;
        }
    }
    let start = lo;
    proof {
        lemma_semantic_skip_before(spans@, line, char_col, start as int);
    }
    let mut i = start;
    while i < spans.len()
        invariant
            start <= i <= spans@.len(),
            sorted_by_line(spans@),
            forall|k: int| i <= k < spans@.len() ==> (#[trigger] spans@[k]).line >= line || k < start,
            spec_semantic_at(spans@, line, char_col) == spec_semantic_at(
                spans@.skip(i as int),
                line,
                char_col,
            ),
        decreases spans@.len() - i,
    {
        let s = &spans[i];
        proof {
            assert(spans@.skip(i as int)[0] == spans@[i as int]);
            assert(spans@.skip(i as int).drop_first() =~= spans@.skip(i + 1));
        }
        if s.line > line {
            proof {
                lemma_semantic_none_past(spans@.skip(i as int), line, char_col);
            }
            return None;
        }
        if char_col >= s.start_char && char_col < s.end_char && s.fg != Color::Default {
            return Some((s.fg, s.bold));
        }
        i = i + 1;
    }
    proof {
        assert(spans@.skip(spans@.len() as int) =~= Seq::<SemanticSpan>::empty());
    }
    None
}

proof fn lemma_semantic_skip_before(spans: Seq<SemanticSpan>, line: u32, col: u32, start: int)
    requires
        0 <= start <= spans.len(),
        forall|k: int| 0 <= k < start ==> (#[trigger] spans[k]).line < line,
    ensures
        spec_semantic_at(spans, line, col) == spec_semantic_at(spans.skip(start), line, col),
    decreases start,
{
    if start > 0 {
        assert(spans.drop_first().skip(start - 1) =~= spans.skip(start));
        lemma_semantic_skip_before(spans.drop_first(), line, col, start - 1);
    } else {
        assert(spans.skip(0) =~= spans);
    }
}

proof fn lemma_semantic_none_past(spans: Seq<SemanticSpan>, line: u32, col: u32)
    requires
        sorted_by_line(spans),
        spans.len() > 0,
        spans[0].line > line,
    ensures
        spec_semantic_at(spans, line, col) is None,
    decreases spans.len(),
{
    if spans.len() > 1 {
        assert(spans.drop_first()[0] == spans[1]);
        assert(sorted_by_line(spans.drop_first()));
        lemma_semantic_none_past(spans.drop_first(), line, col);
    } else {
        assert(spans.drop_first().len() == 0);
        assert(spec_semantic_at(spans.drop_first(), line, col) is None);
    }
}

// ── Semantic token scopes ────────────────────────────────────

/// The scope prefix of a semantic token type; empty for an unknown type.
pub open spec fn spec_semantic_scope(t: Seq<char>) -> Seq<char> {
    if t == "keyword"@ {
        "keyword.control"@
    } else if t == "type"@ {
        "entity.name.type"@
    } else if t == "variable"@ {
        "variable.other"@
    } else if t == "function"@ {
        "entity.name.function"@
    } else if t == "struct"@ {
        "entity.name.type.struct"@
    } else if t == "property"@ {
        "variable.other.property"@
    } else if t == "number"@ {
        "constant.numeric"@
    } else if t == "string"@ {
        "string.quoted"@
    } else if t == "comment"@ {
        "comment"@
    } else if t == "operator"@ {
        "keyword.operator"@
    } else if t == "directive"@ {
        "entity.name.tag"@
    } else if t == "constraint"@ {
        "storage.modifier"@
    } else if t == "boolean"@ {
        "constant.language"@
    } else if t == "namespace"@ {
        "entity.name.namespace"@
    } else if t == "class"@ {
        "entity.name.type"@
    } else if t == "enum"@ {
        "entity.name.type"@
    } else if t == "interface"@ {
        "entity.name.type"@
    } else if t == "parameter"@ {
        "variable.parameter"@
    } else if t == "enumMember"@ {
        "variable.other.enummember"@
    } else if t == "method"@ {
        "entity.name.function"@
    } else if t == "macro"@ {
        "entity.name.function.macro"@
    } else if t == "decorator"@ {
        "entity.name.function"@
    } else {
        Seq::empty()
    }
}

/// The TextMate scope prefix for a semantic token type of the LSP legend.
pub fn semantic_token_scope(token_type: &str) -> (r: &'static str)
    ensures
        r@ == spec_semantic_scope(token_type@),
{
    let t = chars_of(token_type);
    if chars_eq_str(&t, "keyword") {
        return "keyword.control";
    }
    if chars_eq_str(&t, "type") {
        return "entity.name.type";
    }
    if chars_eq_str(&t, "variable") {
        return "variable.other";
    }
    if chars_eq_str(&t, "function") {
        return "entity.name.function";
    }
    if chars_eq_str(&t, "struct") {
        return "entity.name.type.struct";
    }
    if chars_eq_str(&t, "property") {
        return "variable.other.property";
    }
    if chars_eq_str(&t, "number") {
        return "constant.numeric";
    }
    if chars_eq_str(&t, "string") {
        return "string.quoted";
    }
    if chars_eq_str(&t, "comment") {
        return "comment";
    }
    if chars_eq_str(&t, "operator") {
        return "keyword.operator";
    }
    if chars_eq_str(&t, "directive") {
        return "entity.name.tag";
    }
    if chars_eq_str(&t, "constraint") {
        return "storage.modifier";
    }
    if chars_eq_str(&t, "boolean") {
        return "constant.language";
    }
    if chars_eq_str(&t, "namespace") {
        return "entity.name.namespace";
    }
    if chars_eq_str(&t, "class") {
        return "entity.name.type";
    }
    if chars_eq_str(&t, "enum") {
        return "entity.name.type";
    }
    if chars_eq_str(&t, "interface") {
        return "entity.name.type";
    }
    if chars_eq_str(&t, "parameter") {
        return "variable.parameter";
    }
    if chars_eq_str(&t, "enumMember") {
        return "variable.other.enummember";
    }
    if chars_eq_str(&t, "method") {
        return "entity.name.function";
    }
    if chars_eq_str(&t, "macro") {
        return "entity.name.function.macro";
    }
    if chars_eq_str(&t, "decorator") {
        return "entity.name.function";
    }
    proof {
        reveal_strlit("");
    }
    ""
}

} // verus!

//! Theme rules and scope resolution: a scope selector matches a scope
//! equal to it or extending it by a `.`-separated part, and the longest
//! matching selector wins.
use vstd::prelude::*;
use vstd::string::StringSliceAdditionalSpecFns;
use vstd::utf8::encode_utf8;
use crate::render::Color;
use crate::syntax::json_parser::{JsonValue, jget, jstr};
use crate::syntax::grammar::{str_items, json_str_of};
use crate::text::{trim, chars_of, trim_chars, string_from_chars};
use crate::strs::contains_str;

verus! {

// ── Types ────────────────────────────────────────────────────

pub struct Theme {
    pub name: String,
    pub token_rules: Vec<TokenRule>,
    /// The editor background.
    pub background: (u8, u8, u8),
}

pub struct TokenRule {
    pub scopes: Vec<String>,
    pub foreground: Option<Color>,
    pub bold: bool,
}

#[derive(Clone, Copy, Debug, PartialEq, Eq, Structural)]
pub struct ResolvedStyle {
    pub fg: Color,
    pub bold: bool,
}

// ── Hex parsing ──────────────────────────────────────────────

pub open spec fn hex_digit_value(b: u8) -> Option<nat> {
    if 0x30 <= b <= 0x39 {
        Some((b - 0x30) as nat)
    } else if 0x61 <= b <= 0x66 {
        Some((b - 0x61 + 10) as nat)
    } else if 0x41 <= b <= 0x46 {
        Some((b - 0x41 + 10) as nat)
    } else {
        None
    }
}

/// A two-byte field read as a base-16 number: two hex digits, or a `+`
/// sign and one hex digit.
pub open spec fn hex_pair(b0: u8, b1: u8) -> Option<u8> {
    match (hex_digit_value(b0), hex_digit_value(b1)) {
        (Some(h), Some(l)) => Some((h * 16 + l) as u8),
        (None, Some(l)) => if b0 == 0x2b {
            Some(l as u8)
        } else {
            None
        },
        _ => None,
    }
}

/// `#rrggbb` would be cut inside a multi-byte character.
pub open spec fn hex_color_splits_char(b: Seq<u8>) -> bool {
    b.len() == 7 && b[0] == 0x23 && (!(b[3] < 0x80 || b[3] >= 0xc0) || !(b[5] < 0x80 || b[5]
        >= 0xc0))
}

/// The color written `#rrggbb`.
pub open spec fn spec_hex_color(b: Seq<u8>) -> Option<Color> {
    if b.len() == 7 && b[0] == 0x23 {
        match (hex_pair(b[1], b[2]), hex_pair(b[3], b[4]), hex_pair(b[5], b[6])) {
            (Some(r), Some(g), Some(bl)) => Some(Color::Rgb(r, g, bl)),
            _ => None,
        }
    } else {
        None
    }
}

fn hex_digit_exec(b: u8) -> (r: Option<u8>)
    ensures
        match r {
            Some(v) => hex_digit_value(b) == Some(v as nat) && v < 16,
            None => hex_digit_value(b) is None,
        },
{
    if 0x30 <= b && b <= 0x39 {
        Some(b - 0x30)
    } else if 0x61 <= b && b <= 0x66 {
        Some(b - 0x61 + 10)
    } else if 0x41 <= b && b <= 0x46 {
        Some(b - 0x41 + 10)
    } else {
        None
    }
}

fn hex_pair_exec(b0: u8, b1: u8) -> (r: Option<u8>)
    ensures
        r == hex_pair(b0, b1),
{
    match (hex_digit_exec(b0), hex_digit_exec(b1)) {
        (Some(h), Some(l)) => Some(h * 16 + l),
        (None, Some(l)) => if b0 == 0x2b {
            Some(l)
        } else {
            None
        },
        _ => None,
    }
}

/// Parse `#rrggbb`.
pub fn parse_hex_color(s: &str) -> (c: Option<Color>)
    requires
        !hex_color_splits_char(s.spec_bytes()),
    ensures
        c == spec_hex_color(s.spec_bytes()),
{
    let b = s.as_bytes();
    if b.len() == 7 && b[0] == 0x23 {
        match (hex_pair_exec(b[1], b[2]), hex_pair_exec(b[3], b[4]), hex_pair_exec(b[5], b[6])) {
            (Some(r), Some(g), Some(bl)) => Some(Color::Rgb(r, g, bl)),
            _ => None,
        }
    } else {
        None
    }
}

// ── Scope matching ───────────────────────────────────────────

/// `selector` matches `scope`: equal, or a prefix followed by `.`.
pub open spec fn scope_matches(scope: Seq<char>, selector: Seq<char>) -> bool {
    scope == selector || (selector.len() < scope.len() && scope.take(selector.len() as int)
        == selector && scope[selector.len() as int] == '.')
}

pub fn scope_matches_exec(scope: &String, selector: &String) -> (b: bool)
    ensures
        b == scope_matches(scope@, selector@),
{
    let sc = crate::text::chars_of(scope.as_str());
    let se = crate::text::chars_of(selector.as_str());
    if sc.len() == se.len() {
        let mut i: usize = 0;
        while i < sc.len()
            invariant
                i <= sc@.len(),
                sc@ == scope@,
                se@ == selector@,
                sc@.len() == se@.len(),
                sc@.take(i as int) == se@.take(i as int),
            decreases sc@.len() - i,
        {
            if sc[i] != se[i] {
                proof {
                    assert(sc@[i as int] != se@[i as int]);
                    assert(sc@ != se@);
                }
                return false;
            }
            proof {
                assert(sc@.take(i + 1) =~= sc@.take(i as int).push(sc@[i as int]));
                assert(se@.take(i + 1) =~= se@.take(i as int).push(se@[i as int]));
            }
            i = i + 1;
        }
        proof {
            assert(sc@ =~= sc@.take(sc@.len() as int));
            assert(se@ =~= se@.take(se@.len() as int));
        }
        return true;
    }
    if se.len() >= sc.len() {
        proof {
            assert(sc@ != se@ ==> true);
            if sc@ == se@ {
                assert(sc@.len() == se@.len());
            }
        }
        return false;
    }
    let mut i: usize = 0;
    while i < se.len()
        invariant
            i <= se@.len(),
            sc@ == scope@,
            se@ == selector@,
            se@.len() < sc@.len(),
            sc@.take(i as int) == se@.take(i as int),
        decreases se@.len() - i,
    {
        if sc[i] != se[i] {
            proof {
                assert(sc@.take(se@.len() as int)[i as int] != se@[i as int]);
                assert(sc@.take(se@.len() as int) != se@);
                assert(sc@ != se@);
            }
            return false;
        }
        proof {
            assert(sc@.take(i + 1) =~= sc@.take(i as int).push(sc@[i as int]));
            assert(se@.take(i + 1) =~= se@.take(i as int).push(se@[i as int]));
        }
        i = i + 1;
    }
    proof {
        assert(se@ =~= se@.take(se@.len() as int));
    }
    sc[se.len()] == '.'
}

// ── Resolution ───────────────────────────────────────────────

/// The byte length of a string.
pub open spec fn byte_len(s: Seq<char>) -> nat {
    encode_utf8(s).len()
}

/// The best rule so far: its selector's byte length, its color and
/// boldness.
pub struct Best {
    pub specificity: nat,
    pub fg: Color,
    pub bold: bool,
}

pub open spec fn fg_or_default(c: Option<Color>) -> Color {
    match c {
        Some(x) => x,
        None => Color::Default,
    }
}

/// After trying selector `sel` of a rule against `scopes` in order: a
/// match with a strictly longer selector replaces the best.
pub open spec fn over_scopes(b: Best, sel: Seq<char>, rule: TokenRule, scopes: Seq<String>) -> Best
    decreases scopes.len(),
{
    if scopes.len() == 0 {
        b
    } else {
        let prev = over_scopes(b, sel, rule, scopes.drop_last());
        if scope_matches(scopes.last()@, sel) && byte_len(sel) > prev.specificity {
            Best { specificity: byte_len(sel), fg: fg_or_default(rule.foreground), bold: rule.bold }
        } else {
            prev
        }
    }
}

pub open spec fn over_selectors(b: Best, sels: Seq<String>, rule: TokenRule, scopes: Seq<String>) -> Best
    decreases sels.len(),
{
    if sels.len() == 0 {
        b
    } else {
        over_scopes(over_selectors(b, sels.drop_last(), rule, scopes), sels.last()@, rule, scopes)
    }
}

pub open spec fn over_rules(rules: Seq<TokenRule>, scopes: Seq<String>) -> Best
    decreases rules.len(),
{
    if rules.len() == 0 {
        Best { specificity: 0, fg: Color::Default, bold: false }
    } else {
        over_selectors(over_rules(rules.drop_last(), scopes), rules.last().scopes@, rules.last(), scopes)
    }
}

/// [`over_scopes`] over the scopes' texts.
pub open spec fn over_scope_texts(b: Best, sel: Seq<char>, rule: TokenRule, scopes: Seq<Seq<char>>) -> Best
    decreases scopes.len(),
{
    if scopes.len() == 0 {
        b
    } else {
        let prev = over_scope_texts(b, sel, rule, scopes.drop_last());
        if scope_matches(scopes.last(), sel) && byte_len(sel) > prev.specificity {
            Best { specificity: byte_len(sel), fg: fg_or_default(rule.foreground), bold: rule.bold }
        } else {
            prev
        }
    }
}

pub open spec fn over_selector_texts(b: Best, sels: Seq<String>, rule: TokenRule, scopes: Seq<Seq<char>>) -> Best
    decreases sels.len(),
{
    if sels.len() == 0 {
        b
    } else {
        over_scope_texts(over_selector_texts(b, sels.drop_last(), rule, scopes), sels.last()@, rule, scopes)
    }
}

/// The style resolution of [`Theme::resolve`] over the scopes' texts.
pub open spec fn resolve_texts(rules: Seq<TokenRule>, scopes: Seq<Seq<char>>) -> Best
    decreases rules.len(),
{
    if rules.len() == 0 {
        Best { specificity: 0, fg: Color::Default, bold: false }
    } else {
        over_selector_texts(resolve_texts(rules.drop_last(), scopes), rules.last().scopes@, rules.last(), scopes)
    }
}

/// Resolution looks only at the scopes' texts.
pub proof fn lemma_resolve_texts(rules: Seq<TokenRule>, scopes: Seq<String>)
    ensures
        over_rules(rules, scopes) == resolve_texts(rules, scopes.map_values(|s: String| s@)),
    decreases rules.len(),
{
    if rules.len() > 0 {
        lemma_resolve_texts(rules.drop_last(), scopes);
        lemma_selectors(over_rules(rules.drop_last(), scopes), rules.last().scopes@, rules.last(), scopes);
    }
}

proof fn lemma_selectors(b: Best, sels: Seq<String>, rule: TokenRule, scopes: Seq<String>)
    ensures
        over_selectors(b, sels, rule, scopes) == over_selector_texts(b, sels, rule, scopes.map_values(|s: String| s@)),
    decreases sels.len(),
{
    if sels.len() > 0 {
        lemma_selectors(b, sels.drop_last(), rule, scopes);
        lemma_scopes(over_selectors(b, sels.drop_last(), rule, scopes), sels.last()@, rule, scopes);
    }
}

proof fn lemma_scopes(b: Best, sel: Seq<char>, rule: TokenRule, scopes: Seq<String>)
    ensures
        over_scopes(b, sel, rule, scopes) == over_scope_texts(b, sel, rule, scopes.map_values(|s: String| s@)),
    decreases scopes.len(),
{
    if scopes.len() > 0 {
        lemma_scopes(b, sel, rule, scopes.drop_last());
        assert(scopes.drop_last().map_values(|s: String| s@) =~= scopes.map_values(|s: String| s@).drop_last());
    }
}

impl Theme {
    /// The style of a token with `scopes`: the rule whose selector matches
    /// one of them and is longest (the first such, in rule order); the
    /// default color and no bold when none matches.
    pub fn resolve(&self, scopes: &[String]) -> (r: ResolvedStyle)
        ensures
            r.fg == over_rules(self.token_rules@, scopes@).fg,
            r.bold == over_rules(self.token_rules@, scopes@).bold,
    {
        let mut best_spec: usize = 0;
        let mut best_fg = Color::Default;
        let mut best_bold = false;
        let mut i: usize = 0;
        while i < self.token_rules.len()
            invariant
                i <= self.token_rules@.len(),
                over_rules(self.token_rules@.take(i as int), scopes@) == (Best {
                    specificity: best_spec as nat,
                    fg: best_fg,
                    bold: best_bold,
                }),
            decreases self.token_rules@.len() - i,
        {
            let rule = &self.token_rules[i];
            proof {
                assert(self.token_rules@.take(i + 1).drop_last() =~= self.token_rules@.take(i as int));
            }
            let ghost b0 = Best { specificity: best_spec as nat, fg: best_fg, bold: best_bold };
            let mut j: usize = 0;
            while j < rule.scopes.len()
                invariant
                    j <= rule.scopes@.len(),
                    *rule == self.token_rules@[i as int],
                    over_selectors(b0, rule.scopes@.take(j as int), *rule, scopes@) == (Best {
                        specificity: best_spec as nat,
                        fg: best_fg,
                        bold: best_bold,
                    }),
                decreases rule.scopes@.len() - j,
            {
                let selector = &rule.scopes[j];
                let spec_len = selector.as_str().as_bytes().len();
                proof {
                    assert(rule.scopes@.take(j + 1).drop_last() =~= rule.scopes@.take(j as int));
                }
                let ghost b1 = Best { specificity: best_spec as nat, fg: best_fg, bold: best_bold };
                let mut k: usize = 0;
                while k < scopes.len()
                    invariant
                        k <= scopes@.len(),
                        *rule == self.token_rules@[i as int],
                        *selector == rule.scopes@[j as int],
                        spec_len == byte_len(selector@),
                        over_scopes(b1, selector@, *rule, scopes@.take(k as int)) == (Best {
                            specificity: best_spec as nat,
                            fg: best_fg,
                            bold: best_bold,
                        }),
                    decreases scopes@.len() - k,
                {
                    proof {
                        assert(scopes@.take(k + 1).drop_last() =~= scopes@.take(k as int));
                    }
                    if scope_matches_exec(&scopes[k], selector) && spec_len > best_spec {
                        best_spec = spec_len;
                        best_fg = match rule.foreground {
                            Some(c) => c,
                            None => Color::Default,
                        };
                        best_bold = rule.bold;
                    }
                    k = k + 1;
                }
                proof {
                    assert(scopes@.take(scopes@.len() as int) =~= scopes@);
                }
                j = j + 1;
            }
            proof {
                assert(rule.scopes@.take(rule.scopes@.len() as int) =~= rule.scopes@);
            }
            i = i + 1;
        }
        proof {
            assert(self.token_rules@.take(self.token_rules@.len() as int) =~= self.token_rules@);
        }
        ResolvedStyle { fg: best_fg, bold: best_bold }
    }
}


/// The built-in rules: one selector each, a 256-color foreground, bold.
pub open spec fn default_rules() -> Seq<(Seq<char>, u8, bool)> {
    seq![
        ("comment"@, 242u8, false),
        ("string"@, 113u8, false),
        ("keyword"@, 176u8, true),
        ("constant.numeric"@, 215u8, false),
        ("storage.type"@, 75u8, false),
        ("entity.name.function"@, 75u8, false),
        ("entity.name.type"@, 222u8, false),
        ("markup.heading"@, 141u8, true),
        ("entity.name.section"@, 141u8, true),
        ("markup.bold"@, 215u8, true),
        ("markup.italic"@, 229u8, false),
        ("markup.underline.link"@, 75u8, false),
        ("markup.raw"@, 113u8, false),
        ("markup.quote"@, 246u8, false),
        ("markup.list"@, 79u8, false),
    ]
}

/// `rule` is the built-in rule `d`.
pub open spec fn is_default_rule(rule: TokenRule, d: (Seq<char>, u8, bool)) -> bool {
    &&& rule.scopes@.len() == 1
    &&& rule.scopes@[0]@ == d.0
    &&& rule.foreground == Some(Color::Color256(d.1))
    &&& rule.bold == d.2
}

fn single_rule(scope: &str, color: u8, bold: bool) -> (r: TokenRule)
    ensures
        is_default_rule(r, (scope@, color, bold)),
{
    let mut scopes: Vec<String> = Vec::new();
    scopes.push(scope.to_owned());
    TokenRule { scopes, foreground: Some(Color::Color256(color)), bold }
}

impl Theme {
    /// The built-in theme.
    pub fn default_theme() -> (t: Theme)
        ensures
            t.name@ == "Default"@,
            t.background == (30u8, 30u8, 46u8),
            t.token_rules@.len() == default_rules().len(),
            forall|i: int|
                0 <= i < default_rules().len() ==> is_default_rule(
                    #[trigger] t.token_rules@[i],
                    default_rules()[i],
                ),
    {
        let mut rules: Vec<TokenRule> = Vec::new();
        rules.push(single_rule("comment", 242, false));
        rules.push(single_rule("string", 113, false));
        rules.push(single_rule("keyword", 176, true));
        rules.push(single_rule("constant.numeric", 215, false));
        rules.push(single_rule("storage.type", 75, false));
        rules.push(single_rule("entity.name.function", 75, false));
        rules.push(single_rule("entity.name.type", 222, false));
        rules.push(single_rule("markup.heading", 141, true));
        rules.push(single_rule("entity.name.section", 141, true));
        rules.push(single_rule("markup.bold", 215, true));
        rules.push(single_rule("markup.italic", 229, false));
        rules.push(single_rule("markup.underline.link", 75, false));
        rules.push(single_rule("markup.raw", 113, false));
        rules.push(single_rule("markup.quote", 246, false));
        rules.push(single_rule("markup.list", 79, false));
        Theme { name: "Default".to_owned(), token_rules: rules, background: (30, 30, 46) }
    }
}


// ── Loading from JSON ────────────────────────────────────────

/// The non-empty pieces so far, trimmed.
pub open spec fn keep_piece(ps: Seq<Seq<char>>, cur: Seq<char>) -> Seq<Seq<char>> {
    if trim(cur).len() > 0 {
        ps.push(trim(cur))
    } else {
        ps
    }
}

/// Splitting on `,` from the left: the pieces kept so far and the piece
/// being read.
pub open spec fn comma_fold(s: Seq<char>) -> (Seq<Seq<char>>, Seq<char>)
    decreases s.len(),
{
    if s.len() == 0 {
        (Seq::empty(), Seq::empty())
    } else {
        let (ps, cur) = comma_fold(s.drop_last());
        if s.last() == ',' {
            (keep_piece(ps, cur), Seq::empty())
        } else {
            (ps, cur.push(s.last()))
        }
    }
}

/// A comma-separated scope list: each piece trimmed, empty ones left out.
pub open spec fn scope_list(s: Seq<char>) -> Seq<Seq<char>> {
    let (ps, cur) = comma_fold(s);
    keep_piece(ps, cur)
}

/// The selectors of a `tokenColors` entry: `scope` as a comma-separated
/// string or as an array of strings.
pub open spec fn spec_scope_field(e: JsonValue) -> Seq<Seq<char>> {
    match jget(e, "scope"@) {
        Some(JsonValue::String(s)) => scope_list(s@),
        Some(JsonValue::Array(a)) => str_items(a@),
        _ => Seq::empty(),
    }
}

/// A `#rrggbb` value in the document, if the value is a string.
pub open spec fn json_color(o: Option<JsonValue>) -> Option<Color> {
    match jstr(o) {
        Some(s) => spec_hex_color(encode_utf8(s)),
        None => None,
    }
}

/// A color string that would be cut inside a character.
pub open spec fn json_color_splits(o: Option<JsonValue>) -> bool {
    match jstr(o) {
        Some(s) => hex_color_splits_char(encode_utf8(s)),
        None => false,
    }
}

/// A rule as values: selectors, foreground, bold.
pub open spec fn rule_view(r: TokenRule) -> (Seq<Seq<char>>, Option<Color>, bool) {
    (r.scopes@.map_values(|s: String| s@), r.foreground, r.bold)
}

/// The rule an entry gives, if it has selectors and settings.
pub open spec fn spec_entry_rule(e: JsonValue) -> Option<(Seq<Seq<char>>, Option<Color>, bool)> {
    let scopes = spec_scope_field(e);
    if scopes.len() == 0 {
        None
    } else {
        match jget(e, "settings"@) {
            None => None,
            Some(st) => Some(
                (
                    scopes,
                    json_color(jget(st, "foreground"@)),
                    match jstr(jget(st, "fontStyle"@)) {
                        Some(fs) => contains_str(fs, "bold"@),
                        None => false,
                    },
                ),
            ),
        }
    }
}

/// The entry's foreground would be read and is cut inside a character.
pub open spec fn entry_color_splits(e: JsonValue) -> bool {
    spec_scope_field(e).len() > 0 && match jget(e, "settings"@) {
        Some(st) => json_color_splits(jget(st, "foreground"@)),
        None => false,
    }
}

pub open spec fn spec_theme_rules(entries: Seq<JsonValue>) -> Seq<(Seq<Seq<char>>, Option<Color>, bool)>
    decreases entries.len(),
{
    if entries.len() == 0 {
        Seq::empty()
    } else {
        match spec_entry_rule(entries.last()) {
            Some(r) => spec_theme_rules(entries.drop_last()).push(r),
            None => spec_theme_rules(entries.drop_last()),
        }
    }
}

/// The `tokenColors` entries of a theme document.
pub open spec fn token_colors(j: JsonValue) -> Seq<JsonValue> {
    match jget(j, "tokenColors"@) {
        Some(JsonValue::Array(a)) => a@,
        _ => Seq::empty(),
    }
}

/// The `colors.editor.background` value of a theme document.
pub open spec fn background_value(j: JsonValue) -> Option<JsonValue> {
    match jget(j, "colors"@) {
        Some(c) => jget(c, "editor.background"@),
        None => None,
    }
}

/// No color string that the loader reads is cut inside a character.
pub open spec fn theme_colors_whole(j: JsonValue) -> bool {
    &&& !json_color_splits(background_value(j))
    &&& forall|i: int|
        0 <= i < token_colors(j).len() ==> !entry_color_splits(#[trigger] token_colors(j)[i])
}

/// The background a theme document sets, else `#1e1e2e`.
pub open spec fn spec_background(j: JsonValue) -> (u8, u8, u8) {
    match json_color(background_value(j)) {
        Some(Color::Rgb(r, g, b)) => (r, g, b),
        _ => (30u8, 30u8, 46u8),
    }
}

fn opt_color(o: Option<&JsonValue>) -> (r: Option<Color>)
    requires
        !json_color_splits(match o {
            Some(v) => Some(*v),
            None => None,
        }),
    ensures
        r == json_color(match o {
            Some(v) => Some(*v),
            None => None,
        }),
{
    match o {
        Some(v) => match v.as_str() {
            Some(s) => parse_hex_color(s),
            None => None,
        },
        None => None,
    }
}

/// Keeps the trimmed piece if it is not empty.
fn keep_piece_exec(out: &mut Vec<String>, cur: &Vec<char>)
    ensures
        final(out)@.map_values(|s: String| s@) == keep_piece(old(out)@.map_values(|s: String| s@), cur@),
{
    let t = trim_chars(cur);
    if t.len() > 0 {
        let ghost before = out@.map_values(|s: String| s@);
        out.push(string_from_chars(t.as_slice()));
        proof {
            assert(out@.map_values(|s: String| s@) =~= before.push(t@));
        }
    }
}

fn parse_scope_list(s: &str) -> (r: Vec<String>)
    ensures
        r@.map_values(|x: String| x@) == scope_list(s@),
{
    let cs = chars_of(s);
    let mut out: Vec<String> = Vec::new();
    let mut cur: Vec<char> = Vec::new();
    let mut i: usize = 0;
    proof {
        assert(cs@.take(0) =~= Seq::<char>::empty());
        assert(out@.map_values(|x: String| x@) =~= Seq::<Seq<char>>::empty());
    }
    while i < cs.len()
        invariant
            i <= cs@.len(),
            cs@ == s@,
            out@.map_values(|x: String| x@) == comma_fold(cs@.take(i as int)).0,
            cur@ == comma_fold(cs@.take(i as int)).1,
        decreases cs@.len() - i,
    {
        proof {
            assert(cs@.take(i + 1).drop_last() =~= cs@.take(i as int));
            assert(cs@.take(i + 1).last() == cs@[i as int]);
        }
        if cs[i] == ',' {
            keep_piece_exec(&mut out, &cur);
            cur = Vec::new();
        } else {
            cur.push(cs[i]);
        }
        i = i + 1;
    }
    proof {
        assert(cs@.take(cs@.len() as int) =~= cs@);
    }
    keep_piece_exec(&mut out, &cur);
    out
}

fn parse_scope_field(e: &JsonValue) -> (r: Vec<String>)
    ensures
        r@.map_values(|x: String| x@) == spec_scope_field(*e),
{
    match e.get("scope") {
        Some(v) => match v {
            JsonValue::String(s) => parse_scope_list(s.as_str()),
            JsonValue::Array(a) => crate::syntax::grammar::parse_str_items(a.as_slice()),
            _ => {
                let out: Vec<String> = Vec::new();
                proof {
                    assert(out@.map_values(|x: String| x@) =~= Seq::<Seq<char>>::empty());
                }
                out
            },
        },
        None => {
            let out: Vec<String> = Vec::new();
            proof {
                assert(out@.map_values(|x: String| x@) =~= Seq::<Seq<char>>::empty());
            }
            out
        },
    }
}

fn entry_rule(e: &JsonValue) -> (r: Option<TokenRule>)
    requires
        !entry_color_splits(*e),
    ensures
        match r {
            Some(t) => spec_entry_rule(*e) == Some(rule_view(t)),
            None => spec_entry_rule(*e) is None,
        },
{
    let scopes = parse_scope_field(e);
    if scopes.len() == 0 {
        return None;
    }
    let settings = match e.get("settings") {
        Some(st) => st,
        None => {
            return None;
        },
    };
    let foreground = opt_color(settings.get("foreground"));
    let bold = match json_str_of(settings, "fontStyle") {
        Some(fs) => {
            let v = chars_of(fs);
            let found = crate::strs::find_str(&v, "bold");
            proof {
                crate::strs::lemma_find_contains(v@, "bold"@);
            }
            found.is_some()
        },
        None => false,
    };
    Some(TokenRule { scopes, foreground, bold })
}

impl Theme {
    /// Loads a theme from a VS Code-style JSON document. `name` defaults
    /// to `Untitled`, the background to `#1e1e2e`; an entry of
    /// `tokenColors` becomes a rule when it has selectors and settings.
    pub fn from_json(json: &JsonValue) -> (r: Result<Theme, String>)
        requires
            theme_colors_whole(*json),
        ensures
            r matches Ok(t) && t.name@ == (match jstr(jget(*json, "name"@)) {
                Some(n) => n,
                None => "Untitled"@,
            }) && t.token_rules@.map_values(|x: TokenRule| rule_view(x)) == spec_theme_rules(
                token_colors(*json),
            ) && t.background == spec_background(*json),
    {
        let name = match json_str_of(json, "name") {
            Some(n) => n.to_owned(),
            None => "Untitled".to_owned(),
        };
        let entries: &[JsonValue] = match json.get("tokenColors") {
            Some(v) => match v.as_array() {
                Some(a) => a,
                None => &[],
            },
            None => &[],
        };
        proof {
            assert(entries@ =~= token_colors(*json));
        }
        let mut rules: Vec<TokenRule> = Vec::new();
        let mut i: usize = 0;
        proof {
            assert(entries@.take(0) =~= Seq::<JsonValue>::empty());
            assert(rules@.map_values(|x: TokenRule| rule_view(x)) =~= Seq::<
                (Seq<Seq<char>>, Option<Color>, bool),
            >::empty());
        }
        while i < entries.len()
            invariant
                i <= entries@.len(),
                entries@ == token_colors(*json),
                theme_colors_whole(*json),
                rules@.map_values(|x: TokenRule| rule_view(x)) == spec_theme_rules(
                    entries@.take(i as int),
                ),
            decreases entries@.len() - i,
        {
            proof {
                assert(entries@.take(i + 1).drop_last() =~= entries@.take(i as int));
                assert(entries@.take(i + 1).last() == entries@[i as int]);
                assert(!entry_color_splits(token_colors(*json)[i as int]));
            }
            match entry_rule(&entries[i]) {
                Some(rule) => {
                    let ghost before = rules@.map_values(|x: TokenRule| rule_view(x));
                    rules.push(rule);
                    proof {
                        assert(rules@.map_values(|x: TokenRule| rule_view(x)) =~= before.push(
                            rule_view(rule),
                        ));
                    }
                },
                None => {},
            }
            i = i + 1;
        }
        proof {
            assert(entries@.take(entries@.len() as int) =~= entries@);
        }
        let bg_value = match json.get("colors") {
            Some(c) => c.get("editor.background"),
            None => None,
        };
        let background = match opt_color(bg_value) {
            Some(Color::Rgb(r, g, b)) => (r, g, b),
            _ => (30, 30, 46),
        };
        Ok(Theme { name, token_rules: rules, background })
    }
}

} // verus!

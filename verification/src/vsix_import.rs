//! VS Code extension import: reading an extension's `package.json`, the
//! paths and names it uses, the Open VSX registry's answers, and the
//! manifest of the converted extension. Unpacking archives, downloads and
//! file copies are the application's.
use vstd::prelude::*;
use crate::syntax::json_parser::{
    JsonValue, JsonModel, json_view, jget, jstr, obj1, obj2, obj3, json_str_value, pairs_view, items_view,
    lemma_pairs_view_push, pretty, json_error_message, spec_parse, hex_lower,
};
use crate::syntax::grammar::{json_str_of, str_items, parse_str_items};
use crate::text::{chars_of, push_str_chars, string_from_chars, string_from_range, chars_eq_str};
use crate::strs::{starts_with, starts_with_str, find_char, find_char_exec};
use crate::paths::{path_join, path_join_of};
use vstd::utf8::encode_scalar;
use vstd::string::StringSliceAdditionalSpecFns;

verus! {

// ── package.json ─────────────────────────────────────────────

#[derive(Debug)]
pub struct PkgGrammar {
    pub language: String,
    pub scope_name: String,
    pub path: String,
}

#[derive(Debug)]
pub struct PkgLanguage {
    pub id: String,
    pub extensions: Vec<String>,
    pub aliases: Vec<String>,
    /// Path of the language's `language-configuration.json`.
    pub configuration: Option<String>,
}

#[derive(Debug)]
pub struct PkgTheme {
    pub id: String,
    pub label: String,
    pub path: String,
}

#[derive(Debug)]
pub struct PackageJson {
    pub publisher: String,
    pub name: String,
    pub display_name: String,
    pub version: String,
    pub grammars: Vec<PkgGrammar>,
    pub languages: Vec<PkgLanguage>,
    pub themes: Vec<PkgTheme>,
}

pub open spec fn ends_with(s: Seq<char>, suffix: Seq<char>) -> bool {
    suffix.len() <= s.len() && s.skip(s.len() - suffix.len()) == suffix
}

/// A TextMate grammar file, by its name.
pub open spec fn textmate_path(p: Seq<char>) -> bool {
    ends_with(p, ".tmLanguage.json"@) || ends_with(p, ".tmLanguage"@) || ends_with(p, ".plist"@)
}

pub open spec fn str_or(o: Option<Seq<char>>, d: Seq<char>) -> Seq<char> {
    match o {
        Some(s) => s,
        None => d,
    }
}

/// A contributed grammar: a TextMate grammar with a path; language and
/// scope default to "".
pub open spec fn spec_grammar(g: JsonValue) -> Option<(Seq<char>, Seq<char>, Seq<char>)> {
    match jstr(jget(g, "path"@)) {
        Some(path) => if textmate_path(path) {
            Some(
                (
                    str_or(jstr(jget(g, "language"@)), Seq::empty()),
                    str_or(jstr(jget(g, "scopeName"@)), Seq::empty()),
                    path,
                ),
            )
        } else {
            None
        },
        None => None,
    }
}

pub open spec fn str_array(o: Option<JsonValue>) -> Seq<Seq<char>> {
    match o {
        Some(JsonValue::Array(a)) => str_items(a@),
        _ => Seq::empty(),
    }
}

/// A contributed language: an id, its file extensions and aliases, and
/// its configuration file.
pub open spec fn spec_language(l: JsonValue) -> Option<(Seq<char>, Seq<Seq<char>>, Seq<Seq<char>>, Option<Seq<char>>)> {
    match jstr(jget(l, "id"@)) {
        Some(id) => Some(
            (id, str_array(jget(l, "extensions"@)), str_array(jget(l, "aliases"@)), jstr(jget(l, "configuration"@))),
        ),
        None => None,
    }
}

/// A contributed theme: a path; the id defaults to `theme`, the label to
/// the id.
pub open spec fn spec_theme(t: JsonValue) -> Option<(Seq<char>, Seq<char>, Seq<char>)> {
    match jstr(jget(t, "path"@)) {
        Some(path) => {
            let id = str_or(jstr(jget(t, "id"@)), "theme"@);
            Some((id, str_or(jstr(jget(t, "label"@)), id), path))
        },
        None => None,
    }
}

pub open spec fn grammar_list(a: Seq<JsonValue>) -> Seq<(Seq<char>, Seq<char>, Seq<char>)>
    decreases a.len(),
{
    if a.len() == 0 {
        Seq::empty()
    } else {
        match spec_grammar(a.last()) {
            Some(g) => grammar_list(a.drop_last()).push(g),
            None => grammar_list(a.drop_last()),
        }
    }
}

pub open spec fn language_list(a: Seq<JsonValue>) -> Seq<(Seq<char>, Seq<Seq<char>>, Seq<Seq<char>>, Option<Seq<char>>)>
    decreases a.len(),
{
    if a.len() == 0 {
        Seq::empty()
    } else {
        match spec_language(a.last()) {
            Some(l) => language_list(a.drop_last()).push(l),
            None => language_list(a.drop_last()),
        }
    }
}

pub open spec fn theme_list(a: Seq<JsonValue>) -> Seq<(Seq<char>, Seq<char>, Seq<char>)>
    decreases a.len(),
{
    if a.len() == 0 {
        Seq::empty()
    } else {
        match spec_theme(a.last()) {
            Some(t) => theme_list(a.drop_last()).push(t),
            None => theme_list(a.drop_last()),
        }
    }
}

/// The array `contributes.<key>` of a package, if there is one.
pub open spec fn contributed(val: JsonValue, key: Seq<char>) -> Seq<JsonValue> {
    match jget(val, "contributes"@) {
        Some(c) => match jget(c, key) {
            Some(JsonValue::Array(a)) => a@,
            _ => Seq::empty(),
        },
        None => Seq::empty(),
    }
}

pub open spec fn strs(v: Seq<String>) -> Seq<Seq<char>> {
    v.map_values(|s: String| s@)
}

pub open spec fn grammar_view(g: PkgGrammar) -> (Seq<char>, Seq<char>, Seq<char>) {
    (g.language@, g.scope_name@, g.path@)
}

pub open spec fn language_view(l: PkgLanguage) -> (Seq<char>, Seq<Seq<char>>, Seq<Seq<char>>, Option<Seq<char>>) {
    (
        l.id@,
        strs(l.extensions@),
        strs(l.aliases@),
        match l.configuration {
            Some(c) => Some(c@),
            None => None,
        },
    )
}

pub open spec fn theme_view(t: PkgTheme) -> (Seq<char>, Seq<char>, Seq<char>) {
    (t.id@, t.label@, t.path@)
}

/// What a parsed `package.json` says: `name` is required; `publisher`
/// defaults to `unknown`, `displayName` to the name, `version` to
/// `0.0.0`.
pub open spec fn package_matches(p: PackageJson, val: JsonValue) -> bool {
    &&& jstr(jget(val, "name"@)) == Some(p.name@)
    &&& p.publisher@ == str_or(jstr(jget(val, "publisher"@)), "unknown"@)
    &&& p.display_name@ == str_or(jstr(jget(val, "displayName"@)), p.name@)
    &&& p.version@ == str_or(jstr(jget(val, "version"@)), "0.0.0"@)
    &&& p.grammars@.map_values(|g: PkgGrammar| grammar_view(g)) == grammar_list(contributed(val, "grammars"@))
    &&& p.languages@.map_values(|l: PkgLanguage| language_view(l)) == language_list(contributed(val, "languages"@))
    &&& p.themes@.map_values(|t: PkgTheme| theme_view(t)) == theme_list(contributed(val, "themes"@))
}

fn str_or_exec(o: Option<&str>, d: &str) -> (r: String)
    ensures
        r@ == str_or(
            match o {
                Some(s) => Some(s@),
                None => None,
            },
            d@,
        ),
{
    match o {
        Some(s) => s.to_owned(),
        None => d.to_owned(),
    }
}

pub(crate) fn ends_with_exec(s: &Vec<char>, suffix: &str) -> (b: bool)
    ensures
        b == ends_with(s@, suffix@),
{
    let t = chars_of(suffix);
    if t.len() > s.len() {
        return false;
    }
    let off = s.len() - t.len();
    let mut i: usize = 0;
    while i < t.len()
        invariant
            off + t@.len() == s@.len(),
            t@ == suffix@,
            off <= s.len(),
            i <= t@.len(),
            forall|j: int| 0 <= j < i ==> s@[off + j] == t@[j],
        decreases t@.len() - i,
    {
        if s[off + i] != t[i] {
            proof {
                assert(s@.skip(off as int)[i as int] != t@[i as int]);
            }
            return false;
        }
        i = i + 1;
    }
    proof {
        assert(s@.skip(off as int) =~= t@);
    }
    true
}

fn contributed_array<'b>(val: &'b JsonValue, key: &str) -> (r: &'b [JsonValue])
    ensures
        r@ == contributed(*val, key@),
{
    match val.get("contributes") {
        Some(c) => match c.get(key) {
            Some(JsonValue::Array(a)) => a.as_slice(),
            _ => &[],
        },
        None => &[],
    }
}

fn str_array_exec(o: Option<&JsonValue>) -> (r: Vec<String>)
    ensures
        strs(r@) == str_array(match o {
            Some(v) => Some(*v),
            None => None,
        }),
{
    match o {
        Some(JsonValue::Array(a)) => parse_str_items(a.as_slice()),
        _ => {
            let v: Vec<String> = Vec::new();
            proof {
                assert(strs(v@) =~= Seq::<Seq<char>>::empty());
            }
            v
        },
    }
}

fn parse_grammar_entry(g: &JsonValue) -> (r: Option<PkgGrammar>)
    ensures
        match r {
            Some(x) => spec_grammar(*g) == Some(grammar_view(x)),
            None => spec_grammar(*g) is None,
        },
{
    let path = match json_str_of(g, "path") {
        Some(p) => p,
        None => {
            return None;
        },
    };
    let pv = chars_of(path);
    if !(ends_with_exec(&pv, ".tmLanguage.json") || ends_with_exec(&pv, ".tmLanguage") || ends_with_exec(&pv, ".plist")) {
        return None;
    }
    proof {
        reveal_strlit("");
    }
    let language = str_or_exec(json_str_of(g, "language"), "");
    let scope_name = str_or_exec(json_str_of(g, "scopeName"), "");
    Some(PkgGrammar { language, scope_name, path: path.to_owned() })
}

fn parse_language_entry(l: &JsonValue) -> (r: Option<PkgLanguage>)
    ensures
        match r {
            Some(x) => spec_language(*l) == Some(language_view(x)),
            None => spec_language(*l) is None,
        },
{
    let id = match json_str_of(l, "id") {
        Some(i) => i.to_owned(),
        None => {
            return None;
        },
    };
    let extensions = str_array_exec(l.get("extensions"));
    let aliases = str_array_exec(l.get("aliases"));
    let configuration = match json_str_of(l, "configuration") {
        Some(c) => Some(c.to_owned()),
        None => None,
    };
    Some(PkgLanguage { id, extensions, aliases, configuration })
}

fn parse_theme_entry(t: &JsonValue) -> (r: Option<PkgTheme>)
    ensures
        match r {
            Some(x) => spec_theme(*t) == Some(theme_view(x)),
            None => spec_theme(*t) is None,
        },
{
    let path = match json_str_of(t, "path") {
        Some(p) => p.to_owned(),
        None => {
            return None;
        },
    };
    let id = str_or_exec(json_str_of(t, "id"), "theme");
    let label = str_or_exec(json_str_of(t, "label"), id.as_str());
    Some(PkgTheme { id, label, path })
}

fn parse_grammars(a: &[JsonValue]) -> (r: Vec<PkgGrammar>)
    ensures
        r@.map_values(|g: PkgGrammar| grammar_view(g)) == grammar_list(a@),
{
    let mut out: Vec<PkgGrammar> = Vec::new();
    let mut i: usize = 0;
    proof {
        assert(a@.take(0) =~= Seq::<JsonValue>::empty());
        assert(out@.map_values(|g: PkgGrammar| grammar_view(g)) =~= grammar_list(a@.take(0)));
    }
    while i < a.len()
        invariant
            i <= a@.len(),
            out@.map_values(|g: PkgGrammar| grammar_view(g)) == grammar_list(a@.take(i as int)),
        decreases a@.len() - i,
    {
        proof {
            assert(a@.take(i + 1).drop_last() =~= a@.take(i as int));
            assert(a@.take(i + 1).last() == a@[i as int]);
        }
        match parse_grammar_entry(&a[i]) {
            Some(g) => {
                let ghost before = out@.map_values(|g: PkgGrammar| grammar_view(g));
                out.push(g);
                proof {
                    assert(out@.map_values(|g: PkgGrammar| grammar_view(g)) =~= before.push(grammar_view(g)));
                }
            },
            None => {},
        }
        i = i + 1;
    }
    proof {
        assert(a@.take(a@.len() as int) =~= a@);
    }
    out
}

fn parse_languages(a: &[JsonValue]) -> (r: Vec<PkgLanguage>)
    ensures
        r@.map_values(|l: PkgLanguage| language_view(l)) == language_list(a@),
{
    let mut out: Vec<PkgLanguage> = Vec::new();
    let mut i: usize = 0;
    proof {
        assert(a@.take(0) =~= Seq::<JsonValue>::empty());
        assert(out@.map_values(|l: PkgLanguage| language_view(l)) =~= language_list(a@.take(0)));
    }
    while i < a.len()
        invariant
            i <= a@.len(),
            out@.map_values(|l: PkgLanguage| language_view(l)) == language_list(a@.take(i as int)),
        decreases a@.len() - i,
    {
        proof {
            assert(a@.take(i + 1).drop_last() =~= a@.take(i as int));
            assert(a@.take(i + 1).last() == a@[i as int]);
        }
        match parse_language_entry(&a[i]) {
            Some(l) => {
                let ghost before = out@.map_values(|l: PkgLanguage| language_view(l));
                out.push(l);
                proof {
                    assert(out@.map_values(|l: PkgLanguage| language_view(l)) =~= before.push(language_view(l)));
                }
            },
            None => {},
        }
        i = i + 1;
    }
    proof {
        assert(a@.take(a@.len() as int) =~= a@);
    }
    out
}

fn parse_themes(a: &[JsonValue]) -> (r: Vec<PkgTheme>)
    ensures
        r@.map_values(|t: PkgTheme| theme_view(t)) == theme_list(a@),
{
    let mut out: Vec<PkgTheme> = Vec::new();
    let mut i: usize = 0;
    proof {
        assert(a@.take(0) =~= Seq::<JsonValue>::empty());
        assert(out@.map_values(|t: PkgTheme| theme_view(t)) =~= theme_list(a@.take(0)));
    }
    while i < a.len()
        invariant
            i <= a@.len(),
            out@.map_values(|t: PkgTheme| theme_view(t)) == theme_list(a@.take(i as int)),
        decreases a@.len() - i,
    {
        proof {
            assert(a@.take(i + 1).drop_last() =~= a@.take(i as int));
            assert(a@.take(i + 1).last() == a@[i as int]);
        }
        match parse_theme_entry(&a[i]) {
            Some(t) => {
                let ghost before = out@.map_values(|t: PkgTheme| theme_view(t));
                out.push(t);
                proof {
                    assert(out@.map_values(|t: PkgTheme| theme_view(t)) =~= before.push(theme_view(t)));
                }
            },
            None => {},
        }
        i = i + 1;
    }
    proof {
        assert(a@.take(a@.len() as int) =~= a@);
    }
    out
}

/// Reads an extension's parsed `package.json`; fails only when `name` is
/// missing.
pub fn package_from_json(val: &JsonValue) -> (r: Result<PackageJson, String>)
    ensures
        match r {
            Ok(p) => package_matches(p, *val),
            Err(e) => jstr(jget(*val, "name"@)) is None && e@ == "package.json missing 'name' field"@,
        },
{
    let name = match json_str_of(val, "name") {
        Some(n) => n.to_owned(),
        None => {
            return Err("package.json missing 'name' field".to_owned());
        },
    };
    let publisher = str_or_exec(json_str_of(val, "publisher"), "unknown");
    let display_name = str_or_exec(json_str_of(val, "displayName"), name.as_str());
    let version = str_or_exec(json_str_of(val, "version"), "0.0.0");
    let grammars = parse_grammars(contributed_array(val, "grammars"));
    let languages = parse_languages(contributed_array(val, "languages"));
    let themes = parse_themes(contributed_array(val, "themes"));
    Ok(PackageJson { publisher, name, display_name, version, grammars, languages, themes })
}

/// A lowercase hex numeral without leading zeros, for values below 256.
pub open spec fn small_hex(v: u32) -> Seq<char> {
    if v < 16 {
        seq![hex_lower(v as nat)]
    } else {
        seq![hex_lower((v / 16) as nat), hex_lower((v % 16) as nat)]
    }
}

/// A character as Rust's `Debug` writes it inside a string literal, for the
/// characters up to U+00FF that the parser's messages hold: the named
/// escapes, `\u{..}` for control characters, U+00A0 and U+00AD, and the
/// character itself otherwise (a single quote is not escaped in a string).
pub open spec fn debug_escape(c: char) -> Seq<char> {
    if c == '\0' {
        seq!['\\', '0']
    } else if c == '\t' {
        seq!['\\', 't']
    } else if c == '\r' {
        seq!['\\', 'r']
    } else if c == '\n' {
        seq!['\\', 'n']
    } else if c == '"' {
        seq!['\\', '"']
    } else if c == '\\' {
        seq!['\\', '\\']
    } else if (c as u32) < 0x20 || (0x7f <= (c as u32) && (c as u32) <= 0xa0) || (c as u32) == 0xad {
        seq!['\\', 'u', '{'] + small_hex(c as u32) + seq!['}']
    } else {
        seq![c]
    }
}

pub open spec fn debug_escape_str(s: Seq<char>) -> Seq<char>
    decreases s.len(),
{
    if s.len() == 0 {
        Seq::empty()
    } else {
        debug_escape_str(s.drop_last()) + debug_escape(s.last())
    }
}

/// A string as Rust's `Debug` writes it: quoted and escaped.
pub open spec fn debug_quoted(s: Seq<char>) -> Seq<char> {
    seq!['"'] + debug_escape_str(s) + seq!['"']
}

fn hex_digit_char(d: u32) -> (c: char)
    requires
        d < 16,
    ensures
        c == hex_lower(d as nat),
{
    match d {
        0 => '0',
        1 => '1',
        2 => '2',
        3 => '3',
        4 => '4',
        5 => '5',
        6 => '6',
        7 => '7',
        8 => '8',
        9 => '9',
        10 => 'a',
        11 => 'b',
        12 => 'c',
        13 => 'd',
        14 => 'e',
        _ => 'f',
    }
}

fn push_debug_escape(out: &mut Vec<char>, c: char)
    ensures
        final(out)@ == old(out)@ + debug_escape(c),
{
    let v = c as u32;
    if c == '\0' {
        out.push('\\');
        out.push('0');
    } else if c == '\t' {
        out.push('\\');
        out.push('t');
    } else if c == '\r' {
        out.push('\\');
        out.push('r');
    } else if c == '\n' {
        out.push('\\');
        out.push('n');
    } else if c == '"' {
        out.push('\\');
        out.push('"');
    } else if c == '\\' {
        out.push('\\');
        out.push('\\');
    } else if v < 0x20 || (0x7f <= v && v <= 0xa0) || v == 0xad {
        out.push('\\');
        out.push('u');
        out.push('{');
        if v < 16 {
            out.push(hex_digit_char(v));
        } else {
            out.push(hex_digit_char(v / 16));
            out.push(hex_digit_char(v % 16));
        }
        out.push('}');
    } else {
        out.push(c);
    }
    assert(final(out)@ =~= old(out)@ + debug_escape(c));
}

fn push_debug_quoted(out: &mut Vec<char>, s: &str)
    ensures
        final(out)@ == old(out)@ + debug_quoted(s@),
{
    let cs = chars_of(s);
    out.push('"');
    let ghost start = out@;
    let mut i: usize = 0;
    while i < cs.len()
        invariant
            i <= cs@.len(),
            cs@ == s@,
            out@ == start + debug_escape_str(cs@.take(i as int)),
        decreases cs@.len() - i,
    {
        assert(cs@.take(i + 1).drop_last() =~= cs@.take(i as int));
        push_debug_escape(out, cs[i]);
        assert(out@ =~= start + debug_escape_str(cs@.take(i + 1)));
        i = i + 1;
    }
    assert(cs@.take(cs@.len() as int) =~= cs@);
    out.push('"');
    assert(out@ =~= old(out)@ + debug_quoted(s@));
}

/// Parses the text of an extension's `package.json`: a parse failure is
/// reported with the parser's message in `Debug` form; a value without a
/// string `name` is refused; any other value is read as `package_from_json`
/// reads it.
pub fn parse_package_json(text: &str) -> (r: Result<PackageJson, String>)
    requires
        text.spec_bytes().len() <= usize::MAX / 2,
    ensures
        match spec_parse(text.spec_bytes(), text@) {
            Err(e) => r matches Err(m) && m@ == "package.json parse error: "@ + debug_quoted(json_error_message(e)),
            Ok(jm) => exists|v: JsonValue|
                #[trigger] json_view(v) == jm && match r {
                    Ok(p) => package_matches(p, v),
                    Err(m) => jstr(jget(v, "name"@)) is None && m@ == "package.json missing 'name' field"@,
                },
        },
{
    let val = match JsonValue::parse(text) {
        Ok(v) => v,
        Err(e) => {
            let mut m: Vec<char> = Vec::new();
            push_str_chars(&mut m, "package.json parse error: ");
            push_debug_quoted(&mut m, e.as_str());
            proof {
                reveal_strlit("package.json parse error: ");
            }
            return Err(string_from_chars(m.as_slice()));
        },
    };
    package_from_json(&val)
}

// ── Paths and names ──────────────────────────────────────────

/// `p` without its leading `./` prefixes.
pub open spec fn trim_dot_slash(p: Seq<char>) -> Seq<char>
    decreases p.len(),
{
    if p.len() >= 2 && p[0] == '.' && p[1] == '/' {
        trim_dot_slash(p.skip(2))
    } else {
        p
    }
}

/// A `package.json`-relative path (such as `./syntaxes/x.json`) under the
/// extension's root.
pub fn resolve_pkg_path(ext_root: &str, pkg_path: &str) -> (r: String)
    ensures
        r@ == path_join_of(ext_root@, trim_dot_slash(pkg_path@)),
{
    let v = chars_of(pkg_path);
    let mut i: usize = 0;
    proof {
        assert(v@.skip(0) =~= v@);
    }
    while v.len() - i >= 2 && v[i] == '.' && v[i + 1] == '/'
        invariant
            i <= v@.len(),
            v@ == pkg_path@,
            trim_dot_slash(pkg_path@) == trim_dot_slash(v@.skip(i as int)),
        decreases v@.len() - i,
    {
        proof {
            assert(v@.skip(i as int).skip(2) =~= v@.skip(i + 2));
        }
        i = i + 2;
    }
    let rest = string_from_chars(crate::strs::sub_chars(&v, i, v.len()).as_slice());
    proof {
        assert(v@.skip(i as int) =~= v@.subrange(i as int, v@.len() as int));
    }
    path_join(ext_root, rest.as_str())
}

/// Characters kept as they are in a URL component.
pub open spec fn url_safe(c: char) -> bool {
    ('A' <= c <= 'Z') || ('a' <= c <= 'z') || ('0' <= c <= '9') || c == '-' || c == '_' || c == '.' || c == '~'
}

/// A lowercase hex digit.
pub open spec fn hex_char(d: u8) -> char {
    if d < 10 {
        (0x30 + d) as char
    } else {
        (0x61 + d - 10) as char
    }
}

/// `%XX` for each byte.
pub open spec fn percent_bytes(b: Seq<u8>) -> Seq<char>
    decreases b.len(),
{
    if b.len() == 0 {
        Seq::empty()
    } else {
        seq!['%', hex_char(b[0] / 16), hex_char(b[0] % 16)] + percent_bytes(b.drop_first())
    }
}

/// One character of a URL component: kept, `+` for a space, or its UTF-8
/// bytes percent-encoded.
pub open spec fn url_char(c: char) -> Seq<char> {
    if url_safe(c) {
        seq![c]
    } else if c == ' ' {
        seq!['+']
    } else {
        percent_bytes(encode_scalar(c as u32))
    }
}

pub open spec fn spec_url_encode(s: Seq<char>) -> Seq<char>
    decreases s.len(),
{
    if s.len() == 0 {
        Seq::empty()
    } else {
        spec_url_encode(s.drop_last()) + url_char(s.last())
    }
}

fn hex_char_exec(d: u8) -> (c: char)
    requires
        d < 16,
    ensures
        c == hex_char(d),
{
    if d < 10 {
        (0x30 + d) as char
    } else {
        (0x61 + d - 10) as char
    }
}

/// Minimal percent-encoding for URL path components.
pub fn url_encode(s: &str) -> (r: String)
    ensures
        r@ == spec_url_encode(s@),
{
    let cs = chars_of(s);
    let mut out: Vec<char> = Vec::new();
    let mut i: usize = 0;
    proof {
        assert(cs@.take(0) =~= Seq::<char>::empty());
    }
    while i < cs.len()
        invariant
            i <= cs@.len(),
            cs@ == s@,
            out@ == spec_url_encode(cs@.take(i as int)),
        decreases cs@.len() - i,
    {
        let c = cs[i];
        proof {
            assert(cs@.take(i + 1).drop_last() =~= cs@.take(i as int));
            assert(cs@.take(i + 1).last() == c);
        }
        if ('A' <= c && c <= 'Z') || ('a' <= c && c <= 'z') || ('0' <= c && c <= '9') || c == '-' || c == '_'
            || c == '.' || c == '~' {
            out.push(c);
        } else if c == ' ' {
            out.push('+');
        } else {
            let mut bytes: Vec<u8> = Vec::new();
            crate::bytes::push_utf8(&mut bytes, c);
            let ghost base = out@;
            let mut k: usize = 0;
            proof {
                assert(bytes@ =~= encode_scalar(c as u32));
                assert(bytes@.skip(0) =~= bytes@);
            }
            while k < bytes.len()
                invariant
                    k <= bytes@.len(),
                    out@ + percent_bytes(bytes@.skip(k as int)) == base + percent_bytes(bytes@),
                decreases bytes@.len() - k,
            {
                let b = bytes[k];
                proof {
                    assert(bytes@.skip(k as int)[0] == b);
                    assert(bytes@.skip(k as int).drop_first() =~= bytes@.skip(k + 1));
                }
                let ghost before = out@;
                out.push('%');
                out.push(hex_char_exec(b / 16));
                out.push(hex_char_exec(b % 16));
                proof {
                    assert(out@ =~= before + seq!['%', hex_char(b / 16), hex_char(b % 16)]);
                    assert(out@ + percent_bytes(bytes@.skip(k + 1)) =~= before + percent_bytes(bytes@.skip(k as int)));
                }
                k = k + 1;
            }
            proof {
                assert(bytes@.skip(bytes@.len() as int) =~= Seq::<u8>::empty());
                assert(out@ =~= base + percent_bytes(bytes@));
            }
        }
        i = i + 1;
    }
    proof {
        assert(cs@.take(cs@.len() as int) =~= cs@);
    }
    string_from_chars(out.as_slice())
}


// ── The converted extension's manifest ───────────────────────

/// A grammar copied into the extension, under its file name.
#[derive(Debug)]
pub struct InstalledGrammar {
    pub language: String,
    pub scope_name: String,
    pub installed_basename: String,
}

/// A theme copied into the extension, under its file name.
#[derive(Debug)]
pub struct InstalledTheme {
    pub id: String,
    pub label: String,
    pub installed_basename: String,
}

/// The line comment prefix a `language-configuration.json` gives:
/// `comments.lineComment`.
pub open spec fn spec_line_comment(config: JsonValue) -> Option<Seq<char>> {
    match jget(config, "comments"@) {
        Some(c) => jstr(jget(c, "lineComment"@)),
        None => None,
    }
}

pub fn line_comment_of(config: &JsonValue) -> (r: Option<String>)
    ensures
        match r {
            Some(s) => spec_line_comment(*config) == Some(s@),
            None => spec_line_comment(*config) is None,
        },
{
    match config.get("comments") {
        Some(c) => match json_str_of(c, "lineComment") {
            Some(s) => Some(s.to_owned()),
            None => None,
        },
        None => None,
    }
}

pub open spec fn str_models(v: Seq<Seq<char>>) -> Seq<JsonModel> {
    v.map_values(|s: Seq<char>| JsonModel::Str(s))
}

/// The comment prefix recorded for a language, the first entry for it.
pub open spec fn comment_for(map: Seq<(String, String)>, id: Seq<char>) -> Option<Seq<char>>
    decreases map.len(),
{
    if map.len() == 0 {
        None
    } else if map[0].0@ == id {
        Some(map[0].1@)
    } else {
        comment_for(map.drop_first(), id)
    }
}

/// A language's entry: id and extensions, its aliases when there are
/// some, and its comment prefix when one is known.
pub open spec fn language_json(l: PkgLanguage, comments: Seq<(String, String)>) -> JsonModel {
    let base = seq![
        ("id"@, JsonModel::Str(l.id@)),
        ("extensions"@, JsonModel::Array(str_models(strs(l.extensions@)))),
    ];
    let with_aliases = if l.aliases@.len() > 0 {
        base.push(("aliases"@, JsonModel::Array(str_models(strs(l.aliases@)))))
    } else {
        base
    };
    JsonModel::Object(
        match comment_for(comments, l.id@) {
            Some(c) => with_aliases.push(("comment"@, JsonModel::Str(c))),
            None => with_aliases,
        },
    )
}

pub open spec fn installed_grammar_json(g: InstalledGrammar) -> JsonModel {
    JsonModel::Object(
        seq![
            ("language"@, JsonModel::Str(g.language@)),
            ("scopeName"@, JsonModel::Str(g.scope_name@)),
            ("path"@, JsonModel::Str(g.installed_basename@)),
        ],
    )
}

pub open spec fn installed_theme_json(t: InstalledTheme) -> JsonModel {
    JsonModel::Object(
        seq![
            ("id"@, JsonModel::Str(t.id@)),
            ("label"@, JsonModel::Str(t.label@)),
            ("path"@, JsonModel::Str(t.installed_basename@)),
        ],
    )
}

/// The manifest of the converted extension.
pub open spec fn manifest_json(
    ext_id: Seq<char>,
    pkg: PackageJson,
    grammars: Seq<InstalledGrammar>,
    themes: Seq<InstalledTheme>,
    comments: Seq<(String, String)>,
) -> JsonModel {
    JsonModel::Object(
        seq![
            ("id"@, JsonModel::Str(ext_id)),
            ("name"@, JsonModel::Str(pkg.display_name@)),
            ("version"@, JsonModel::Str(pkg.version@)),
            ("languages"@, JsonModel::Array(pkg.languages@.map_values(|l: PkgLanguage| language_json(l, comments)))),
            ("grammars"@, JsonModel::Array(grammars.map_values(|g: InstalledGrammar| installed_grammar_json(g)))),
            ("themes"@, JsonModel::Array(themes.map_values(|t: InstalledTheme| installed_theme_json(t)))),
        ],
    )
}

fn string_array(v: &Vec<String>) -> (r: JsonValue)
    ensures
        json_view(r) == JsonModel::Array(str_models(strs(v@))),
{
    let mut items: Vec<JsonValue> = Vec::new();
    let mut i: usize = 0;
    proof {
        assert(items_view(items@) =~= str_models(strs(v@.take(0))));
    }
    while i < v.len()
        invariant
            i <= v@.len(),
            items_view(items@) == str_models(strs(v@.take(i as int))),
        decreases v@.len() - i,
    {
        let ghost before = items@;
        items.push(json_str_value(v[i].as_str()));
        proof {
            assert(items@.drop_last() =~= before);
            assert(str_models(strs(v@.take(i + 1))) =~= str_models(strs(v@.take(i as int))).push(JsonModel::Str(v@[i as int]@)));
        }
        i = i + 1;
    }
    proof {
        assert(v@.take(v@.len() as int) =~= v@);
    }
    JsonValue::Array(items)
}

fn comment_lookup(map: &[(String, String)], id: &str) -> (r: Option<String>)
    ensures
        match r {
            Some(c) => comment_for(map@, id@) == Some(c@),
            None => comment_for(map@, id@) is None,
        },
{
    let mut i: usize = 0;
    proof {
        assert(map@.skip(0) =~= map@);
    }
    while i < map.len()
        invariant
            i <= map@.len(),
            comment_for(map@, id@) == comment_for(map@.skip(i as int), id@),
        decreases map@.len() - i,
    {
        proof {
            assert(map@.skip(i as int)[0] == map@[i as int]);
            assert(map@.skip(i as int).drop_first() =~= map@.skip(i + 1));
        }
        let v = chars_of(map[i].0.as_str());
        if chars_eq_str(&v, id) {
            return Some(map[i].1.clone());
        }
        i = i + 1;
    }
    None
}

fn push_member(m: &mut Vec<(String, JsonValue)>, k: &str, v: JsonValue)
    ensures
        pairs_view(final(m)@) == pairs_view(old(m)@).push((k@, json_view(v))),
{
    let ghost before = m@;
    m.push((k.to_owned(), v));
    proof {
        lemma_pairs_view_push(before, m@.last());
        assert(m@ =~= before.push(m@.last()));
    }
}

fn language_value(l: &PkgLanguage, comments: &[(String, String)]) -> (r: JsonValue)
    ensures
        json_view(r) == language_json(*l, comments@),
{
    let mut m: Vec<(String, JsonValue)> = Vec::new();
    proof {
        assert(pairs_view(m@) =~= Seq::<(Seq<char>, JsonModel)>::empty()) by {
            lemma_pairs_view_push(Seq::empty(), (l.id, JsonValue::Null));
        }
    }
    push_member(&mut m, "id", json_str_value(l.id.as_str()));
    push_member(&mut m, "extensions", string_array(&l.extensions));
    let ghost base = seq![
        ("id"@, JsonModel::Str(l.id@)),
        ("extensions"@, JsonModel::Array(str_models(strs(l.extensions@)))),
    ];
    proof {
        assert(pairs_view(m@) =~= base);
    }
    if l.aliases.len() > 0 {
        push_member(&mut m, "aliases", string_array(&l.aliases));
    }
    let ghost with_aliases = if l.aliases@.len() > 0 {
        base.push(("aliases"@, JsonModel::Array(str_models(strs(l.aliases@)))))
    } else {
        base
    };
    proof {
        assert(pairs_view(m@) =~= with_aliases);
    }
    match comment_lookup(comments, l.id.as_str()) {
        Some(c) => push_member(&mut m, "comment", json_str_value(c.as_str())),
        None => {},
    }
    let r = JsonValue::Object(m);
    proof {
        assert(pairs_view(m@) =~= match comment_for(comments@, l.id@) {
            Some(c) => with_aliases.push(("comment"@, JsonModel::Str(c))),
            None => with_aliases,
        });
        assert(json_view(r) =~= language_json(*l, comments@));
    }
    r
}

/// The manifest of the converted extension, written out with two-space
/// indentation.
pub fn build_manifest_json(
    ext_id: &str,
    pkg: &PackageJson,
    grammars: &[InstalledGrammar],
    themes: &[InstalledTheme],
    comment_map: &[(String, String)],
) -> (r: String)
    ensures
        r@ == pretty(manifest_json(ext_id@, *pkg, grammars@, themes@, comment_map@), seq![' ', ' '], Seq::empty()),
{
    let mut langs: Vec<JsonValue> = Vec::new();
    let mut i: usize = 0;
    proof {
        assert(items_view(langs@) =~= pkg.languages@.take(0).map_values(|l: PkgLanguage| language_json(l, comment_map@)));
    }
    while i < pkg.languages.len()
        invariant
            i <= pkg.languages@.len(),
            items_view(langs@) == pkg.languages@.take(i as int).map_values(|l: PkgLanguage| language_json(l, comment_map@)),
        decreases pkg.languages@.len() - i,
    {
        let ghost before = langs@;
        langs.push(language_value(&pkg.languages[i], comment_map));
        proof {
            assert(langs@.drop_last() =~= before);
            assert(pkg.languages@.take(i + 1).map_values(|l: PkgLanguage| language_json(l, comment_map@)) =~= pkg.languages@.take(
                i as int,
            ).map_values(|l: PkgLanguage| language_json(l, comment_map@)).push(language_json(pkg.languages@[i as int], comment_map@)));
        }
        i = i + 1;
    }
    let mut gs: Vec<JsonValue> = Vec::new();
    let mut j: usize = 0;
    proof {
        assert(pkg.languages@.take(pkg.languages@.len() as int) =~= pkg.languages@);
        assert(items_view(gs@) =~= grammars@.take(0).map_values(|g: InstalledGrammar| installed_grammar_json(g)));
    }
    while j < grammars.len()
        invariant
            j <= grammars@.len(),
            items_view(gs@) == grammars@.take(j as int).map_values(|g: InstalledGrammar| installed_grammar_json(g)),
        decreases grammars@.len() - j,
    {
        let g = &grammars[j];
        let ghost before = gs@;
        gs.push(obj3(
            "language",
            json_str_value(g.language.as_str()),
            "scopeName",
            json_str_value(g.scope_name.as_str()),
            "path",
            json_str_value(g.installed_basename.as_str()),
        ));
        proof {
            assert(gs@.drop_last() =~= before);
            assert(grammars@.take(j + 1).map_values(|g: InstalledGrammar| installed_grammar_json(g)) =~= grammars@.take(
                j as int,
            ).map_values(|g: InstalledGrammar| installed_grammar_json(g)).push(installed_grammar_json(grammars@[j as int])));
        }
        j = j + 1;
    }
    let mut ts: Vec<JsonValue> = Vec::new();
    let mut k: usize = 0;
    proof {
        assert(grammars@.take(grammars@.len() as int) =~= grammars@);
        assert(items_view(ts@) =~= themes@.take(0).map_values(|t: InstalledTheme| installed_theme_json(t)));
    }
    while k < themes.len()
        invariant
            k <= themes@.len(),
            items_view(ts@) == themes@.take(k as int).map_values(|t: InstalledTheme| installed_theme_json(t)),
        decreases themes@.len() - k,
    {
        let t = &themes[k];
        let ghost before = ts@;
        ts.push(obj3(
            "id",
            json_str_value(t.id.as_str()),
            "label",
            json_str_value(t.label.as_str()),
            "path",
            json_str_value(t.installed_basename.as_str()),
        ));
        proof {
            assert(ts@.drop_last() =~= before);
            assert(themes@.take(k + 1).map_values(|t: InstalledTheme| installed_theme_json(t)) =~= themes@.take(
                k as int,
            ).map_values(|t: InstalledTheme| installed_theme_json(t)).push(installed_theme_json(themes@[k as int])));
        }
        k = k + 1;
    }
    proof {
        assert(themes@.take(themes@.len() as int) =~= themes@);
    }
    let mut m: Vec<(String, JsonValue)> = Vec::new();
    proof {
        assert(pairs_view(m@) =~= Seq::<(Seq<char>, JsonModel)>::empty()) by {
            lemma_pairs_view_push(Seq::empty(), (pkg.name, JsonValue::Null));
        }
    }
    push_member(&mut m, "id", json_str_value(ext_id));
    push_member(&mut m, "name", json_str_value(pkg.display_name.as_str()));
    push_member(&mut m, "version", json_str_value(pkg.version.as_str()));
    push_member(&mut m, "languages", JsonValue::Array(langs));
    push_member(&mut m, "grammars", JsonValue::Array(gs));
    push_member(&mut m, "themes", JsonValue::Array(ts));
    let manifest = JsonValue::Object(m);
    proof {
        assert(pairs_view(Seq::<(String, JsonValue)>::empty()) =~= Seq::<(Seq<char>, JsonModel)>::empty());
        assert(pairs_view(m@) =~= seq![
            ("id"@, JsonModel::Str(ext_id@)),
            ("name"@, JsonModel::Str(pkg.display_name@)),
            ("version"@, JsonModel::Str(pkg.version@)),
            ("languages"@, JsonModel::Array(pkg.languages@.map_values(|l: PkgLanguage| language_json(l, comment_map@)))),
            ("grammars"@, JsonModel::Array(grammars@.map_values(|g: InstalledGrammar| installed_grammar_json(g)))),
            ("themes"@, JsonModel::Array(themes@.map_values(|t: InstalledTheme| installed_theme_json(t)))),
        ]);
        assert(json_view(manifest) =~= manifest_json(ext_id@, *pkg, grammars@, themes@, comment_map@));
    }
    let r = manifest.to_json_pretty(2);
    proof {
        assert(Seq::new(2nat, |i: int| ' ') =~= seq![' ', ' ']);
    }
    r
}


/// Where an extension to import comes from.
#[derive(Clone, Copy, Debug, PartialEq, Eq, Structural)]
pub enum ImportSource {
    /// An `http://` or `https://` URL to download.
    Url,
    /// A `.vsix` file on disk.
    LocalFile,
    /// A name to look up in the extension registry.
    ByName,
}

/// How a command-line argument names an extension: a URL by its scheme,
/// then a local file when it ends in `.vsix` or exists (`exists`, as the
/// file system says), else a registry name.
pub open spec fn spec_import_source(arg: Seq<char>, exists: bool) -> ImportSource {
    if starts_with(arg, "http://"@) || starts_with(arg, "https://"@) {
        ImportSource::Url
    } else if ends_with(arg, ".vsix"@) || exists {
        ImportSource::LocalFile
    } else {
        ImportSource::ByName
    }
}

/// Where `arg` says to import an extension from; `exists` is whether a
/// file of that name exists.
pub fn import_source(arg: &str, exists: bool) -> (r: ImportSource)
    ensures
        r == spec_import_source(arg@, exists),
{
    let v = chars_of(arg);
    if starts_with_str(&v, "http://") || starts_with_str(&v, "https://") {
        ImportSource::Url
    } else if ends_with_exec(&v, ".vsix") || exists {
        ImportSource::LocalFile
    } else {
        ImportSource::ByName
    }
}

/// A registry name split at its first dot into publisher and extension
/// name (`rust-lang.rust`); `None` when it has no dot and must be searched
/// for.
pub fn split_extension_id(name: &str) -> (r: Option<(String, String)>)
    ensures
        match find_char(name@, '.') {
            Some(i) => r matches Some(p) && p.0@ == name@.take(i) && p.1@ == name@.skip(i + 1),
            None => r is None,
        },
{
    let v = chars_of(name);
    match find_char_exec(&v, '.') {
        Some(i) => {
            let n = v.len();
            assert(i < n);
            let a = string_from_range(v.as_slice(), 0, i);
            let b = string_from_range(v.as_slice(), i + 1, n);
            Some((a, b))
        },
        None => None,
    }
}

} // verus!

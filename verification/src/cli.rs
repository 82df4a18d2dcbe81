//! The command line: diagnostic flags, the subcommands and their
//! arguments, and the decisions of grammar installation.
use vstd::prelude::*;
use crate::text::{chars_of, chars_eq_str};

verus! {

/// The program's version.
pub fn version() -> (s: &'static str)
    ensures
        s@ == "0.1.0"@,
{
    "0.1.0"
}

/// The diagnostic log switches, which may stand anywhere.
#[derive(Clone, Copy, Debug, PartialEq, Eq, Structural)]
pub struct LogFlags {
    pub log: bool,
    pub log_key: bool,
    pub log_render: bool,
    pub log_syntax: bool,
}

#[derive(Clone, Debug, PartialEq, Eq)]
pub enum ExtCommand {
    List,
    Install(String),
    Remove(String),
    Info(String),
}

/// Why an `--ext` command line is refused.
#[derive(Clone, Debug, PartialEq, Eq)]
pub enum ExtError {
    /// A subcommand without its argument: the subcommand's name.
    MissingArgument(String),
    /// An unknown subcommand (empty when there was none).
    Unknown(String),
}

#[derive(Debug, PartialEq, Eq)]
pub enum Command {
    Help,
    Version,
    Ext(Result<ExtCommand, ExtError>),
    InstallGrammars,
    /// `--import` with its argument, if given.
    Import(Option<String>),
    /// Open a file, or restore the session when there is none.
    Open(Option<String>),
}

pub open spec fn is_log_flag(a: Seq<char>) -> bool {
    a == "--log"@ || a == "--log-key"@ || a == "--log-render"@ || a == "--log-syntax"@
}

pub open spec fn strs(v: Seq<String>) -> Seq<Seq<char>> {
    v.map_values(|s: String| s@)
}

/// The arguments without the diagnostic switches, in order.
pub open spec fn without_log_flags(args: Seq<Seq<char>>) -> Seq<Seq<char>> {
    args.filter(|a: Seq<char>| !is_log_flag(a))
}

pub open spec fn spec_ext(rest: Seq<Seq<char>>) -> Result<(nat, Seq<char>), (bool, Seq<char>)> {
    let sub = if rest.len() > 0 { rest[0] } else { Seq::empty() };
    if sub == "list"@ {
        Ok((0, Seq::empty()))
    } else if sub == "install"@ || sub == "remove"@ || sub == "info"@ {
        let k: nat = if sub == "install"@ { 1 } else if sub == "remove"@ { 2 } else { 3 };
        if rest.len() > 1 {
            Ok((k, rest[1]))
        } else {
            Err((true, sub))
        }
    } else {
        Err((false, sub))
    }
}

/// An `--ext` command as values: (0 list, 1 install, 2 remove, 3 info;
/// argument), or the refusal (missing argument?, subcommand).
pub open spec fn ext_view(r: Result<ExtCommand, ExtError>) -> Result<(nat, Seq<char>), (bool, Seq<char>)> {
    match r {
        Ok(ExtCommand::List) => Ok((0, Seq::empty())),
        Ok(ExtCommand::Install(p)) => Ok((1, p@)),
        Ok(ExtCommand::Remove(i)) => Ok((2, i@)),
        Ok(ExtCommand::Info(i)) => Ok((3, i@)),
        Err(ExtError::MissingArgument(s)) => Err((true, s@)),
        Err(ExtError::Unknown(s)) => Err((false, s@)),
    }
}

fn arg_is(a: &String, lit: &str) -> (b: bool)
    ensures
        b == (a@ == lit@),
{
    let v = chars_of(a.as_str());
    chars_eq_str(&v, lit)
}

/// Reads the arguments of `--ext`.
pub fn parse_ext_command(rest: &[String]) -> (r: Result<ExtCommand, ExtError>)
    ensures
        ext_view(r) == spec_ext(strs(rest@)),
{
    proof {
        reveal_strlit("list");
        reveal_strlit("install");
        reveal_strlit("remove");
        reveal_strlit("info");
    }
    let sub = if rest.len() > 0 {
        rest[0].clone()
    } else {
        proof {
            reveal_strlit("");
        }
        "".to_owned()
    };
    proof {
        if rest@.len() > 0 {
            assert(strs(rest@)[0] == rest@[0]@);
        }
        assert(sub@ == (if strs(rest@).len() > 0 { strs(rest@)[0] } else { Seq::<char>::empty() }));
    }
    if arg_is(&sub, "list") {
        return Ok(ExtCommand::List);
    }
    let kind: u8 = if arg_is(&sub, "install") {
        1
    } else if arg_is(&sub, "remove") {
        2
    } else if arg_is(&sub, "info") {
        3
    } else {
        return Err(ExtError::Unknown(sub));
    };
    if rest.len() < 2 {
        return Err(ExtError::MissingArgument(sub));
    }
    let a = rest[1].clone();
    if kind == 1 {
        Ok(ExtCommand::Install(a))
    } else if kind == 2 {
        Ok(ExtCommand::Remove(a))
    } else {
        Ok(ExtCommand::Info(a))
    }
}

/// The usage line printed for an `--ext` subcommand given no argument.
pub open spec fn ext_usage(sub: Seq<char>) -> Seq<char> {
    if sub == "install"@ {
        "Usage: zedit --ext install <path>"@
    } else if sub == "remove"@ {
        "Usage: zedit --ext remove <id>"@
    } else {
        "Usage: zedit --ext info <id>"@
    }
}

pub fn ext_usage_line(sub: &str) -> (r: &'static str)
    ensures
        r@ == ext_usage(sub@),
{
    let v = chars_of(sub);
    if chars_eq_str(&v, "install") {
        "Usage: zedit --ext install <path>"
    } else if chars_eq_str(&v, "remove") {
        "Usage: zedit --ext remove <id>"
    } else {
        "Usage: zedit --ext info <id>"
    }
}

/// The command a command line asks for, with the log switches. The first
/// argument after the program's name decides; anything else opens it as
/// a file.
pub open spec fn spec_command_kind(args: Seq<Seq<char>>) -> nat {
    if args.len() > 1 {
        let a = args[1];
        if a == "--help"@ || a == "-h"@ {
            0
        } else if a == "--version"@ || a == "-V"@ {
            1
        } else if a == "--ext"@ {
            2
        } else if a == "--install-grammars"@ {
            3
        } else if a == "--import"@ {
            4
        } else {
            5
        }
    } else {
        5
    }
}

pub open spec fn command_kind(c: Command) -> nat {
    match c {
        Command::Help => 0,
        Command::Version => 1,
        Command::Ext(_) => 2,
        Command::InstallGrammars => 3,
        Command::Import(_) => 4,
        Command::Open(_) => 5,
    }
}

/// Reads a command line (the program's name first).
pub fn parse_args(args: &[String]) -> (r: (LogFlags, Command))
    ensures
        r.0.log == strs(args@).contains("--log"@),
        r.0.log_key == strs(args@).contains("--log-key"@),
        r.0.log_render == strs(args@).contains("--log-render"@),
        r.0.log_syntax == strs(args@).contains("--log-syntax"@),
        ({
            let a = without_log_flags(strs(args@));
            &&& command_kind(r.1) == spec_command_kind(a)
            &&& match r.1 {
                Command::Ext(e) => ext_view(e) == spec_ext(a.skip(2)),
                Command::Import(x) => match x {
                    Some(s) => a.len() > 2 && s@ == a[2],
                    None => a.len() <= 2,
                },
                Command::Open(f) => match f {
                    Some(s) => a.len() > 1 && s@ == a[1],
                    None => a.len() <= 1,
                },
                _ => true,
            }
        }),
{
    let ghost av = strs(args@);
    let mut flags = LogFlags { log: false, log_key: false, log_render: false, log_syntax: false };
    let mut kept: Vec<String> = Vec::new();
    let mut i: usize = 0;
    proof {
        assert(av.take(0) =~= Seq::<Seq<char>>::empty());
        assert(strs(kept@) =~= without_log_flags(av.take(0)));
        reveal_strlit("--log");
        reveal_strlit("--log-key");
        reveal_strlit("--log-render");
        reveal_strlit("--log-syntax");
    }
    while i < args.len()
        invariant
            i <= args@.len(),
            av == strs(args@),
            strs(kept@) == without_log_flags(av.take(i as int)),
            flags.log == av.take(i as int).contains("--log"@),
            flags.log_key == av.take(i as int).contains("--log-key"@),
            flags.log_render == av.take(i as int).contains("--log-render"@),
            flags.log_syntax == av.take(i as int).contains("--log-syntax"@),
        decreases args@.len() - i,
    {
        let a = &args[i];
        proof {
            assert(av.take(i + 1) =~= av.take(i as int).push(a@));
            av.take(i as int).lemma_filter_push(a@, |x: Seq<char>| !is_log_flag(x));
        }
        let is_log = arg_is(a, "--log");
        let is_key = arg_is(a, "--log-key");
        let is_render = arg_is(a, "--log-render");
        let is_syntax = arg_is(a, "--log-syntax");
        if is_log {
            flags.log = true;
        }
        if is_key {
            flags.log_key = true;
        }
        if is_render {
            flags.log_render = true;
        }
        if is_syntax {
            flags.log_syntax = true;
        }
        proof {
            lemma_contains_push(av.take(i as int), a@, "--log"@);
            lemma_contains_push(av.take(i as int), a@, "--log-key"@);
            lemma_contains_push(av.take(i as int), a@, "--log-render"@);
            lemma_contains_push(av.take(i as int), a@, "--log-syntax"@);
        }
        if !(is_log || is_key || is_render || is_syntax) {
            let ghost before = strs(kept@);
            kept.push(a.clone());
            proof {
                assert(strs(kept@) =~= before.push(a@));
            }
        }
        i = i + 1;
    }
    proof {
        assert(av.take(av.len() as int) =~= av);
    }
    let ghost a = strs(kept@);
    if kept.len() > 1 {
        let first = &kept[1];
        let cmd = if arg_is(first, "--help") || arg_is(first, "-h") {
            Command::Help
        } else if arg_is(first, "--version") || arg_is(first, "-V") {
            Command::Version
        } else if arg_is(first, "--ext") {
            let rest = if kept.len() > 2 {
                crate::cli::tail(&kept, 2)
            } else {
                Vec::new()
            };
            proof {
                assert(strs(rest@) =~= a.skip(2));
            }
            Command::Ext(parse_ext_command(rest.as_slice()))
        } else if arg_is(first, "--install-grammars") {
            Command::InstallGrammars
        } else if arg_is(first, "--import") {
            if kept.len() > 2 {
                Command::Import(Some(kept[2].clone()))
            } else {
                Command::Import(None)
            }
        } else {
            Command::Open(Some(first.clone()))
        };
        (flags, cmd)
    } else {
        (flags, Command::Open(None))
    }
}

proof fn lemma_contains_push(s: Seq<Seq<char>>, x: Seq<char>, y: Seq<char>)
    ensures
        s.push(x).contains(y) == (s.contains(y) || x == y),
{
    if s.contains(y) {
        let k = choose|k: int| 0 <= k < s.len() && s[k] == y;
        assert(s.push(x)[k] == y);
    }
    if x == y {
        assert(s.push(x)[s.len() as int] == y);
    }
    if s.push(x).contains(y) {
        let k = choose|k: int| 0 <= k < s.push(x).len() && s.push(x)[k] == y;
        if k < s.len() {
            assert(s[k] == y);
        }
    }
}

/// The elements of `v` from `k` on.
fn tail(v: &Vec<String>, k: usize) -> (r: Vec<String>)
    requires
        k <= v@.len(),
    ensures
        strs(r@) == strs(v@).skip(k as int),
{
    let mut out: Vec<String> = Vec::new();
    let mut i = k;
    while i < v.len()
        invariant
            k <= i <= v@.len(),
            strs(out@) == strs(v@).subrange(k as int, i as int),
        decreases v@.len() - i,
    {
        let ghost before = strs(out@);
        out.push(v[i].clone());
        proof {
            assert(strs(out@) =~= before.push(v@[i as int]@));
            assert(strs(v@).subrange(k as int, i + 1) =~= strs(v@).subrange(k as int, i as int).push(v@[i as int]@));
        }
        i = i + 1;
    }
    proof {
        assert(strs(v@).subrange(k as int, v@.len() as int) =~= strs(v@).skip(k as int));
    }
    out
}

// ── Grammar installation ─────────────────────────────────────

/// A bundled grammar file, by its name.
pub open spec fn is_grammar_file(name: Seq<char>) -> bool {
    crate::vsix_import::ends_with(name, ".tmLanguage.json"@)
}

pub fn grammar_file(name: &str) -> (b: bool)
    ensures
        b == is_grammar_file(name@),
{
    let v = chars_of(name);
    crate::vsix_import::ends_with_exec(&v, ".tmLanguage.json")
}

/// The first candidate directory that is not the destination and holds
/// grammars: `(canonical path, holds grammar files)` for each.
pub fn pick_grammar_source(candidates: &[(String, bool)], dest: &str) -> (r: Option<usize>)
    ensures
        match r {
            Some(i) => i < candidates@.len() && candidates@[i as int].0@ != dest@ && candidates@[i as int].1
                && forall|j: int| 0 <= j < i ==> (#[trigger] candidates@[j]).0@ == dest@ || !candidates@[j].1,
            None => forall|j: int| 0 <= j < candidates@.len() ==> (#[trigger] candidates@[j]).0@ == dest@ || !candidates@[j].1,
        },
{
    let mut i: usize = 0;
    while i < candidates.len()
        invariant
            i <= candidates@.len(),
            forall|j: int| 0 <= j < i ==> (#[trigger] candidates@[j]).0@ == dest@ || !candidates@[j].1,
        decreases candidates@.len() - i,
    {
        let v = chars_of(candidates[i].0.as_str());
        if !chars_eq_str(&v, dest) && candidates[i].1 {
            return Some(i);
        }
        i = i + 1;
    }
    None
}

/// Whether to copy a grammar: unless both modification times are known
/// and the installed copy is at least as new.
pub fn should_copy(source_time: Option<u128>, installed_time: Option<u128>) -> (b: bool)
    ensures
        b == match (source_time, installed_time) {
            (Some(s), Some(d)) => s > d,
            _ => true,
        },
{
    match (source_time, installed_time) {
        (Some(s), Some(d)) => s > d,
        _ => true,
    }
}

} // verus!

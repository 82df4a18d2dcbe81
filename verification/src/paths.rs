//! File-system paths as strings, with the path operations of `std::path`
//! (Unix path syntax), and the state directory of the editor.
use vstd::prelude::*;
use crate::text::chars_of;

verus! {

/// The parent of a path, as `Path::parent` computes it on Unix.
pub uninterp spec fn path_parent_of(p: Seq<char>) -> Option<Seq<char>>;

/// The last component of a path, as `Path::file_name` computes it on Unix.
pub uninterp spec fn path_file_name_of(p: Seq<char>) -> Option<Seq<char>>;

/// The extension of a path's last component, as `Path::extension`
/// computes it on Unix.
pub uninterp spec fn path_extension_of(p: Seq<char>) -> Option<Seq<char>>;

/// `b` joined onto `a`, as `Path::join` does it on Unix: an absolute `b`
/// replaces `a`; otherwise `b` follows `a`, with a `/` between them unless
/// `a` is empty or already ends in one.
pub open spec fn path_join_of(a: Seq<char>, b: Seq<char>) -> Seq<char> {
    if b.len() > 0 && b[0] == '/' {
        b
    } else if a.len() > 0 && a.last() != '/' {
        a + seq!['/'] + b
    } else {
        a + b
    }
}

/// Trusted: `Path::parent` of the path; the result is named, and is the
/// path's own text up to its last component. A path made from a string
/// converts back without loss.
#[verifier::external_body]
pub(crate) fn path_parent(p: &str) -> (r: Option<String>)
    ensures
        match r {
            Some(s) => path_parent_of(p@) == Some(s@),
            None => path_parent_of(p@) is None,
        },
{
    match std::path::Path::new(p).parent() {
        Some(q) => Some(q.to_string_lossy().into_owned()),
        None => None,
    }
}

/// Trusted: `Path::file_name` of the path; the result is named.
#[verifier::external_body]
pub(crate) fn path_file_name(p: &str) -> (r: Option<String>)
    ensures
        match r {
            Some(s) => path_file_name_of(p@) == Some(s@),
            None => path_file_name_of(p@) is None,
        },
{
    match std::path::Path::new(p).file_name() {
        Some(n) => Some(n.to_string_lossy().into_owned()),
        None => None,
    }
}

/// Trusted: `Path::extension` of the path; the result is named. A path
/// made from a string has a UTF-8 extension.
#[verifier::external_body]
pub(crate) fn path_extension(p: &str) -> (r: Option<String>)
    ensures
        match r {
            Some(s) => path_extension_of(p@) == Some(s@),
            None => path_extension_of(p@) is None,
        },
{
    match std::path::Path::new(p).extension() {
        Some(e) => Some(e.to_string_lossy().into_owned()),
        None => None,
    }
}

/// `b` joined onto `a` (Unix path syntax), as `Path::join` does it.
pub(crate) fn path_join(a: &str, b: &str) -> (r: String)
    ensures
        r@ == path_join_of(a@, b@),
{
    let av = chars_of(a);
    let bv = chars_of(b);
    if bv.len() > 0 && bv[0] == '/' {
        return b.to_owned();
    }
    let mut out = av.clone();
    if av.len() > 0 && av[av.len() - 1] != '/' {
        out.push('/');
    }
    let ghost mid = out@;
    let mut i: usize = 0;
    while i < bv.len()
        invariant
            i <= bv@.len(),
            out@ == mid + bv@.take(i as int),
        decreases bv@.len() - i,
    {
        out.push(bv[i]);
        i = i + 1;
        assert(out@ =~= mid + bv@.take(i as int));
    }
    assert(bv@.take(bv@.len() as int) =~= bv@);
    proof {
        if av@.len() > 0 && av@.last() != '/' {
            assert(out@ =~= av@ + seq!['/'] + bv@);
        } else {
            assert(out@ =~= av@ + bv@);
        }
    }
    crate::text::string_from_chars(out.as_slice())
}

/// The editor's state directory from `$XDG_STATE_HOME` and `$HOME` (None
/// when unset): `$XDG_STATE_HOME/zedit`, else `$HOME/.local/state/zedit`,
/// else `/tmp/zedit-state`.
pub open spec fn spec_state_dir(xdg: Option<Seq<char>>, home: Option<Seq<char>>) -> Seq<char> {
    match xdg {
        Some(x) => path_join_of(x, "zedit"@),
        None => match home {
            Some(h) => path_join_of(path_join_of(path_join_of(h, ".local"@), "state"@), "zedit"@),
            None => "/tmp/zedit-state"@,
        },
    }
}

pub open spec fn opt_str(o: Option<&str>) -> Option<Seq<char>> {
    match o {
        Some(s) => Some(s@),
        None => None,
    }
}

pub fn state_dir_from(xdg: Option<&str>, home: Option<&str>) -> (r: String)
    ensures
        r@ == spec_state_dir(opt_str(xdg), opt_str(home)),
{
    match xdg {
        Some(x) => path_join(x, "zedit"),
        None => match home {
            Some(h) => {
                let a = path_join(h, ".local");
                let b = path_join(a.as_str(), "state");
                path_join(b.as_str(), "zedit")
            },
            None => crate::text::string_from_chars(chars_of("/tmp/zedit-state").as_slice()),
        },
    }
}

} // verus!

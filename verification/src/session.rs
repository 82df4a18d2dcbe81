//! Session persistence: the session file's place, named by a hash of the
//! working directory, and the session's contents.
use vstd::prelude::*;
use crate::paths::{path_join, path_join_of};
use crate::text::{push_str_chars, string_from_chars, dec_chars};
use crate::syntax::json_parser::{
    JsonValue, JsonModel, json_view, jget, jstr, obj4, json_unsigned, json_str_value, pretty, pairs_view,
    items_view, lemma_pairs_view_push,
};
use crate::lsp::protocol::jnum;

verus! {

/// Metadata for a single buffer in the session.
pub struct BufferSession {
    pub file_path: Option<String>,
    pub cursor_line: usize,
    pub cursor_col: usize,
    pub scroll_row: usize,
    pub has_swap: bool,
    pub untitled_index: Option<usize>,
}

/// Full session state.
pub struct Session {
    pub version: u32,
    pub working_dir: String,
    pub buffers: Vec<BufferSession>,
    pub active_buffer: usize,
}

pub const FNV_OFFSET: u64 = 0xcbf29ce484222325;

pub const FNV_PRIME: u64 = 0x100000001b3;

/// FNV-1a, 64 bits: from the offset basis, each byte is xor-ed in and the
/// hash multiplied by the FNV prime modulo 2^64.
pub open spec fn spec_fnv1a(d: Seq<u8>) -> u64
    decreases d.len(),
{
    if d.len() == 0 {
        FNV_OFFSET
    } else {
        (((spec_fnv1a(d.drop_last()) ^ (d.last() as u64)) as nat * FNV_PRIME as nat) % 0x1_0000_0000_0000_0000nat) as u64
    }
}

/// FNV-1a 64-bit hash.
pub fn fnv1a(data: &[u8]) -> (h: u64)
    ensures
        h == spec_fnv1a(data@),
{
    let mut hash: u64 = FNV_OFFSET;
    let mut i: usize = 0;
    while i < data.len()
        invariant
            i <= data@.len(),
            hash == spec_fnv1a(data@.take(i as int)),
        decreases data@.len() - i,
    {
        assert(data@.take(i + 1).drop_last() =~= data@.take(i as int));
        hash = hash ^ (data[i] as u64);
        hash = hash.wrapping_mul(FNV_PRIME);
        i = i + 1;
    }
    assert(data@.take(data@.len() as int) =~= data@);
    hash
}

pub open spec fn hex_digit(d: u64) -> char {
    if d < 10 {
        (0x30 + d) as char
    } else {
        (0x57 + d) as char
    }
}

/// `h` as 16 lowercase hex digits, zero-padded (`{:016x}`).
pub open spec fn hex16(h: u64) -> Seq<char> {
    Seq::new(16, |i: int| hex_digit((h >> ((4 * (15 - i)) as u64)) & 0xf))
}

fn push_hex16(v: &mut Vec<char>, h: u64)
    ensures
        final(v)@ == old(v)@ + hex16(h),
{
    let mut i: u64 = 0;
    while i < 16
        invariant
            i <= 16,
            v@ == old(v)@ + hex16(h).take(i as int),
        decreases 16 - i,
    {
        let sh: u64 = 4 * (15 - i);
        let d = (h >> sh) & 0xf;
        assert(d < 16) by (bit_vector)
            requires
                d == (h >> sh) & 0xf,
        ;
        let c = if d < 10 {
            ((d as u8) + 0x30) as char
        } else {
            ((d as u8) + 0x57) as char
        };
        v.push(c);
        assert(hex16(h)[i as int] == hex_digit(d));
        i = i + 1;
        assert(v@ =~= old(v)@ + hex16(h).take(i as int));
    }
    assert(hex16(h).take(16) =~= hex16(h));
}

/// `<state>/sessions/<hash>.json`, the hash being FNV-1a of the canonical
/// working directory's bytes.
pub open spec fn spec_session_path(state_dir: Seq<char>, canonical_dir: Seq<char>) -> Seq<char> {
    path_join_of(
        path_join_of(state_dir, "sessions"@),
        hex16(spec_fnv1a(vstd::utf8::encode_utf8(canonical_dir))) + ".json"@,
    )
}

/// The session file for a working directory, given the state directory
/// and the directory's canonical form.
pub fn session_path(state_dir: &str, canonical_dir: &str) -> (r: String)
    ensures
        r@ == spec_session_path(state_dir@, canonical_dir@),
{
    let hash = fnv1a(canonical_dir.as_bytes());
    let dir = path_join(state_dir, "sessions");
    let mut v: Vec<char> = Vec::new();
    push_hex16(&mut v, hash);
    push_str_chars(&mut v, ".json");
    let leaf = string_from_chars(v.as_slice());
    path_join(dir.as_str(), leaf.as_str())
}


// ── The session file's contents ──────────────────────────────

pub open spec fn opt_str_json(o: Option<String>) -> JsonModel {
    match o {
        Some(s) => JsonModel::Str(s@),
        None => JsonModel::Null,
    }
}

pub open spec fn opt_num_json(o: Option<usize>) -> JsonModel {
    match o {
        Some(n) => JsonModel::Number(dec_chars(n as nat)),
        None => JsonModel::Null,
    }
}

/// A buffer's entry in the session file.
pub open spec fn buffer_json(b: BufferSession) -> JsonModel {
    JsonModel::Object(
        seq![
            ("file_path"@, opt_str_json(b.file_path)),
            ("cursor_line"@, JsonModel::Number(dec_chars(b.cursor_line as nat))),
            ("cursor_col"@, JsonModel::Number(dec_chars(b.cursor_col as nat))),
            ("scroll_row"@, JsonModel::Number(dec_chars(b.scroll_row as nat))),
            ("has_swap"@, JsonModel::Bool(b.has_swap)),
            ("untitled_index"@, opt_num_json(b.untitled_index)),
        ],
    )
}

/// The session file's value.
pub open spec fn session_json(s: Session) -> JsonModel {
    JsonModel::Object(
        seq![
            ("version"@, JsonModel::Number(dec_chars(s.version as nat))),
            ("working_dir"@, JsonModel::Str(s.working_dir@)),
            ("buffers"@, JsonModel::Array(s.buffers@.map_values(|b: BufferSession| buffer_json(b)))),
            ("active_buffer"@, JsonModel::Number(dec_chars(s.active_buffer as nat))),
        ],
    )
}

fn opt_str_value(o: &Option<String>) -> (r: JsonValue)
    ensures
        json_view(r) == opt_str_json(*o),
{
    match o {
        Some(s) => json_str_value(s.as_str()),
        None => JsonValue::Null,
    }
}

fn opt_num_value(o: Option<usize>) -> (r: JsonValue)
    ensures
        json_view(r) == opt_num_json(o),
{
    match o {
        Some(n) => json_unsigned(n as u64),
        None => JsonValue::Null,
    }
}

fn buffer_value(b: &BufferSession) -> (r: JsonValue)
    ensures
        json_view(r) == buffer_json(*b),
{
    let mut m: Vec<(String, JsonValue)> = Vec::new();
    let ghost e = Seq::<(String, JsonValue)>::empty();
    m.push(("file_path".to_owned(), opt_str_value(&b.file_path)));
    m.push(("cursor_line".to_owned(), json_unsigned(b.cursor_line as u64)));
    m.push(("cursor_col".to_owned(), json_unsigned(b.cursor_col as u64)));
    m.push(("scroll_row".to_owned(), json_unsigned(b.scroll_row as u64)));
    m.push(("has_swap".to_owned(), JsonValue::Bool(b.has_swap)));
    m.push(("untitled_index".to_owned(), opt_num_value(b.untitled_index)));
    proof {
        let s0 = e;
        lemma_pairs_view_push(s0, m@[0]);
        lemma_pairs_view_push(s0.push(m@[0]), m@[1]);
        lemma_pairs_view_push(s0.push(m@[0]).push(m@[1]), m@[2]);
        lemma_pairs_view_push(s0.push(m@[0]).push(m@[1]).push(m@[2]), m@[3]);
        lemma_pairs_view_push(s0.push(m@[0]).push(m@[1]).push(m@[2]).push(m@[3]), m@[4]);
        lemma_pairs_view_push(s0.push(m@[0]).push(m@[1]).push(m@[2]).push(m@[3]).push(m@[4]), m@[5]);
        assert(m@ =~= s0.push(m@[0]).push(m@[1]).push(m@[2]).push(m@[3]).push(m@[4]).push(m@[5]));
    }
    let r = JsonValue::Object(m);
    proof {
        assert(pairs_view(m@) =~= seq![
            ("file_path"@, opt_str_json(b.file_path)),
            ("cursor_line"@, JsonModel::Number(dec_chars(b.cursor_line as nat))),
            ("cursor_col"@, JsonModel::Number(dec_chars(b.cursor_col as nat))),
            ("scroll_row"@, JsonModel::Number(dec_chars(b.scroll_row as nat))),
            ("has_swap"@, JsonModel::Bool(b.has_swap)),
            ("untitled_index"@, opt_num_json(b.untitled_index)),
        ]);
        assert(json_view(r) == JsonModel::Object(pairs_view(m@)));
    }
    r
}

/// The session as a JSON value.
pub fn session_value(session: &Session) -> (r: JsonValue)
    ensures
        json_view(r) == session_json(*session),
{
    let mut items: Vec<JsonValue> = Vec::new();
    let mut i: usize = 0;
    proof {
        assert(items_view(items@) =~= session.buffers@.take(0).map_values(|b: BufferSession| buffer_json(b)));
    }
    while i < session.buffers.len()
        invariant
            i <= session.buffers@.len(),
            items_view(items@) == session.buffers@.take(i as int).map_values(|b: BufferSession| buffer_json(b)),
        decreases session.buffers@.len() - i,
    {
        let v = buffer_value(&session.buffers[i]);
        let ghost before = items@;
        items.push(v);
        proof {
            assert(items@.drop_last() =~= before);
            assert(session.buffers@.take(i + 1).map_values(|b: BufferSession| buffer_json(b)) =~= session.buffers@.take(
                i as int,
            ).map_values(|b: BufferSession| buffer_json(b)).push(buffer_json(session.buffers@[i as int])));
        }
        i = i + 1;
    }
    proof {
        assert(session.buffers@.take(session.buffers@.len() as int) =~= session.buffers@);
    }
    obj4(
        "version",
        json_unsigned(session.version as u64),
        "working_dir",
        json_str_value(session.working_dir.as_str()),
        "buffers",
        JsonValue::Array(items),
        "active_buffer",
        json_unsigned(session.active_buffer as u64),
    )
}

/// The text of the session file: the session's value written out with
/// two-space indentation.
pub fn session_to_json(session: &Session) -> (r: String)
    ensures
        r@ == pretty(session_json(*session), seq![' ', ' '], Seq::empty()),
{
    let v = session_value(session);
    let r = v.to_json_pretty(2);
    proof {
        assert(Seq::new(2nat, |i: int| ' ') =~= seq![' ', ' ']);
    }
    r
}

/// `n` saturated into `usize`, as a float-to-`usize` cast does.
pub open spec fn sat_usize(n: int) -> usize {
    if n < 0 {
        0
    } else if n > usize::MAX {
        usize::MAX
    } else {
        n as usize
    }
}

/// A number read into `usize`: saturated into the `i64` range, then into
/// `usize`.
pub open spec fn read_usize(n: int) -> usize {
    sat_usize(crate::syntax::json_parser::clamp_i64(n) as int)
}

/// A number member read into `usize`, or `d` when it is not one.
pub open spec fn num_or(o: Option<JsonValue>, d: usize) -> usize {
    match jnum(o) {
        Some(n) => read_usize(n),
        None => d,
    }
}

pub open spec fn buffer_of(v: JsonValue) -> BufferSession {
    BufferSession {
        file_path: None,
        cursor_line: num_or(jget(v, "cursor_line"@), 0),
        cursor_col: num_or(jget(v, "cursor_col"@), 0),
        scroll_row: num_or(jget(v, "scroll_row"@), 0),
        has_swap: match jget(v, "has_swap"@) {
            Some(JsonValue::Bool(b)) => b,
            _ => false,
        },
        untitled_index: match jnum(jget(v, "untitled_index"@)) {
            Some(n) => Some(read_usize(n)),
            None => None,
        },
    }
}

/// A buffer entry read back: the path when it is a string, numbers
/// saturated, defaults 0 and `false`.
pub open spec fn buffer_matches(b: BufferSession, v: JsonValue) -> bool {
    let e = buffer_of(v);
    &&& match b.file_path {
        Some(p) => jstr(jget(v, "file_path"@)) == Some(p@),
        None => jstr(jget(v, "file_path"@)) is None,
    }
    &&& b.cursor_line == e.cursor_line
    &&& b.cursor_col == e.cursor_col
    &&& b.scroll_row == e.scroll_row
    &&& b.has_swap == e.has_swap
    &&& b.untitled_index == e.untitled_index
}

/// A session read back: the version must be 1; `active_buffer` and
/// `buffers` are required.
pub open spec fn session_matches(s: Session, val: JsonValue, working_dir: Seq<char>) -> bool {
    &&& jnum(jget(val, "version"@)) matches Some(n) && crate::lsp::protocol::sat_u32(n) == 1
    &&& s.version == 1
    &&& s.working_dir@ == working_dir
    &&& jnum(jget(val, "active_buffer"@)) matches Some(a) && s.active_buffer == read_usize(a)
    &&& jget(val, "buffers"@) matches Some(JsonValue::Array(bs)) && s.buffers@.len() == bs@.len()
        && forall|i: int| 0 <= i < bs@.len() ==> buffer_matches(#[trigger] s.buffers@[i], bs@[i])
}

pub open spec fn session_readable(val: JsonValue) -> bool {
    &&& jnum(jget(val, "version"@)) matches Some(n) && crate::lsp::protocol::sat_u32(n) == 1
    &&& jnum(jget(val, "active_buffer"@)) is Some
    &&& jget(val, "buffers"@) matches Some(JsonValue::Array(_))
}

fn to_usize(n: i64) -> (r: usize)
    ensures
        r == sat_usize(n as int),
{
    if n < 0 {
        0
    } else if n as u64 > usize::MAX as u64 {
        usize::MAX
    } else {
        n as usize
    }
}

fn member_usize(v: &JsonValue, key: &str) -> (r: Option<usize>)
    ensures
        r == match jnum(jget(*v, key@)) {
            Some(n) => Some(read_usize(n)),
            None => None::<usize>,
        },
{
    match v.get(key) {
        Some(JsonValue::Number(t)) => match crate::syntax::json_parser::number_i64(t.as_str()) {
            Some(n) => Some(to_usize(n)),
            None => None,
        },
        _ => None,
    }
}

fn parse_buffer(v: &JsonValue) -> (b: BufferSession)
    ensures
        buffer_matches(b, *v),
{
    let file_path = match crate::syntax::grammar::json_str_of(v, "file_path") {
        Some(p) => Some(p.to_owned()),
        None => None,
    };
    let cursor_line = match member_usize(v, "cursor_line") {
        Some(n) => n,
        None => 0,
    };
    let cursor_col = match member_usize(v, "cursor_col") {
        Some(n) => n,
        None => 0,
    };
    let scroll_row = match member_usize(v, "scroll_row") {
        Some(n) => n,
        None => 0,
    };
    let has_swap = match v.get("has_swap") {
        Some(x) => match x.as_bool() {
            Some(b) => b,
            None => false,
        },
        None => false,
    };
    let untitled_index = member_usize(v, "untitled_index");
    BufferSession { file_path, cursor_line, cursor_col, scroll_row, has_swap, untitled_index }
}

/// Reads a session file's value for `working_dir`; none when its version
/// is not 1 or a required member is missing.
pub fn parse_session(val: &JsonValue, working_dir: &str) -> (r: Option<Session>)
    ensures
        match r {
            Some(s) => session_matches(s, *val, working_dir@),
            None => !session_readable(*val),
        },
{
    let version = match val.get("version") {
        Some(JsonValue::Number(t)) => match crate::syntax::json_parser::number_i64(t.as_str()) {
            Some(n) => {
                proof {
                    let k = jnum(jget(*val, "version"@)).unwrap();
                    assert(crate::lsp::protocol::sat_u32(crate::syntax::json_parser::clamp_i64(k) as int) == crate::lsp::protocol::sat_u32(k));
                }
                if n == 1 {
                    1u32
                } else {
                    proof {
                        let k = jnum(jget(*val, "version"@)).unwrap();
                        assert(crate::lsp::protocol::sat_u32(k) != 1);
                    }
                    return None;
                }
            },
            None => {
                return None;
            },
        },
        _ => {
            return None;
        },
    };
    let active_buffer = match member_usize(val, "active_buffer") {
        Some(n) => n,
        None => {
            return None;
        },
    };
    let bs: &Vec<JsonValue> = match val.get("buffers") {
        Some(JsonValue::Array(a)) => a,
        _ => {
            return None;
        },
    };
    let mut buffers: Vec<BufferSession> = Vec::new();
    let mut i: usize = 0;
    while i < bs.len()
        invariant
            i <= bs@.len(),
            buffers@.len() == i,
            forall|j: int| 0 <= j < i ==> buffer_matches(#[trigger] buffers@[j], bs@[j]),
        decreases bs@.len() - i,
    {
        let b = parse_buffer(&bs[i]);
        buffers.push(b);
        i = i + 1;
    }
    Some(Session { version, working_dir: working_dir.to_owned(), buffers, active_buffer })
}


// ── Reading back what was written ────────────────────────────

proof fn lemma_dec_digits(n: nat)
    ensures
        dec_chars(n).len() >= 1,
        forall|i: int| 0 <= i < dec_chars(n).len() ==> crate::strs::is_digit(#[trigger] dec_chars(n)[i]),
        crate::strs::digits_value(dec_chars(n)) == n,
    decreases n,
{
    let d = dec_chars(n);
    if n < 10 {
        assert(d.drop_last() =~= Seq::<char>::empty());
        assert(crate::strs::digits_value(d.drop_last()) == 0);
        assert(d.last() == (0x30 + n) as char);
        assert(((0x30 + n) as char) as u32 == 0x30 + n);
        assert(crate::strs::digits_value(d) == crate::strs::digits_value(d.drop_last()) * 10 + ((d.last() as u32) - 0x30) as nat);
    } else {
        lemma_dec_digits(n / 10);
        assert(d.drop_last() =~= dec_chars(n / 10));
        assert(d.last() == (0x30 + n % 10) as char);
        assert(((0x30 + n % 10) as char) as u32 == 0x30 + n % 10);
        assert(crate::strs::digits_value(d) == crate::strs::digits_value(d.drop_last()) * 10 + ((d.last() as u32) - 0x30) as nat);
        assert((n / 10) * 10 + n % 10 == n);
        assert forall|i: int| 0 <= i < d.len() implies crate::strs::is_digit(#[trigger] d[i]) by {
            if i < d.len() - 1 {
                assert(d[i] == dec_chars(n / 10)[i]);
            }
        }
    }
}

proof fn lemma_digit_prefix_all(s: Seq<char>)
    requires
        forall|i: int| 0 <= i < s.len() ==> crate::strs::is_digit(#[trigger] s[i]),
    ensures
        crate::syntax::json_parser::digit_prefix(s) == s,
    decreases s.len(),
{
    if s.len() > 0 {
        assert forall|i: int| 0 <= i < s.drop_first().len() implies crate::strs::is_digit(#[trigger] s.drop_first()[i]) by {
            assert(s.drop_first()[i] == s[i + 1]);
        }
        lemma_digit_prefix_all(s.drop_first());
        assert(seq![s[0]] + s.drop_first() =~= s);
    }
}

/// A number written in decimal reads back as itself.
proof fn lemma_number_dec(n: nat)
    ensures
        crate::syntax::json_parser::number_int(dec_chars(n)) == Some(n as int),
{
    let t = dec_chars(n);
    lemma_dec_digits(n);
    lemma_digit_prefix_all(t);
    assert(crate::strs::is_digit(t[0]));
    assert(t.skip(t.len() as int) =~= Seq::<char>::empty());
}

proof fn lemma_pairs_view_index(o: Seq<(String, JsonValue)>)
    ensures
        pairs_view(o).len() == o.len(),
        forall|i: int| 0 <= i < o.len() ==> #[trigger] pairs_view(o)[i] == (o[i].0@, json_view(o[i].1)),
    decreases o.len(),
{
    if o.len() > 0 {
        lemma_pairs_view_index(o.drop_last());
        assert forall|i: int| 0 <= i < o.len() implies #[trigger] pairs_view(o)[i] == (o[i].0@, json_view(o[i].1)) by {
            if i < o.len() - 1 {
                assert(o.drop_last()[i] == o[i]);
            }
        }
    }
}

proof fn lemma_items_view_index(a: Seq<JsonValue>)
    ensures
        items_view(a).len() == a.len(),
        forall|i: int| 0 <= i < a.len() ==> #[trigger] items_view(a)[i] == json_view(a[i]),
    decreases a.len(),
{
    if a.len() > 0 {
        lemma_items_view_index(a.drop_last());
        assert forall|i: int| 0 <= i < a.len() implies #[trigger] items_view(a)[i] == json_view(a[i]) by {
            if i < a.len() - 1 {
                assert(a.drop_last()[i] == a[i]);
            }
        }
    }
}

/// The member found under `key` is the first one with that name.
proof fn lemma_get_first(o: Seq<(String, JsonValue)>, key: Seq<char>, i: int)
    requires
        0 <= i < o.len(),
        o[i].0@ == key,
        forall|j: int| 0 <= j < i ==> o[j].0@ != key,
    ensures
        crate::syntax::json_parser::spec_get(o, key) == Some(o[i].1),
    decreases i,
{
    if i > 0 {
        assert forall|j: int| 0 <= j < i - 1 implies o.drop_first()[j].0@ != key by {
            assert(o.drop_first()[j] == o[j + 1]);
        }
        lemma_get_first(o.drop_first(), key, i - 1);
    }
}

/// Whether two sessions agree in every field (paths by their text).
pub open spec fn same_buffer(a: BufferSession, b: BufferSession) -> bool {
    &&& match (a.file_path, b.file_path) {
        (Some(p), Some(q)) => p@ == q@,
        (None, None) => true,
        _ => false,
    }
    &&& a.cursor_line == b.cursor_line
    &&& a.cursor_col == b.cursor_col
    &&& a.scroll_row == b.scroll_row
    &&& a.has_swap == b.has_swap
    &&& a.untitled_index == b.untitled_index
}

pub open spec fn same_session(a: Session, b: Session) -> bool {
    &&& a.version == b.version
    &&& a.working_dir@ == b.working_dir@
    &&& a.active_buffer == b.active_buffer
    &&& a.buffers@.len() == b.buffers@.len()
    &&& forall|i: int| 0 <= i < a.buffers@.len() ==> same_buffer(#[trigger] a.buffers@[i], b.buffers@[i])
}

/// The numbers of a session fit in an `i64`, as the session file reads them.
pub open spec fn session_numbers_fit(s: Session) -> bool {
    &&& s.active_buffer <= i64::MAX
    &&& forall|i: int|
        0 <= i < s.buffers@.len() ==> {
            let b = #[trigger] s.buffers@[i];
            &&& b.cursor_line <= i64::MAX
            &&& b.cursor_col <= i64::MAX
            &&& b.scroll_row <= i64::MAX
            &&& (b.untitled_index matches Some(k) ==> k <= i64::MAX)
        }
}

proof fn lemma_buffer_roundtrip(b: BufferSession, v: JsonValue, c: BufferSession)
    requires
        json_view(v) == buffer_json(b),
        b.cursor_line <= i64::MAX,
        b.cursor_col <= i64::MAX,
        b.scroll_row <= i64::MAX,
        b.untitled_index matches Some(k) ==> k <= i64::MAX,
        buffer_matches(c, v),
    ensures
        same_buffer(c, b),
{
    let o = match v {
        JsonValue::Object(o) => o@,
        _ => Seq::empty(),
    };
    assert(v is Object);
    lemma_pairs_view_index(o);
    let p = match buffer_json(b) {
        JsonModel::Object(p) => p,
        _ => Seq::empty(),
    };
    assert(pairs_view(o) == p);
    reveal_strlit("file_path");
    reveal_strlit("cursor_line");
    reveal_strlit("cursor_col");
    reveal_strlit("scroll_row");
    reveal_strlit("has_swap");
    reveal_strlit("untitled_index");
    assert(o.len() == 6);
    assert(pairs_view(o)[0] == p[0]);
    assert(pairs_view(o)[1] == p[1]);
    assert(pairs_view(o)[2] == p[2]);
    assert(pairs_view(o)[3] == p[3]);
    assert(pairs_view(o)[4] == p[4]);
    assert(pairs_view(o)[5] == p[5]);
    assert("file_path"@[0] != "cursor_line"@[0]);
    assert("cursor_line"@.len() != "cursor_col"@.len());
    assert("cursor_line"@.len() != "scroll_row"@.len());
    assert("cursor_col"@[0] != "scroll_row"@[0]);
    assert("has_swap"@.len() != "untitled_index"@.len());
    lemma_get_first(o, "file_path"@, 0);
    lemma_get_first(o, "cursor_line"@, 1);
    lemma_get_first(o, "cursor_col"@, 2);
    lemma_get_first(o, "scroll_row"@, 3);
    lemma_get_first(o, "has_swap"@, 4);
    lemma_get_first(o, "untitled_index"@, 5);
    lemma_number_dec(b.cursor_line as nat);
    lemma_number_dec(b.cursor_col as nat);
    lemma_number_dec(b.scroll_row as nat);
    match b.untitled_index {
        Some(k) => {
            lemma_number_dec(k as nat);
        },
        None => {},
    }
    match o[5].1 {
        JsonValue::Number(t) => {},
        _ => {},
    }
}

/// What a session is written as reads back as that session: the value
/// `session_value` builds is one that `parse_session` accepts, and any
/// session it reads from it agrees with the one written in every field,
/// when the version is 1 and the numbers fit in an `i64`.
pub proof fn lemma_session_roundtrip(s: Session, v: JsonValue, r: Session)
    requires
        json_view(v) == session_json(s),
        s.version == 1,
        session_numbers_fit(s),
        session_matches(r, v, s.working_dir@),
    ensures
        session_readable(v),
        same_session(r, s),
{
    let o = match v {
        JsonValue::Object(o) => o@,
        _ => Seq::empty(),
    };
    assert(v is Object);
    lemma_pairs_view_index(o);
    let p = match session_json(s) {
        JsonModel::Object(p) => p,
        _ => Seq::empty(),
    };
    assert(pairs_view(o) == p);
    reveal_strlit("version");
    reveal_strlit("working_dir");
    reveal_strlit("buffers");
    reveal_strlit("active_buffer");
    assert(o.len() == 4);
    assert(pairs_view(o)[0] == p[0]);
    assert(pairs_view(o)[1] == p[1]);
    assert(pairs_view(o)[2] == p[2]);
    assert(pairs_view(o)[3] == p[3]);
    assert("version"@[0] != "buffers"@[0]);
    assert("version"@[0] != "active_buffer"@[0]);
    assert("working_dir"@[0] != "buffers"@[0]);
    assert("working_dir"@[0] != "active_buffer"@[0]);
    assert("buffers"@[0] != "active_buffer"@[0]);
    lemma_get_first(o, "version"@, 0);
    lemma_get_first(o, "buffers"@, 2);
    lemma_get_first(o, "active_buffer"@, 3);
    lemma_number_dec(1);
    lemma_number_dec(s.active_buffer as nat);
    let bs = match o[2].1 {
        JsonValue::Array(a) => a@,
        _ => Seq::empty(),
    };
    assert(o[2].1 is Array);
    lemma_items_view_index(bs);
    assert forall|i: int| 0 <= i < r.buffers@.len() implies same_buffer(#[trigger] r.buffers@[i], s.buffers@[i]) by {
        let m = s.buffers@.map_values(|b: BufferSession| buffer_json(b));
        assert(items_view(bs) == m);
        assert(items_view(bs)[i] == m[i]);
        let b = s.buffers@[i];
        assert(b.cursor_line <= i64::MAX);
        lemma_buffer_roundtrip(b, bs[i], r.buffers@[i]);
    }
}

} // verus!

//! LSP transport: JSON-RPC messages framed with a `Content-Length` header
//! over a language server's stdin/stdout pipes. The pipes themselves are
//! opened, read and written by the caller; this is the bookkeeping and the
//! framing.
use vstd::prelude::*;
use crate::bytes::{byte_range, decimal, push_all, write_usize};
use crate::strs::{find, lemma_find_from_bounds, parse_usize, parse_usize_exec, strip_prefix, strip_prefix_str};
use crate::text::{ascii_lower, char_ascii_lower, chars_of, str_from_utf8, string_from_chars, trim, trim_chars};
use vstd::utf8::{decode_utf8, encode_utf8, valid_utf8};

verus! {

/// The first position of `\r\n\r\n` at or after `i`.
pub open spec fn header_end_from(b: Seq<u8>, i: int) -> Option<int>
    decreases b.len() - i,
{
    if i < 0 || i + 4 > b.len() {
        None
    } else if b[i] == 0x0d && b[i + 1] == 0x0a && b[i + 2] == 0x0d && b[i + 3] == 0x0a {
        Some(i)
    } else {
        header_end_from(b, i + 1)
    }
}

pub open spec fn spec_find_header_end(b: Seq<u8>) -> Option<int> {
    header_end_from(b, 0)
}

proof fn lemma_header_end_bounds(b: Seq<u8>, i: int)
    ensures
        header_end_from(b, i) matches Some(k) ==> i <= k && k + 4 <= b.len(),
    decreases b.len() - i,
{
    if !(i < 0 || i + 4 > b.len()) && !(b[i] == 0x0d && b[i + 1] == 0x0a && b[i + 2] == 0x0d && b[i + 3] == 0x0a) {
        lemma_header_end_bounds(b, i + 1);
    }
}

/// Position of the blank line (`\r\n\r\n`) that ends the header: the
/// position of its first `\r`.
pub fn find_header_end(buf: &[u8]) -> (r: Option<usize>)
    ensures
        match r {
            Some(i) => spec_find_header_end(buf@) == Some(i as int) && i + 4 <= buf@.len(),
            None => spec_find_header_end(buf@) is None,
        },
{
    let n = buf.len();
    if n < 4 {
        return None;
    }
    let mut i: usize = 0;
    while i < n - 3
        invariant
            n == buf@.len(),
            n >= 4,
            i <= n - 3,
            header_end_from(buf@, 0) == header_end_from(buf@, i as int),
        decreases n - i,
    {
        if buf[i] == 0x0d && buf[i + 1] == 0x0a && buf[i + 2] == 0x0d && buf[i + 3] == 0x0a {
            return Some(i);
        }
        i = i + 1;
    }
    None
}

/// The lines of `s` separated by `\r\n`.
pub open spec fn split_crlf(s: Seq<char>) -> Seq<Seq<char>>
    decreases s.len(),
{
    match find(s, seq!['\r', '\n']) {
        None => seq![s],
        Some(i) => {
            proof {
                lemma_find_from_bounds(s, seq!['\r', '\n'], 0);
            }
            seq![s.take(i)] + split_crlf(s.skip(i + 2))
        },
    }
}

/// The value of the first `Content-Length:` line (the name in any ASCII
/// case), if it parses.
pub open spec fn content_length_of_lines(lines: Seq<Seq<char>>) -> Option<usize>
    decreases lines.len(),
{
    if lines.len() == 0 {
        None
    } else {
        let line = trim(lines[0]);
        match strip_prefix(line, "Content-Length:"@) {
            Some(v) => parse_usize(trim(v)),
            None => match strip_prefix(line.map_values(|c: char| ascii_lower(c)), "content-length:"@) {
                Some(v) => parse_usize(trim(v)),
                None => content_length_of_lines(lines.drop_first()),
            },
        }
    }
}

/// Content-Length of a header: it must be UTF-8.
pub open spec fn spec_content_length(header: Seq<u8>) -> Option<usize> {
    if valid_utf8(header) {
        content_length_of_lines(split_crlf(decode_utf8(header)))
    } else {
        None
    }
}

fn lower_chars(v: &Vec<char>) -> (r: Vec<char>)
    ensures
        r@ == v@.map_values(|c: char| ascii_lower(c)),
{
    let mut r: Vec<char> = Vec::new();
    let mut i: usize = 0;
    while i < v.len()
        invariant
            i <= v@.len(),
            r@ == v@.take(i as int).map_values(|c: char| ascii_lower(c)),
        decreases v@.len() - i,
    {
        r.push(char_ascii_lower(v[i]));
        i = i + 1;
        assert(r@ =~= v@.take(i as int).map_values(|c: char| ascii_lower(c)));
    }
    assert(v@.take(v@.len() as int) =~= v@);
    r
}

/// Parse the Content-Length value from the header bytes.
pub fn parse_content_length(header: &[u8]) -> (r: Option<usize>)
    ensures
        r == spec_content_length(header@),
{
    let s = match str_from_utf8(header) {
        Some(s) => s,
        None => return None,
    };
    let mut rest = chars_of(s);
    loop
        invariant
            valid_utf8(header@),
            spec_content_length(header@) == content_length_of_lines(split_crlf(rest@)),
        decreases rest@.len(),
    {
        let ghost lines = split_crlf(rest@);
        let (line, next) = match crate::strs::find_str(&rest, "\r\n") {
            Some(i) => {
                proof {
                    lemma_find_from_bounds(rest@, "\r\n"@, 0);
                    assert("\r\n"@ =~= seq!['\r', '\n']) by {
                        reveal_strlit("\r\n");
                    }
                }
                let n = rest.len();
                let l = crate::strs::sub_chars(&rest, 0, i);
                let nx = crate::strs::sub_chars(&rest, i + 2, n);
                assert(rest@.take(i as int) =~= l@);
                assert(rest@.skip(i + 2) =~= nx@);
                (l, Some(nx))
            },
            None => {
                proof {
                    assert("\r\n"@ =~= seq!['\r', '\n']) by {
                        reveal_strlit("\r\n");
                    }
                }
                (crate::strs::sub_chars(&rest, 0, rest.len()), None)
            },
        };
        assert(line@ =~= lines[0]);
        let t = trim_chars(&line);
        if let Some(v) = strip_prefix_str(&t, "Content-Length:") {
            return parse_usize_exec(&trim_chars(&v));
        }
        let lower = lower_chars(&t);
        if let Some(v) = strip_prefix_str(&lower, "content-length:") {
            return parse_usize_exec(&trim_chars(&v));
        }
        match next {
            Some(nx) => {
                assert(lines.drop_first() =~= split_crlf(nx@));
                rest = nx;
            },
            None => {
                assert(lines =~= seq![rest@]);
                assert(lines.drop_first().len() == 0);
                assert(content_length_of_lines(lines.drop_first()) is None);
                return None;
            },
        }
    }
}

/// Why a framed message could not be taken.
#[derive(Clone, Copy, Debug, PartialEq, Eq, Structural)]
pub enum FrameError {
    /// The header has no usable Content-Length; it is dropped.
    MalformedHeader,
    /// The body is not UTF-8; it is dropped.
    InvalidUtf8,
}

/// Taking one message off the front of the read buffer: the outcome and
/// the buffer left. Nothing is taken until the header and the whole body
/// are there.
pub open spec fn spec_take_message(buf: Seq<u8>) -> (Result<Option<Seq<char>>, FrameError>, Seq<u8>) {
    match spec_find_header_end(buf) {
        None => (Ok(None), buf),
        Some(h) => match spec_content_length(buf.take(h)) {
            None => (Err(FrameError::MalformedHeader), buf.skip(h + 4)),
            Some(n) => if buf.len() < h + 4 + n {
                (Ok(None), buf)
            } else {
                let body = buf.subrange(h + 4, h + 4 + n);
                if valid_utf8(body) {
                    (Ok(Some(decode_utf8(body))), buf.skip(h + 4 + n))
                } else {
                    (Err(FrameError::InvalidUtf8), buf.skip(h + 4 + n))
                }
            },
        },
    }
}

/// The body's end position fits in a `usize`.
pub open spec fn message_fits(buf: Seq<u8>) -> bool {
    match spec_find_header_end(buf) {
        Some(h) => match spec_content_length(buf.take(h)) {
            Some(n) => h + 4 + n <= usize::MAX,
            None => true,
        },
        None => true,
    }
}

/// The bytes of a framed message: `Content-Length: N\r\n\r\n` then the body.
pub open spec fn framed(body: Seq<char>) -> Seq<u8> {
    encode_utf8("Content-Length: "@) + decimal(encode_utf8(body).len()) + seq![0x0du8, 0x0a, 0x0d, 0x0a]
        + encode_utf8(body)
}

/// Taking a message never grows the buffer, and taking one (or dropping
/// a bad one) shrinks it.
pub proof fn lemma_take_shrinks(buf: Seq<u8>)
    ensures
        spec_take_message(buf).1.len() <= buf.len(),
        !(spec_take_message(buf).0 is Ok && spec_take_message(buf).0->Ok_0 is None) ==> spec_take_message(buf).1.len() < buf.len(),
{
    lemma_header_end_bounds(buf, 0);
}

/// Frame a message body for sending.
pub fn frame_message(body: &str) -> (v: Vec<u8>)
    ensures
        v@ == framed(body@),
{
    let mut v: Vec<u8> = Vec::new();
    push_all(&mut v, "Content-Length: ".as_bytes());
    let b = body.as_bytes();
    write_usize(&mut v, b.len());
    v.push(0x0d);
    v.push(0x0a);
    v.push(0x0d);
    v.push(0x0a);
    push_all(&mut v, b);
    v
}

/// A language server's pipes and the bytes read from it that are not yet
/// taken as messages.
pub struct LspTransport {
    child_pid: i32,
    stdin_fd: i32,
    stdout_fd: i32,
    read_buf: Vec<u8>,
    dead: bool,
}

impl LspTransport {
    pub closed spec fn buffered(&self) -> Seq<u8> {
        self.read_buf@
    }

    pub closed spec fn spec_dead(&self) -> bool {
        self.dead
    }

    pub closed spec fn spec_stdout_fd(&self) -> i32 {
        self.stdout_fd
    }

    pub closed spec fn spec_child_pid(&self) -> i32 {
        self.child_pid
    }

    pub closed spec fn spec_stdin_fd(&self) -> i32 {
        self.stdin_fd
    }

    /// A transport for a started server: its pid and the parent's ends of
    /// its stdin and stdout pipes.
    pub fn from_parts(child_pid: i32, stdin_fd: i32, stdout_fd: i32) -> (t: Self)
        ensures
            t.buffered() == Seq::<u8>::empty(),
            !t.spec_dead(),
            t.spec_stdout_fd() == stdout_fd,
            t.spec_child_pid() == child_pid,
            t.spec_stdin_fd() == stdin_fd,
    {
        LspTransport { child_pid, stdin_fd, stdout_fd, read_buf: Vec::new(), dead: false }
    }

    /// A transport whose server is gone: nothing buffered, no pipes.
    pub fn new_dead() -> (t: Self)
        ensures
            t.buffered() == Seq::<u8>::empty(),
            t.spec_dead(),
            t.spec_stdout_fd() == -1,
    {
        LspTransport { child_pid: -1, stdin_fd: -1, stdout_fd: -1, read_buf: Vec::new(), dead: true }
    }

    /// A live transport with no pipes whose read buffer already holds
    /// `incoming`, as if the server had sent it.
    pub fn new_with_incoming(incoming: Vec<u8>) -> (t: Self)
        ensures
            t.buffered() == incoming@,
            !t.spec_dead(),
            t.spec_stdout_fd() == -1,
    {
        LspTransport { child_pid: -1, stdin_fd: -1, stdout_fd: -1, read_buf: incoming, dead: false }
    }

    pub fn child_pid(&self) -> (p: i32)
        ensures
            p == self.spec_child_pid(),
    {
        self.child_pid
    }

    pub fn stdin_fd(&self) -> (f: i32)
        ensures
            f == self.spec_stdin_fd(),
    {
        self.stdin_fd
    }

    /// The stdout fd, for poll integration.
    pub fn stdout_fd(&self) -> (f: i32)
        ensures
            f == self.spec_stdout_fd(),
    {
        self.stdout_fd
    }

    pub fn is_dead(&self) -> (b: bool)
        ensures
            b == self.spec_dead(),
    {
        self.dead
    }

    /// The server exited or was shut down.
    pub fn mark_dead(&mut self)
        ensures
            final(self).spec_dead(),
            final(self).buffered() == old(self).buffered(),
            final(self).spec_stdout_fd() == old(self).spec_stdout_fd(),
    {
        self.dead = true;
    }

    /// Bytes read from the server's stdout.
    pub fn receive(&mut self, bytes: &[u8])
        ensures
            final(self).buffered() == old(self).buffered() + bytes@,
            final(self).spec_dead() == old(self).spec_dead(),
            final(self).spec_stdout_fd() == old(self).spec_stdout_fd(),
    {
        push_all(&mut self.read_buf, bytes);
    }

    /// Whether the next message's length fits in memory indices.
    pub fn message_fits(&self) -> (b: bool)
        ensures
            b == message_fits(self.buffered()),
    {
        let _len = self.read_buf.len();
        match find_header_end(self.read_buf.as_slice()) {
            Some(h) => match parse_content_length(byte_range(self.read_buf.as_slice(), 0, h).as_slice()) {
                Some(n) => {
                    assert(self.read_buf@.subrange(0, h as int) =~= self.read_buf@.take(h as int));
                    n <= usize::MAX - 4 - h
                },
                None => true,
            },
            None => true,
        }
    }

    /// Take one complete message off the read buffer: its body text, None
    /// while it is incomplete, or an error after dropping a bad header or
    /// body.
    pub fn try_parse_message(&mut self) -> (r: Result<Option<String>, FrameError>)
        requires
            message_fits(old(self).buffered()),
        ensures
            ({
                let (res, rest) = spec_take_message(old(self).buffered());
                &&& final(self).buffered() == rest
                &&& match r {
                    Ok(Some(s)) => res == Ok::<Option<Seq<char>>, FrameError>(Some(s@)),
                    Ok(None) => res == Ok::<Option<Seq<char>>, FrameError>(None),
                    Err(e) => res == Err::<Option<Seq<char>>, FrameError>(e),
                }
            }),
            final(self).spec_dead() == old(self).spec_dead(),
            final(self).spec_stdout_fd() == old(self).spec_stdout_fd(),
    {
        let len = self.read_buf.len();
        let h = match find_header_end(self.read_buf.as_slice()) {
            Some(pos) => pos,
            None => return Ok(None),
        };
        let header = byte_range(self.read_buf.as_slice(), 0, h);
        assert(self.read_buf@.subrange(0, h as int) =~= self.read_buf@.take(h as int));
        let n = match parse_content_length(header.as_slice()) {
            Some(n) => n,
            None => {
                self.read_buf = byte_range(self.read_buf.as_slice(), h + 4, len);
                assert(self.read_buf@ =~= old(self).read_buf@.skip(h + 4));
                return Err(FrameError::MalformedHeader);
            },
        };
        let body_start = h + 4;
        let total = body_start + n;
        if len < total {
            return Ok(None);
        }
        let body = byte_range(self.read_buf.as_slice(), body_start, total);
        self.read_buf = byte_range(self.read_buf.as_slice(), total, len);
        assert(self.read_buf@ =~= old(self).read_buf@.skip(total as int));
        match str_from_utf8(body.as_slice()) {
            Some(s) => Ok(Some(string_from_chars(chars_of(s).as_slice()))),
            None => Err(FrameError::InvalidUtf8),
        }
    }
}

} // verus!

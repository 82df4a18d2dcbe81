//! Swap files for crash recovery: where they live and their binary format.
//!
//! Swap files are stored alongside original files (`.filename.ext.swp`).
//! Format:
//!   0..4     Magic: "ZSWP"
//!   4..8     Version: u32 LE (1)
//!   8..12    PID: u32 LE
//!   12..20   Timestamp: u64 LE (Unix epoch secs)
//!   20..24   Path length: u32 LE
//!   24..24+N Original path: UTF-8
//!   24+N     Modified flag: 0x00/0x01
//!   25+N..   Buffer content: raw UTF-8
use vstd::prelude::*;
use crate::bytes::push_all;
use crate::paths::{path_file_name, path_file_name_of, path_join, path_join_of, path_parent, path_parent_of};
use crate::text::{
    chars_of, dec_chars, push_dec_chars, push_str_chars, str_from_utf8, string_from_chars, string_from_utf8_lossy,
    utf8_lossy,
};
use vstd::utf8::{decode_utf8, encode_utf8, valid_utf8};

verus! {

#[derive(Debug)]
pub struct SwapHeader {
    pub pid: u32,
    pub timestamp: u64,
    pub original_path: String,
    pub modified: bool,
}

#[derive(Debug, PartialEq, Eq, Clone, Copy, Structural)]
pub enum SwapStatus {
    Missing,
    OwnedByUs,
    Orphaned,
    Corrupt,
}

/// Why a swap file could not be read.
#[derive(Debug, PartialEq, Eq, Clone, Copy, Structural)]
pub enum SwapError {
    /// Shorter than the fixed header.
    TooShort,
    /// Does not start with "ZSWP".
    BadMagic,
    /// A version other than 1.
    UnsupportedVersion(u32),
    /// Shorter than its header says.
    Truncated,
    /// The original path is not UTF-8.
    InvalidPath,
}

pub struct HeaderModel {
    pub pid: u32,
    pub timestamp: u64,
    pub original_path: Seq<char>,
    pub modified: bool,
}

impl View for SwapHeader {
    type V = HeaderModel;

    open spec fn view(&self) -> HeaderModel {
        HeaderModel {
            pid: self.pid,
            timestamp: self.timestamp,
            original_path: self.original_path@,
            modified: self.modified,
        }
    }
}

pub const SWAP_VERSION: u32 = 1;

pub open spec fn magic() -> Seq<u8> {
    seq![0x5au8, 0x53, 0x57, 0x50]
}

// ── Paths ────────────────────────────────────────────────────

/// `n` in decimal with at least two digits.
pub open spec fn two_digits(n: nat) -> Seq<char> {
    if n < 10 {
        seq!['0'] + dec_chars(n)
    } else {
        dec_chars(n)
    }
}

/// `.name.swp` next to the file (in "." when the path has no parent;
/// "untitled" when it has no file name).
pub open spec fn spec_swap_path(file_path: Seq<char>) -> Seq<char> {
    let parent = match path_parent_of(file_path) {
        Some(p) => p,
        None => "."@,
    };
    let name = match path_file_name_of(file_path) {
        Some(n) => n,
        None => "untitled"@,
    };
    path_join_of(parent, "."@ + name + ".swp"@)
}

/// `NewBufferNN` for the untitled buffer `id`.
pub open spec fn untitled_name(id: usize) -> Seq<char> {
    "NewBuffer"@ + two_digits(id as nat)
}

/// `<state>/swap/NewBufferNN.swp`.
pub open spec fn spec_swap_path_untitled(state_dir: Seq<char>, id: usize) -> Seq<char> {
    path_join_of(path_join_of(state_dir, "swap"@), untitled_name(id) + ".swp"@)
}

/// The swap file path for a given file.
/// e.g. `/home/user/project/foo.rs` → `/home/user/project/.foo.rs.swp`
pub fn swap_path(file_path: &str) -> (r: String)
    ensures
        r@ == spec_swap_path(file_path@),
{
    let parent = match path_parent(file_path) {
        Some(p) => p,
        None => string_from_chars(chars_of(".").as_slice()),
    };
    let name = match path_file_name(file_path) {
        Some(n) => n,
        None => string_from_chars(chars_of("untitled").as_slice()),
    };
    let mut v: Vec<char> = Vec::new();
    push_str_chars(&mut v, ".");
    push_str_chars(&mut v, name.as_str());
    push_str_chars(&mut v, ".swp");
    let leaf = string_from_chars(v.as_slice());
    path_join(parent.as_str(), leaf.as_str())
}

fn untitled_chars(id: usize) -> (v: Vec<char>)
    ensures
        v@ == untitled_name(id),
{
    let mut v: Vec<char> = Vec::new();
    push_str_chars(&mut v, "NewBuffer");
    if id < 10 {
        v.push('0');
    }
    push_dec_chars(&mut v, id);
    assert(v@ =~= untitled_name(id));
    v
}

/// The swap file path for an untitled buffer, under the state directory.
pub fn swap_path_untitled(state_dir: &str, id: usize) -> (r: String)
    ensures
        r@ == spec_swap_path_untitled(state_dir@, id),
{
    let dir = path_join(state_dir, "swap");
    let mut v = untitled_chars(id);
    push_str_chars(&mut v, ".swp");
    let leaf = string_from_chars(v.as_slice());
    path_join(dir.as_str(), leaf.as_str())
}

// ── Format ───────────────────────────────────────────────────

pub open spec fn le32(x: u32) -> Seq<u8> {
    seq![(x & 0xff) as u8, ((x >> 8) & 0xff) as u8, ((x >> 16) & 0xff) as u8, ((x >> 24) & 0xff) as u8]
}

pub open spec fn le64(x: u64) -> Seq<u8> {
    le32((x & 0xffff_ffff) as u32) + le32((x >> 32) as u32)
}

pub open spec fn u32_at(d: Seq<u8>, i: int) -> u32 {
    (d[i] as u32) | ((d[i + 1] as u32) << 8) | ((d[i + 2] as u32) << 16) | ((d[i + 3] as u32) << 24)
}

pub open spec fn u64_at(d: Seq<u8>, i: int) -> u64 {
    (u32_at(d, i) as u64) | ((u32_at(d, i + 4) as u64) << 32)
}

/// The bytes of a swap file.
pub open spec fn swap_bytes(path: Seq<u8>, pid: u32, timestamp: u64, modified: bool, content: Seq<u8>) -> Seq<u8> {
    magic() + le32(SWAP_VERSION) + le32(pid) + le64(timestamp) + le32(path.len() as u32) + path + seq![
        if modified {
            1u8
        } else {
            0u8
        },
    ] + content
}

/// Reading a swap file: its header and its content (decoded as UTF-8,
/// invalid sequences replaced), or why it cannot be read.
pub open spec fn spec_decode_swap(d: Seq<u8>) -> Result<(HeaderModel, Seq<char>), SwapError> {
    if d.len() < 25 {
        Err(SwapError::TooShort)
    } else if d.take(4) != magic() {
        Err(SwapError::BadMagic)
    } else if u32_at(d, 4) != SWAP_VERSION {
        Err(SwapError::UnsupportedVersion(u32_at(d, 4)))
    } else {
        let n = u32_at(d, 20) as int;
        if d.len() < 25 + n {
            Err(SwapError::Truncated)
        } else if !valid_utf8(d.subrange(24, 24 + n)) {
            Err(SwapError::InvalidPath)
        } else {
            Ok(
                (
                    HeaderModel {
                        pid: u32_at(d, 8),
                        timestamp: u64_at(d, 12),
                        original_path: decode_utf8(d.subrange(24, 24 + n)),
                        modified: d[24 + n] != 0,
                    },
                    utf8_lossy(d.skip(25 + n)),
                ),
            )
        }
    }
}

fn push_le32(v: &mut Vec<u8>, x: u32)
    ensures
        final(v)@ == old(v)@ + le32(x),
{
    v.push((x & 0xff) as u8);
    v.push(((x >> 8) & 0xff) as u8);
    v.push(((x >> 16) & 0xff) as u8);
    v.push(((x >> 24) & 0xff) as u8);
    assert(v@ =~= old(v)@ + le32(x));
}

fn read_u32(d: &[u8], i: usize) -> (r: u32)
    requires
        i + 4 <= d@.len(),
    ensures
        r == u32_at(d@, i as int),
{
    (d[i] as u32) | ((d[i + 1] as u32) << 8) | ((d[i + 2] as u32) << 16) | ((d[i + 3] as u32) << 24)
}

/// The bytes of a swap file for `original_path`, written by process `pid`
/// at `timestamp`.
pub fn encode_swap(original_path: &str, pid: u32, timestamp: u64, modified: bool, content: &[u8]) -> (v: Vec<u8>)
    ensures
        v@ == swap_bytes(encode_utf8(original_path@), pid, timestamp, modified, content@),
{
    let path_bytes = original_path.as_bytes();
    let mut data: Vec<u8> = Vec::new();
    data.push(0x5a);
    data.push(0x53);
    data.push(0x57);
    data.push(0x50);
    push_le32(&mut data, SWAP_VERSION);
    push_le32(&mut data, pid);
    push_le32(&mut data, (timestamp & 0xffff_ffff) as u32);
    push_le32(&mut data, (timestamp >> 32) as u32);
    push_le32(&mut data, path_bytes.len() as u32);
    push_all(&mut data, path_bytes);
    data.push(if modified { 0x01 } else { 0x00 });
    push_all(&mut data, content);
    assert(data@ =~= swap_bytes(encode_utf8(original_path@), pid, timestamp, modified, content@));
    data
}

/// Read the header and content of a swap file's bytes.
pub fn decode_swap(data: &[u8]) -> (r: Result<(SwapHeader, String), SwapError>)
    ensures
        match r {
            Ok((h, c)) => spec_decode_swap(data@) == Ok::<(HeaderModel, Seq<char>), SwapError>((h@, c@)),
            Err(e) => spec_decode_swap(data@) == Err::<(HeaderModel, Seq<char>), SwapError>(e),
        },
{
    let len = data.len();
    if len < 25 {
        return Err(SwapError::TooShort);
    }
    if !(data[0] == 0x5a && data[1] == 0x53 && data[2] == 0x57 && data[3] == 0x50) {
        proof {
            if data@.take(4) == magic() {
                assert(data@.take(4)[0] == 0x5a && data@.take(4)[1] == 0x53 && data@.take(4)[2] == 0x57 && data@.take(4)[3] == 0x50);
            }
        }
        return Err(SwapError::BadMagic);
    }
    assert(data@.take(4) =~= magic());
    let version = read_u32(data, 4);
    if version != SWAP_VERSION {
        return Err(SwapError::UnsupportedVersion(version));
    }
    let pid = read_u32(data, 8);
    let lo = read_u32(data, 12);
    let hi = read_u32(data, 16);
    let timestamp = (lo as u64) | ((hi as u64) << 32);
    let path_len = read_u32(data, 20) as usize;
    if (len as u64) < 25 + (path_len as u64) {
        return Err(SwapError::Truncated);
    }
    let path_slice = crate::bytes::byte_range(data, 24, 24 + path_len);
    let original_path = match str_from_utf8(path_slice.as_slice()) {
        Some(s) => string_from_chars(chars_of(s).as_slice()),
        None => return Err(SwapError::InvalidPath),
    };
    let modified = data[24 + path_len] != 0;
    let rest = crate::bytes::byte_range(data, 25 + path_len, len);
    assert(rest@ =~= data@.skip(25 + path_len));
    let content = string_from_utf8_lossy(rest.as_slice());
    Ok((SwapHeader { pid, timestamp, original_path, modified }, content))
}

// ── Laws ─────────────────────────────────────────────────────

proof fn lemma_le32(x: u32)
    ensures
        u32_at(le32(x), 0) == x,
{
    let b0 = (x & 0xff) as u8;
    let b1 = ((x >> 8) & 0xff) as u8;
    let b2 = ((x >> 16) & 0xff) as u8;
    let b3 = ((x >> 24) & 0xff) as u8;
    assert((b0 as u32) | ((b1 as u32) << 8) | ((b2 as u32) << 16) | ((b3 as u32) << 24) == x) by (bit_vector)
        requires
            b0 == (x & 0xff) as u8,
            b1 == ((x >> 8) & 0xff) as u8,
            b2 == ((x >> 16) & 0xff) as u8,
            b3 == ((x >> 24) & 0xff) as u8,
    ;
}

proof fn lemma_le64(x: u64)
    ensures
        u64_at(le64(x), 0) == x,
{
    let lo = (x & 0xffff_ffff) as u32;
    let hi = (x >> 32) as u32;
    lemma_le32(lo);
    lemma_le32(hi);
    assert(le64(x).subrange(4, 8) =~= le32(hi));
    assert(u32_at(le64(x), 4) == u32_at(le32(hi), 0));
    assert((lo as u64) | ((hi as u64) << 32) == x) by (bit_vector)
        requires
            lo == (x & 0xffff_ffff) as u32,
            hi == (x >> 32) as u32,
    ;
}

proof fn lemma_u32_at_shift(a: Seq<u8>, b: Seq<u8>, i: int)
    requires
        0 <= i,
        i + 4 <= b.len(),
    ensures
        u32_at(a + b, a.len() + i) == u32_at(b, i),
{
}

/// Reading back what was written: a swap file made for a path, process,
/// time, flag and content reads as that header and that content (decoded
/// as UTF-8), provided the path's bytes fit the 32-bit length field.
pub proof fn lemma_swap_roundtrip(path: Seq<char>, pid: u32, timestamp: u64, modified: bool, content: Seq<u8>)
    requires
        encode_utf8(path).len() <= u32::MAX,
    ensures
        spec_decode_swap(swap_bytes(encode_utf8(path), pid, timestamp, modified, content)) == Ok::<
            (HeaderModel, Seq<char>),
            SwapError,
        >((HeaderModel { pid, timestamp, original_path: path, modified }, utf8_lossy(content))),
{
    let pb = encode_utf8(path);
    let n = pb.len() as int;
    let d = swap_bytes(pb, pid, timestamp, modified, content);
    let flag: u8 = if modified { 1u8 } else { 0u8 };
    let h = magic() + le32(SWAP_VERSION) + le32(pid) + le64(timestamp) + le32(n as u32);
    assert(h.len() == 24);
    assert(d =~= h + pb + seq![flag] + content);
    assert(d.take(4) =~= magic());
    lemma_le32(SWAP_VERSION);
    lemma_le32(pid);
    lemma_le32(n as u32);
    lemma_le64(timestamp);
    assert(d.subrange(4, 8) =~= le32(SWAP_VERSION));
    assert(u32_at(d, 4) == u32_at(le32(SWAP_VERSION), 0));
    assert(d.subrange(8, 12) =~= le32(pid));
    assert(u32_at(d, 8) == u32_at(le32(pid), 0));
    assert(d.subrange(20, 24) =~= le32(n as u32));
    assert(u32_at(d, 20) == u32_at(le32(n as u32), 0));
    assert(d.subrange(12, 20) =~= le64(timestamp));
    assert(u32_at(d, 12) == u32_at(le64(timestamp), 0));
    assert(u32_at(d, 16) == u32_at(le64(timestamp), 4));
    assert(u64_at(d, 12) == u64_at(le64(timestamp), 0));
    assert(d.subrange(24, 24 + n) =~= pb);
    vstd::utf8::encode_utf8_valid_utf8(path);
    vstd::utf8::encode_utf8_decode_utf8(path);
    assert(d[24 + n] == flag);
    assert(d.skip(25 + n) =~= content);
}

/// The status of a swap file from what reading it gave: None when there
/// is no file, Corrupt when it does not read, owned by us when it is our
/// process's or another live process's, orphaned otherwise.
pub open spec fn spec_check_swap(read: Option<Result<u32, SwapError>>, our_pid: u32, pid_alive: bool) -> SwapStatus {
    match read {
        None => SwapStatus::Missing,
        Some(Err(_)) => SwapStatus::Corrupt,
        Some(Ok(pid)) => if pid == our_pid || pid_alive {
            SwapStatus::OwnedByUs
        } else {
            SwapStatus::Orphaned
        },
    }
}

/// Status of a swap file: `read` is what reading it gave (None when it does
/// not exist), `our_pid` this process and `pid_alive` whether the process
/// named in the header still runs.
pub fn check_swap(read: Option<&Result<(SwapHeader, String), SwapError>>, our_pid: u32, pid_alive: bool) -> (s: SwapStatus)
    ensures
        s == spec_check_swap(
            match read {
                None => None,
                Some(Err(e)) => Some(Err(*e)),
                Some(Ok((h, _))) => Some(Ok(h.pid)),
            },
            our_pid,
            pid_alive,
        ),
{
    match read {
        None => SwapStatus::Missing,
        Some(Err(_)) => SwapStatus::Corrupt,
        Some(Ok((header, _))) => {
            if header.pid == our_pid {
                SwapStatus::OwnedByUs
            } else if pid_alive {
                SwapStatus::OwnedByUs
            } else {
                SwapStatus::Orphaned
            }
        },
    }
}

/// What to write for a file's swap: the swap path and the file's bytes.
pub fn write_swap(file_path: &str, content: &[u8], modified: bool, pid: u32, timestamp: u64) -> (r: (String, Vec<u8>))
    ensures
        r.0@ == spec_swap_path(file_path@),
        r.1@ == swap_bytes(encode_utf8(file_path@), pid, timestamp, modified, content@),
{
    (swap_path(file_path), encode_swap(file_path, pid, timestamp, modified, content))
}

/// What to write for an untitled buffer's swap: the swap path and the
/// bytes, with `NewBufferNN` as the original path.
pub fn write_swap_untitled(state_dir: &str, id: usize, content: &[u8], modified: bool, pid: u32, timestamp: u64) -> (r: (
    String,
    Vec<u8>,
))
    ensures
        r.0@ == spec_swap_path_untitled(state_dir@, id),
        r.1@ == swap_bytes(encode_utf8(untitled_name(id)), pid, timestamp, modified, content@),
{
    let name = string_from_chars(untitled_chars(id).as_slice());
    (swap_path_untitled(state_dir, id), encode_swap(name.as_str(), pid, timestamp, modified, content))
}

} // verus!

//! Character-sequence operations with their meaning stated: prefix tests,
//! search, splitting at a character, and decimal numbers.
use vstd::prelude::*;
use crate::text::{is_white_space, trim_start};

verus! {

pub open spec fn starts_with(s: Seq<char>, p: Seq<char>) -> bool {
    p.len() <= s.len() && s.take(p.len() as int) == p
}

/// `s` without the prefix `p`, if it has it.
pub open spec fn strip_prefix(s: Seq<char>, p: Seq<char>) -> Option<Seq<char>> {
    if starts_with(s, p) {
        Some(s.skip(p.len() as int))
    } else {
        None
    }
}

/// `p` occurs in `s` at position `k`.
pub open spec fn occurs_at(s: Seq<char>, p: Seq<char>, k: int) -> bool {
    s.subrange(k, k + p.len()) == p
}

/// The first position at or after `i` where `p` occurs in `s`.
pub open spec fn find_from(s: Seq<char>, p: Seq<char>, i: int) -> Option<int>
    decreases s.len() + 1 - i,
{
    if i < 0 || i + p.len() > s.len() {
        None
    } else if occurs_at(s, p, i) {
        Some(i)
    } else {
        find_from(s, p, i + 1)
    }
}

/// A found position lies inside `s`, at or after where the search began.
pub proof fn lemma_find_from_bounds(s: Seq<char>, p: Seq<char>, i: int)
    ensures
        find_from(s, p, i) matches Some(k) ==> i <= k && k + p.len() <= s.len() && occurs_at(s, p, k),
    decreases s.len() + 1 - i,
{
    if !(i < 0 || i + p.len() > s.len()) && !occurs_at(s, p, i) {
        lemma_find_from_bounds(s, p, i + 1);
    }
}

/// `p` occurs somewhere in `s` (as `str::contains` with a string).
pub open spec fn contains_str(s: Seq<char>, p: Seq<char>) -> bool {
    exists|k: int| 0 <= k && k + p.len() <= s.len() && #[trigger] occurs_at(s, p, k)
}

/// The search finds `p` exactly when `p` occurs in `s`.
pub proof fn lemma_find_contains(s: Seq<char>, p: Seq<char>)
    ensures
        find(s, p) is Some <==> contains_str(s, p),
{
    lemma_find_from_bounds(s, p, 0);
    if contains_str(s, p) {
        let k = choose|k: int| 0 <= k && k + p.len() <= s.len() && #[trigger] occurs_at(s, p, k);
        lemma_find_none_from(s, p, 0, k);
    }
}

proof fn lemma_find_none_from(s: Seq<char>, p: Seq<char>, i: int, k: int)
    requires
        0 <= i <= k,
        k + p.len() <= s.len(),
        occurs_at(s, p, k),
    ensures
        find_from(s, p, i) is Some,
    decreases k - i,
{
    if i < k && !occurs_at(s, p, i) {
        lemma_find_none_from(s, p, i + 1, k);
    }
}

/// The first position where `p` occurs in `s`.
pub open spec fn find(s: Seq<char>, p: Seq<char>) -> Option<int> {
    find_from(s, p, 0)
}

/// The first position of `c` in `s`.
pub open spec fn find_char(s: Seq<char>, c: char) -> Option<int> {
    find(s, seq![c])
}

/// The last position of `c` in `s`.
pub open spec fn rfind_char(s: Seq<char>, c: char) -> Option<int>
    decreases s.len(),
{
    if s.len() == 0 {
        None
    } else if s.last() == c {
        Some(s.len() - 1)
    } else {
        rfind_char(s.drop_last(), c)
    }
}

/// At most `n` pieces of `s` split at `c` from the left; the last piece
/// keeps the rest (as `str::splitn`).
pub open spec fn splitn(s: Seq<char>, n: nat, c: char) -> Seq<Seq<char>>
    decreases n,
{
    if n <= 1 {
        seq![s]
    } else {
        match find_char(s, c) {
            None => seq![s],
            Some(i) => seq![s.take(i)] + splitn(s.skip(i + 1), (n - 1) as nat, c),
        }
    }
}

/// At most `n` pieces of `s` split at `c` from the right, last piece first;
/// the final piece keeps the rest (as `str::rsplitn`).
pub open spec fn rsplitn(s: Seq<char>, n: nat, c: char) -> Seq<Seq<char>>
    decreases n,
{
    if n <= 1 {
        seq![s]
    } else {
        match rfind_char(s, c) {
            None => seq![s],
            Some(i) => seq![s.skip(i + 1)] + rsplitn(s.take(i), (n - 1) as nat, c),
        }
    }
}

/// The parts before and after the first occurrence of `p`.
pub open spec fn split_once(s: Seq<char>, p: Seq<char>) -> Option<(Seq<char>, Seq<char>)> {
    match find(s, p) {
        Some(i) => Some((s.take(i), s.skip(i + p.len()))),
        None => None,
    }
}

/// The longest prefix without white space.
pub open spec fn word_prefix(s: Seq<char>) -> Seq<char>
    decreases s.len(),
{
    if s.len() == 0 || is_white_space(s[0]) {
        Seq::empty()
    } else {
        seq![s[0]] + word_prefix(s.drop_first())
    }
}

/// The first white-space separated word (as `split_whitespace().next()`).
pub open spec fn first_word(s: Seq<char>) -> Option<Seq<char>> {
    let t = trim_start(s);
    if t.len() == 0 {
        None
    } else {
        Some(word_prefix(t))
    }
}

pub open spec fn is_digit(c: char) -> bool {
    '0' <= c <= '9'
}

/// The value of a string of decimal digits.
pub open spec fn digits_value(s: Seq<char>) -> nat
    decreases s.len(),
{
    if s.len() == 0 {
        0
    } else {
        digits_value(s.drop_last()) * 10 + ((s.last() as u32) - 0x30) as nat
    }
}

pub open spec fn all_digits(d: Seq<char>) -> bool {
    forall|i: int| 0 <= i < d.len() ==> is_digit(#[trigger] d[i])
}

/// `s` without a leading '+'.
pub open spec fn unsigned_part(s: Seq<char>) -> Seq<char> {
    if s.len() > 0 && s[0] == '+' {
        s.drop_first()
    } else {
        s
    }
}

/// `u32::from_str`: an optional '+' and at least one digit, nothing else,
/// and a value that fits.
pub open spec fn parse_u32(s: Seq<char>) -> Option<u32> {
    let d = unsigned_part(s);
    if d.len() > 0 && all_digits(d) && digits_value(d) <= u32::MAX {
        Some(digits_value(d) as u32)
    } else {
        None
    }
}

pub fn starts_with_str(s: &Vec<char>, lit: &str) -> (b: bool)
    ensures
        b == starts_with(s@, lit@),
{
    let p = crate::text::chars_of(lit);
    if p.len() > s.len() {
        return false;
    }
    let mut i: usize = 0;
    while i < p.len()
        invariant
            i <= p@.len() <= s@.len(),
            p@ == lit@,
            forall|j: int| 0 <= j < i ==> s@[j] == p@[j],
        decreases p@.len() - i,
    {
        if s[i] != p[i] {
            assert(s@.take(p@.len() as int)[i as int] != p@[i as int]);
            return false;
        }
        i = i + 1;
    }
    assert(s@.take(p@.len() as int) =~= p@);
    true
}

/// The characters `s[lo..hi]`.
pub fn sub_chars(s: &Vec<char>, lo: usize, hi: usize) -> (r: Vec<char>)
    requires
        lo <= hi <= s@.len(),
    ensures
        r@ == s@.subrange(lo as int, hi as int),
{
    let mut r: Vec<char> = Vec::new();
    let mut i = lo;
    while i < hi
        invariant
            lo <= i <= hi <= s@.len(),
            r@ == s@.subrange(lo as int, i as int),
        decreases hi - i,
    {
        r.push(s[i]);
        i = i + 1;
        assert(r@ =~= s@.subrange(lo as int, i as int));
    }
    r
}

pub fn strip_prefix_str(s: &Vec<char>, lit: &str) -> (r: Option<Vec<char>>)
    ensures
        match r {
            Some(v) => strip_prefix(s@, lit@) == Some(v@),
            None => strip_prefix(s@, lit@) is None,
        },
{
    if starts_with_str(s, lit) {
        let n = crate::text::chars_of(lit).len();
        Some(sub_chars(s, n, s.len()))
    } else {
        None
    }
}

proof fn lemma_find_from_skip(s: Seq<char>, p: Seq<char>, i: int, j: int)
    requires
        0 <= i <= j,
        forall|k: int| i <= k < j && k + p.len() <= s.len() ==> !#[trigger] occurs_at(s, p, k),
    ensures
        find_from(s, p, i) == find_from(s, p, j),
    decreases j - i,
{
    if i < j {
        lemma_find_from_skip(s, p, i + 1, j);
    }
}

/// Position of the first occurrence of `lit`.
pub fn find_str(s: &Vec<char>, lit: &str) -> (r: Option<usize>)
    ensures
        match r {
            Some(i) => find(s@, lit@) == Some(i as int) && i + lit@.len() <= s@.len(),
            None => find(s@, lit@) is None,
        },
{
    let p = crate::text::chars_of(lit);
    let mut i: usize = 0;
    let slen = s.len();
    if p.len() > slen {
        return None;
    }
    if p.len() == 0 {
        assert(s@.subrange(0, 0) =~= p@);
        assert(occurs_at(s@, p@, 0));
        return Some(0);
    }
    let last = slen - p.len();
    while i <= last
        invariant
            p@ == lit@,
            p@.len() <= s@.len(),
            slen == s@.len(),
            p@.len() > 0,
            last == s@.len() - p@.len(),
            i <= last + 1,
            forall|k: int| 0 <= k < i && k + p@.len() <= s@.len() ==> !#[trigger] occurs_at(s@, p@, k),
        decreases last + 1 - i,
    {
        let mut j: usize = 0;
        let mut ok = true;
        while j < p.len()
            invariant
                p@.len() <= s@.len(),
                slen == s@.len(),
                i <= last,
                last == s@.len() - p@.len(),
                j <= p@.len(),
                ok == (forall|m: int| 0 <= m < j ==> s@[i + m] == p@[m]),
            decreases p@.len() - j,
        {
            if s[i + j] != p[j] {
                ok = false;
            }
            j = j + 1;
        }
        if ok {
            assert(s@.subrange(i as int, i + p@.len()) =~= p@);
            proof {
                lemma_find_from_skip(s@, p@, 0, i as int);
            }
            return Some(i);
        }
        assert(!occurs_at(s@, p@, i as int)) by {
            let m = choose|m: int| 0 <= m < p@.len() && s@[i + m] != p@[m];
            assert(s@.subrange(i as int, i + p@.len())[m] != p@[m]);
        }
        i = i + 1;
    }
    proof {
        lemma_find_from_skip(s@, p@, 0, i as int);
    }
    None
}

/// Position of the first `c`.
pub fn find_char_exec(s: &Vec<char>, c: char) -> (r: Option<usize>)
    ensures
        match r {
            Some(i) => find_char(s@, c) == Some(i as int) && i < s@.len() && s@[i as int] == c,
            None => find_char(s@, c) is None,
        },
{
    let mut i: usize = 0;
    while i < s.len()
        invariant
            i <= s@.len(),
            forall|k: int| 0 <= k < i ==> s@[k] != c,
        decreases s@.len() - i,
    {
        if s[i] == c {
            proof {
                assert forall|k: int| 0 <= k < i && k + 1 <= s@.len() implies !#[trigger] occurs_at(s@, seq![c], k) by {
                    assert(s@.subrange(k, k + 1)[0] != c);
                }
                lemma_find_from_skip(s@, seq![c], 0, i as int);
                assert(s@.subrange(i as int, i + 1) =~= seq![c]);
            }
            return Some(i);
        }
        i = i + 1;
    }
    proof {
        assert forall|k: int| 0 <= k < i && k + 1 <= s@.len() implies !#[trigger] occurs_at(s@, seq![c], k) by {
            assert(s@.subrange(k, k + 1)[0] != c);
        }
        lemma_find_from_skip(s@, seq![c], 0, i as int);
    }
    None
}

proof fn lemma_rfind_char(s: Seq<char>, c: char, k: int)
    requires
        0 <= k <= s.len(),
        forall|m: int| k <= m < s.len() ==> s[m] != c,
    ensures
        rfind_char(s, c) == rfind_char(s.take(k), c),
    decreases s.len() - k,
{
    if k < s.len() {
        assert(s.drop_last().take(k) =~= s.take(k));
        lemma_rfind_char(s.drop_last(), c, k);
    } else {
        assert(s.take(k) =~= s);
    }
}

/// Position of the last `c`.
pub fn rfind_char_exec(s: &Vec<char>, c: char) -> (r: Option<usize>)
    ensures
        match r {
            Some(i) => rfind_char(s@, c) == Some(i as int) && i < s@.len(),
            None => rfind_char(s@, c) is None,
        },
{
    let mut k = s.len();
    while k > 0
        invariant
            k <= s@.len(),
            forall|m: int| k <= m < s@.len() ==> s@[m] != c,
        decreases k,
    {
        if s[k - 1] == c {
            proof {
                lemma_rfind_char(s@, c, k as int);
            }
            return Some(k - 1);
        }
        k = k - 1;
    }
    proof {
        lemma_rfind_char(s@, c, 0);
    }
    None
}

pub open spec fn pieces_view(v: Seq<Vec<char>>) -> Seq<Seq<char>> {
    v.map_values(|p: Vec<char>| p@)
}

/// `splitn(n, c)`.
pub fn splitn_exec(s: &Vec<char>, n: usize, c: char) -> (r: Vec<Vec<char>>)
    ensures
        pieces_view(r@) == splitn(s@, n as nat, c),
{
    let mut out: Vec<Vec<char>> = Vec::new();
    let mut rest = sub_chars(s, 0, s.len());
    let mut k = n;
    assert(s@.subrange(0, s@.len() as int) =~= s@);
    while k > 1
        invariant
            pieces_view(out@) + splitn(rest@, k as nat, c) == splitn(s@, n as nat, c),
        ensures
            pieces_view(out@) + seq![rest@] == splitn(s@, n as nat, c),
        decreases k,
    {
        match find_char_exec(&rest, c) {
            None => {
                assert(splitn(rest@, k as nat, c) =~= seq![rest@]);
                break;
            },
            Some(i) => {
                let rl = rest.len();
                let head = sub_chars(&rest, 0, i);
                let tail = sub_chars(&rest, i + 1, rl);
                assert(rest@.take(i as int) =~= head@);
                assert(rest@.skip(i + 1) =~= tail@);
                let ghost o0 = out@;
                out.push(head);
                assert(pieces_view(out@) =~= pieces_view(o0).push(head@));
                assert(pieces_view(o0) + splitn(rest@, k as nat, c) =~= pieces_view(out@) + splitn(tail@, (k - 1) as nat, c));
                rest = tail;
                k = k - 1;
            },
        }
    }
    let ghost o0 = out@;
    out.push(rest);
    assert(pieces_view(out@) =~= pieces_view(o0).push(rest@));
    assert(pieces_view(out@) =~= pieces_view(o0) + seq![rest@]);
    out
}

/// `rsplitn(n, c)`.
pub fn rsplitn_exec(s: &Vec<char>, n: usize, c: char) -> (r: Vec<Vec<char>>)
    ensures
        pieces_view(r@) == rsplitn(s@, n as nat, c),
{
    let mut out: Vec<Vec<char>> = Vec::new();
    let mut rest = sub_chars(s, 0, s.len());
    let mut k = n;
    assert(s@.subrange(0, s@.len() as int) =~= s@);
    while k > 1
        invariant
            pieces_view(out@) + rsplitn(rest@, k as nat, c) == rsplitn(s@, n as nat, c),
        ensures
            pieces_view(out@) + seq![rest@] == rsplitn(s@, n as nat, c),
        decreases k,
    {
        match rfind_char_exec(&rest, c) {
            None => {
                assert(rsplitn(rest@, k as nat, c) =~= seq![rest@]);
                break;
            },
            Some(i) => {
                let rl = rest.len();
                let head = sub_chars(&rest, 0, i);
                let tail = sub_chars(&rest, i + 1, rl);
                assert(rest@.take(i as int) =~= head@);
                assert(rest@.skip(i + 1) =~= tail@);
                let ghost o0 = out@;
                out.push(tail);
                assert(pieces_view(out@) =~= pieces_view(o0).push(tail@));
                assert(pieces_view(o0) + rsplitn(rest@, k as nat, c) =~= pieces_view(out@) + rsplitn(head@, (k - 1) as nat, c));
                rest = head;
                k = k - 1;
            },
        }
    }
    let ghost o0 = out@;
    out.push(rest);
    assert(pieces_view(out@) =~= pieces_view(o0).push(rest@));
    assert(pieces_view(out@) =~= pieces_view(o0) + seq![rest@]);
    out
}

/// Whether `c` occurs.
pub fn contains_char(s: &Vec<char>, c: char) -> (b: bool)
    ensures
        b == s@.contains(c),
{
    let mut i: usize = 0;
    while i < s.len()
        invariant
            i <= s@.len(),
            forall|k: int| 0 <= k < i ==> s@[k] != c,
        decreases s@.len() - i,
    {
        if s[i] == c {
            assert(s@[i as int] == c);
            return true;
        }
        i = i + 1;
    }
    false
}

/// `u32::from_str` on the characters.
pub fn parse_u32_exec(s: &Vec<char>) -> (r: Option<u32>)
    ensures
        r == parse_u32(s@),
{
    let start: usize = if s.len() > 0 && s[0] == '+' { 1 } else { 0 };
    let ghost d = s@.skip(start as int);
    assert(d == unsigned_part(s@));
    if start >= s.len() {
        return None;
    }
    let mut v: u64 = 0;
    let mut i = start;
    while i < s.len()
        invariant
            start <= i <= s@.len(),
            d == s@.skip(start as int),
            d == unsigned_part(s@),
            forall|k: int| 0 <= k < i - start ==> is_digit(#[trigger] d[k]),
            v == digits_value(d.take(i - start)),
            v <= u32::MAX,
        decreases s@.len() - i,
    {
        let ch = s[i];
        if !('0' <= ch && ch <= '9') {
            assert(!is_digit(d[i - start]));
            assert(parse_u32(s@) is None);
            return None;
        }
        let dv = (ch as u32 - 0x30) as u64;
        assert(d.take(i + 1 - start).drop_last() =~= d.take(i - start));
        assert(d.take(i + 1 - start).last() == ch);
        assert(digits_value(d.take(i + 1 - start)) == v * 10 + dv);
        let nv = v * 10 + dv;
        if nv > 0xFFFF_FFFF {
            proof {
                lemma_digits_grow(d, (i + 1 - start) as int);
            }
            assert(parse_u32(s@) is None);
            return None;
        }
        v = nv;
        i = i + 1;
    }
    assert(d.take(d.len() as int) =~= d);
    Some(v as u32)
}

/// A longer digit prefix is at least as large.
proof fn lemma_digits_grow(d: Seq<char>, k: int)
    requires
        0 <= k <= d.len(),
        forall|i: int| 0 <= i < d.len() ==> is_digit(#[trigger] d[i]) || i >= k,
    ensures
        digits_value(d.take(k)) <= digits_value(d) || exists|i: int| k <= i < d.len() && !is_digit(d[i]),
    decreases d.len() - k,
{
    if k < d.len() {
        if is_digit(d[k]) {
            lemma_digits_grow(d, k + 1);
            assert(d.take(k + 1).drop_last() =~= d.take(k));
        }
    } else {
        assert(d.take(k) =~= d);
    }
}

/// `split_whitespace().next()`.
pub fn first_word_exec(s: &Vec<char>) -> (r: Option<Vec<char>>)
    ensures
        match r {
            Some(w) => first_word(s@) == Some(w@),
            None => first_word(s@) is None,
        },
{
    let mut lo: usize = 0;
    assert(s@.skip(0) =~= s@);
    while lo < s.len() && crate::text::char_is_white_space(s[lo])
        invariant
            lo <= s@.len(),
            trim_start(s@) == trim_start(s@.skip(lo as int)),
        decreases s@.len() - lo,
    {
        assert(s@.skip(lo as int).drop_first() =~= s@.skip(lo + 1));
        lo = lo + 1;
    }
    if lo == s.len() {
        return None;
    }
    let ghost t = s@.skip(lo as int);
    let mut hi = lo;
    while hi < s.len() && !crate::text::char_is_white_space(s[hi])
        invariant
            lo <= hi <= s@.len(),
            t == s@.skip(lo as int),
            word_prefix(t) == s@.subrange(lo as int, hi as int) + word_prefix(s@.skip(hi as int)),
        decreases s@.len() - hi,
    {
        assert(s@.skip(hi as int).drop_first() =~= s@.skip(hi + 1));
        assert(s@.subrange(lo as int, hi + 1) =~= s@.subrange(lo as int, hi as int) + seq![s@[hi as int]]);
        hi = hi + 1;
    }
    assert(word_prefix(s@.skip(hi as int)) =~= Seq::<char>::empty());
    Some(sub_chars(s, lo, hi))
}

/// `usize::from_str`: an optional '+' and at least one digit, nothing
/// else, and a value that fits.
pub open spec fn parse_usize(s: Seq<char>) -> Option<usize> {
    let d = unsigned_part(s);
    if d.len() > 0 && all_digits(d) && digits_value(d) <= usize::MAX {
        Some(digits_value(d) as usize)
    } else {
        None
    }
}

/// `usize::from_str` on the characters.
pub fn parse_usize_exec(s: &Vec<char>) -> (r: Option<usize>)
    ensures
        r == parse_usize(s@),
{
    let start: usize = if s.len() > 0 && s[0] == '+' { 1 } else { 0 };
    let ghost d = s@.skip(start as int);
    assert(d == unsigned_part(s@));
    if start >= s.len() {
        return None;
    }
    let mut v: usize = 0;
    let mut i = start;
    while i < s.len()
        invariant
            start <= i <= s@.len(),
            d == s@.skip(start as int),
            d == unsigned_part(s@),
            forall|k: int| 0 <= k < i - start ==> is_digit(#[trigger] d[k]),
            v == digits_value(d.take(i - start)),
        decreases s@.len() - i,
    {
        let ch = s[i];
        if !('0' <= ch && ch <= '9') {
            assert(!is_digit(d[i - start]));
            assert(parse_usize(s@) is None);
            return None;
        }
        let dv = (ch as u32 - 0x30) as usize;
        assert(d.take(i + 1 - start).drop_last() =~= d.take(i - start));
        assert(d.take(i + 1 - start).last() == ch);
        assert(digits_value(d.take(i + 1 - start)) == v * 10 + dv);
        let nv = match v.checked_mul(10) {
            Some(m) => m.checked_add(dv),
            None => None,
        };
        match nv {
            Some(x) => {
                v = x;
            },
            None => {
                proof {
                    lemma_digits_grow(d, (i + 1 - start) as int);
                }
                assert(parse_usize(s@) is None);
                return None;
            },
        }
        i = i + 1;
    }
    assert(d.take(d.len() as int) =~= d);
    Some(v)
}

} // verus!

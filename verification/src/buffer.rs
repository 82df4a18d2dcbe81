//! Text buffer: the document as a sequence of UTF-8 bytes, edited by
//! inserting a string at a byte offset or deleting a byte range.
use vstd::prelude::*;
use crate::text::{string_from_utf8_lossy, utf8_lossy};

verus! {

pub struct Buffer {
    bytes: Vec<u8>,
}

impl View for Buffer {
    type V = Seq<u8>;

    closed spec fn view(&self) -> Seq<u8> {
        self.bytes@
    }
}

/// `b` with the bytes `t` inserted at offset `pos`.
pub open spec fn spliced_in(b: Seq<u8>, pos: int, t: Seq<u8>) -> Seq<u8> {
    b.take(pos) + t + b.skip(pos)
}

/// `b` without the `n` bytes starting at offset `pos`.
pub open spec fn spliced_out(b: Seq<u8>, pos: int, n: int) -> Seq<u8> {
    b.take(pos) + b.skip(pos + n)
}

impl Buffer {
    pub fn new() -> (b: Self)
        ensures
            b@ == Seq::<u8>::empty(),
    {
        Buffer { bytes: Vec::new() }
    }

    pub fn len(&self) -> (n: usize)
        ensures
            n == self@.len(),
    {
        self.bytes.len()
    }

    /// Insert `text` at byte offset `pos`.
    pub fn insert(&mut self, pos: usize, text: &str)
        requires
            pos <= old(self)@.len(),
        ensures
            final(self)@ == spliced_in(old(self)@, pos as int, vstd::utf8::encode_utf8(text@)),
    {
        let tb = text.as_bytes();
        let mut out: Vec<u8> = Vec::new();
        let mut i: usize = 0;
        while i < pos
            invariant
                i <= pos <= self.bytes@.len(),
                out@ == self.bytes@.take(i as int),
            decreases pos - i,
        {
            out.push(self.bytes[i]);
            i = i + 1;
            assert(out@ =~= self.bytes@.take(i as int));
        }
        let mut j: usize = 0;
        while j < tb.len()
            invariant
                j <= tb@.len(),
                out@ == self.bytes@.take(pos as int) + tb@.take(j as int),
            decreases tb@.len() - j,
        {
            out.push(tb[j]);
            j = j + 1;
            assert(out@ =~= self.bytes@.take(pos as int) + tb@.take(j as int));
        }
        assert(tb@.take(tb@.len() as int) =~= tb@);
        let mut k: usize = pos;
        while k < self.bytes.len()
            invariant
                pos <= k <= self.bytes@.len(),
                out@ == self.bytes@.take(pos as int) + tb@ + self.bytes@.subrange(pos as int, k as int),
            decreases self.bytes@.len() - k,
        {
            out.push(self.bytes[k]);
            k = k + 1;
            assert(out@ =~= self.bytes@.take(pos as int) + tb@ + self.bytes@.subrange(pos as int, k as int));
        }
        assert(self.bytes@.subrange(pos as int, self.bytes@.len() as int) =~= self.bytes@.skip(pos as int));
        self.bytes = out;
    }

    /// Delete the `len` bytes starting at byte offset `pos`.
    pub fn delete(&mut self, pos: usize, len: usize)
        requires
            pos + len <= old(self)@.len(),
        ensures
            final(self)@ == spliced_out(old(self)@, pos as int, len as int),
    {
        let mut out: Vec<u8> = Vec::new();
        let mut i: usize = 0;
        while i < pos
            invariant
                i <= pos <= self.bytes@.len(),
                out@ == self.bytes@.take(i as int),
            decreases pos - i,
        {
            out.push(self.bytes[i]);
            i = i + 1;
            assert(out@ =~= self.bytes@.take(i as int));
        }
        let n = self.bytes.len();
        assert(pos + len <= n);
        let end = pos + len;
        let mut k: usize = end;
        while k < self.bytes.len()
            invariant
                end <= k <= self.bytes@.len(),
                end == pos + len,
                out@ == self.bytes@.take(pos as int) + self.bytes@.subrange(end as int, k as int),
            decreases self.bytes@.len() - k,
        {
            out.push(self.bytes[k]);
            k = k + 1;
            assert(out@ =~= self.bytes@.take(pos as int) + self.bytes@.subrange(end as int, k as int));
        }
        assert(self.bytes@.subrange(end as int, self.bytes@.len() as int) =~= self.bytes@.skip(end as int));
        self.bytes = out;
    }

    /// The document as a string (invalid UTF-8 shows as U+FFFD).
    pub fn text(&self) -> (s: String)
        ensures
            s@ == utf8_lossy(self@),
            vstd::utf8::valid_utf8(self@) ==> s@ == vstd::utf8::decode_utf8(self@),
    {
        string_from_utf8_lossy(self.bytes.as_slice())
    }
}

} // verus!

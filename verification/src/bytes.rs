//! Small byte-level helpers: decimal formatting and UTF-8 encoding.
use vstd::prelude::*;
use vstd::utf8::*;

verus! {

/// ASCII decimal digits of `n`, most significant first, without leading zeros
/// (`0` is the single digit `"0"`).
pub open spec fn decimal(n: nat) -> Seq<u8>
    decreases n,
{
    if n < 10 {
        seq![(48 + n) as u8]
    } else {
        decimal(n / 10).push((48 + n % 10) as u8)
    }
}

/// Append a slice of bytes.
pub fn push_all(buf: &mut Vec<u8>, bytes: &[u8])
    ensures
        final(buf)@ == old(buf)@ + bytes@,
{
    let mut i: usize = 0;
    while i < bytes.len()
        invariant
            i <= bytes@.len(),
            buf@ == old(buf)@ + bytes@.take(i as int),
        decreases bytes@.len() - i,
    {
        buf.push(bytes[i]);
        i = i + 1;
        assert(buf@ =~= old(buf)@ + bytes@.take(i as int));
    }
    assert(bytes@.take(bytes@.len() as int) =~= bytes@);
}

/// Append the decimal representation of `n`.
pub fn write_usize(buf: &mut Vec<u8>, n: usize)
    ensures
        final(buf)@ == old(buf)@ + decimal(n as nat),
    decreases n,
{
    if n < 10 {
        buf.push(48u8 + (n as u8));
        assert(decimal(n as nat) =~= seq![(48 + n) as u8]);
    } else {
        write_usize(buf, n / 10);
        buf.push(48u8 + ((n % 10) as u8));
        assert(decimal(n as nat) == decimal((n / 10) as nat).push((48 + n % 10) as u8));
    }
}

/// Append the UTF-8 encoding of `ch`.
pub fn push_utf8(buf: &mut Vec<u8>, ch: char)
    ensures
        final(buf)@ == old(buf)@ + encode_scalar(ch as u32),
{
    let v = ch as u32;
    if v <= 0x7F {
        buf.push((v & 0x7F) as u8);
    } else if v <= 0x7FF {
        buf.push(0xC0u8 | ((v >> 6) & 0x1F) as u8);
        buf.push(0x80u8 | (v & 0x3F) as u8);
    } else if v <= 0xFFFF {
        buf.push(0xE0u8 | ((v >> 12) & 0x0F) as u8);
        buf.push(0x80u8 | ((v >> 6) & 0x3F) as u8);
        buf.push(0x80u8 | (v & 0x3F) as u8);
    } else {
        buf.push(0xF0u8 | ((v >> 18) & 0x7) as u8);
        buf.push(0x80u8 | ((v >> 12) & 0x3F) as u8);
        buf.push(0x80u8 | ((v >> 6) & 0x3F) as u8);
        buf.push(0x80u8 | (v & 0x3F) as u8);
    }
    assert(buf@ =~= old(buf)@ + encode_scalar(ch as u32));
}

/// The bytes `buf[lo..hi]`.
pub fn byte_range(buf: &[u8], lo: usize, hi: usize) -> (r: Vec<u8>)
    requires
        lo <= hi <= buf@.len(),
    ensures
        r@ == buf@.subrange(lo as int, hi as int),
{
    let mut r: Vec<u8> = Vec::new();
    let mut i = lo;
    while i < hi
        invariant
            lo <= i <= hi <= buf@.len(),
            r@ == buf@.subrange(lo as int, i as int),
        decreases hi - i,
    {
        r.push(buf[i]);
        i = i + 1;
        assert(r@ =~= buf@.subrange(lo as int, i as int));
    }
    r
}

} // verus!

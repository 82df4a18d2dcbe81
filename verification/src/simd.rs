//! Newline scanning, eight bytes at a time (SWAR: "SIMD within a
//! register"): a word without a newline byte is skipped in one test.
use vstd::prelude::*;

verus! {

/// The line starts that follow the newlines of `d`: `base + i + 1` for each
/// position `i` holding `\n`, in order.
pub open spec fn newline_starts(d: Seq<u8>, base: int) -> Seq<usize>
    decreases d.len(),
{
    if d.len() == 0 {
        Seq::empty()
    } else if d.last() == 0x0a {
        newline_starts(d.drop_last(), base).push((base + d.len()) as usize)
    } else {
        newline_starts(d.drop_last(), base)
    }
}

/// Every line start fits in a `usize`.
pub open spec fn starts_fit(d: Seq<u8>, base: usize) -> bool {
    forall|i: int| 0 <= i < d.len() && d[i] == 0x0a ==> base + i + 1 <= usize::MAX
}

pub const NL_MASK: u64 = 0x0A0A_0A0A_0A0A_0A0A;

pub const LO_BITS: u64 = 0x0101_0101_0101_0101;

pub const HI_BITS: u64 = 0x8080_8080_8080_8080;

/// A word whose zero-byte test comes out 0 holds no newline byte.
proof fn lemma_swar_no_newline(b0: u8, b1: u8, b2: u8, b3: u8, b4: u8, b5: u8, b6: u8, b7: u8, w: u64, h: u64)
    requires
        w == (b0 as u64) | ((b1 as u64) << 8) | ((b2 as u64) << 16) | ((b3 as u64) << 24) | ((b4 as u64) << 32)
            | ((b5 as u64) << 40) | ((b6 as u64) << 48) | ((b7 as u64) << 56),
        h == (((w ^ NL_MASK) - LO_BITS) as u64) & !(w ^ NL_MASK) & HI_BITS,
        h == 0,
    ensures
        b0 != 0x0a && b1 != 0x0a && b2 != 0x0a && b3 != 0x0a && b4 != 0x0a && b5 != 0x0a && b6 != 0x0a && b7 != 0x0a,
{
    assert(b0 != 0x0a && b1 != 0x0a && b2 != 0x0a && b3 != 0x0a && b4 != 0x0a && b5 != 0x0a && b6 != 0x0a && b7
        != 0x0a) by (bit_vector)
        requires
            w == (b0 as u64) | ((b1 as u64) << 8) | ((b2 as u64) << 16) | ((b3 as u64) << 24) | ((b4 as u64) << 32)
                | ((b5 as u64) << 40) | ((b6 as u64) << 48) | ((b7 as u64) << 56),
            (((w ^ 0x0A0A_0A0A_0A0A_0A0Au64) - 0x0101_0101_0101_0101u64) as u64) & !(w ^ 0x0A0A_0A0A_0A0A_0A0Au64)
                & 0x8080_8080_8080_8080u64 == 0,
    ;
}

/// A run without newlines adds no line starts.
proof fn lemma_no_newline_run(d: Seq<u8>, base: int, i: int, k: int)
    requires
        0 <= i,
        0 <= k,
        i + k <= d.len(),
        forall|j: int| i <= j < i + k ==> d[j] != 0x0a,
    ensures
        newline_starts(d.take(i + k), base) == newline_starts(d.take(i), base),
    decreases k,
{
    if k > 0 {
        assert(d.take(i + k).drop_last() =~= d.take(i + k - 1));
        lemma_no_newline_run(d, base, i, k - 1);
    }
}

/// Scan one byte: push the line start after it if it is a newline.
fn scan_byte(data: &[u8], base: usize, i: usize, out: &mut Vec<usize>)
    requires
        i < data@.len(),
        starts_fit(data@, base),
        old(out)@ == newline_starts(data@.take(i as int), base as int),
    ensures
        final(out)@ == newline_starts(data@.take(i + 1), base as int),
{
    assert(data@.take(i + 1).drop_last() =~= data@.take(i as int));
    if data[i] == 0x0a {
        out.push(base + i + 1);
    }
}

/// Push the line start after each `\n` of `data` (`base` is the offset of
/// `data[0]` in the whole buffer), scanning a word at a time.
pub fn scan_swar(data: &[u8], base: usize, out: &mut Vec<usize>)
    requires
        starts_fit(data@, base),
    ensures
        final(out)@ == old(out)@ + newline_starts(data@, base as int),
{
    let ghost o0 = old(out)@;
    let mut found: Vec<usize> = Vec::new();
    let n = data.len();
    let mut i: usize = 0;
    assert(data@.take(0) =~= Seq::<u8>::empty());
    while n >= 8 && i <= n - 8
        invariant
            n == data@.len(),
            i <= n,
            starts_fit(data@, base),
            found@ == newline_starts(data@.take(i as int), base as int),
        decreases n - i,
    {
        let b0 = data[i];
        let b1 = data[i + 1];
        let b2 = data[i + 2];
        let b3 = data[i + 3];
        let b4 = data[i + 4];
        let b5 = data[i + 5];
        let b6 = data[i + 6];
        let b7 = data[i + 7];
        let word: u64 = (b0 as u64) | ((b1 as u64) << 8) | ((b2 as u64) << 16) | ((b3 as u64) << 24) | ((b4 as u64)
            << 32) | ((b5 as u64) << 40) | ((b6 as u64) << 48) | ((b7 as u64) << 56);
        let xor = word ^ NL_MASK;
        let has_zero = xor.wrapping_sub(LO_BITS) & !xor & HI_BITS;
        if has_zero != 0 {
            let mut j: usize = 0;
            while j < 8
                invariant
                    n == data@.len(),
                    i + 8 <= n,
                    j <= 8,
                    starts_fit(data@, base),
                    found@ == newline_starts(data@.take(i + j), base as int),
                decreases 8 - j,
            {
                scan_byte(data, base, i + j, &mut found);
                j = j + 1;
            }
        } else {
            proof {
                assert(xor.wrapping_sub(LO_BITS) == ((xor - LO_BITS) as u64)) by (bit_vector);
                lemma_swar_no_newline(b0, b1, b2, b3, b4, b5, b6, b7, word, has_zero);
                lemma_no_newline_run(data@, base as int, i as int, 8);
            }
        }
        i = i + 8;
    }
    while i < n
        invariant
            n == data@.len(),
            i <= n,
            starts_fit(data@, base),
            found@ == newline_starts(data@.take(i as int), base as int),
        decreases n - i,
    {
        scan_byte(data, base, i, &mut found);
        i = i + 1;
    }
    assert(data@.take(n as int) =~= data@);
    let mut k: usize = 0;
    while k < found.len()
        invariant
            k <= found@.len(),
            out@ == o0 + found@.take(k as int),
        decreases found@.len() - k,
    {
        out.push(found[k]);
        k = k + 1;
        assert(out@ =~= o0 + found@.take(k as int));
    }
    assert(found@.take(found@.len() as int) =~= found@);
}

/// Scan `data` for `\n` bytes, pushing the offset of each following line
/// start (`base + i + 1`) onto `out`.
pub fn scan_newlines(data: &[u8], base: usize, out: &mut Vec<usize>)
    requires
        starts_fit(data@, base),
    ensures
        final(out)@ == old(out)@ + newline_starts(data@, base as int),
{
    scan_swar(data, base, out)
}

} // verus!

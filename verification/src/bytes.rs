//! Byte-level helpers: big-endian integer fields, zero padding, and range
//! copies over byte buffers. Every multi-byte integer in the package format
//! is big-endian and fixed-width.

use vstd::prelude::*;

verus! {

/// The eight bytes of `x` in big-endian order.
pub open spec fn spec_u64_to_be_bytes(x: u64) -> Seq<u8> {
    seq![
        ((x >> 56) & 0xff) as u8,
        ((x >> 48) & 0xff) as u8,
        ((x >> 40) & 0xff) as u8,
        ((x >> 32) & 0xff) as u8,
        ((x >> 24) & 0xff) as u8,
        ((x >> 16) & 0xff) as u8,
        ((x >> 8) & 0xff) as u8,
        (x & 0xff) as u8,
    ]
}

/// The `u64` denoted by eight big-endian bytes.
pub open spec fn spec_u64_from_be_bytes(s: Seq<u8>) -> u64
    recommends
        s.len() == 8,
{
    (((s[0] as u64) << 56) | ((s[1] as u64) << 48) | ((s[2] as u64) << 40) | ((s[3] as u64) << 32)
        | ((s[4] as u64) << 24) | ((s[5] as u64) << 16) | ((s[6] as u64) << 8) | (s[7] as u64))
}

/// The four bytes of `x` in big-endian order.
pub open spec fn spec_u32_to_be_bytes(x: u32) -> Seq<u8> {
    seq![
        ((x >> 24) & 0xff) as u8,
        ((x >> 16) & 0xff) as u8,
        ((x >> 8) & 0xff) as u8,
        (x & 0xff) as u8,
    ]
}

/// The `u32` denoted by four big-endian bytes.
pub open spec fn spec_u32_from_be_bytes(s: Seq<u8>) -> u32
    recommends
        s.len() == 4,
{
    (((s[0] as u32) << 24) | ((s[1] as u32) << 16) | ((s[2] as u32) << 8) | (s[3] as u32))
}

/// Writing a `u64` and reading it back is the identity.
pub proof fn lemma_u64_be_bytes_roundtrip(x: u64)
    ensures
        spec_u64_from_be_bytes(spec_u64_to_be_bytes(x)) == x,
{
    assert((((((x >> 56) & 0xff) as u8) as u64) << 56) | (((((x >> 48) & 0xff) as u8) as u64)
        << 48) | (((((x >> 40) & 0xff) as u8) as u64) << 40) | (((((x >> 32) & 0xff) as u8) as u64)
        << 32) | (((((x >> 24) & 0xff) as u8) as u64) << 24) | (((((x >> 16) & 0xff) as u8) as u64)
        << 16) | (((((x >> 8) & 0xff) as u8) as u64) << 8) | (((x & 0xff) as u8) as u64) == x)
        by (bit_vector);
}

/// Writing a `u32` and reading it back is the identity.
pub proof fn lemma_u32_be_bytes_roundtrip(x: u32)
    ensures
        spec_u32_from_be_bytes(spec_u32_to_be_bytes(x)) == x,
{
    assert((((((x >> 24) & 0xff) as u8) as u32) << 24) | (((((x >> 16) & 0xff) as u8) as u32)
        << 16) | (((((x >> 8) & 0xff) as u8) as u32) << 8) | (((x & 0xff) as u8) as u32) == x)
        by (bit_vector);
}

/// Appends the big-endian encoding of `x` to `out`.
pub fn u64_be_append(out: &mut Vec<u8>, x: u64)
    ensures
        final(out)@ == old(out)@ + spec_u64_to_be_bytes(x),
{
    proof {
        assert((x >> 56) & 0xff < 256 && (x >> 48) & 0xff < 256 && (x >> 40) & 0xff < 256 && (x
            >> 32) & 0xff < 256 && (x >> 24) & 0xff < 256 && (x >> 16) & 0xff < 256 && (x >> 8)
            & 0xff < 256 && x & 0xff < 256) by (bit_vector);
    }
    out.push(((x >> 56) & 0xff) as u8);
    out.push(((x >> 48) & 0xff) as u8);
    out.push(((x >> 40) & 0xff) as u8);
    out.push(((x >> 32) & 0xff) as u8);
    out.push(((x >> 24) & 0xff) as u8);
    out.push(((x >> 16) & 0xff) as u8);
    out.push(((x >> 8) & 0xff) as u8);
    out.push((x & 0xff) as u8);
    proof {
        assert(out@ =~= old(out)@ + spec_u64_to_be_bytes(x));
    }
}

/// Appends the big-endian encoding of `x` to `out`.
pub fn u32_be_append(out: &mut Vec<u8>, x: u32)
    ensures
        final(out)@ == old(out)@ + spec_u32_to_be_bytes(x),
{
    proof {
        assert((x >> 24) & 0xff < 256 && (x >> 16) & 0xff < 256 && (x >> 8) & 0xff < 256 && x & 0xff
            < 256) by (bit_vector);
    }
    out.push(((x >> 24) & 0xff) as u8);
    out.push(((x >> 16) & 0xff) as u8);
    out.push(((x >> 8) & 0xff) as u8);
    out.push((x & 0xff) as u8);
    proof {
        assert(out@ =~= old(out)@ + spec_u32_to_be_bytes(x));
    }
}

/// Reads the big-endian `u64` stored at `data[off..off + 8]`.
pub fn u64_be_read(data: &Vec<u8>, off: usize) -> (x: u64)
    requires
        off + 8 <= data@.len(),
    ensures
        x == spec_u64_from_be_bytes(data@.subrange(off as int, off as int + 8)),
{
    let _n: usize = data.len();
    let x = (((data[off] as u64) << 56) | ((data[off + 1] as u64) << 48) | ((data[off + 2] as u64)
        << 40) | ((data[off + 3] as u64) << 32) | ((data[off + 4] as u64) << 24) | ((data[off
        + 5] as u64) << 16) | ((data[off + 6] as u64) << 8) | (data[off + 7] as u64));
    proof {
        let s = data@.subrange(off as int, off as int + 8);
        assert(s[0] == data@[off as int] && s[1] == data@[off as int + 1] && s[2] == data@[off as int
            + 2] && s[3] == data@[off as int + 3] && s[4] == data@[off as int + 4] && s[5]
            == data@[off as int + 5] && s[6] == data@[off as int + 6] && s[7] == data@[off as int
            + 7]);
    }
    x
}

/// Reads the big-endian `u32` stored at `data[off..off + 4]`.
pub fn u32_be_read(data: &Vec<u8>, off: usize) -> (x: u32)
    requires
        off + 4 <= data@.len(),
    ensures
        x == spec_u32_from_be_bytes(data@.subrange(off as int, off as int + 4)),
{
    let _n: usize = data.len();
    let x = (((data[off] as u32) << 24) | ((data[off + 1] as u32) << 16) | ((data[off + 2] as u32)
        << 8) | (data[off + 3] as u32));
    proof {
        let s = data@.subrange(off as int, off as int + 4);
        assert(s[0] == data@[off as int] && s[1] == data@[off as int + 1] && s[2] == data@[off as int
            + 2] && s[3] == data@[off as int + 3]);
    }
    x
}

/// A window of a window of `b` is a window of `b`: the bytes at
/// `[off + a, off + c)` are the bytes `[a, c)` of the window at
/// `[off, off + len)`.
pub proof fn lemma_subrange_of_subrange(b: Seq<u8>, off: int, len: int, a: int, c: int)
    requires
        0 <= off,
        off + len <= b.len(),
        0 <= a <= c <= len,
    ensures
        b.subrange(off + a, off + c) == b.subrange(off, off + len).subrange(a, c),
{
    assert(b.subrange(off + a, off + c) =~= b.subrange(off, off + len).subrange(a, c));
}

/// A window of `b` that lies wholly inside a prefix of `b` reads from that
/// prefix.
pub proof fn lemma_prefix_window(w: Seq<u8>, b: Seq<u8>, lo: int, hi: int)
    requires
        w.is_prefix_of(b),
        0 <= lo <= hi <= w.len(),
    ensures
        b.subrange(lo, hi) == w.subrange(lo, hi),
{
    assert forall|x: int| 0 <= x < hi - lo implies b.subrange(lo, hi)[x] == w.subrange(
        lo,
        hi,
    )[x] by {
        assert(b.subrange(0, w.len() as int)[lo + x] == b[lo + x]);
    }
    assert(b.subrange(lo, hi) =~= w.subrange(lo, hi));
}

/// A window that lies wholly inside the left part of a concatenation reads
/// from the left part.
pub proof fn lemma_concat_subrange_left(a: Seq<u8>, b: Seq<u8>, lo: int, hi: int)
    requires
        0 <= lo <= hi <= a.len(),
    ensures
        (a + b).subrange(lo, hi) == a.subrange(lo, hi),
{
    assert forall|x: int| 0 <= x < hi - lo implies (a + b).subrange(lo, hi)[x] == a.subrange(
        lo,
        hi,
    )[x] by {
        assert((a + b)[lo + x] == a[lo + x]);
    }
    assert((a + b).subrange(lo, hi) =~= a.subrange(lo, hi));
}

/// A window that lies wholly inside the right part of a concatenation reads
/// from the right part, shifted by the left part's length.
pub proof fn lemma_concat_subrange_right(a: Seq<u8>, b: Seq<u8>, lo: int, hi: int)
    requires
        a.len() <= lo <= hi <= a.len() + b.len(),
    ensures
        (a + b).subrange(lo, hi) == b.subrange(lo - a.len(), hi - a.len()),
{
    assert forall|x: int| 0 <= x < hi - lo implies (a + b).subrange(lo, hi)[x] == b.subrange(
        lo - a.len(),
        hi - a.len(),
    )[x] by {
        assert((a + b)[lo + x] == b[lo + x - a.len()]);
        assert(b.subrange(lo - a.len(), hi - a.len())[x] == b[lo - a.len() + x]);
    }
    assert((a + b).subrange(lo, hi) =~= b.subrange(lo - a.len(), hi - a.len()));
}

/// A run of `n` zero bytes.
pub open spec fn zero_seq(n: nat) -> Seq<u8> {
    Seq::new(n, |i: int| 0u8)
}

/// Appends `n` zero bytes to `out`.
pub fn append_zeros(out: &mut Vec<u8>, n: usize)
    ensures
        final(out)@ == old(out)@ + zero_seq(n as nat),
{
    let mut i: usize = 0;
    while i < n
        invariant
            i <= n,
            out@ == old(out)@ + zero_seq(i as nat),
        decreases n - i,
    {
        out.push(0);
        i = i + 1;
        proof {
            assert(out@ =~= old(out)@ + zero_seq(i as nat));
        }
    }
    proof {
        assert(out@ =~= old(out)@ + zero_seq(n as nat));
    }
}

/// Copies `data[off..off + n]` into a fresh buffer.
pub fn copy_range(data: &Vec<u8>, off: usize, n: usize) -> (out: Vec<u8>)
    requires
        off + n <= data@.len(),
    ensures
        out@ == data@.subrange(off as int, off as int + n),
{
    let _dlen: usize = data.len();
    let mut out: Vec<u8> = Vec::new();
    let mut i: usize = 0;
    while i < n
        invariant
            i <= n,
            off + n <= data@.len(),
            data@.len() <= usize::MAX,
            out@ == data@.subrange(off as int, off as int + i),
        decreases n - i,
    {
        out.push(data[off + i]);
        i = i + 1;
        proof {
            assert(out@ =~= data@.subrange(off as int, off as int + i));
        }
    }
    out
}

/// Decides whether `data[off..off + expect.len()]` equals `expect`.
pub fn range_eq(data: &Vec<u8>, off: usize, expect: &Vec<u8>) -> (r: bool)
    requires
        off + expect@.len() <= data@.len(),
    ensures
        r == (data@.subrange(off as int, off as int + expect@.len() as int) == expect@),
{
    let n = expect.len();
    let _dlen: usize = data.len();
    let ghost window = data@.subrange(off as int, off as int + expect@.len() as int);
    let mut i: usize = 0;
    while i < n
        invariant
            i <= n,
            n == expect@.len(),
            off + n <= data@.len(),
            data@.len() <= usize::MAX,
            window == data@.subrange(off as int, off as int + n as int),
            forall|j: int| 0 <= j < i ==> window[j] == expect@[j],
        decreases n - i,
    {
        if data[off + i] != expect[i] {
            proof {
                assert(window[i as int] != expect@[i as int]);
            }
            return false;
        }
        i = i + 1;
    }
    proof {
        assert(window =~= expect@);
    }
    true
}

} // verus!

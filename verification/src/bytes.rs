//! Little-endian integer codec over byte sequences, byte swapping, and
//! in-buffer splicing. Every structure of the Mach-O format is laid out as a
//! sequence of little-endian words that may need a byte swap, so these are the
//! primitives the record codec and the patcher are specified with.

use vstd::prelude::*;

verus! {

/// The value of the four bytes of `s` starting at `i`, read little-endian.
pub open spec fn le32(s: Seq<u8>, i: int) -> u32 {
    (s[i] as u32) | (s[i + 1] as u32) << 8 | (s[i + 2] as u32) << 16 | (s[i + 3] as u32) << 24
}

/// The value of the eight bytes of `s` starting at `i`, read little-endian.
pub open spec fn le64(s: Seq<u8>, i: int) -> u64 {
    (s[i] as u64) | (s[i + 1] as u64) << 8 | (s[i + 2] as u64) << 16 | (s[i + 3] as u64) << 24
        | (s[i + 4] as u64) << 32 | (s[i + 5] as u64) << 40 | (s[i + 6] as u64) << 48 | (s[i
        + 7] as u64) << 56
}

/// The four bytes of `x` in little-endian order.
pub open spec fn enc32(x: u32) -> Seq<u8> {
    seq![
        (x & 0xff) as u8,
        ((x >> 8) & 0xff) as u8,
        ((x >> 16) & 0xff) as u8,
        ((x >> 24) & 0xff) as u8,
    ]
}

/// The eight bytes of `x` in little-endian order.
pub open spec fn enc64(x: u64) -> Seq<u8> {
    seq![
        (x & 0xff) as u8,
        ((x >> 8) & 0xff) as u8,
        ((x >> 16) & 0xff) as u8,
        ((x >> 24) & 0xff) as u8,
        ((x >> 32) & 0xff) as u8,
        ((x >> 40) & 0xff) as u8,
        ((x >> 48) & 0xff) as u8,
        ((x >> 56) & 0xff) as u8,
    ]
}

/// `x` with its four bytes reversed.
pub open spec fn swap32(x: u32) -> u32 {
    (x & 0xff) << 24 | ((x >> 8) & 0xff) << 16 | ((x >> 16) & 0xff) << 8 | (x >> 24)
}

/// `x` with its eight bytes reversed.
pub open spec fn swap64(x: u64) -> u64 {
    (x & 0xff) << 56 | ((x >> 8) & 0xff) << 48 | ((x >> 16) & 0xff) << 40 | ((x >> 24) & 0xff)
        << 32 | ((x >> 32) & 0xff) << 24 | ((x >> 40) & 0xff) << 16 | ((x >> 48) & 0xff) << 8 | (x
        >> 56)
}

/// `x` byte-swapped iff `swap` asks for it.
pub open spec fn norm32(x: u32, swap: bool) -> u32 {
    if swap {
        swap32(x)
    } else {
        x
    }
}

/// `x` byte-swapped iff `swap` asks for it.
pub open spec fn norm64(x: u64, swap: bool) -> u64 {
    if swap {
        swap64(x)
    } else {
        x
    }
}

/// `s` with the bytes starting at `i` replaced by `d`.
pub open spec fn splice(s: Seq<u8>, i: int, d: Seq<u8>) -> Seq<u8> {
    s.subrange(0, i) + d + s.subrange(i + d.len(), s.len() as int)
}

/// `n` zero bytes.
pub open spec fn zeros(n: nat) -> Seq<u8> {
    Seq::new(n, |i: int| 0u8)
}

/// Pointwise reading of a splice: inside the window it is `d`, outside it is `s`.
pub broadcast proof fn lemma_splice(s: Seq<u8>, i: int, d: Seq<u8>)
    requires
        0 <= i,
        i + d.len() <= s.len(),
    ensures
        (#[trigger] splice(s, i, d)).len() == s.len(),
        forall|j: int|
            0 <= j < s.len() ==> splice(s, i, d)[j] == if i <= j < i + d.len() {
                d[j - i]
            } else {
                s[j]
            },
{
}

pub proof fn lemma_swap32_involution(x: u32)
    ensures
        swap32(swap32(x)) == x,
{
    assert(((x & 0xff) << 24 | ((x >> 8) & 0xff) << 16 | ((x >> 16) & 0xff) << 8 | (x >> 24))
        & 0xff == x >> 24) by (bit_vector);
    assert(swap32(swap32(x)) == x) by (bit_vector);
}

pub proof fn lemma_swap64_involution(x: u64)
    ensures
        swap64(swap64(x)) == x,
{
    assert(swap64(swap64(x)) == x) by (bit_vector);
}

/// Normalizing twice with the same direction restores the word.
pub proof fn lemma_norm32_involution(x: u32, swap: bool)
    ensures
        norm32(norm32(x, swap), swap) == x,
{
    if swap {
        lemma_swap32_involution(x);
    }
}

pub proof fn lemma_norm64_involution(x: u64, swap: bool)
    ensures
        norm64(norm64(x, swap), swap) == x,
{
    if swap {
        lemma_swap64_involution(x);
    }
}

/// Decoding the encoding of a 32-bit word restores the word.
pub proof fn lemma_le32_enc32(x: u32)
    ensures
        enc32(x).len() == 4,
        le32(enc32(x), 0) == x,
{
    assert(((((x & 0xff) as u8) as u32) | ((((x >> 8) & 0xff) as u8) as u32) << 8 | ((((x >> 16)
        & 0xff) as u8) as u32) << 16 | ((((x >> 24) & 0xff) as u8) as u32) << 24) == x)
        by (bit_vector);
}

/// Encoding the little-endian reading of four bytes restores those bytes.
pub proof fn lemma_enc32_le32(s: Seq<u8>, i: int)
    requires
        0 <= i,
        i + 4 <= s.len(),
    ensures
        enc32(le32(s, i)) == s.subrange(i, i + 4),
{
    let c0 = s[i] as u32;
    let c1 = s[i + 1] as u32;
    let c2 = s[i + 2] as u32;
    let c3 = s[i + 3] as u32;
    let x = le32(s, i);
    assert(c0 < 256 && c1 < 256 && c2 < 256 && c3 < 256 && x == (c0 | c1 << 8 | c2 << 16 | c3
        << 24) ==> (x & 0xff == c0 && (x >> 8) & 0xff == c1 && (x >> 16) & 0xff == c2 && (x >> 24)
        & 0xff == c3)) by (bit_vector);
    assert(enc32(le32(s, i)) =~= s.subrange(i, i + 4));
}

/// Decoding the encoding of a 64-bit word restores the word.
pub proof fn lemma_le64_enc64(x: u64)
    ensures
        enc64(x).len() == 8,
        le64(enc64(x), 0) == x,
{
    assert(((((x & 0xff) as u8) as u64) | ((((x >> 8) & 0xff) as u8) as u64) << 8 | ((((x >> 16)
        & 0xff) as u8) as u64) << 16 | ((((x >> 24) & 0xff) as u8) as u64) << 24 | ((((x >> 32)
        & 0xff) as u8) as u64) << 32 | ((((x >> 40) & 0xff) as u8) as u64) << 40 | ((((x >> 48)
        & 0xff) as u8) as u64) << 48 | ((((x >> 56) & 0xff) as u8) as u64) << 56) == x)
        by (bit_vector);
}

/// Encoding the little-endian reading of eight bytes restores those bytes.
pub proof fn lemma_enc64_le64(s: Seq<u8>, i: int)
    requires
        0 <= i,
        i + 8 <= s.len(),
    ensures
        enc64(le64(s, i)) == s.subrange(i, i + 8),
{
    let c0 = s[i] as u64;
    let c1 = s[i + 1] as u64;
    let c2 = s[i + 2] as u64;
    let c3 = s[i + 3] as u64;
    let c4 = s[i + 4] as u64;
    let c5 = s[i + 5] as u64;
    let c6 = s[i + 6] as u64;
    let c7 = s[i + 7] as u64;
    let x = le64(s, i);
    assert(c0 < 256 && c1 < 256 && c2 < 256 && c3 < 256 && c4 < 256 && c5 < 256 && c6 < 256 && c7
        < 256 && x == (c0 | c1 << 8 | c2 << 16 | c3 << 24 | c4 << 32 | c5 << 40 | c6 << 48 | c7
        << 56) ==> (x & 0xff == c0 && (x >> 8) & 0xff == c1 && (x >> 16) & 0xff == c2 && (x >> 24)
        & 0xff == c3 && (x >> 32) & 0xff == c4 && (x >> 40) & 0xff == c5 && (x >> 48) & 0xff == c6
        && (x >> 56) & 0xff == c7)) by (bit_vector);
    assert(enc64(le64(s, i)) =~= s.subrange(i, i + 8));
}

/// Reverses the four bytes of `x`.
pub fn swap_u32(x: u32) -> (r: u32)
    ensures
        r == swap32(x),
{
    (x & 0xff) << 24 | ((x >> 8) & 0xff) << 16 | ((x >> 16) & 0xff) << 8 | (x >> 24)
}

/// Reverses the eight bytes of `x`.
pub fn swap_u64(x: u64) -> (r: u64)
    ensures
        r == swap64(x),
{
    (x & 0xff) << 56 | ((x >> 8) & 0xff) << 48 | ((x >> 16) & 0xff) << 40 | ((x >> 24) & 0xff)
        << 32 | ((x >> 32) & 0xff) << 24 | ((x >> 40) & 0xff) << 16 | ((x >> 48) & 0xff) << 8 | (x
        >> 56)
}

/// Reads the 32-bit little-endian word of `b` at `i`.
pub fn arr_read_u32<const N: usize>(b: &[u8; N], i: usize) -> (r: u32)
    requires
        i + 4 <= N,
    ensures
        r == le32(b@, i as int),
{
    (b[i] as u32) | (b[i + 1] as u32) << 8 | (b[i + 2] as u32) << 16 | (b[i + 3] as u32) << 24
}

/// Reads the 64-bit little-endian word of `b` at `i`.
pub fn arr_read_u64<const N: usize>(b: &[u8; N], i: usize) -> (r: u64)
    requires
        i + 8 <= N,
    ensures
        r == le64(b@, i as int),
{
    (b[i] as u64) | (b[i + 1] as u64) << 8 | (b[i + 2] as u64) << 16 | (b[i + 3] as u64) << 24 | (
    b[i + 4] as u64) << 32 | (b[i + 5] as u64) << 40 | (b[i + 6] as u64) << 48 | (b[i
        + 7] as u64) << 56
}

/// Writes `x` little-endian into `b` at `i`.
pub fn arr_write_u32<const N: usize>(b: &mut [u8; N], i: usize, x: u32)
    requires
        i + 4 <= N,
    ensures
        final(b)@ == splice(old(b)@, i as int, enc32(x)),
{
    b[i] = (x & 0xff) as u8;
    b[i + 1] = ((x >> 8) & 0xff) as u8;
    b[i + 2] = ((x >> 16) & 0xff) as u8;
    b[i + 3] = ((x >> 24) & 0xff) as u8;
    proof {
        lemma_splice(old(b)@, i as int, enc32(x));
        assert(final(b)@ =~= splice(old(b)@, i as int, enc32(x)));
    }
}

/// Writes `x` little-endian into `b` at `i`.
pub fn arr_write_u64<const N: usize>(b: &mut [u8; N], i: usize, x: u64)
    requires
        i + 8 <= N,
    ensures
        final(b)@ == splice(old(b)@, i as int, enc64(x)),
{
    b[i] = (x & 0xff) as u8;
    b[i + 1] = ((x >> 8) & 0xff) as u8;
    b[i + 2] = ((x >> 16) & 0xff) as u8;
    b[i + 3] = ((x >> 24) & 0xff) as u8;
    b[i + 4] = ((x >> 32) & 0xff) as u8;
    b[i + 5] = ((x >> 40) & 0xff) as u8;
    b[i + 6] = ((x >> 48) & 0xff) as u8;
    b[i + 7] = ((x >> 56) & 0xff) as u8;
    proof {
        lemma_splice(old(b)@, i as int, enc64(x));
        assert(final(b)@ =~= splice(old(b)@, i as int, enc64(x)));
    }
}

/// Copies `N` bytes out of `buf` starting at `off`.
pub fn read_arr<const N: usize>(buf: &Vec<u8>, off: usize) -> (r: [u8; N])
    requires
        off + N <= buf.len(),
    ensures
        r@ == buf@.subrange(off as int, off + N),
{
    let mut r: [u8; N] = [0u8; N];
    for j in 0..N
        invariant
            off + N <= buf.len(),
            r@.len() == N,
            forall|k: int| 0 <= k < j ==> r@[k] == buf@[off + k],
    {
        r[j] = buf[off + j];
    }
    assert(r@ =~= buf@.subrange(off as int, off + N));
    r
}

/// Writes the `N` bytes of `data` into `buf` at `off`.
pub fn write_arr<const N: usize>(buf: &mut Vec<u8>, off: usize, data: &[u8; N])
    requires
        off + N <= old(buf).len(),
    ensures
        final(buf)@ == splice(old(buf)@, off as int, data@),
{
    for j in 0..N
        invariant
            off + N <= buf.len(),
            buf@.len() == old(buf)@.len(),
            forall|k: int| 0 <= k < j ==> buf@[off + k] == data@[k],
            forall|k: int| 0 <= k < buf@.len() && !(off <= k < off + j) ==> buf@[k] == old(buf)@[k],
    {
        buf[off + j] = data[j];
    }
    proof {
        lemma_splice(old(buf)@, off as int, data@);
        assert(final(buf)@ =~= splice(old(buf)@, off as int, data@));
    }
}

/// Reads the 32-bit little-endian word of `buf` at `off`.
pub fn read_u32(buf: &Vec<u8>, off: usize) -> (r: u32)
    requires
        off + 4 <= buf.len(),
    ensures
        r == le32(buf@, off as int),
{
    (buf[off] as u32) | (buf[off + 1] as u32) << 8 | (buf[off + 2] as u32) << 16 | (buf[off
        + 3] as u32) << 24
}

} // verus!

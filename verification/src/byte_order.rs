//! Big-endian integer encodings shared by the binary record formats.
use vstd::prelude::*;

verus! {

/// The two big-endian bytes of `x`.
pub open spec fn be_u16(x: u16) -> Seq<u8> {
    seq![(x >> 8) as u8, x as u8]
}

/// The four big-endian bytes of `x`.
pub open spec fn be_u32(x: u32) -> Seq<u8> {
    seq![(x >> 24) as u8, (x >> 16) as u8, (x >> 8) as u8, x as u8]
}

/// The eight big-endian bytes of `x`.
pub open spec fn be_u64(x: u64) -> Seq<u8> {
    seq![
        (x >> 56) as u8,
        (x >> 48) as u8,
        (x >> 40) as u8,
        (x >> 32) as u8,
        (x >> 24) as u8,
        (x >> 16) as u8,
        (x >> 8) as u8,
        x as u8,
    ]
}

/// The integer whose big-endian bytes are `s[0..2]`.
pub open spec fn u16_of_be(s: Seq<u8>) -> u16 {
    ((s[0] as u16) << 8u16) | (s[1] as u16)
}

/// The integer whose big-endian bytes are `s[0..4]`.
pub open spec fn u32_of_be(s: Seq<u8>) -> u32 {
    ((s[0] as u32) << 24u32) | ((s[1] as u32) << 16u32) | ((s[2] as u32) << 8u32) | (s[3] as u32)
}

/// The integer whose big-endian bytes are `s[0..8]`.
pub open spec fn u64_of_be(s: Seq<u8>) -> u64 {
    ((s[0] as u64) << 56u64) | ((s[1] as u64) << 48u64) | ((s[2] as u64) << 40u64) | ((s[3] as u64)
        << 32u64) | ((s[4] as u64) << 24u64) | ((s[5] as u64) << 16u64) | ((s[6] as u64) << 8u64)
        | (s[7] as u64)
}

/// Reading back the bytes of a `u16` gives the `u16`.
pub proof fn lemma_u16_be_roundtrip(x: u16)
    ensures
        u16_of_be(be_u16(x)) == x,
{
    assert(((((x >> 8u16) as u8) as u16) << 8u16) | ((x as u8) as u16) == x) by (bit_vector);
}

/// Reading back the bytes of a `u32` gives the `u32`.
pub proof fn lemma_u32_be_roundtrip(x: u32)
    ensures
        u32_of_be(be_u32(x)) == x,
{
    assert(((((x >> 24u32) as u8) as u32) << 24u32) | ((((x >> 16u32) as u8) as u32) << 16u32)
        | ((((x >> 8u32) as u8) as u32) << 8u32) | ((x as u8) as u32) == x) by (bit_vector);
}

/// Reading back the bytes of a `u64` gives the `u64`.
pub proof fn lemma_u64_be_roundtrip(x: u64)
    ensures
        u64_of_be(be_u64(x)) == x,
{
    assert(((((x >> 56u64) as u8) as u64) << 56u64) | ((((x >> 48u64) as u8) as u64) << 48u64)
        | ((((x >> 40u64) as u8) as u64) << 40u64) | ((((x >> 32u64) as u8) as u64) << 32u64)
        | ((((x >> 24u64) as u8) as u64) << 24u64) | ((((x >> 16u64) as u8) as u64) << 16u64)
        | ((((x >> 8u64) as u8) as u64) << 8u64) | ((x as u8) as u64) == x) by (bit_vector);
}

/// Appends the big-endian bytes of `x`.
pub fn push_u16_be(out: &mut Vec<u8>, x: u16)
    ensures
        final(out)@ == old(out)@ + be_u16(x),
{
    out.push((x >> 8) as u8);
    out.push(x as u8);
    assert(final(out)@ =~= old(out)@ + be_u16(x));
}

/// Appends the big-endian bytes of `x`.
pub fn push_u32_be(out: &mut Vec<u8>, x: u32)
    ensures
        final(out)@ == old(out)@ + be_u32(x),
{
    out.push((x >> 24) as u8);
    out.push((x >> 16) as u8);
    out.push((x >> 8) as u8);
    out.push(x as u8);
    assert(final(out)@ =~= old(out)@ + be_u32(x));
}

/// Appends the big-endian bytes of `x`.
pub fn push_u64_be(out: &mut Vec<u8>, x: u64)
    ensures
        final(out)@ == old(out)@ + be_u64(x),
{
    out.push((x >> 56) as u8);
    out.push((x >> 48) as u8);
    out.push((x >> 40) as u8);
    out.push((x >> 32) as u8);
    out.push((x >> 24) as u8);
    out.push((x >> 16) as u8);
    out.push((x >> 8) as u8);
    out.push(x as u8);
    assert(final(out)@ =~= old(out)@ + be_u64(x));
}

/// Reads a big-endian `u16` at `at`.
pub fn read_u16_be(buf: &[u8], at: usize) -> (x: u16)
    requires
        at + 2 <= buf@.len(),
    ensures
        x == u16_of_be(buf@.subrange(at as int, at + 2)),
{
    ((buf[at] as u16) << 8u16) | (buf[at + 1] as u16)
}

/// Reads a big-endian `u32` at `at`.
pub fn read_u32_be(buf: &[u8], at: usize) -> (x: u32)
    requires
        at + 4 <= buf@.len(),
    ensures
        x == u32_of_be(buf@.subrange(at as int, at + 4)),
{
    ((buf[at] as u32) << 24u32) | ((buf[at + 1] as u32) << 16u32) | ((buf[at + 2] as u32) << 8u32)
        | (buf[at + 3] as u32)
}

/// Reads a big-endian `u64` at `at`.
pub fn read_u64_be(buf: &[u8], at: usize) -> (x: u64)
    requires
        at + 8 <= buf@.len(),
    ensures
        x == u64_of_be(buf@.subrange(at as int, at + 8)),
{
    ((buf[at] as u64) << 56u64) | ((buf[at + 1] as u64) << 48u64) | ((buf[at + 2] as u64) << 40u64)
        | ((buf[at + 3] as u64) << 32u64) | ((buf[at + 4] as u64) << 24u64) | ((buf[at + 5] as u64)
        << 16u64) | ((buf[at + 6] as u64) << 8u64) | (buf[at + 7] as u64)
}

/// Copies `src` into `out` starting at `at`; the other bytes of `out` are left as they were.
pub fn copy_into(out: &mut [u8], at: usize, src: &[u8])
    requires
        at + src@.len() <= old(out)@.len(),
    ensures
        final(out)@ == old(out)@.subrange(0, at as int) + src@ + old(out)@.subrange(
            at + src@.len(),
            old(out)@.len() as int,
        ),
{
    let n = src.len();
    let olen = out.len();
    let mut i: usize = 0;
    while i < n
        invariant
            i <= n,
            olen == old(out)@.len(),
            n == src@.len(),
            at + n <= old(out)@.len(),
            out@.len() == old(out)@.len(),
            forall|j: int| 0 <= j < at ==> out@[j] == old(out)@[j],
            forall|j: int| 0 <= j < i ==> out@[at + j] == src@[j],
            forall|j: int| at + n <= j < old(out)@.len() ==> out@[j] == old(out)@[j],
        decreases n - i,
    {
        out[at + i] = src[i];
        i = i + 1;
    }
    assert(out@ =~= old(out)@.subrange(0, at as int) + src@ + old(out)@.subrange(
        at + src@.len(),
        old(out)@.len() as int,
    ));
}

} // verus!

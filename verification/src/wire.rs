//! Little-endian integers and plain byte runs, as they stand in the image.

use vstd::prelude::*;

verus! {

/// The number that two bytes spell, least significant byte first.
pub open spec fn u16_le(s: Seq<u8>) -> int
    recommends
        s.len() >= 2,
{
    s[0] as int + 256 * (s[1] as int)
}

/// The number that four bytes spell, least significant byte first.
pub open spec fn u32_le(s: Seq<u8>) -> int
    recommends
        s.len() >= 4,
{
    s[0] as int + 256 * (s[1] as int) + 65536 * (s[2] as int) + 16777216 * (s[3] as int)
}

/// The two bytes of `x`, least significant first.
pub open spec fn u16_bytes(x: u16) -> Seq<u8> {
    seq![(x % 256) as u8, (x / 256) as u8]
}

/// The four bytes of `x`, least significant first.
pub open spec fn u32_bytes(x: u32) -> Seq<u8> {
    seq![
        (x % 256) as u8,
        ((x / 256) % 256) as u8,
        ((x / 65536) % 256) as u8,
        (x / 16777216) as u8,
    ]
}

/// `n` zero bytes.
pub open spec fn zeros(n: nat) -> Seq<u8> {
    Seq::new(n, |i: int| 0u8)
}

/// Reading back what `u16_bytes` wrote gives the number again.
pub proof fn lemma_u16_bytes_read(x: u16)
    ensures
        u16_bytes(x).len() == 2,
        u16_le(u16_bytes(x)) == x,
{
}

/// Writing out what two bytes spell gives the two bytes again.
pub proof fn lemma_u16_read_bytes(s: Seq<u8>)
    requires
        s.len() == 2,
    ensures
        0 <= u16_le(s) <= u16::MAX,
        u16_bytes(u16_le(s) as u16) == s,
{
    assert(u16_bytes(u16_le(s) as u16) =~= s);
}

/// Reading back what `u32_bytes` wrote gives the number again.
pub proof fn lemma_u32_bytes_read(x: u32)
    ensures
        u32_bytes(x).len() == 4,
        u32_le(u32_bytes(x)) == x,
{
}

/// Writing out what four bytes spell gives the four bytes again.
pub proof fn lemma_u32_read_bytes(s: Seq<u8>)
    requires
        s.len() == 4,
    ensures
        0 <= u32_le(s) <= u32::MAX,
        u32_bytes(u32_le(s) as u32) == s,
{
    assert(u32_bytes(u32_le(s) as u32) =~= s);
}

/// Reads the `u16` that stands at `at`.
pub fn read_u16(b: &[u8], at: usize) -> (r: u16)
    requires
        at + 2 <= b@.len(),
    ensures
        r == u16_le(b@.subrange(at as int, at + 2)),
{
    let lo: u16 = b[at] as u16;
    let hi: u16 = b[at + 1] as u16;
    lo + 256 * hi
}

/// Reads the `u32` that stands at `at`.
pub fn read_u32(b: &[u8], at: usize) -> (r: u32)
    requires
        at + 4 <= b@.len(),
    ensures
        r == u32_le(b@.subrange(at as int, at + 4)),
{
    let b0: u32 = b[at] as u32;
    let b1: u32 = b[at + 1] as u32;
    let b2: u32 = b[at + 2] as u32;
    let b3: u32 = b[at + 3] as u32;
    b0 + 256 * b1 + 65536 * b2 + 16777216 * b3
}

/// Appends the two bytes of `x`.
pub fn write_u16(out: &mut Vec<u8>, x: u16)
    ensures
        final(out)@ == old(out)@ + u16_bytes(x),
{
    out.push((x % 256) as u8);
    out.push((x / 256) as u8);
    assert(out@ =~= old(out)@ + u16_bytes(x));
}

/// Appends the four bytes of `x`.
pub fn write_u32(out: &mut Vec<u8>, x: u32)
    ensures
        final(out)@ == old(out)@ + u32_bytes(x),
{
    out.push((x % 256) as u8);
    out.push(((x / 256) % 256) as u8);
    out.push(((x / 65536) % 256) as u8);
    out.push((x / 16777216) as u8);
    assert(out@ =~= old(out)@ + u32_bytes(x));
}

/// Appends a copy of `src`.
pub fn write_all(out: &mut Vec<u8>, src: &[u8])
    ensures
        final(out)@ == old(out)@ + src@,
{
    let mut i: usize = 0;
    while i < src.len()
        invariant
            i <= src@.len(),
            out@ == old(out)@ + src@.subrange(0, i as int),
        decreases src@.len() - i,
    {
        out.push(src[i]);
        i = i + 1;
        assert(out@ =~= old(out)@ + src@.subrange(0, i as int));
    }
    assert(src@.subrange(0, i as int) =~= src@);
}

/// Appends `n` zero bytes.
pub fn write_zeros(out: &mut Vec<u8>, n: usize)
    ensures
        final(out)@ == old(out)@ + zeros(n as nat),
{
    let mut i: usize = 0;
    while i < n
        invariant
            i <= n,
            out@ == old(out)@ + zeros(i as nat),
        decreases n - i,
    {
        out.push(0u8);
        i = i + 1;
        assert(out@ =~= old(out)@ + zeros(i as nat));
    }
}

} // verus!

//! Byte-level helpers shared by the codec: big-endian integers and copying.

use vstd::prelude::*;

verus! {

/// The four big-endian bytes of `x`.
pub open spec fn spec_be32(x: u32) -> Seq<u8> {
    seq![
        (x / 0x100_0000) as u8,
        ((x / 0x1_0000) % 0x100) as u8,
        ((x / 0x100) % 0x100) as u8,
        (x % 0x100) as u8,
    ]
}

/// The number that four big-endian bytes stand for.
pub open spec fn spec_from_be32(b: Seq<u8>) -> int
    recommends
        b.len() == 4,
{
    b[0] as int * 0x100_0000 + b[1] as int * 0x1_0000 + b[2] as int * 0x100 + b[3] as int
}

/// The eight big-endian bytes of `x`.
pub open spec fn spec_be64(x: u64) -> Seq<u8> {
    spec_be32((x / 0x1_0000_0000) as u32) + spec_be32((x % 0x1_0000_0000) as u32)
}

/// The number that eight big-endian bytes stand for.
pub open spec fn spec_from_be64(b: Seq<u8>) -> int
    recommends
        b.len() == 8,
{
    spec_from_be32(b.subrange(0, 4)) * 0x1_0000_0000 + spec_from_be32(b.subrange(4, 8))
}

/// Reading back the big-endian bytes of a 32-bit number gives the number.
pub proof fn lemma_be32_round_trip(x: u32)
    ensures
        spec_be32(x).len() == 4,
        spec_from_be32(spec_be32(x)) == x,
{
}

/// Four bytes are the big-endian bytes of the number they stand for.
pub proof fn lemma_be32_canonical(b: Seq<u8>)
    requires
        b.len() == 4,
    ensures
        0 <= spec_from_be32(b) <= u32::MAX,
        spec_be32(spec_from_be32(b) as u32) == b,
{
    assert(spec_be32(spec_from_be32(b) as u32) =~= b);
}

/// Reading back the big-endian bytes of a 64-bit number gives the number.
pub proof fn lemma_be64_round_trip(x: u64)
    ensures
        spec_be64(x).len() == 8,
        spec_from_be64(spec_be64(x)) == x,
{
    let hi = (x / 0x1_0000_0000) as u32;
    let lo = (x % 0x1_0000_0000) as u32;
    lemma_be32_round_trip(hi);
    lemma_be32_round_trip(lo);
    assert(spec_be64(x).subrange(0, 4) =~= spec_be32(hi));
    assert(spec_be64(x).subrange(4, 8) =~= spec_be32(lo));
}

/// Eight bytes are the big-endian bytes of the number they stand for.
pub proof fn lemma_be64_canonical(b: Seq<u8>)
    requires
        b.len() == 8,
    ensures
        0 <= spec_from_be64(b) <= u64::MAX,
        spec_be64(spec_from_be64(b) as u64) == b,
{
    let h = b.subrange(0, 4);
    let l = b.subrange(4, 8);
    lemma_be32_canonical(h);
    lemma_be32_canonical(l);
    let x = spec_from_be64(b) as u64;
    assert((x / 0x1_0000_0000) as u32 == spec_from_be32(h));
    assert((x % 0x1_0000_0000) as u32 == spec_from_be32(l));
    assert(spec_be64(x) =~= h + l);
    assert(h + l =~= b);
}

/// Appends the four big-endian bytes of `x` to `out`.
pub fn push_be32(out: &mut Vec<u8>, x: u32)
    ensures
        final(out)@ == old(out)@ + spec_be32(x),
{
    out.push((x / 0x100_0000) as u8);
    out.push(((x / 0x1_0000) % 0x100) as u8);
    out.push(((x / 0x100) % 0x100) as u8);
    out.push((x % 0x100) as u8);
    assert(out@ =~= old(out)@ + spec_be32(x));
}

/// Appends the eight big-endian bytes of `x` to `out`.
pub fn push_be64(out: &mut Vec<u8>, x: u64)
    ensures
        final(out)@ == old(out)@ + spec_be64(x),
{
    push_be32(out, (x / 0x1_0000_0000) as u32);
    push_be32(out, (x % 0x1_0000_0000) as u32);
    assert(out@ =~= old(out)@ + spec_be64(x));
}

/// Reads the big-endian 32-bit number that starts at `at`.
pub fn read_be32(bytes: &Vec<u8>, at: usize) -> (x: u32)
    requires
        at + 4 <= bytes@.len(),
    ensures
        x == spec_from_be32(bytes@.subrange(at as int, at + 4)),
{
    let len: usize = bytes.len();
    assert(at + 4 <= len);
    let b0: u32 = bytes[at] as u32;
    let b1: u32 = bytes[at + 1] as u32;
    let b2: u32 = bytes[at + 2] as u32;
    let b3: u32 = bytes[at + 3] as u32;
    b0 * 0x100_0000 + b1 * 0x1_0000 + b2 * 0x100 + b3
}

/// Reads the big-endian 64-bit number that starts at `at`.
pub fn read_be64(bytes: &Vec<u8>, at: usize) -> (x: u64)
    requires
        at + 8 <= bytes@.len(),
    ensures
        x == spec_from_be64(bytes@.subrange(at as int, at + 8)),
{
    let len: usize = bytes.len();
    assert(at + 8 <= len);
    let hi: u64 = read_be32(bytes, at) as u64;
    let lo: u64 = read_be32(bytes, at + 4) as u64;
    proof {
        let b = bytes@.subrange(at as int, at + 8);
        assert(b.subrange(0, 4) =~= bytes@.subrange(at as int, at + 4));
        assert(b.subrange(4, 8) =~= bytes@.subrange(at + 4, at + 8));
        lemma_be32_canonical(b.subrange(0, 4));
        lemma_be32_canonical(b.subrange(4, 8));
    }
    hi * 0x1_0000_0000 + lo
}

/// Appends every byte of `src` to `out`.
pub fn push_all(out: &mut Vec<u8>, src: &Vec<u8>)
    ensures
        final(out)@ == old(out)@ + src@,
{
    let mut i: usize = 0;
    while i < src.len()
        invariant
            i <= src@.len(),
            out@ == old(out)@ + src@.subrange(0, i as int),
        decreases src@.len() - i,
    {
        out.push(src[i]);
        i = i + 1;
        assert(out@ =~= old(out)@ + src@.subrange(0, i as int));
    }
    assert(src@.subrange(0, i as int) =~= src@);
}

/// Copies the bytes of `src` from `from` up to, not including, `to`.
pub fn copy_range(src: &Vec<u8>, from: usize, to: usize) -> (out: Vec<u8>)
    requires
        from <= to <= src@.len(),
    ensures
        out@ == src@.subrange(from as int, to as int),
{
    let mut out: Vec<u8> = Vec::new();
    let mut i: usize = from;
    while i < to
        invariant
            from <= i <= to <= src@.len(),
            out@ == src@.subrange(from as int, i as int),
        decreases to - i,
    {
        out.push(src[i]);
        i = i + 1;
        assert(out@ =~= src@.subrange(from as int, i as int));
    }
    out
}

} // verus!

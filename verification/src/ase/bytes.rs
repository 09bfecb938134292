//! Little-endian byte encodings of the `.aseprite` format.

use vstd::prelude::*;

verus! {

/// `n` modulo 2^16: what `as u16` keeps of a wider unsigned number.
pub open spec fn trunc16(n: int) -> u16 {
    (n % 0x1_0000) as u16
}

/// `n` modulo 2^32: what `as u32` keeps of a wider unsigned number.
pub open spec fn trunc32(n: int) -> u32 {
    (n % 0x1_0000_0000) as u32
}

/// The two little-endian bytes of a `u16`.
pub open spec fn le16(v: u16) -> Seq<u8> {
    seq![(v % 256) as u8, (v / 256) as u8]
}

/// The four little-endian bytes of a `u32`.
pub open spec fn le32(v: u32) -> Seq<u8> {
    seq![(v % 256) as u8, ((v / 256) % 256) as u8, ((v / 0x1_0000) % 256) as u8, (v / 0x100_0000) as u8]
}

/// The `u16` stored little-endian at `at`.
pub open spec fn read_le16(b: Seq<u8>, at: int) -> u16 {
    (b[at] + 256 * b[at + 1]) as u16
}

/// `n` zero bytes.
pub open spec fn zero_bytes(n: nat) -> Seq<u8> {
    Seq::new(n, |i: int| 0u8)
}

/// Decoding the little-endian bytes of a `u16` gives it back.
pub proof fn lemma_read_le16(v: u16, prefix: Seq<u8>, rest: Seq<u8>)
    ensures
        read_le16(prefix + le16(v) + rest, prefix.len() as int) == v,
{
    let b = prefix + le16(v) + rest;
    assert(b[prefix.len() as int] == (v % 256) as u8);
    assert(b[prefix.len() as int + 1] == (v / 256) as u8);
}

/// Appends the little-endian bytes of a `u16`.
pub fn push_u16(out: &mut Vec<u8>, v: u16)
    ensures
        final(out)@ == old(out)@ + le16(v),
{
    out.push((v % 256) as u8);
    out.push((v / 256) as u8);
    proof {
        assert(final(out)@ =~= old(out)@ + le16(v));
    }
}

/// Appends the little-endian bytes of a `u32`.
pub fn push_u32(out: &mut Vec<u8>, v: u32)
    ensures
        final(out)@ == old(out)@ + le32(v),
{
    out.push((v % 256) as u8);
    out.push(((v / 256) % 256) as u8);
    out.push(((v / 0x1_0000) % 256) as u8);
    out.push((v / 0x100_0000) as u8);
    proof {
        assert(final(out)@ =~= old(out)@ + le32(v));
    }
}

/// Appends `n` zero bytes.
pub fn push_zeros(out: &mut Vec<u8>, n: usize)
    ensures
        final(out)@ == old(out)@ + zero_bytes(n as nat),
{
    let mut i: usize = 0;
    while i < n
        invariant
            i <= n,
            out@ == old(out)@ + zero_bytes(i as nat),
        decreases n - i,
    {
        out.push(0);
        proof {
            assert(old(out)@ + zero_bytes((i + 1) as nat) =~= (old(out)@ + zero_bytes(i as nat)).push(0));
        }
        i = i + 1;
    }
}

/// Appends the bytes of `data`.
pub fn push_bytes(out: &mut Vec<u8>, data: &[u8])
    ensures
        final(out)@ == old(out)@ + data@,
{
    let mut i: usize = 0;
    while i < data.len()
        invariant
            i <= data.len(),
            out@ == old(out)@ + data@.take(i as int),
        decreases data.len() - i,
    {
        out.push(data[i]);
        proof {
            assert(data@.take(i + 1) =~= data@.take(i as int).push(data@[i as int]));
        }
        i = i + 1;
    }
    proof {
        assert(data@.take(data.len() as int) =~= data@);
    }
}

/// `(base + extra) as u32` for a length `base` and a small `extra`.
pub fn size_u32(base: usize, extra: u32) -> (r: u32)
    ensures
        r == trunc32(base + extra),
{
    let b: u64 = (base as u64) % 0x1_0000_0000;
    let s: u64 = (b + extra as u64) % 0x1_0000_0000;
    proof {
        vstd::arithmetic::div_mod::lemma_add_mod_noop(base as int, extra as int, 0x1_0000_0000);
        vstd::arithmetic::div_mod::lemma_small_mod(extra as nat, 0x1_0000_0000);
    }
    s as u32
}

/// `n as u16` for an unsigned number `n`.
pub fn low_u16(n: u32) -> (r: u16)
    ensures
        r == trunc16(n as int),
{
    (n % 0x1_0000) as u16
}

} // verus!

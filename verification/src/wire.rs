use vstd::prelude::*;

verus! {

/// The big-endian encoding of a 16-bit integer.
pub open spec fn spec_be16(v: u16) -> Seq<u8> {
    seq![(v / 256) as u8, (v % 256) as u8]
}

/// The 16-bit integer whose big-endian encoding starts `b`.
pub open spec fn spec_from_be16(b: Seq<u8>) -> u16
    recommends
        b.len() >= 2,
{
    (b[0] as int * 256 + b[1] as int) as u16
}

/// The big-endian encoding of a 32-bit integer.
pub open spec fn spec_be32(v: u32) -> Seq<u8> {
    seq![
        (v / 0x100_0000) as u8,
        ((v / 0x1_0000) % 256) as u8,
        ((v / 0x100) % 256) as u8,
        (v % 256) as u8,
    ]
}

/// The 32-bit integer whose big-endian encoding starts `b`.
pub open spec fn spec_from_be32(b: Seq<u8>) -> u32
    recommends
        b.len() >= 4,
{
    (b[0] as int * 0x100_0000 + b[1] as int * 0x1_0000 + b[2] as int * 0x100 + b[3] as int) as u32
}

/// Decoding undoes encoding, and the encodings have their fixed lengths.
pub proof fn lemma_be_roundtrip(a: u16, b: u32)
    ensures
        spec_be16(a).len() == 2,
        spec_be32(b).len() == 4,
        spec_from_be16(spec_be16(a)) == a,
        spec_from_be32(spec_be32(b)) == b,
{
}

/// Encoding undoes decoding: a 16-bit field has exactly one encoding.
pub proof fn lemma_be16_unique(s: Seq<u8>)
    requires
        s.len() == 2,
    ensures
        spec_be16(spec_from_be16(s)) == s,
{
    let x = s[0] as int * 256 + s[1] as int;
    assert(x / 256 == s[0] as int && x % 256 == s[1] as int);
    assert(spec_be16(spec_from_be16(s)) =~= s);
}

/// Encoding undoes decoding: a 32-bit field has exactly one encoding.
pub proof fn lemma_be32_unique(t: Seq<u8>)
    requires
        t.len() == 4,
    ensures
        spec_be32(spec_from_be32(t)) == t,
{
    let b0 = t[0] as int;
    let b1 = t[1] as int;
    let b2 = t[2] as int;
    let b3 = t[3] as int;
    let x = b0 * 0x100_0000 + b1 * 0x1_0000 + b2 * 0x100 + b3;
    assert(x / 0x100_0000 == b0);
    assert(x / 0x1_0000 == b0 * 0x100 + b1);
    assert(x / 0x100 == b0 * 0x1_0000 + b1 * 0x100 + b2);
    assert((b0 * 0x100 + b1) % 256 == b1);
    assert((b0 * 0x1_0000 + b1 * 0x100 + b2) % 256 == b2);
    assert(x % 256 == b3);
    assert(spec_be32(spec_from_be32(t)) =~= t);
}

/// Appends the big-endian encoding of `v` to `out`.
pub fn put_be16(out: &mut Vec<u8>, v: u16)
    ensures
        final(out)@ == old(out)@ + spec_be16(v),
{
    out.push((v / 256) as u8);
    out.push((v % 256) as u8);
    assert(out@ =~= old(out)@ + spec_be16(v));
}

/// Appends the big-endian encoding of `v` to `out`.
pub fn put_be32(out: &mut Vec<u8>, v: u32)
    ensures
        final(out)@ == old(out)@ + spec_be32(v),
{
    out.push((v / 0x100_0000) as u8);
    out.push(((v / 0x1_0000) % 256) as u8);
    out.push(((v / 0x100) % 256) as u8);
    out.push((v % 256) as u8);
    assert(out@ =~= old(out)@ + spec_be32(v));
}

/// Reads the big-endian 16-bit integer at offset `at`.
pub fn get_be16(data: &[u8], at: usize) -> (v: u16)
    requires
        at + 2 <= data.len(),
    ensures
        v == spec_from_be16(data@.subrange(at as int, at + 2)),
{
    let hi: u16 = data[at] as u16;
    let lo: u16 = data[at + 1] as u16;
    hi * 256 + lo
}

/// Reads the big-endian 32-bit integer at offset `at`.
pub fn get_be32(data: &[u8], at: usize) -> (v: u32)
    requires
        at + 4 <= data.len(),
    ensures
        v == spec_from_be32(data@.subrange(at as int, at + 4)),
{
    let b0: u32 = data[at] as u32;
    let b1: u32 = data[at + 1] as u32;
    let b2: u32 = data[at + 2] as u32;
    let b3: u32 = data[at + 3] as u32;
    b0 * 0x100_0000 + b1 * 0x1_0000 + b2 * 0x100 + b3
}

} // verus!

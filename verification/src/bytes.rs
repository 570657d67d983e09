//! Big-endian encodings of the integers that travel on the wire.
use vstd::arithmetic::div_mod::lemma_fundamental_div_mod_converse;
use vstd::prelude::*;

verus! {

/// The two bytes of `n`, most significant first.
pub open spec fn be16(n: u16) -> Seq<u8> {
    seq![(n / 256) as u8, (n % 256) as u8]
}

/// The four bytes of `n`, most significant first.
pub open spec fn be32(n: u32) -> Seq<u8> {
    seq![(n / 16777216) as u8, ((n / 65536) % 256) as u8, ((n / 256) % 256) as u8, (n % 256) as u8]
}

/// The number that two bytes hold, most significant first.
pub open spec fn from_be16(b: Seq<u8>) -> u16 {
    (b[0] * 256 + b[1]) as u16
}

/// The number that four bytes hold, most significant first.
pub open spec fn from_be32(b: Seq<u8>) -> u32 {
    (b[0] * 16777216 + b[1] * 65536 + b[2] * 256 + b[3]) as u32
}

/// Reading back the encoding of a 16-bit number gives the number.
pub proof fn lemma_be16_roundtrip(n: u16)
    ensures
        from_be16(be16(n)) == n,
        be16(n).len() == 2,
{
}

/// Encoding the number two bytes hold gives the bytes back.
pub proof fn lemma_be16_inverse(b: Seq<u8>)
    requires
        b.len() == 2,
    ensures
        be16(from_be16(b)) == b,
{
    assert(be16(from_be16(b)) =~= b);
}

/// Reading back the encoding of a 32-bit number gives the number.
pub proof fn lemma_be32_roundtrip(n: u32)
    ensures
        from_be32(be32(n)) == n,
        be32(n).len() == 4,
{
}

/// Encoding the number four bytes hold gives the bytes back.
pub proof fn lemma_be32_inverse(b: Seq<u8>)
    requires
        b.len() == 4,
    ensures
        be32(from_be32(b)) == b,
{
    let b0 = b[0] as int;
    let b1 = b[1] as int;
    let b2 = b[2] as int;
    let b3 = b[3] as int;
    let v = from_be32(b) as int;
    assert(v == b0 * 16777216 + b1 * 65536 + b2 * 256 + b3);
    lemma_fundamental_div_mod_converse(v, 16777216, b0, b1 * 65536 + b2 * 256 + b3);
    lemma_fundamental_div_mod_converse(v, 65536, b0 * 256 + b1, b2 * 256 + b3);
    lemma_fundamental_div_mod_converse(b0 * 256 + b1, 256, b0, b1);
    lemma_fundamental_div_mod_converse(v, 256, b0 * 65536 + b1 * 256 + b2, b3);
    lemma_fundamental_div_mod_converse(b0 * 65536 + b1 * 256 + b2, 256, b0 * 256 + b1, b2);
    assert(be32(from_be32(b)) =~= b);
}

/// Appends the big-endian bytes of `n`.
pub fn push_be16(out: &mut Vec<u8>, n: u16)
    ensures
        final(out)@ == old(out)@ + be16(n),
{
    out.push((n / 256) as u8);
    out.push((n % 256) as u8);
    assert(out@ =~= old(out)@ + be16(n));
}

/// Appends the big-endian bytes of `n`.
pub fn push_be32(out: &mut Vec<u8>, n: u32)
    ensures
        final(out)@ == old(out)@ + be32(n),
{
    out.push((n / 16777216) as u8);
    out.push(((n / 65536) % 256) as u8);
    out.push(((n / 256) % 256) as u8);
    out.push((n % 256) as u8);
    assert(out@ =~= old(out)@ + be32(n));
}

} // verus!

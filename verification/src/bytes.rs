//! Byte-level models: fixed-width integers as big-endian byte sequences.

use vstd::prelude::*;

verus! {

/// The four bytes of `n`, most significant first.
pub open spec fn be_u32_bytes(n: u32) -> Seq<u8> {
    seq![
        (n / 0x100_0000) as u8,
        (n / 0x1_0000 % 0x100) as u8,
        (n / 0x100 % 0x100) as u8,
        (n % 0x100) as u8,
    ]
}

/// The number whose bytes, most significant first, are the first four of `b`.
pub open spec fn be_u32_value(b: Seq<u8>) -> u32
    recommends
        b.len() >= 4,
{
    (b[0] * 0x100_0000 + b[1] * 0x1_0000 + b[2] * 0x100 + b[3]) as u32
}

/// The number whose bytes, most significant first, are the first eight of `b`.
pub open spec fn be_u64_value(b: Seq<u8>) -> u64
    recommends
        b.len() >= 8,
{
    (b[0] * 0x100_0000_0000_0000 + b[1] * 0x1_0000_0000_0000 + b[2] * 0x100_0000_0000 + b[3]
        * 0x1_0000_0000 + b[4] * 0x100_0000 + b[5] * 0x1_0000 + b[6] * 0x100 + b[7]) as u64
}

/// Reading back the big-endian bytes of a number gives the number, whatever
/// follows those bytes.
pub proof fn lemma_be_u32_round_trip(n: u32, rest: Seq<u8>)
    ensures
        be_u32_bytes(n).len() == 4,
        be_u32_value(be_u32_bytes(n) + rest) == n,
{
    let b = be_u32_bytes(n) + rest;
    assert(b[0] == be_u32_bytes(n)[0]);
    assert(b[1] == be_u32_bytes(n)[1]);
    assert(b[2] == be_u32_bytes(n)[2]);
    assert(b[3] == be_u32_bytes(n)[3]);
}

} // verus!

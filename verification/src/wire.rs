//! Big-endian 64-bit integers, as they stand in the wire formats.

use vstd::prelude::*;

verus! {

/// The eight bytes of `x`, most significant first.
pub open spec fn be_bytes(x: u64) -> Seq<u8> {
    seq![
        (x >> 56) as u8,
        ((x >> 48) & 0xff) as u8,
        ((x >> 40) & 0xff) as u8,
        ((x >> 32) & 0xff) as u8,
        ((x >> 24) & 0xff) as u8,
        ((x >> 16) & 0xff) as u8,
        ((x >> 8) & 0xff) as u8,
        (x & 0xff) as u8,
    ]
}

/// The integer whose big-endian bytes are the first eight bytes of `s`.
pub open spec fn be_value(s: Seq<u8>) -> u64 {
    (s[0] as u64) << 56 | (s[1] as u64) << 48 | (s[2] as u64) << 40 | (s[3] as u64) << 32 | (
    s[4] as u64) << 24 | (s[5] as u64) << 16 | (s[6] as u64) << 8 | (s[7] as u64)
}

proof fn lemma_join_split(x: u64)
    ensures
        (((x >> 56) as u8) as u64) << 56 | ((((x >> 48) & 0xff) as u8) as u64) << 48 | ((((x >> 40)
            & 0xff) as u8) as u64) << 40 | ((((x >> 32) & 0xff) as u8) as u64) << 32 | ((((x >> 24)
            & 0xff) as u8) as u64) << 24 | ((((x >> 16) & 0xff) as u8) as u64) << 16 | ((((x >> 8)
            & 0xff) as u8) as u64) << 8 | (((x & 0xff) as u8) as u64) == x,
{
    assert((((x >> 56) as u8) as u64) << 56 | ((((x >> 48) & 0xff) as u8) as u64) << 48 | ((((x
        >> 40) & 0xff) as u8) as u64) << 40 | ((((x >> 32) & 0xff) as u8) as u64) << 32 | ((((x
        >> 24) & 0xff) as u8) as u64) << 24 | ((((x >> 16) & 0xff) as u8) as u64) << 16 | ((((x
        >> 8) & 0xff) as u8) as u64) << 8 | (((x & 0xff) as u8) as u64) == x) by (bit_vector);
}

/// Reading back the big-endian bytes of an integer gives the integer, whatever
/// follows the eight bytes.
pub proof fn lemma_be_value_of_bytes(x: u64, rest: Seq<u8>)
    ensures
        be_bytes(x).len() == 8,
        be_value(be_bytes(x) + rest) == x,
{
    lemma_join_split(x);
}

/// The big-endian bytes of `x`.
pub fn u64_to_be(x: u64) -> (out: [u8; 8])
    ensures
        out@ == be_bytes(x),
{
    let out: [u8; 8] = [
        (x >> 56) as u8,
        ((x >> 48) & 0xff) as u8,
        ((x >> 40) & 0xff) as u8,
        ((x >> 32) & 0xff) as u8,
        ((x >> 24) & 0xff) as u8,
        ((x >> 16) & 0xff) as u8,
        ((x >> 8) & 0xff) as u8,
        (x & 0xff) as u8,
    ];
    out
}

/// The integer written big-endian in the eight bytes of `buf` that start at
/// `at`.
pub fn u64_from_be(buf: &[u8], at: usize) -> (x: u64)
    requires
        at + 8 <= buf@.len(),
    ensures
        x == be_value(buf@.subrange(at as int, at + 8)),
{
    let x: u64 = (buf[at] as u64) << 56 | (buf[at + 1] as u64) << 48 | (buf[at + 2] as u64) << 40
        | (buf[at + 3] as u64) << 32 | (buf[at + 4] as u64) << 24 | (buf[at + 5] as u64) << 16 | (
    buf[at + 6] as u64) << 8 | (buf[at + 7] as u64);
    x
}

} // verus!

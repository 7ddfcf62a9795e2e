use vstd::prelude::*;

verus! {

/// The four big-endian bytes of `x`.
pub open spec fn u32_be(x: u32) -> Seq<u8> {
    seq![(x >> 24u32) as u8, (x >> 16u32) as u8, (x >> 8u32) as u8, x as u8]
}

/// The big-endian number held by the first four bytes of `s`.
pub open spec fn be_u32(s: Seq<u8>) -> u32
    recommends
        s.len() >= 4,
{
    ((s[0] as u32) << 24u32) | ((s[1] as u32) << 16u32) | ((s[2] as u32) << 8u32) | (s[3] as u32)
}

/// Writes `x` as four big-endian bytes.
pub fn u32_to_be_bytes(x: u32) -> (r: [u8; 4])
    ensures
        r@ == u32_be(x),
{
    let r = [(x >> 24u32) as u8, (x >> 16u32) as u8, (x >> 8u32) as u8, x as u8];
    assert(r@ =~= u32_be(x));
    r
}

/// Reads the big-endian number held by `bytes[start..start + 4]`.
pub fn u32_from_be_bytes(bytes: &[u8], start: usize) -> (r: u32)
    requires
        start + 4 <= bytes@.len(),
    ensures
        r == be_u32(bytes@.subrange(start as int, start + 4)),
{
    ((bytes[start] as u32) << 24u32) | ((bytes[start + 1] as u32) << 16u32) | ((
    bytes[start + 2] as u32) << 8u32) | (bytes[start + 3] as u32)
}

/// Reading back the bytes written for `x` gives `x`.
pub proof fn lemma_be_u32_of_u32_be(x: u32)
    ensures
        be_u32(u32_be(x)) == x,
{
    assert(((((x >> 24u32) as u8) as u32) << 24u32) | ((((x >> 16u32) as u8) as u32) << 16u32) | ((
    ((x >> 8u32) as u8) as u32) << 8u32) | ((x as u8) as u32) == x) by (bit_vector);
}

/// Writing the number read from four bytes gives those bytes back.
pub proof fn lemma_u32_be_of_be_u32(s: Seq<u8>)
    requires
        s.len() == 4,
    ensures
        u32_be(be_u32(s)) == s,
{
    let (b0, b1, b2, b3) = (s[0], s[1], s[2], s[3]);
    let x = be_u32(s);
    assert(x == ((b0 as u32) << 24u32) | ((b1 as u32) << 16u32) | ((b2 as u32) << 8u32) | (
    b3 as u32));
    assert((x >> 24u32) as u8 == b0 && (x >> 16u32) as u8 == b1 && (x >> 8u32) as u8 == b2
        && x as u8 == b3) by (bit_vector)
        requires
            x == ((b0 as u32) << 24u32) | ((b1 as u32) << 16u32) | ((b2 as u32) << 8u32) | (
            b3 as u32),
    ;
    assert(u32_be(x) =~= s);
}

/// Flipping one bit of one of the four bytes written for `x` changes the
/// number that they hold.
pub proof fn lemma_bit_flip_changes_be_u32(x: u32, k: int, j: u8)
    requires
        0 <= k < 4,
        j < 8,
    ensures
        be_u32(u32_be(x).update(k, u32_be(x)[k] ^ (1u8 << j))) != x,
{
    let s = u32_be(x).update(k, u32_be(x)[k] ^ (1u8 << j));
    let b0 = (x >> 24u32) as u8;
    let b1 = (x >> 16u32) as u8;
    let b2 = (x >> 8u32) as u8;
    let b3 = x as u8;
    lemma_be_u32_of_u32_be(x);
    if k == 0 {
        assert(((((b0 ^ (1u8 << j)) as u32) << 24u32) | ((b1 as u32) << 16u32) | ((b2 as u32)
            << 8u32) | (b3 as u32)) != (((b0 as u32) << 24u32) | ((b1 as u32) << 16u32) | ((
        b2 as u32) << 8u32) | (b3 as u32))) by (bit_vector)
            requires
                j < 8,
        ;
    } else if k == 1 {
        assert((((b0 as u32) << 24u32) | (((b1 ^ (1u8 << j)) as u32) << 16u32) | ((b2 as u32)
            << 8u32) | (b3 as u32)) != (((b0 as u32) << 24u32) | ((b1 as u32) << 16u32) | ((
        b2 as u32) << 8u32) | (b3 as u32))) by (bit_vector)
            requires
                j < 8,
        ;
    } else if k == 2 {
        assert((((b0 as u32) << 24u32) | ((b1 as u32) << 16u32) | (((b2 ^ (1u8 << j)) as u32)
            << 8u32) | (b3 as u32)) != (((b0 as u32) << 24u32) | ((b1 as u32) << 16u32) | ((
        b2 as u32) << 8u32) | (b3 as u32))) by (bit_vector)
            requires
                j < 8,
        ;
    } else {
        assert((((b0 as u32) << 24u32) | ((b1 as u32) << 16u32) | ((b2 as u32) << 8u32) | ((
        b3 ^ (1u8 << j)) as u32)) != (((b0 as u32) << 24u32) | ((b1 as u32) << 16u32) | ((
        b2 as u32) << 8u32) | (b3 as u32))) by (bit_vector)
            requires
                j < 8,
        ;
    }
}

} // verus!

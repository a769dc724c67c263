use vstd::prelude::*;

verus! {

/// Value of the byte that ends the header and opens every frame.
pub const SYNC_BYTE: u8 = 0x55;

/// Number of `0` bits that make up the header.
pub const HEADER_BITS: u8 = 24;

/// Bit `i` (0 is the least significant) of `b`.
pub open spec fn bit_of(b: u8, i: int) -> bool {
    (b >> (i as u8)) & 1u8 != 0
}

/// The eight bits of `b`, least significant first: the order of the wire.
pub open spec fn byte_bits(b: u8) -> Seq<bool> {
    Seq::new(8, |i: int| bit_of(b, i))
}

/// The bits of a byte sequence, each byte least significant bit first.
pub open spec fn bits_of_bytes(s: Seq<u8>) -> Seq<bool>
    decreases s.len(),
{
    if s.len() == 0 {
        Seq::empty()
    } else {
        bits_of_bytes(s.drop_last()) + byte_bits(s.last())
    }
}

/// The length byte that a payload of `n` bytes is announced with.
pub open spec fn length_byte(n: nat) -> u8 {
    (n % 256) as u8
}

/// The bytes of one frame: three zero header bytes, the sync byte, the length
/// byte and the payload.
pub open spec fn frame_bytes(p: Seq<u8>) -> Seq<u8> {
    seq![0u8, 0u8, 0u8, 0x55u8, length_byte(p.len())] + p
}

/// The bits of a concatenation are the concatenation of the bits.
pub proof fn lemma_bits_of_bytes_append(a: Seq<u8>, b: Seq<u8>)
    ensures
        bits_of_bytes(a + b) == bits_of_bytes(a) + bits_of_bytes(b),
    decreases b.len(),
{
    if b.len() == 0 {
        assert(a + b =~= a);
        assert(bits_of_bytes(a) + bits_of_bytes(b) =~= bits_of_bytes(a));
    } else {
        lemma_bits_of_bytes_append(a, b.drop_last());
        assert((a + b).drop_last() =~= a + b.drop_last());
        assert((a + b).last() == b.last());
    }
}

/// Extending a byte sequence by one byte extends its bits by that byte's bits.
pub proof fn lemma_bits_of_bytes_push(s: Seq<u8>, b: u8)
    ensures
        bits_of_bytes(s.push(b)) == bits_of_bytes(s) + byte_bits(b),
{
    assert(s.push(b).drop_last() =~= s);
}

} // verus!

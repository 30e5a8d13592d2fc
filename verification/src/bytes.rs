//! Byte-level primitives: fixed-width integer serialization and the
//! four-byte alignment padding used by the block and index sections.

use vstd::prelude::*;

verus! {

/// The number of zero bytes that rounds a section of `n` bytes up to the
/// next multiple of four.
pub open spec fn pad_len(n: nat) -> nat {
    ((4 - (n % 4)) % 4) as nat
}

/// A run of `n` zero bytes, used as alignment padding.
pub open spec fn zeros(n: nat) -> Seq<u8> {
    Seq::new(n, |i: int| 0u8)
}

/// The four bytes of `v` in little-endian order.
pub open spec fn le32(v: u32) -> Seq<u8> {
    seq![
        (v & 0xff) as u8,
        ((v >> 8) & 0xff) as u8,
        ((v >> 16) & 0xff) as u8,
        ((v >> 24) & 0xff) as u8,
    ]
}

/// The two bytes of `v` in big-endian order.
pub open spec fn be16(v: u16) -> Seq<u8> {
    seq![((v >> 8) & 0xff) as u8, (v & 0xff) as u8]
}

/// Appends the four little-endian bytes of `v`.
pub fn write_u32_le(output: &mut Vec<u8>, v: u32)
    ensures
        final(output)@ == old(output)@ + le32(v),
{
    output.push((v & 0xff) as u8);
    output.push(((v >> 8) & 0xff) as u8);
    output.push(((v >> 16) & 0xff) as u8);
    output.push(((v >> 24) & 0xff) as u8);
    proof {
        assert(output@ =~= old(output)@ + le32(v));
    }
}

/// Appends the two big-endian bytes of `v`.
pub fn write_u16_be(output: &mut Vec<u8>, v: u16)
    ensures
        final(output)@ == old(output)@ + be16(v),
{
    output.push(((v >> 8) & 0xff) as u8);
    output.push((v & 0xff) as u8);
    proof {
        assert(output@ =~= old(output)@ + be16(v));
    }
}

/// Appends `n` zero bytes.
pub fn write_zeros(output: &mut Vec<u8>, n: usize)
    ensures
        final(output)@ == old(output)@ + zeros(n as nat),
{
    let mut i: usize = 0;
    while i < n
        invariant
            i <= n,
            output@ == old(output)@ + zeros(i as nat),
        decreases n - i,
    {
        output.push(0);
        i = i + 1;
        proof {
            assert(output@ =~= old(output)@ + zeros(i as nat));
        }
    }
}

/// Number of zero bytes that rounds a section of `n` bytes up to the next
/// multiple of four.
pub fn padding_size_for(n: usize) -> (r: usize)
    ensures
        r == pad_len(n as nat),
        r <= 3,
        (n + r) % 4 == 0,
{
    let m: usize = n % 4;
    if m == 0 {
        0
    } else {
        4 - m
    }
}

/// The padding length is under four and rounds `n` up to a multiple of
/// four, and every padding byte is zero.
pub proof fn lemma_pad_aligns(n: nat)
    ensures
        pad_len(n) <= 3,
        (n + pad_len(n)) % 4 == 0,
        forall|i: int| 0 <= i < pad_len(n) ==> zeros(pad_len(n))[i] == 0,
{
}

} // verus!

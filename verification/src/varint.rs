//! Variable-length integers: little-endian base-128 with a continuation
//! bit, as used inside the index section.

use vstd::arithmetic::div_mod::lemma_div_decreases;
use vstd::arithmetic::div_mod::lemma_multiply_divide_lt;
use vstd::arithmetic::power::pow;
use vstd::prelude::*;

verus! {

/// The base-128 encoding of `v`: each byte carries seven bits of the
/// value, least-significant group first, and every byte but the last has
/// its high bit set.  Zero encodes as a single zero byte.
pub open spec fn varint(v: nat) -> Seq<u8>
    decreases v,
{
    if v < 0x80 {
        seq![v as u8]
    } else {
        seq![(v % 0x80 + 0x80) as u8] + varint(v / 0x80)
    }
}

/// Reads one base-128 integer from the front of `s`, giving the value and
/// the number of bytes consumed, or nothing when `s` ends before the
/// final (continuation-free) byte.
pub open spec fn varint_parse(s: Seq<u8>) -> Option<(nat, nat)>
    decreases s.len(),
{
    if s.len() == 0 {
        None
    } else if s[0] < 0x80 {
        Some((s[0] as nat, 1))
    } else {
        match varint_parse(s.skip(1)) {
            Some(p) => Some((((s[0] - 0x80) + 0x80 * p.0) as nat, p.1 + 1)),
            None => None,
        }
    }
}

/// Appends the base-128 encoding of `value`.
pub fn write_multibyte(output: &mut Vec<u8>, value: u64)
    ensures
        final(output)@ == old(output)@ + varint(value as nat),
{
    let mut v: u64 = value;
    while v >= 0x80
        invariant
            old(output)@ + varint(value as nat) == output@ + varint(v as nat),
        decreases v,
    {
        let ghost v0: u64 = v;
        let byte: u8 = ((v & 0x7f) as u8) | 0x80;
        proof {
            assert(((v0 & 0x7f) as u8) | 0x80 == (v0 % 0x80 + 0x80) as u8) by (bit_vector)
                requires
                    v0 >= 0x80,
            ;
            assert(v0 >> 7 == v0 / 0x80) by (bit_vector);
            lemma_div_decreases(v0 as int, 0x80);
        }
        output.push(byte);
        v = v >> 7;
        proof {
            assert(varint(v0 as nat) == seq![(v0 as nat % 0x80 + 0x80) as u8] + varint(
                v0 as nat / 0x80,
            ));
            assert(output@ + varint(v as nat) =~= old(output)@ + varint(value as nat));
        }
    }
    output.push(v as u8);
    proof {
        assert(varint(v as nat) == seq![(v as nat) as u8]);
        assert(final(output)@ =~= old(output)@ + varint(value as nat));
    }
}

/// An encoded integer under `pow(0x80, k)` takes between one and `k`
/// bytes.
proof fn lemma_varint_len_pow(v: nat, k: nat)
    requires
        1 <= k,
        v < pow(0x80, k),
    ensures
        1 <= varint(v).len() <= k,
    decreases k,
{
    reveal(pow);
    if v < 0x80 {
    } else {
        assert(pow(0x80, k) == 0x80 * pow(0x80, (k - 1) as nat));
        lemma_multiply_divide_lt(v as int, 0x80, pow(0x80, (k - 1) as nat));
        lemma_varint_len_pow(v / 0x80, (k - 1) as nat);
    }
}

/// The encoding of a 64-bit value takes between one and ten bytes.
pub proof fn lemma_varint_len(v: nat)
    requires
        v < 0x1_0000_0000_0000_0000,
    ensures
        1 <= varint(v).len() <= 10,
{
    assert(pow(0x80, 10) == 0x40_0000_0000_0000_0000) by {
        reveal_with_fuel(pow, 11);
    }
    lemma_varint_len_pow(v, 10);
}

/// Round trip: parsing a sequence that starts with the encoding of `v`
/// yields `v` back and consumes exactly the encoding.
pub proof fn lemma_varint_roundtrip(v: nat, rest: Seq<u8>)
    ensures
        varint_parse(varint(v) + rest) == Some((v, varint(v).len())),
    decreases v,
{
    let s = varint(v) + rest;
    if v < 0x80 {
        assert(s[0] == v as u8);
    } else {
        lemma_div_decreases(v as int, 0x80);
        lemma_varint_roundtrip(v / 0x80, rest);
        assert(s.skip(1) =~= varint(v / 0x80) + rest);
        assert(s[0] == (v % 0x80 + 0x80) as u8);
        assert((s[0] - 0x80) + 0x80 * (v / 0x80) == v as int);
    }
}

} // verus!

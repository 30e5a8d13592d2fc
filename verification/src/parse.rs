//! A specification-level reader of the framing.  It walks a finished
//! stream the way a decoder does — footer first to find the index, the
//! index to learn the block's sizes, then the block — and recovers the
//! compressed payload and the unpacked size.  Its round-trip lemma shows
//! that the framing loses nothing: what the encoder wraps, this reader
//! finds again.

use crate::bytes::le32;
use crate::bytes::pad_len;
use crate::bytes::zeros;
use crate::checksum::crc32_of;
use crate::stream::backward_size_of;
use crate::stream::block_len;
use crate::stream::footer_start;
use crate::stream::index_body;
use crate::stream::index_bytes;
use crate::stream::index_checked;
use crate::stream::index_size_of;
use crate::stream::index_start;
use crate::stream::lemma_index_size;
use crate::stream::stream_bytes;
use crate::stream::unpadded_size_of;
use crate::varint::lemma_varint_roundtrip;
use crate::varint::varint;
use crate::varint::varint_parse;
use vstd::arithmetic::div_mod::lemma_fundamental_div_mod;
use vstd::prelude::*;

verus! {

/// The value of four little-endian bytes.
pub open spec fn le32_value(b: Seq<u8>) -> nat {
    (b[0] + 0x100 * b[1] + 0x1_0000 * b[2] + 0x100_0000 * b[3]) as nat
}

/// Reads an index: the terminator byte, a record count of one, and the
/// single record's unpadded and unpacked sizes.
pub open spec fn parse_index(idx: Seq<u8>) -> Option<(nat, nat)> {
    if idx.len() < 1 || idx[0] != 0 {
        None
    } else {
        match varint_parse(idx.skip(1)) {
            Option::Some(count) => if count.0 != 1 {
                None
            } else {
                match varint_parse(idx.skip(1 + count.1 as int)) {
                    Option::Some(unpadded) => match varint_parse(
                        idx.skip(1 + count.1 as int + unpadded.1 as int),
                    ) {
                        Option::Some(unpacked) => Some((unpadded.0, unpacked.0)),
                        Option::None => None,
                    },
                    Option::None => None,
                }
            },
            Option::None => None,
        }
    }
}

/// Reads a whole stream back: the footer's backward size locates the
/// index, the index gives the block's unpadded size, and the unpadded
/// size bounds the payload inside the block.
pub open spec fn parse_stream(s: Seq<u8>) -> Option<(Seq<u8>, nat)> {
    if s.len() < 44 {
        None
    } else {
        let n = s.len() as int;
        let index_size = 4 * (le32_value(s.subrange(n - 8, n - 4)) + 1);
        let ib = n - 12 - index_size;
        if ib < 24 {
            None
        } else {
            match parse_index(s.subrange(ib, n - 12)) {
                Option::Some(sizes) => if sizes.0 < 12 || 12 + sizes.0 > ib {
                    None
                } else {
                    Some((s.subrange(24, 12 + sizes.0 as int), sizes.1))
                },
                Option::None => None,
            }
        }
    }
}

/// Reading four little-endian bytes gives the value they were written
/// from.
pub proof fn lemma_le32_value(v: u32)
    ensures
        le32_value(le32(v)) == v,
{
    assert(((v & 0xff) as u8) + 0x100 * (((v >> 8) & 0xff) as u8) + 0x1_0000 * (((v >> 16)
        & 0xff) as u8) + 0x100_0000 * (((v >> 24) & 0xff) as u8) == v) by (bit_vector);
}

/// Reading an index written for one block gives that block's sizes back.
proof fn lemma_parse_index(unpadded: nat, unpacked: nat)
    ensures
        parse_index(index_bytes(unpadded, unpacked)) == Some((unpadded, unpacked)),
{
    let idx = index_bytes(unpadded, unpacked);
    let p = pad_len(index_body(unpadded, unpacked).len());
    let c = le32(crc32_of(index_checked(unpadded, unpacked)));
    let rest1 = varint(unpadded) + (varint(unpacked) + (zeros(p) + c));
    let rest2 = varint(unpacked) + (zeros(p) + c);
    let rest3 = zeros(p) + c;
    assert(idx[0] == 0);
    assert(varint(1) == seq![1u8]);
    assert(idx.skip(1) =~= varint(1) + rest1);
    lemma_varint_roundtrip(1, rest1);
    assert(idx.skip(2) =~= varint(unpadded) + rest2);
    lemma_varint_roundtrip(unpadded, rest2);
    assert(idx.skip(2 + varint(unpadded).len() as int) =~= varint(unpacked) + rest3);
    lemma_varint_roundtrip(unpacked, rest3);
}

/// Round trip through the framing: reading back a stream written for
/// some payload and unpacked size yields exactly that payload and that
/// size.  The compression transform is outside this statement: what it
/// made of the raw input, the framing returns unchanged.
pub proof fn lemma_stream_roundtrip(payload: Seq<u8>, unpacked: nat)
    requires
        payload.len() + 12 < 0x1_0000_0000_0000_0000,
        unpacked < 0x1_0000_0000_0000_0000,
    ensures
        parse_stream(stream_bytes(payload, unpacked)) == Some((payload, unpacked)),
{
    let s = stream_bytes(payload, unpacked);
    let u1 = unpadded_size_of(payload.len());
    let isz = index_size_of(u1, unpacked);
    let ib = index_start(payload.len());
    let fs = footer_start(payload.len(), unpacked);
    let n = s.len() as int;
    lemma_index_size(u1, unpacked);
    crate::bytes::lemma_pad_aligns(u1);
    assert(n == fs + 12);
    assert(s.len() >= 44);
    assert(s.subrange(n - 8, n - 4) =~= le32(backward_size_of(isz)));
    lemma_le32_value(backward_size_of(isz));
    assert(backward_size_of(isz) == isz / 4 - 1);
    lemma_fundamental_div_mod(isz as int, 4);
    assert(4 * (le32_value(s.subrange(n - 8, n - 4)) + 1) == isz);
    assert(n - 12 - isz == ib);
    assert(ib >= 24);
    assert(s.subrange(ib, n - 12) =~= index_bytes(u1, unpacked));
    lemma_parse_index(u1, unpacked);
    assert(s.subrange(24, 12 + u1 as int) =~= payload);
    assert(parse_stream(s) == Some((payload, unpacked)));
}

} // verus!

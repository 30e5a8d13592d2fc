//! Assembly of the four sections of the container: header, block, index
//! and footer, in that order.  Sizes flow strictly forward: the index
//! records the block's sizes, the footer records the index's size.

use crate::bytes::be16;
use crate::bytes::le32;
use crate::bytes::pad_len;
use crate::bytes::padding_size_for;
use crate::bytes::write_u16_be;
use crate::bytes::write_u32_le;
use crate::bytes::write_zeros;
use crate::bytes::zeros;
use crate::checksum::crc32;
use crate::checksum::crc32_of;
use crate::varint::lemma_varint_len;
use crate::varint::varint;
use crate::varint::write_multibyte;
use vstd::prelude::*;

verus! {

/// The six magic bytes that open every stream.
pub open spec fn xz_magic() -> Seq<u8> {
    seq![0xfdu8, 0x37u8, 0x7au8, 0x58u8, 0x5au8, 0x00u8]
}

/// The two magic bytes that close every stream.
pub open spec fn xz_footer_magic() -> Seq<u8> {
    seq![0x59u8, 0x5au8]
}

/// The stream header: magic, big-endian stream flags, and the CRC-32 of
/// the flags in little-endian order.
pub open spec fn header_bytes(flags: u16) -> Seq<u8> {
    xz_magic() + be16(flags) + le32(crc32_of(be16(flags)))
}

/// The checked fields of the block header: encoded header size (eight
/// four-byte units, stored as two), block flags (one filter, no optional
/// size fields), the LZMA2 filter id, a one-byte properties field with
/// its fixed value, and three bytes of zero padding.
pub open spec fn block_header_fields() -> Seq<u8> {
    seq![0x02u8, 0x00u8, 0x21u8, 0x01u8, 22u8, 0x00u8, 0x00u8, 0x00u8]
}

/// The block header: its checked fields followed by their CRC-32.
pub open spec fn block_header_bytes() -> Seq<u8> {
    block_header_fields() + le32(crc32_of(block_header_fields()))
}

/// A block's unpadded size: the block header plus the payload, excluding
/// the trailing alignment padding.
pub open spec fn unpadded_size_of(payload_len: nat) -> nat {
    payload_len + 12
}

/// The whole block: header, payload, and enough zero bytes to round the
/// unpadded size up to a multiple of four.
pub open spec fn block_bytes(payload: Seq<u8>) -> Seq<u8> {
    block_header_bytes() + payload + zeros(pad_len(unpadded_size_of(payload.len())))
}

/// Appends the stream header.
pub fn write_header(output: &mut Vec<u8>, flags: u16)
    ensures
        final(output)@ == old(output)@ + header_bytes(flags),
{
    output.push(0xfd);
    output.push(0x37);
    output.push(0x7a);
    output.push(0x58);
    output.push(0x5a);
    output.push(0x00);
    let mut buf: Vec<u8> = Vec::new();
    write_u16_be(&mut buf, flags);
    let c: u32 = crc32(&buf);
    output.append(&mut buf);
    write_u32_le(output, c);
    proof {
        assert(output@ =~= old(output)@ + header_bytes(flags));
    }
}

/// Appends the block: its header, the compressed payload handed in by
/// the caller, and the alignment padding.  Returns the block's unpadded
/// size and echoes the unpacked (raw input) size the payload stands for.
pub fn write_block(output: &mut Vec<u8>, payload: &Vec<u8>, unpacked_size: usize) -> (r: (
    usize,
    usize,
))
    requires
        payload@.len() + 12 <= usize::MAX,
    ensures
        final(output)@ == old(output)@ + block_bytes(payload@),
        r.0 == unpadded_size_of(payload@.len()),
        r.1 == unpacked_size,
{
    let mut buf: Vec<u8> = Vec::new();
    buf.push(0x02);
    buf.push(0x00);
    buf.push(0x21);
    buf.push(0x01);
    buf.push(22);
    buf.push(0x00);
    buf.push(0x00);
    buf.push(0x00);
    proof {
        assert(buf@ =~= block_header_fields());
    }
    let c: u32 = crc32(&buf);
    output.append(&mut buf);
    write_u32_le(output, c);
    output.extend_from_slice(payload.as_slice());
    let unpadded_size: usize = payload.len() + 12;
    let pad: usize = padding_size_for(unpadded_size);
    write_zeros(output, pad);
    proof {
        assert(pad_len(unpadded_size as nat) == pad_len(unpadded_size_of(payload@.len())));
        assert(output@ =~= old(output)@ + block_bytes(payload@));
    }
    (unpadded_size, unpacked_size)
}

/// The index's records: the single-block terminator byte, the record
/// count (one), and the block's unpadded and unpacked sizes as varints.
pub open spec fn index_body(unpadded: nat, unpacked: nat) -> Seq<u8> {
    seq![0x00u8] + varint(1) + varint(unpadded) + varint(unpacked)
}

/// The checked region of the index: its records and the alignment
/// padding, which, unlike the block's, is covered by the index CRC-32.
pub open spec fn index_checked(unpadded: nat, unpacked: nat) -> Seq<u8> {
    index_body(unpadded, unpacked) + zeros(pad_len(index_body(unpadded, unpacked).len()))
}

/// The whole index: its checked region followed by that region's CRC-32.
pub open spec fn index_bytes(unpadded: nat, unpacked: nat) -> Seq<u8> {
    index_checked(unpadded, unpacked) + le32(crc32_of(index_checked(unpadded, unpacked)))
}

/// The index's total encoded size.
pub open spec fn index_size_of(unpadded: nat, unpacked: nat) -> nat {
    index_bytes(unpadded, unpacked).len()
}

/// The footer's distance back to the start of the index, in four-byte
/// units minus one.
pub open spec fn backward_size_of(index_size: nat) -> u32 {
    (index_size / 4 - 1) as u32
}

/// The two checked fields of the footer: the backward size in
/// little-endian order and the stream flags in big-endian order.
pub open spec fn footer_fields(flags: u16, index_size: nat) -> Seq<u8> {
    le32(backward_size_of(index_size)) + be16(flags)
}

/// The stream footer: the CRC-32 of its two checked fields, the fields
/// themselves, and the closing magic.
pub open spec fn footer_bytes(flags: u16, index_size: nat) -> Seq<u8> {
    le32(crc32_of(footer_fields(flags, index_size))) + footer_fields(flags, index_size)
        + xz_footer_magic()
}

/// The whole container for one compressed payload that stands for
/// `unpacked` raw bytes.
pub open spec fn stream_bytes(payload: Seq<u8>, unpacked: nat) -> Seq<u8> {
    header_bytes(0) + block_bytes(payload) + index_bytes(
        unpadded_size_of(payload.len()),
        unpacked,
    ) + footer_bytes(0, index_size_of(unpadded_size_of(payload.len()), unpacked))
}

/// Appends the index for the one block just written and returns the
/// index's total encoded size.
pub fn write_index(output: &mut Vec<u8>, unpadded_size: usize, unpacked_size: usize) -> (r: usize)
    ensures
        final(output)@ == old(output)@ + index_bytes(unpadded_size as nat, unpacked_size as nat),
        r == index_size_of(unpadded_size as nat, unpacked_size as nat),
{
    let mut buf: Vec<u8> = Vec::new();
    buf.push(0x00);
    write_multibyte(&mut buf, 1);
    write_multibyte(&mut buf, unpadded_size as u64);
    write_multibyte(&mut buf, unpacked_size as u64);
    proof {
        assert(buf@ =~= index_body(unpadded_size as nat, unpacked_size as nat));
        lemma_varint_len(unpadded_size as nat);
        lemma_varint_len(unpacked_size as nat);
    }
    let pad: usize = padding_size_for(buf.len());
    write_zeros(&mut buf, pad);
    proof {
        assert(buf@ =~= index_checked(unpadded_size as nat, unpacked_size as nat));
    }
    let c: u32 = crc32(&buf);
    let total: usize = buf.len() + 4;
    output.append(&mut buf);
    write_u32_le(output, c);
    proof {
        assert(output@ =~= old(output)@ + index_bytes(
            unpadded_size as nat,
            unpacked_size as nat,
        ));
    }
    total
}

/// Appends the stream footer.  The caller must hand in an index size
/// that is a positive multiple of four, as every index written by this
/// crate is.
pub fn write_footer(output: &mut Vec<u8>, flags: u16, index_size: usize)
    requires
        index_size % 4 == 0,
        4 <= index_size,
        index_size / 4 - 1 <= u32::MAX,
    ensures
        final(output)@ == old(output)@ + footer_bytes(flags, index_size as nat),
{
    let mut buf: Vec<u8> = Vec::new();
    let backward_size: u32 = (index_size / 4 - 1) as u32;
    write_u32_le(&mut buf, backward_size);
    write_u16_be(&mut buf, flags);
    proof {
        assert(buf@ =~= footer_fields(flags, index_size as nat));
    }
    let c: u32 = crc32(&buf);
    write_u32_le(output, c);
    output.append(&mut buf);
    output.push(0x59);
    output.push(0x5a);
    proof {
        assert(output@ =~= old(output)@ + footer_bytes(flags, index_size as nat));
    }
}

/// The index's size is always a positive multiple of four, and small:
/// its records take at most twenty-two bytes, the padding at most three,
/// the check four.
pub proof fn lemma_index_size(unpadded: nat, unpacked: nat)
    requires
        unpadded < 0x1_0000_0000_0000_0000,
        unpacked < 0x1_0000_0000_0000_0000,
    ensures
        index_size_of(unpadded, unpacked) % 4 == 0,
        8 <= index_size_of(unpadded, unpacked) <= 28,
{
    lemma_varint_len(unpadded);
    lemma_varint_len(unpacked);
    let body = index_body(unpadded, unpacked);
    crate::bytes::lemma_pad_aligns(body.len());
    assert(varint(1) == seq![1u8]);
    assert(index_checked(unpadded, unpacked).len() % 4 == 0);
}

/// Assembles the whole container around the compressed payload:
/// header, block, index, footer, in that order.  `unpacked_size` is the
/// number of raw bytes the payload decompresses to, tracked by whoever
/// ran the compression transform.
pub fn encode_stream(payload: &Vec<u8>, unpacked_size: usize, output: &mut Vec<u8>)
    requires
        payload@.len() + 12 <= usize::MAX,
    ensures
        final(output)@ == old(output)@ + stream_bytes(payload@, unpacked_size as nat),
{
    let flags: u16 = 0x00;
    write_header(output, flags);
    let sizes: (usize, usize) = write_block(output, payload, unpacked_size);
    let index_size: usize = write_index(output, sizes.0, sizes.1);
    proof {
        lemma_index_size(sizes.0 as nat, sizes.1 as nat);
    }
    write_footer(output, flags, index_size);
    proof {
        assert(output@ =~= old(output)@ + stream_bytes(payload@, unpacked_size as nat));
    }
}

/// The encoded length of the whole block section, padding included.
pub open spec fn block_len(payload_len: nat) -> nat {
    unpadded_size_of(payload_len) + pad_len(unpadded_size_of(payload_len))
}

/// Offset of the index section within the stream.
pub open spec fn index_start(payload_len: nat) -> int {
    12 + block_len(payload_len) as int
}

/// Offset of the footer section within the stream.
pub open spec fn footer_start(payload_len: nat, unpacked: nat) -> int {
    index_start(payload_len) + index_size_of(unpadded_size_of(payload_len), unpacked)
}

/// The four bytes of `s` at `at` hold the little-endian CRC-32 of the
/// bytes of `s` in the range from `from` to `to`.
pub open spec fn crc_field_ok(s: Seq<u8>, at: int, from: int, to: int) -> bool {
    s.subrange(at, at + 4) == le32(crc32_of(s.subrange(from, to)))
}

/// The first six bytes of every stream are the opening magic and the
/// last two are the closing magic.
pub proof fn lemma_stream_magic(payload: Seq<u8>, unpacked: nat)
    ensures
        stream_bytes(payload, unpacked).len() >= 14,
        stream_bytes(payload, unpacked).subrange(0, 6) == xz_magic(),
        stream_bytes(payload, unpacked).subrange(
            stream_bytes(payload, unpacked).len() - 2,
            stream_bytes(payload, unpacked).len() as int,
        ) == xz_footer_magic(),
{
    let s = stream_bytes(payload, unpacked);
    assert(s.subrange(0, 6) =~= xz_magic());
    assert(s.subrange(s.len() - 2, s.len() as int) =~= xz_footer_magic());
}

/// Every CRC-32 field of the stream holds the digest of exactly the byte
/// range it guards: the header's over the stream flags, the block
/// header's over its eight checked fields, the index's over the whole
/// index up to the check (padding included), and the footer's over the
/// backward size and the repeated flags.
#[verifier::rlimit(50)]
pub proof fn lemma_stream_checksums(payload: Seq<u8>, unpacked: nat)
    ensures
        crc_field_ok(stream_bytes(payload, unpacked), 8, 6, 8),
        crc_field_ok(stream_bytes(payload, unpacked), 20, 12, 20),
        crc_field_ok(
            stream_bytes(payload, unpacked),
            footer_start(payload.len(), unpacked) - 4,
            index_start(payload.len()),
            footer_start(payload.len(), unpacked) - 4,
        ),
        crc_field_ok(
            stream_bytes(payload, unpacked),
            footer_start(payload.len(), unpacked),
            footer_start(payload.len(), unpacked) + 4,
            footer_start(payload.len(), unpacked) + 10,
        ),
{
    let s = stream_bytes(payload, unpacked);
    let u1 = unpadded_size_of(payload.len());
    let isz = index_size_of(u1, unpacked);
    let ib = index_start(payload.len());
    let fs = footer_start(payload.len(), unpacked);
    assert(header_bytes(0).len() == 12);
    assert(block_bytes(payload).len() == block_len(payload.len()));
    assert(index_bytes(u1, unpacked).len() == isz);
    assert(footer_bytes(0, isz).len() == 12);
    assert(s.subrange(6, 8) =~= be16(0));
    assert(s.subrange(8, 12) =~= le32(crc32_of(be16(0))));
    assert(s.subrange(12, 20) =~= block_header_fields());
    assert(s.subrange(20, 24) =~= le32(crc32_of(block_header_fields())));
    assert(s.subrange(ib, fs - 4) =~= index_checked(u1, unpacked));
    assert(s.subrange(fs - 4, fs) =~= le32(crc32_of(index_checked(u1, unpacked))));
    assert(s.subrange(fs + 4, fs + 10) =~= footer_fields(0, isz));
    assert(s.subrange(fs, fs + 4) =~= le32(crc32_of(footer_fields(0, isz))));
}

/// The index's actual byte span has the index's size, that size is a
/// positive multiple of four, and the footer's backward-size field holds
/// that size in four-byte units minus one.
pub proof fn lemma_backward_size(payload: Seq<u8>, unpacked: nat)
    requires
        payload.len() + 12 < 0x1_0000_0000_0000_0000,
        unpacked < 0x1_0000_0000_0000_0000,
    ensures
        footer_start(payload.len(), unpacked) - index_start(payload.len()) == index_size_of(
            unpadded_size_of(payload.len()),
            unpacked,
        ),
        index_size_of(unpadded_size_of(payload.len()), unpacked) % 4 == 0,
        8 <= index_size_of(unpadded_size_of(payload.len()), unpacked) <= 28,
        stream_bytes(payload, unpacked).subrange(
            footer_start(payload.len(), unpacked) + 4,
            footer_start(payload.len(), unpacked) + 8,
        ) == le32(
            (index_size_of(unpadded_size_of(payload.len()), unpacked) / 4 - 1) as u32,
        ),
{
    let s = stream_bytes(payload, unpacked);
    let u1 = unpadded_size_of(payload.len());
    let isz = index_size_of(u1, unpacked);
    let fs = footer_start(payload.len(), unpacked);
    lemma_index_size(u1, unpacked);
    assert(s.subrange(fs + 4, fs + 8) =~= le32(backward_size_of(isz)));
}

/// Alignment: the padding of the block and of the index rounds each
/// section's pre-padding length up to a multiple of four, and every
/// padding byte is zero.
pub proof fn lemma_alignment(payload: Seq<u8>, unpadded: nat, unpacked: nat)
    ensures
        block_bytes(payload).len() == block_len(payload.len()),
        block_len(payload.len()) % 4 == 0,
        forall|i: int|
            unpadded_size_of(payload.len()) <= i < block_len(payload.len()) ==> block_bytes(
                payload,
            )[i] == 0,
        (index_body(unpadded, unpacked).len() + pad_len(index_body(unpadded, unpacked).len())) % 4
            == 0,
        forall|i: int|
            index_body(unpadded, unpacked).len() <= i < index_checked(unpadded, unpacked).len()
                ==> index_checked(unpadded, unpacked)[i] == 0,
{
    crate::bytes::lemma_pad_aligns(unpadded_size_of(payload.len()));
    crate::bytes::lemma_pad_aligns(index_body(unpadded, unpacked).len());
}

} // verus!

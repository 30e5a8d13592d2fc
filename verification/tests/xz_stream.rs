use xz_frame::encode_stream;
use xz_frame::write_multibyte;

fn encode(payload: &[u8], unpacked_size: usize) -> Vec<u8> {
    let payload: Vec<u8> = payload.to_vec();
    let mut out: Vec<u8> = Vec::new();
    encode_stream(&payload, unpacked_size, &mut out);
    out
}

fn crc_le(bytes: &[u8]) -> [u8; 4] {
    crc::crc32::checksum_ieee(bytes).to_le_bytes()
}

fn varint_bytes(value: u64) -> Vec<u8> {
    let mut out: Vec<u8> = Vec::new();
    write_multibyte(&mut out, value);
    out
}

#[test]
fn varint_zero_is_one_zero_byte() {
    assert_eq!(varint_bytes(0), vec![0x00]);
}

#[test]
fn varint_one_byte_maximum() {
    assert_eq!(varint_bytes(127), vec![0x7f]);
}

#[test]
fn varint_two_bytes_minimum() {
    assert_eq!(varint_bytes(128), vec![0x80, 0x01]);
}

#[test]
fn varint_three_hundred() {
    assert_eq!(varint_bytes(300), vec![0xac, 0x02]);
}

#[test]
fn varint_largest() {
    assert_eq!(
        varint_bytes(u64::MAX),
        vec![0xff, 0xff, 0xff, 0xff, 0xff, 0xff, 0xff, 0xff, 0xff, 0x01]
    );
}

#[test]
fn stream_opens_and_closes_with_magic() {
    let out = encode(b"anything at all", 40);
    assert_eq!(&out[..6], &[0xfd, 0x37, 0x7a, 0x58, 0x5a, 0x00]);
    assert_eq!(&out[out.len() - 2..], &[0x59, 0x5a]);
}

#[test]
fn header_holds_flags_and_their_checksum() {
    let out = encode(b"abc", 3);
    // big-endian stream flags: check type none
    assert_eq!(&out[6..8], &[0x00, 0x00]);
    assert_eq!(&out[8..12], &crc_le(&[0x00, 0x00]));
}

#[test]
fn block_header_is_fixed_and_checksummed() {
    let out = encode(b"abc", 3);
    // size/4, flags, LZMA2 filter id, properties size, properties, padding
    assert_eq!(&out[12..20], &[0x02, 0x00, 0x21, 0x01, 22, 0x00, 0x00, 0x00]);
    assert_eq!(&out[20..24], &crc_le(&out[12..20]));
}

#[test]
fn payload_follows_block_header() {
    let out = encode(b"abcde", 5);
    assert_eq!(&out[24..29], b"abcde");
}

#[test]
fn every_crc_field_matches_its_range() {
    let payload = b"payload bytes that are not aligned";
    let out = encode(payload, 100);
    // header CRC over the two flag bytes
    assert_eq!(&out[8..12], &crc_le(&out[6..8]));
    // block header CRC over its eight checked fields
    assert_eq!(&out[20..24], &crc_le(&out[12..20]));
    // locate the index: block is padded to a multiple of four
    let unpadded = 12 + payload.len();
    let pad = (4 - unpadded % 4) % 4;
    let ib = 12 + unpadded + pad;
    let fs = out.len() - 12;
    // index CRC over everything from the index start up to the CRC itself
    assert_eq!(&out[fs - 4..fs], &crc_le(&out[ib..fs - 4]));
    // footer CRC over backward size and flags
    assert_eq!(&out[fs..fs + 4], &crc_le(&out[fs + 4..fs + 10]));
}

#[test]
fn backward_size_counts_the_index_span() {
    let payload = b"0123456789";
    let out = encode(payload, 10);
    let unpadded = 12 + payload.len();
    let pad = (4 - unpadded % 4) % 4;
    let ib = 12 + unpadded + pad;
    let fs = out.len() - 12;
    let index_size = fs - ib;
    assert_eq!(index_size % 4, 0);
    assert!(index_size > 0);
    let backward = (index_size / 4 - 1) as u32;
    assert_eq!(&out[fs + 4..fs + 8], &backward.to_le_bytes());
    // the stream flags repeat after the backward size
    assert_eq!(&out[fs + 8..fs + 10], &out[6..8]);
}

#[test]
fn block_padding_is_zero_and_aligns() {
    let payload = b"x"; // unpadded size 13, so three bytes of padding
    let out = encode(payload, 1);
    let unpadded = 12 + payload.len();
    let pad = (4 - unpadded % 4) % 4;
    assert_eq!(pad, 3);
    assert_eq!((unpadded + pad) % 4, 0);
    assert_eq!(&out[12 + unpadded..12 + unpadded + pad], &[0x00, 0x00, 0x00]);
}

#[test]
fn aligned_payload_gets_no_padding() {
    let payload = b"1234"; // unpadded size 16, already a multiple of four
    let out = encode(payload, 4);
    // the index terminator byte follows the payload immediately
    assert_eq!(out[24 + 4], 0x00);
    // total: header 12, block 16, index 8, footer 12
    assert_eq!(out.len(), 48);
}

#[test]
fn empty_input_still_frames_one_record() {
    let out = encode(b"", 0);
    let mut expected: Vec<u8> = Vec::new();
    // header
    expected.extend_from_slice(&[0xfd, 0x37, 0x7a, 0x58, 0x5a, 0x00]);
    expected.extend_from_slice(&[0x00, 0x00]);
    expected.extend_from_slice(&crc_le(&[0x00, 0x00]));
    // block header; the empty payload needs no alignment padding
    let block_header = [0x02, 0x00, 0x21, 0x01, 22, 0x00, 0x00, 0x00];
    expected.extend_from_slice(&block_header);
    expected.extend_from_slice(&crc_le(&block_header));
    // index: terminator, one record, unpadded size 12, unpacked size 0
    let index_checked = [0x00, 0x01, 0x0c, 0x00];
    expected.extend_from_slice(&index_checked);
    expected.extend_from_slice(&crc_le(&index_checked));
    // footer: the eight-byte index gives backward size 1
    let footer_fields = [0x01, 0x00, 0x00, 0x00, 0x00, 0x00];
    expected.extend_from_slice(&crc_le(&footer_fields));
    expected.extend_from_slice(&footer_fields);
    expected.extend_from_slice(&[0x59, 0x5a]);
    assert_eq!(out, expected);
}

#[test]
fn index_records_the_block_sizes_as_varints() {
    // a payload long enough that its unpadded size needs two varint bytes
    let payload = vec![7u8; 150];
    let out = encode(&payload, 300);
    let unpadded = 12 + payload.len(); // 162
    let pad = (4 - unpadded % 4) % 4; // 2
    let ib = 12 + unpadded + pad;
    // terminator, record count 1, 162 and 300 as two-byte varints
    assert_eq!(&out[ib..ib + 6], &[0x00, 0x01, 0xa2, 0x01, 0xac, 0x02]);
}

//! End-to-end tests of the package codec: round trips, exact layout, and
//! every rejection the decoder promises.

use pupper::{Digest, Error, Magic, Pup, Segment, SegmentId, SignatureKind};

const META_SIZE: usize = 0x30;
const ENTRY_SIZE: usize = 0x20;
const DIGEST_SIZE: usize = 0x14;
const MAGIC: [u8; 8] = *b"SCEUF\0\0\0";

fn push_u64(out: &mut Vec<u8>, x: u64) {
    out.extend_from_slice(&x.to_be_bytes());
}

fn push_u32(out: &mut Vec<u8>, x: u32) {
    out.extend_from_slice(&x.to_be_bytes());
}

/// A metadata region with the well-known magic and version 1.
fn meta_bytes(img_version: u64, seg_count: u64, header_size: u64, data_size: u64) -> Vec<u8> {
    let mut out = Vec::new();
    out.extend_from_slice(&MAGIC);
    push_u64(&mut out, 1);
    push_u64(&mut out, img_version);
    push_u64(&mut out, seg_count);
    push_u64(&mut out, header_size);
    push_u64(&mut out, data_size);
    out
}

fn location_entry(id: u64, offset: u64, size: u64, sig_code: u32) -> Vec<u8> {
    let mut out = Vec::new();
    push_u64(&mut out, id);
    push_u64(&mut out, offset);
    push_u64(&mut out, size);
    push_u32(&mut out, sig_code);
    out.extend_from_slice(&[0; 4]);
    out
}

fn digest_entry(seg_index: u64, digest: &[u8; DIGEST_SIZE]) -> Vec<u8> {
    let mut out = Vec::new();
    push_u64(&mut out, seg_index);
    out.extend_from_slice(digest);
    out.extend_from_slice(&[0; 4]);
    out
}

#[test]
fn example_one_segment_layout() {
    let pup = Pup::new(
        vec![Segment::new(SegmentId(0x100), SignatureKind::HmacSha1, b"hello".to_vec())],
        0xAAAA_BBBB,
    );
    let bytes = pup.encode();

    // header_size = 0x30 + 0x20 + 0x20 + 0x14 = 0x84, rounded up to 0x90.
    assert_eq!(0x95, bytes.len());
    assert_eq!(MAGIC, bytes[0x00..0x08]);
    assert_eq!(1u64.to_be_bytes(), bytes[0x08..0x10]);
    assert_eq!(0xAAAA_BBBBu64.to_be_bytes(), bytes[0x10..0x18]);
    assert_eq!(1u64.to_be_bytes(), bytes[0x18..0x20]);
    assert_eq!(0x90u64.to_be_bytes(), bytes[0x20..0x28]);
    assert_eq!(5u64.to_be_bytes(), bytes[0x28..0x30]);

    // The location entry: id 0x100, offset 0x90, size 5, kind code 0.
    assert_eq!(0x100u64.to_be_bytes(), bytes[0x30..0x38]);
    assert_eq!(0x90u64.to_be_bytes(), bytes[0x38..0x40]);
    assert_eq!(5u64.to_be_bytes(), bytes[0x40..0x48]);
    assert_eq!(0u32.to_be_bytes(), bytes[0x48..0x4C]);

    // The digest entry: index 0 and a zero digest; the header digest and the
    // padding are zero as well.
    assert_eq!(0u64.to_be_bytes(), bytes[0x50..0x58]);
    assert!(bytes[0x58..0x90].iter().all(|b| *b == 0));

    // The payload sits at the stored offset.
    assert_eq!(b"hello", &bytes[0x90..0x95]);

    let decoded = Pup::decode(&bytes).unwrap();
    assert_eq!(pup, decoded);
    assert_eq!(SegmentId(0x100), decoded.segments[0].id);
    assert_eq!(b"hello".to_vec(), decoded.segments[0].data);
}

#[test]
fn round_trip_multiple_segments() {
    let pup = Pup::new(
        vec![
            Segment::new(SegmentId(0x200), SignatureKind::HmacSha256, b"first".to_vec()),
            Segment::new(SegmentId(0x201), SignatureKind::HmacSha1, Vec::new()),
            Segment::new(SegmentId(0x300), SignatureKind::HmacSha1, vec![0xFF; 300]),
        ],
        42,
    );
    let bytes = pup.encode();
    assert_eq!(Ok(pup), Pup::decode(&bytes));
}

#[test]
fn round_trip_preserves_decoded_digests() {
    // Digests survive a decode/encode/decode cycle verbatim.
    let mut first = meta_bytes(9, 1, 0x90, 3);
    first.extend_from_slice(&location_entry(7, 0x90, 3, 2));
    first.extend_from_slice(&digest_entry(0, &[0xCD; DIGEST_SIZE]));
    first.resize(0x90, 0);
    first.extend_from_slice(b"abc");

    let pup = Pup::decode(&first).unwrap();
    assert_eq!(vec![0xCD; DIGEST_SIZE], pup.segments[0].digest().0);
    let again = Pup::decode(&pup.encode()).unwrap();
    assert_eq!(pup, again);
}

#[test]
fn empty_package_encodes_to_padded_header() {
    let pup = Pup::new(Vec::new(), 0xAAAA_BBBB);
    let bytes = pup.encode();
    // header_size = 0x30 + 0x14 = 0x44, rounded up to 0x50; no data region.
    assert_eq!(0x50, bytes.len());
    let decoded = Pup::decode(&bytes).unwrap();
    assert_eq!(0, decoded.segments.len());
    assert_eq!(0xAAAA_BBBB, decoded.image_version);
    assert_eq!(pup, decoded);
}

#[test]
fn rejects_empty_input() {
    assert_eq!(Err(Error::Undersized), Pup::decode(&Vec::new()));
}

#[test]
fn rejects_short_input() {
    let bytes = vec![0x53; META_SIZE - 1];
    assert_eq!(Err(Error::Undersized), Pup::decode(&bytes));
}

#[test]
fn rejects_invalid_magic() {
    let mut bytes = meta_bytes(0, 0, 0x50, 0);
    bytes[0] = b'X';
    bytes.resize(0x50, 0);
    let mut expected = MAGIC.to_vec();
    expected[0] = b'X';
    assert_eq!(Err(Error::InvalidMagic(Magic(expected))), Pup::decode(&bytes));
}

#[test]
fn rejects_unsupported_package_version() {
    let mut bytes = meta_bytes(0, 0, 0x50, 0);
    bytes[0x08..0x10].copy_from_slice(&2u64.to_be_bytes());
    bytes.resize(0x50, 0);
    assert_eq!(Err(Error::UnsupportedPackageVersion(2)), Pup::decode(&bytes));
}

#[test]
fn rejects_truncated_tables() {
    // The metadata announces three segments, but no table bytes follow.
    let bytes = meta_bytes(0, 3, 0x50, 0);
    assert_eq!(Err(Error::Undersized), Pup::decode(&bytes));
}

#[test]
fn rejects_invalid_signature_kind() {
    let mut bytes = meta_bytes(0, 1, 0x90, 0);
    bytes.extend_from_slice(&location_entry(1, 0x90, 0, 5));
    bytes.extend_from_slice(&digest_entry(0, &[0; DIGEST_SIZE]));
    bytes.resize(0x90, 0);
    assert_eq!(Err(Error::InvalidSignatureKind(5)), Pup::decode(&bytes));
}

#[test]
fn rejects_missing_digest() {
    // One location entry, but the digest table references index 7 instead
    // of 0.
    let mut bytes = meta_bytes(0, 1, 0x90, 0);
    bytes.extend_from_slice(&location_entry(1, 0x90, 0, 0));
    bytes.extend_from_slice(&digest_entry(7, &[0; DIGEST_SIZE]));
    bytes.resize(0x90, 0);
    assert_eq!(Err(Error::MissingDigest(0)), Pup::decode(&bytes));
}

#[test]
fn rejects_missing_digest_for_later_index() {
    // Two segments; index 1 has no digest entry.
    let mut bytes = meta_bytes(0, 2, 0xD0, 2);
    bytes.extend_from_slice(&location_entry(1, 0xD0, 1, 0));
    bytes.extend_from_slice(&location_entry(2, 0xD1, 1, 0));
    bytes.extend_from_slice(&digest_entry(0, &[0; DIGEST_SIZE]));
    bytes.extend_from_slice(&digest_entry(0, &[0; DIGEST_SIZE]));
    bytes.resize(0xD0, 0);
    bytes.extend_from_slice(b"xy");
    assert_eq!(Err(Error::MissingDigest(1)), Pup::decode(&bytes));
}

#[test]
fn rejects_out_of_bounds_segment_data() {
    // The location entry's range runs past the end of the buffer.
    let mut bytes = meta_bytes(0, 1, 0x90, 100);
    bytes.extend_from_slice(&location_entry(1, 0x90, 100, 0));
    bytes.extend_from_slice(&digest_entry(0, &[0; DIGEST_SIZE]));
    bytes.resize(0x90, 0);
    bytes.extend_from_slice(b"short");
    assert_eq!(Err(Error::MissingData(0)), Pup::decode(&bytes));
}

#[test]
fn rejects_overflowing_segment_range() {
    // offset + size overflows any address space; the decoder must reject,
    // not wrap around.
    let mut bytes = meta_bytes(0, 1, 0x90, 0);
    bytes.extend_from_slice(&location_entry(1, u64::MAX, u64::MAX, 0));
    bytes.extend_from_slice(&digest_entry(0, &[0; DIGEST_SIZE]));
    bytes.resize(0x90, 0);
    assert_eq!(Err(Error::MissingData(0)), Pup::decode(&bytes));
}

#[test]
fn digest_lookup_goes_by_stored_index() {
    // Digest entries stored in reverse order: entry 0 carries seg_index 1,
    // entry 1 carries seg_index 0. Lookup must go by the stored index, not
    // by table position.
    let mut bytes = meta_bytes(5, 2, 0xD0, 4);
    bytes.extend_from_slice(&location_entry(0x10, 0xD0, 2, 0));
    bytes.extend_from_slice(&location_entry(0x11, 0xD2, 2, 2));
    bytes.extend_from_slice(&digest_entry(1, &[0xBB; DIGEST_SIZE]));
    bytes.extend_from_slice(&digest_entry(0, &[0xAA; DIGEST_SIZE]));
    bytes.resize(0xD0, 0);
    bytes.extend_from_slice(b"aabb");

    let pup = Pup::decode(&bytes).unwrap();
    assert_eq!(2, pup.segments.len());
    assert_eq!(vec![0xAA; DIGEST_SIZE], pup.segments[0].digest().0);
    assert_eq!(vec![0xBB; DIGEST_SIZE], pup.segments[1].digest().0);
    assert_eq!(b"aa".to_vec(), pup.segments[0].data);
    assert_eq!(b"bb".to_vec(), pup.segments[1].data);
    assert_eq!(SegmentId(0x10), pup.segments[0].id);
    assert_eq!(SignatureKind::HmacSha256, pup.segments[1].sig_kind);
}

#[test]
fn duplicate_digest_entries_leave_an_index_uncovered() {
    // Two segments, but both digest entries claim seg_index 0: segment 0
    // takes the first matching entry, and segment 1 is left without one.
    let mut bytes = meta_bytes(0, 2, 0xD0, 2);
    bytes.extend_from_slice(&location_entry(1, 0xD0, 1, 0));
    bytes.extend_from_slice(&location_entry(2, 0xD1, 1, 0));
    bytes.extend_from_slice(&digest_entry(0, &[0x11; DIGEST_SIZE]));
    bytes.extend_from_slice(&digest_entry(0, &[0x22; DIGEST_SIZE]));
    bytes.resize(0xD0, 0);
    bytes.extend_from_slice(b"xy");
    assert_eq!(Err(Error::MissingDigest(1)), Pup::decode(&bytes));
}

#[test]
fn decode_ignores_stored_header_size() {
    // The decoder reads tables right after the metadata and payloads at the
    // stored offsets; the header_size field itself is not re-checked.
    let pup = Pup::new(
        vec![Segment::new(SegmentId(1), SignatureKind::HmacSha1, b"data".to_vec())],
        0,
    );
    let mut bytes = pup.encode();
    bytes[0x20..0x28].copy_from_slice(&0xFFFF_FFFFu64.to_be_bytes());
    let decoded = Pup::decode(&bytes).unwrap();
    assert_eq!(pup.segments, decoded.segments);
}

#[test]
fn pup_accessors_match_layout() {
    let pup = Pup::new(
        vec![Segment::new(SegmentId(0x100), SignatureKind::HmacSha1, b"hello".to_vec())],
        0,
    );
    assert_eq!(0x90, pup.header_size());
    assert_eq!(5, pup.data_size());
    let empty = Pup::new(Vec::new(), 0);
    assert_eq!(0x50, empty.header_size());
    assert_eq!(0, empty.data_size());
}

#[test]
fn magic_default_is_the_constant() {
    assert_eq!(MAGIC.to_vec(), Magic::default().0);
}

#[test]
fn digest_default_is_zero() {
    assert_eq!(vec![0u8; DIGEST_SIZE], Digest::default().0);
}

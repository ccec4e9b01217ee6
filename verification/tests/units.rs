//! Unit tests of the region codecs and the plain value types.

use pupper::digest;
use pupper::header::Header;
use pupper::meta::Metadata;
use pupper::seg;
use pupper::table::Table;
use pupper::{Digest, Error, FixedSize, Magic, Pup, Segment, SegmentId, SignatureKind};

#[test]
fn signature_kind_codes_round_trip() {
    assert_eq!(Some(SignatureKind::HmacSha1), SignatureKind::from_code(0));
    assert_eq!(Some(SignatureKind::HmacSha256), SignatureKind::from_code(2));
    assert_eq!(None, SignatureKind::from_code(1));
    assert_eq!(None, SignatureKind::from_code(3));
    assert_eq!(0, SignatureKind::HmacSha1.code());
    assert_eq!(2, SignatureKind::HmacSha256.code());
}

#[test]
fn signature_kind_default_is_hmac_sha1() {
    assert_eq!(SignatureKind::HmacSha1, SignatureKind::default());
}

#[test]
fn segment_new_is_pod_with_zero_digest() {
    let id = SegmentId(0x100);
    let sig_kind = SignatureKind::HmacSha1;
    let data = b"foo".to_vec();
    let segment = Segment::new(id, sig_kind, data.clone());
    assert_eq!(id, segment.id);
    assert_eq!(sig_kind, segment.sig_kind);
    assert_eq!(data, segment.data);
    assert_eq!(vec![0u8; 0x14], segment.digest().0);
}

#[test]
fn pup_new_holds_fields() {
    let segments = vec![Segment::new(SegmentId(1), SignatureKind::HmacSha1, Vec::new())];
    let image_version: u64 = 0xAAAA_BBBB;
    let pup = Pup::new(segments.clone(), image_version);
    assert_eq!(segments, pup.segments);
    assert_eq!(image_version, pup.image_version);
}

#[test]
fn metadata_codec_round_trip() {
    let meta = Metadata { img_version: 7, seg_count: 2, header_size: 0xD0, data_size: 11 };
    let mut bytes = Vec::new();
    meta.encode(&mut bytes);
    assert_eq!(0x30, bytes.len());
    assert_eq!(Ok(meta), Metadata::decode(&bytes));
}

#[test]
fn metadata_decode_checks_magic_before_version() {
    let meta = Metadata { img_version: 0, seg_count: 0, header_size: 0x50, data_size: 0 };
    let mut bytes = Vec::new();
    meta.encode(&mut bytes);
    bytes[0] = 0;
    bytes[0x08] = 9;
    match Metadata::decode(&bytes) {
        Err(Error::InvalidMagic(m)) => assert_eq!(0, m.0[0]),
        other => panic!("expected InvalidMagic, got {:?}", other),
    }
}

#[test]
fn location_entry_codec_round_trip() {
    let entry = seg::Entry {
        id: SegmentId(0x501),
        offset: 0x1234,
        size: 99,
        sig_kind: SignatureKind::HmacSha256,
    };
    let mut bytes = Vec::new();
    entry.encode(&mut bytes);
    assert_eq!(0x20, bytes.len());
    assert_eq!(Ok(entry), seg::Entry::decode(&bytes, 0));
}

#[test]
fn location_entry_rejects_unknown_code() {
    let mut bytes = vec![0u8; 0x20];
    bytes[0x18..0x1C].copy_from_slice(&7u32.to_be_bytes());
    assert_eq!(Err(Error::InvalidSignatureKind(7)), seg::Entry::decode(&bytes, 0));
}

#[test]
fn digest_entry_codec_round_trip() {
    let entry = digest::Entry { seg_index: 3, digest: Digest(vec![0xEE; 0x14]) };
    let mut bytes = Vec::new();
    entry.encode(&mut bytes);
    assert_eq!(0x20, bytes.len());
    assert_eq!(entry, digest::Entry::decode(&bytes, 0));
}

#[test]
fn table_codec_round_trip() {
    let table = Table(vec![
        seg::Entry { id: SegmentId(1), offset: 0x90, size: 4, sig_kind: SignatureKind::HmacSha1 },
        seg::Entry {
            id: SegmentId(2),
            offset: 0x94,
            size: 0,
            sig_kind: SignatureKind::HmacSha256,
        },
    ]);
    let mut bytes = Vec::new();
    table.encode(&mut bytes);
    assert_eq!(0x40, bytes.len());
    assert_eq!(Ok(table), Table::<seg::Entry>::decode(&bytes, 0, 2));
}

#[test]
fn table_decode_fails_on_first_bad_entry() {
    let good = seg::Entry { id: SegmentId(1), offset: 0, size: 0, sig_kind: SignatureKind::HmacSha1 };
    let mut bytes = Vec::new();
    good.encode(&mut bytes);
    let mut bad = vec![0u8; 0x20];
    bad[0x18..0x1C].copy_from_slice(&9u32.to_be_bytes());
    bytes.extend_from_slice(&bad);
    assert_eq!(
        Err(Error::InvalidSignatureKind(9)),
        Table::<seg::Entry>::decode(&bytes, 0, 2)
    );
}

#[test]
fn header_decode_keeps_stored_header_sig() {
    let pup = Pup::new(Vec::new(), 3);
    let mut bytes = pup.encode();
    // With no segments the tables are empty, so the trailing header digest
    // occupies 0x30..0x44.
    for (i, b) in bytes[0x30..0x44].iter_mut().enumerate() {
        *b = i as u8;
    }
    let header = Header::decode(&bytes).unwrap();
    let expected: Vec<u8> = (0u8..0x14).collect();
    assert_eq!(expected, header.header_sig().0);
    assert_eq!(0, header.meta.seg_count);
    assert_eq!(3, header.meta.img_version);
}

#[test]
fn fixed_sizes_match_the_layout() {
    assert_eq!(0x30, Metadata::size());
    assert_eq!(0x20, seg::Entry::size());
    assert_eq!(0x20, digest::Entry::size());
    assert_eq!(0x14, Digest::size());
    assert_eq!(0x08, Magic::size());
}

#[test]
fn byte_helpers_round_trip() {
    let mut bytes = Vec::new();
    pupper::bytes::u64_be_append(&mut bytes, 0x0102_0304_0506_0708);
    assert_eq!(vec![1, 2, 3, 4, 5, 6, 7, 8], bytes);
    assert_eq!(0x0102_0304_0506_0708, pupper::bytes::u64_be_read(&bytes, 0));
    let mut half = Vec::new();
    pupper::bytes::u32_be_append(&mut half, 0xAABB_CCDD);
    assert_eq!(vec![0xAA, 0xBB, 0xCC, 0xDD], half);
    assert_eq!(0xAABB_CCDD, pupper::bytes::u32_be_read(&half, 0));
}

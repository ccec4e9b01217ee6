//! The laws of the codec, proved once for all inputs: encoding then decoding
//! is the identity, and malformed buffers are rejected with the documented
//! errors.

use vstd::prelude::*;

use crate::bytes::{lemma_concat_subrange_left, lemma_concat_subrange_right};
use crate::header::{
    lemma_header_encode_windows, lemma_header_for_sizes, spec_header_decode, spec_header_for,
    HeaderView,
};
use crate::meta::{lemma_meta_roundtrip, META_SIZE, PKG_VERSION};
use crate::pup::{
    lemma_build_segments_ok, lemma_data_prefix_monotone, lemma_data_region_len,
    lemma_data_region_window, lemma_find_digest_first, lemma_round16, spec_build_segments,
    spec_data_prefix, spec_data_size_for, spec_encodable, spec_find_digest, spec_header_size_for,
    spec_pup_decode, spec_pup_encode, spec_seg_ok, spec_segment_at, PupView,
};
use crate::types::{spec_magic, ErrorView};

verus! {

/// An encodable package encodes to exactly `header_size + data_size` bytes.
pub proof fn lemma_encode_length(p: PupView)
    requires
        spec_encodable(p),
    ensures
        spec_pup_encode(p).len() == spec_header_size_for(p.segments.len()) + spec_data_size_for(
            p.segments,
        ),
{
    lemma_header_for_sizes(p);
    lemma_data_region_len(p.segments);
}

/// Round trip: decoding what a well-formed, encodable package encodes to
/// yields that package back — segments, order, image version, ids, digests
/// and signature kinds all preserved.
#[verifier::rlimit(100)]
#[verifier::spinoff_prover]
pub proof fn lemma_round_trip(p: PupView)
    requires
        spec_encodable(p),
    ensures
        spec_pup_decode(spec_pup_encode(p)) == Ok::<PupView, ErrorView>(p),
{
    let n = p.segments.len() as int;
    let h = spec_header_for(p);
    let hdr = crate::header::spec_header_encode(h);
    let dr = crate::pup::spec_data_region(p.segments);
    let b = spec_pup_encode(p);
    let hs = spec_header_size_for(p.segments.len());
    let ds = spec_data_size_for(p.segments);
    assert(b == hdr + dr);
    lemma_header_for_sizes(p);
    lemma_data_region_len(p.segments);
    lemma_round16(
        META_SIZE as nat + p.segments.len() * crate::seg::SEG_ENTRY_SIZE as nat + p.segments.len()
            * crate::digest::DIGEST_ENTRY_SIZE as nat + crate::types::DIGEST_SIZE as nat,
    );
    assert forall|i: int| 0 <= i < h.digest_table.len() implies (
    #[trigger] h.digest_table[i]).wf() by {
        assert(p.segments[i].wf());
    }
    lemma_concat_subrange_left(hdr, dr, 0, hdr.len() as int);
    assert(hdr.subrange(0, hdr.len() as int) =~= hdr);
    assert(hdr.is_prefix_of(b));
    lemma_header_encode_windows(h, b);
    lemma_meta_roundtrip(h.meta, b);
    let st_off = META_SIZE as int;
    let dt_off = st_off + n * crate::seg::SEG_ENTRY_SIZE as int;
    let sig_off = dt_off + n * crate::digest::DIGEST_ENTRY_SIZE as int;
    crate::table::lemma_seg_table_roundtrip(h.seg_table, b, st_off);
    crate::table::lemma_digest_table_roundtrip(h.digest_table, b, dt_off);
    assert(spec_header_decode(b) == Ok::<HeaderView, ErrorView>(h));
    assert forall|j: int| 0 <= j < n implies spec_seg_ok(b, h.seg_table, h.digest_table, j)
        && spec_segment_at(b, h.seg_table, h.digest_table, j) == p.segments[j] by {
        assert forall|l: int| 0 <= l < j implies (#[trigger] h.digest_table[l]).seg_index != (
        j as u64) by {
            assert(h.digest_table[l].seg_index == l as u64);
        }
        lemma_find_digest_first(h.digest_table, j as u64, j);
        assert(spec_find_digest(h.digest_table, j as u64) == Some(p.segments[j].digest));
        let e = h.seg_table[j];
        assert(e == crate::header::spec_seg_entry_for(p, j));
        lemma_data_prefix_monotone(p.segments, j + 1, n);
        assert(spec_data_prefix(p.segments, j + 1) == spec_data_prefix(p.segments, j)
            + p.segments[j].data.len());
        assert(e.offset as int == hs + spec_data_prefix(p.segments, j));
        assert(e.size as int == p.segments[j].data.len());
        assert(e.offset as int + e.size as int <= b.len());
        lemma_concat_subrange_right(hdr, dr, e.offset as int, e.offset as int + e.size as int);
        lemma_data_region_window(p.segments, j);
        assert(dr.subrange(e.offset as int - hdr.len(), e.offset as int + e.size as int
            - hdr.len()) == dr.subrange(
            spec_data_prefix(p.segments, j) as int,
            spec_data_prefix(p.segments, j) as int + p.segments[j].data.len() as int,
        ));
        assert(b.subrange(e.offset as int, e.offset as int + e.size as int)
            == p.segments[j].data);
    }
    lemma_build_segments_ok(b, h.seg_table, h.digest_table, 0);
    let built = spec_build_segments(b, h.seg_table, h.digest_table, 0)->Ok_0;
    assert forall|j: int| 0 <= j < n implies built[j] == p.segments[j] by {
        assert(built[j] == spec_segment_at(b, h.seg_table, h.digest_table, 0 + j));
    }
    assert(built =~= p.segments);
}

/// Every buffer shorter than the metadata region is rejected as undersized.
pub proof fn lemma_rejects_short_input(b: Seq<u8>)
    requires
        b.len() < META_SIZE as nat,
    ensures
        spec_pup_decode(b) == Err::<PupView, ErrorView>(ErrorView::Undersized),
{
}

/// Every buffer of metadata size whose first bytes are not the magic is
/// rejected, reporting the bytes found.
pub proof fn lemma_rejects_invalid_magic(b: Seq<u8>)
    requires
        b.len() >= META_SIZE as nat,
        b.subrange(0, 8) != spec_magic(),
    ensures
        spec_pup_decode(b) == Err::<PupView, ErrorView>(
            ErrorView::InvalidMagic(b.subrange(0, 8)),
        ),
{
}

/// Every buffer with the right magic but a package version other than the
/// supported one is rejected, reporting the version found.
pub proof fn lemma_rejects_unsupported_version(b: Seq<u8>)
    requires
        b.len() >= META_SIZE as nat,
        b.subrange(0, 8) == spec_magic(),
        crate::bytes::spec_u64_from_be_bytes(b.subrange(8, 16)) != PKG_VERSION,
    ensures
        spec_pup_decode(b) == Err::<PupView, ErrorView>(
            ErrorView::UnsupportedPackageVersion(
                crate::bytes::spec_u64_from_be_bytes(b.subrange(8, 16)),
            ),
        ),
{
}

/// A buffer whose header decodes, whose first `k` segments assemble, and
/// whose digest table has no entry for index `k`, is rejected with exactly
/// `MissingDigest(k)`.
pub proof fn lemma_missing_digest(b: Seq<u8>, k: int)
    requires
        spec_header_decode(b) is Ok,
        ({
            let h = spec_header_decode(b)->Ok_0;
            &&& 0 <= k < h.seg_table.len()
            &&& (forall|j: int| 0 <= j < k ==> spec_seg_ok(b, h.seg_table, h.digest_table, j))
            &&& spec_find_digest(h.digest_table, k as u64) is None
        }),
    ensures
        spec_pup_decode(b) == Err::<PupView, ErrorView>(ErrorView::MissingDigest(k as u64)),
{
    let h = spec_header_decode(b)->Ok_0;
    crate::pup::lemma_build_segments_err(b, h.seg_table, h.digest_table, 0, k);
}

/// A buffer whose header decodes, whose first `k` segments assemble, and
/// whose location entry `k` points past the end of the buffer, is rejected
/// with exactly `MissingData(k)`.
pub proof fn lemma_missing_data(b: Seq<u8>, k: int)
    requires
        spec_header_decode(b) is Ok,
        ({
            let h = spec_header_decode(b)->Ok_0;
            &&& 0 <= k < h.seg_table.len()
            &&& (forall|j: int| 0 <= j < k ==> spec_seg_ok(b, h.seg_table, h.digest_table, j))
            &&& spec_find_digest(h.digest_table, k as u64) is Some
            &&& h.seg_table[k].offset as int + h.seg_table[k].size as int > b.len()
        }),
    ensures
        spec_pup_decode(b) == Err::<PupView, ErrorView>(ErrorView::MissingData(k as u64)),
{
    let h = spec_header_decode(b)->Ok_0;
    crate::pup::lemma_build_segments_err(b, h.seg_table, h.digest_table, 0, k);
}

/// Digests are looked up by the stored segment index, not by table position:
/// whenever a decode succeeds, segment `j` carries the digest of the first
/// table entry whose stored index is `j`, wherever that entry is stored.
pub proof fn lemma_digest_lookup_by_stored_index(b: Seq<u8>, i: int)
    requires
        spec_pup_decode(b) is Ok,
        ({
            let h = spec_header_decode(b)->Ok_0;
            &&& 0 <= i < h.digest_table.len()
            &&& (forall|l: int|
                0 <= l < i ==> (#[trigger] h.digest_table[l]).seg_index
                    != h.digest_table[i].seg_index)
            &&& h.digest_table[i].seg_index < h.seg_table.len()
        }),
    ensures
        ({
            let h = spec_header_decode(b)->Ok_0;
            spec_pup_decode(b)->Ok_0.segments[h.digest_table[i].seg_index as int].digest
                == h.digest_table[i].digest
        }),
{
    let h = spec_header_decode(b)->Ok_0;
    let j = h.digest_table[i].seg_index as int;
    crate::pup::lemma_build_segments_ok_inv(b, h.seg_table, h.digest_table, 0);
    lemma_find_digest_first(h.digest_table, h.digest_table[i].seg_index, i);
    assert(spec_pup_decode(b)->Ok_0.segments[j] == spec_segment_at(
        b,
        h.seg_table,
        h.digest_table,
        0 + j,
    ));
}

/// A package with no segments encodes to exactly the padded header — 0x50
/// bytes — and decodes back to an empty package with the same image version.
pub proof fn lemma_empty_package(p: PupView)
    requires
        p.segments.len() == 0,
    ensures
        spec_encodable(p),
        spec_pup_encode(p).len() == spec_header_size_for(0),
        spec_header_size_for(0) == 0x50,
        spec_pup_decode(spec_pup_encode(p)) == Ok::<PupView, ErrorView>(p),
{
    assert(spec_data_prefix(p.segments, 0) == 0);
    lemma_round16(
        META_SIZE as nat + crate::types::DIGEST_SIZE as nat,
    );
    assert(spec_header_size_for(0) == 0x50);
    assert(spec_encodable(p));
    lemma_encode_length(p);
    lemma_round_trip(p);
}

} // verus!

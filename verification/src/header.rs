//! Header assembly: metadata, the two tables, and the trailing header-wide
//! digest, composed into one contiguous, size-padded region. This is the
//! single place segment offsets are derived.

use vstd::prelude::*;

use crate::bytes::{copy_range, zero_seq};
use crate::digest;
use crate::digest::DIGEST_ENTRY_SIZE;
use crate::meta::{spec_meta_decode, spec_meta_encode, Metadata, META_SIZE};
use crate::pup::{
    lemma_data_prefix_monotone, lemma_round16, spec_data_prefix, spec_data_size_for,
    spec_encodable, spec_header_size_for, Pup, PupView,
};
use crate::seg;
use crate::seg::SEG_ENTRY_SIZE;
use crate::table::{
    digest_table_view, spec_digest_table_decode, spec_digest_table_encode, spec_seg_table_decode,
    spec_seg_table_encode, Table,
};
use crate::types::{Digest, Error, ErrorView, DIGEST_SIZE};

verus! {

/// The mathematical value of a header.
pub ghost struct HeaderView {
    /// The decoded or derived metadata.
    pub meta: Metadata,
    /// The segment-location table, in index order.
    pub seg_table: Seq<seg::Entry>,
    /// The digest table, in storage order.
    pub digest_table: Seq<digest::EntryView>,
    /// The header-wide digest: opaque bytes, stored but never verified here.
    pub header_sig: Seq<u8>,
}

/// The non-payload prefix of an encoded package. Transient: rebuilt from the
/// segment list before every encode, never mutated in place.
pub struct Header {
    /// The metadata region.
    pub meta: Metadata,
    /// The segment-location table.
    pub seg_table: Table<seg::Entry>,
    /// The digest table.
    pub digest_table: Table<digest::Entry>,
    /// The header-wide digest: opaque storage, zero on derived headers.
    pub header_sig: Digest,
}

impl View for Header {
    type V = HeaderView;

    open spec fn view(&self) -> HeaderView {
        HeaderView {
            meta: self.meta,
            seg_table: self.seg_table.0@,
            digest_table: digest_table_view(self.digest_table.0@),
            header_sig: self.header_sig@,
        }
    }
}

impl Header {
    /// A header from parts; the header-wide digest starts zeroed.
    pub fn new(
        meta: Metadata,
        seg_table: Table<seg::Entry>,
        digest_table: Table<digest::Entry>,
    ) -> (h: Self)
        ensures
            h.meta == meta,
            h.seg_table == seg_table,
            h.digest_table == digest_table,
            h@.header_sig == zero_seq(DIGEST_SIZE as nat),
    {
        Self { meta, seg_table, digest_table, header_sig: Digest::default() }
    }

    /// The header-wide digest.
    pub fn header_sig(&self) -> (d: &Digest)
        ensures
            d@ == self@.header_sig,
    {
        &self.header_sig
    }
}

/// The unpadded bytes of a header: metadata, location table, digest table,
/// trailing digest, concatenated.
pub open spec fn spec_header_raw(h: HeaderView) -> Seq<u8> {
    spec_meta_encode(h.meta) + spec_seg_table_encode(h.seg_table) + spec_digest_table_encode(
        h.digest_table,
    ) + h.header_sig
}

/// The bytes a header encodes to: the raw bytes, zero-padded up to the
/// stored header size. A raw region longer than the stored size would be an
/// internal inconsistency; the encoder's contract rules it out.
pub open spec fn spec_header_encode(h: HeaderView) -> Seq<u8> {
    let raw = spec_header_raw(h);
    if raw.len() <= h.meta.header_size {
        raw + zero_seq((h.meta.header_size - raw.len()) as nat)
    } else {
        raw
    }
}

/// What decoding a header from the start of `b` yields: metadata first, then
/// both tables sized by the stored segment count, then the trailing digest,
/// failing with `Undersized` as soon as a region would run past the end.
pub open spec fn spec_header_decode(b: Seq<u8>) -> Result<HeaderView, ErrorView> {
    match spec_meta_decode(b) {
        Err(e) => Err(e),
        Ok(meta) => {
            let n = meta.seg_count as int;
            let st_off = META_SIZE as int;
            let dt_off = st_off + n * SEG_ENTRY_SIZE as int;
            let sig_off = dt_off + n * DIGEST_ENTRY_SIZE as int;
            if b.len() < dt_off {
                Err(ErrorView::Undersized)
            } else {
                match spec_seg_table_decode(b, st_off, meta.seg_count as nat) {
                    Err(e) => Err(e),
                    Ok(st) => {
                        if b.len() < sig_off {
                            Err(ErrorView::Undersized)
                        } else {
                            let dt = spec_digest_table_decode(b, dt_off, meta.seg_count as nat);
                            if b.len() < sig_off + DIGEST_SIZE as int {
                                Err(ErrorView::Undersized)
                            } else {
                                Ok(
                                    HeaderView {
                                        meta,
                                        seg_table: st,
                                        digest_table: dt,
                                        header_sig: b.subrange(
                                            sig_off,
                                            sig_off + DIGEST_SIZE as int,
                                        ),
                                    },
                                )
                            }
                        }
                    },
                }
            }
        },
    }
}

/// `n` entries of size `sz` fit into the `rem` bytes after `base` exactly
/// when `n` is at most the quotient `rem / sz`.
proof fn lemma_le_div_iff(n: int, rem: int, sz: int)
    requires
        0 <= rem,
        0 < sz,
        0 <= n,
    ensures
        (n <= rem / sz) <==> (n * sz <= rem),
{
    vstd::arithmetic::div_mod::lemma_fundamental_div_mod(rem, sz);
    vstd::arithmetic::div_mod::lemma_mod_bound(rem, sz);
    let q = rem / sz;
    assert(sz * (q + 1) == sz * q + sz) by (nonlinear_arith);
    if n <= q {
        vstd::arithmetic::mul::lemma_mul_inequality(n, q, sz);
        assert(q * sz == sz * q) by (nonlinear_arith);
    }
    if n * sz <= rem && n > q {
        vstd::arithmetic::mul::lemma_mul_inequality(q + 1, n, sz);
        assert((q + 1) * sz == sz * (q + 1)) by (nonlinear_arith);
    }
}

impl Header {
    /// Decodes a header from the start of `data`.
    pub fn decode(data: &Vec<u8>) -> (r: Result<Header, Error>)
        ensures
            r is Ok ==> spec_header_decode(data@) == Ok::<_, ErrorView>(r->Ok_0@),
            r is Err ==> spec_header_decode(data@) == Err::<HeaderView, _>(r->Err_0@),
    {
        let len = data.len();
        let meta = match Metadata::decode(data) {
            Ok(m) => m,
            Err(e) => {
                return Err(e);
            },
        };
        assert(len >= META_SIZE);
        let n64 = meta.seg_count;
        let len64 = len as u64;
        proof {
            lemma_le_div_iff(n64 as int, len64 as int - META_SIZE as int, SEG_ENTRY_SIZE as int);
        }
        if n64 > (len64 - META_SIZE as u64) / (SEG_ENTRY_SIZE as u64) {
            return Err(Error::Undersized);
        }
        let count = n64 as usize;
        let st = match Table::<seg::Entry>::decode(data, META_SIZE, count) {
            Ok(t) => t,
            Err(e) => {
                return Err(e);
            },
        };
        let dt_off = META_SIZE + count * SEG_ENTRY_SIZE;
        proof {
            lemma_le_div_iff(n64 as int, len as int - dt_off as int, DIGEST_ENTRY_SIZE as int);
        }
        if n64 > ((len - dt_off) as u64) / (DIGEST_ENTRY_SIZE as u64) {
            return Err(Error::Undersized);
        }
        let dt = Table::<digest::Entry>::decode(data, dt_off, count);
        let sig_off = dt_off + count * DIGEST_ENTRY_SIZE;
        if len - sig_off < DIGEST_SIZE {
            return Err(Error::Undersized);
        }
        let header_sig = Digest(copy_range(data, sig_off, DIGEST_SIZE));
        Ok(Header { meta, seg_table: st, digest_table: dt, header_sig })
    }

    /// The bytes this header encodes to: the raw regions, zero-padded up to
    /// the stored header size.
    pub fn encode(&self) -> (out: Vec<u8>)
        requires
            forall|i: int|
                0 <= i < self.digest_table.0@.len() ==> (#[trigger] self.digest_table.0@[i])@.wf(),
            spec_header_raw(self@).len() <= self@.meta.header_size,
            self@.meta.header_size <= usize::MAX,
        ensures
            out@ == spec_header_encode(self@),
            out@.len() == self@.meta.header_size,
    {
        let mut out: Vec<u8> = Vec::new();
        self.meta.encode(&mut out);
        self.seg_table.encode(&mut out);
        self.digest_table.encode(&mut out);
        out.extend_from_slice(self.header_sig.0.as_slice());
        proof {
            assert(out@ =~= spec_header_raw(self@));
        }
        let hs = self.meta.header_size as usize;
        let cur = out.len();
        crate::bytes::append_zeros(&mut out, hs - cur);
        proof {
            assert(out@ =~= spec_header_encode(self@));
        }
        out
    }
}

/// The metadata a package's segment list derives: counts and sizes computed
/// outward from the segments.
pub open spec fn spec_meta_for(p: PupView) -> Metadata {
    Metadata {
        img_version: p.image_version,
        seg_count: p.segments.len() as u64,
        header_size: spec_header_size_for(p.segments.len()) as u64,
        data_size: spec_data_size_for(p.segments) as u64,
    }
}

/// The location entry derived for segment `i`: payloads are laid out
/// contiguously in index order, starting right after the header.
pub open spec fn spec_seg_entry_for(p: PupView, i: int) -> seg::Entry {
    seg::Entry {
        id: p.segments[i].id,
        offset: (spec_header_size_for(p.segments.len()) + spec_data_prefix(p.segments, i)) as u64,
        size: p.segments[i].data.len() as u64,
        sig_kind: p.segments[i].sig_kind,
    }
}

/// The location table derived from a package.
pub open spec fn spec_seg_table_for(p: PupView) -> Seq<seg::Entry> {
    Seq::new(p.segments.len(), |i: int| spec_seg_entry_for(p, i))
}

/// The digest table derived from a package: each segment's stored digest,
/// paired with its index.
pub open spec fn spec_digest_table_for(p: PupView) -> Seq<digest::EntryView> {
    Seq::new(
        p.segments.len(),
        |i: int| digest::EntryView { seg_index: i as u64, digest: p.segments[i].digest },
    )
}

/// The header derived from a package: fully rebuilt from the segment list,
/// with a zeroed header-wide digest.
pub open spec fn spec_header_for(p: PupView) -> HeaderView {
    HeaderView {
        meta: spec_meta_for(p),
        seg_table: spec_seg_table_for(p),
        digest_table: spec_digest_table_for(p),
        header_sig: zero_seq(DIGEST_SIZE as nat),
    }
}

/// The raw bytes of a derived header always fit its stored header size, and
/// its padded encoding is exactly that size.
pub proof fn lemma_header_for_sizes(p: PupView)
    requires
        spec_encodable(p),
    ensures
        spec_header_raw(spec_header_for(p)).len() == META_SIZE as nat + p.segments.len()
            * SEG_ENTRY_SIZE as nat + p.segments.len() * DIGEST_ENTRY_SIZE as nat
            + DIGEST_SIZE as nat,
        spec_header_raw(spec_header_for(p)).len() <= spec_header_for(p).meta.header_size,
        spec_header_for(p).meta.header_size == spec_header_size_for(p.segments.len()),
        spec_header_encode(spec_header_for(p)).len() == spec_header_size_for(p.segments.len()),
{
    let h = spec_header_for(p);
    let n = p.segments.len();
    crate::table::lemma_seg_table_encode_len(h.seg_table);
    assert forall|i: int| 0 <= i < h.digest_table.len() implies (
    #[trigger] h.digest_table[i]).wf() by {
        assert(p.segments[i].wf());
    }
    crate::table::lemma_digest_table_encode_len(h.digest_table);
    lemma_round16(
        META_SIZE as nat + n * SEG_ENTRY_SIZE as nat + n * DIGEST_ENTRY_SIZE as nat
            + DIGEST_SIZE as nat,
    );
}

/// Where each region of an encoded header lands in a buffer it prefixes:
/// metadata first, then the location table, the digest table, and the
/// trailing digest, each at its computed offset.
pub proof fn lemma_header_encode_windows(h: HeaderView, b: Seq<u8>)
    requires
        forall|i: int| 0 <= i < h.digest_table.len() ==> (#[trigger] h.digest_table[i]).wf(),
        h.header_sig.len() == DIGEST_SIZE as nat,
        spec_header_raw(h).len() <= h.meta.header_size,
        spec_header_encode(h).is_prefix_of(b),
    ensures
        spec_meta_encode(h.meta).is_prefix_of(b),
        b.subrange(
            META_SIZE as int,
            META_SIZE as int + h.seg_table.len() * SEG_ENTRY_SIZE as int,
        ) == spec_seg_table_encode(h.seg_table),
        b.subrange(
            META_SIZE as int + h.seg_table.len() * SEG_ENTRY_SIZE as int,
            META_SIZE as int + h.seg_table.len() * SEG_ENTRY_SIZE as int + h.digest_table.len()
                * DIGEST_ENTRY_SIZE as int,
        ) == spec_digest_table_encode(h.digest_table),
        b.subrange(
            META_SIZE as int + h.seg_table.len() * SEG_ENTRY_SIZE as int + h.digest_table.len()
                * DIGEST_ENTRY_SIZE as int,
            META_SIZE as int + h.seg_table.len() * SEG_ENTRY_SIZE as int + h.digest_table.len()
                * DIGEST_ENTRY_SIZE as int + DIGEST_SIZE as int,
        ) == h.header_sig,
{
    let me = spec_meta_encode(h.meta);
    let st = spec_seg_table_encode(h.seg_table);
    let dt = spec_digest_table_encode(h.digest_table);
    let raw = spec_header_raw(h);
    let enc = spec_header_encode(h);
    crate::meta::lemma_meta_encode_len(h.meta);
    crate::table::lemma_seg_table_encode_len(h.seg_table);
    crate::table::lemma_digest_table_encode_len(h.digest_table);
    let st_off = META_SIZE as int;
    let dt_off = st_off + st.len() as int;
    let sig_off = dt_off + dt.len() as int;
    assert(raw == ((me + st) + dt) + h.header_sig);
    assert(enc == raw + zero_seq((h.meta.header_size - raw.len()) as nat));
    // metadata window
    crate::bytes::lemma_prefix_window(enc, b, 0, st_off);
    crate::bytes::lemma_concat_subrange_left(raw, zero_seq((h.meta.header_size - raw.len()) as nat), 0, st_off);
    crate::bytes::lemma_concat_subrange_left((me + st) + dt, h.header_sig, 0, st_off);
    crate::bytes::lemma_concat_subrange_left(me + st, dt, 0, st_off);
    crate::bytes::lemma_concat_subrange_left(me, st, 0, st_off);
    assert(me.subrange(0, st_off) =~= me);
    assert(b.subrange(0, st_off) == me);
    assert(me.is_prefix_of(b));
    // location table window
    crate::bytes::lemma_prefix_window(enc, b, st_off, dt_off);
    crate::bytes::lemma_concat_subrange_left(raw, zero_seq((h.meta.header_size - raw.len()) as nat), st_off, dt_off);
    crate::bytes::lemma_concat_subrange_left((me + st) + dt, h.header_sig, st_off, dt_off);
    crate::bytes::lemma_concat_subrange_left(me + st, dt, st_off, dt_off);
    crate::bytes::lemma_concat_subrange_right(me, st, st_off, dt_off);
    assert(st.subrange(st_off - me.len(), dt_off - me.len()) =~= st);
    assert(b.subrange(st_off, dt_off) == st);
    // digest table window
    crate::bytes::lemma_prefix_window(enc, b, dt_off, sig_off);
    crate::bytes::lemma_concat_subrange_left(raw, zero_seq((h.meta.header_size - raw.len()) as nat), dt_off, sig_off);
    crate::bytes::lemma_concat_subrange_left((me + st) + dt, h.header_sig, dt_off, sig_off);
    crate::bytes::lemma_concat_subrange_right(me + st, dt, dt_off, sig_off);
    assert(dt.subrange(dt_off - (me + st).len(), sig_off - (me + st).len()) =~= dt);
    assert(b.subrange(dt_off, sig_off) == dt);
    // trailing digest window
    crate::bytes::lemma_prefix_window(enc, b, sig_off, sig_off + DIGEST_SIZE as int);
    crate::bytes::lemma_concat_subrange_left(raw, zero_seq((h.meta.header_size - raw.len()) as nat), sig_off, sig_off + DIGEST_SIZE as int);
    crate::bytes::lemma_concat_subrange_right((me + st) + dt, h.header_sig, sig_off, sig_off + DIGEST_SIZE as int);
    assert(h.header_sig.subrange(0, DIGEST_SIZE as int) =~= h.header_sig);
    assert(b.subrange(sig_off, sig_off + DIGEST_SIZE as int) == h.header_sig);
}

impl Header {
    /// Derives the header a package encodes under: metadata, location table
    /// and digest table rebuilt from the current segment list.
    pub fn derive(pup: &Pup) -> (h: Header)
        requires
            spec_encodable(pup@),
        ensures
            h@ == spec_header_for(pup@),
    {
        let count = pup.segments.len();
        let header_size = pup.header_size();
        let data_size = pup.data_size();
        let meta = Metadata {
            img_version: pup.image_version,
            seg_count: count as u64,
            header_size: header_size as u64,
            data_size: data_size as u64,
        };
        let mut seg_entries: Vec<seg::Entry> = Vec::new();
        let mut digest_entries: Vec<digest::Entry> = Vec::new();
        let mut offset: usize = header_size;
        let mut i: usize = 0;
        while i < count
            invariant
                i <= count,
                count == pup@.segments.len(),
                count == pup.segments@.len(),
                spec_encodable(pup@),
                header_size == spec_header_size_for(count as nat),
                offset == spec_header_size_for(count as nat) + spec_data_prefix(
                    pup@.segments,
                    i as int,
                ),
                seg_entries@.len() == i,
                digest_entries@.len() == i,
                forall|j: int| 0 <= j < i ==> seg_entries@[j] == spec_seg_entry_for(pup@, j),
                forall|j: int|
                    0 <= j < i ==> (#[trigger] digest_entries@[j])@ == spec_digest_table_for(
                        pup@,
                    )[j],
            decreases count - i,
        {
            proof {
                lemma_data_prefix_monotone(pup@.segments, i as int + 1, count as int);
                assert(pup.segments@[i as int]@ == pup@.segments[i as int]);
            }
            let entry = seg::Entry {
                id: pup.segments[i].id,
                offset: offset as u64,
                size: pup.segments[i].data.len() as u64,
                sig_kind: pup.segments[i].sig_kind,
            };
            seg_entries.push(entry);
            let d = digest::Entry {
                seg_index: i as u64,
                digest: pup.segments[i].digest.duplicate(),
            };
            digest_entries.push(d);
            offset = offset + pup.segments[i].data.len();
            i = i + 1;
        }
        proof {
            assert(seg_entries@ =~= spec_seg_table_for(pup@));
            assert(digest_table_view(digest_entries@) =~= spec_digest_table_for(pup@));
        }
        Header {
            meta,
            seg_table: Table(seg_entries),
            digest_table: Table(digest_entries),
            header_sig: Digest::default(),
        }
    }
}

} // verus!

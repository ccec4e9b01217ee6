//! The package itself: segments, the top-level [`Pup`] value, and the layout
//! arithmetic that derives header and data sizes from the segment list.

use vstd::prelude::*;

use crate::bytes::copy_range;
use crate::digest;
use crate::digest::DIGEST_ENTRY_SIZE;
use crate::header::{spec_header_decode, spec_header_encode, spec_header_for, Header};
use crate::meta::META_SIZE;
use crate::seg;
use crate::seg::SEG_ENTRY_SIZE;
use crate::table::{digest_table_view, Table};
use crate::types::{Digest, Error, ErrorView, SegmentId, SignatureKind, DIGEST_SIZE};

verus! {

/// The mathematical value of a segment.
pub ghost struct SegmentView {
    /// The id of the segment.
    pub id: SegmentId,
    /// The kind of signature the segment has.
    pub sig_kind: SignatureKind,
    /// The segment's 20-byte digest.
    pub digest: Seq<u8>,
    /// The segment's payload bytes.
    pub data: Seq<u8>,
}

impl SegmentView {
    /// A segment is well formed when its digest holds exactly 20 bytes.
    pub open spec fn wf(self) -> bool {
        self.digest.len() == DIGEST_SIZE as nat
    }
}

/// An individual file contained in a [`Pup`].
#[derive(Clone, Debug, Eq, PartialEq, Hash)]
pub struct Segment {
    /// The ID of this segment.
    pub id: SegmentId,
    /// The kind of signature this segment has.
    pub sig_kind: SignatureKind,
    /// The actual data this segment represents.
    pub data: Vec<u8>,
    /// The stored digest. Zero on a freshly constructed segment; written by
    /// a signing collaborator or recovered by decoding.
    pub digest: Digest,
}

impl View for Segment {
    type V = SegmentView;

    open spec fn view(&self) -> SegmentView {
        SegmentView {
            id: self.id,
            sig_kind: self.sig_kind,
            digest: self.digest@,
            data: self.data@,
        }
    }
}

impl Segment {
    /// A fresh segment: its digest is zero until a signing collaborator
    /// writes it.
    pub fn new(id: SegmentId, sig_kind: SignatureKind, data: Vec<u8>) -> (s: Self)
        ensures
            s@ == (SegmentView {
                id,
                sig_kind,
                digest: crate::bytes::zero_seq(DIGEST_SIZE as nat),
                data: data@,
            }),
            s@.wf(),
    {
        Self { id, sig_kind, data, digest: Digest::default() }
    }

    /// The stored digest of this segment.
    pub fn digest(&self) -> (d: &Digest)
        ensures
            d@ == self@.digest,
    {
        &self.digest
    }

}

/// The mathematical value of a package.
pub ghost struct PupView {
    /// The segments, in index order.
    pub segments: Seq<SegmentView>,
    /// The image version of the package.
    pub image_version: u64,
}

impl PupView {
    /// A package is well formed when every segment is.
    pub open spec fn wf(self) -> bool {
        forall|i: int| 0 <= i < self.segments.len() ==> (#[trigger] self.segments[i]).wf()
    }
}

/// A PUP: a flat, ordered collection of segments under an image version.
#[derive(Clone, Debug, Eq, PartialEq, Hash)]
pub struct Pup {
    /// The segments, or files, contained in this PUP.
    pub segments: Vec<Segment>,
    /// The image version of this PUP.
    pub image_version: u64,
}

impl View for Pup {
    type V = PupView;

    open spec fn view(&self) -> PupView {
        PupView {
            segments: Seq::new(self.segments@.len(), |i: int| self.segments@[i]@),
            image_version: self.image_version,
        }
    }
}

impl Pup {
    /// A package owning `segments` in order, under `image_version`.
    pub fn new(segments: Vec<Segment>, image_version: u64) -> (p: Self)
        ensures
            p.segments == segments,
            p.image_version == image_version,
    {
        Self { segments, image_version }
    }
}

/// `x` rounded up to the next multiple of 16.
pub open spec fn spec_round16(x: nat) -> nat {
    ((x + 15) / 16) * 16
}

/// Rounding up to 16 adds less than 16, lands on a multiple of 16, and adds
/// exactly the shortfall of `x % 16`.
pub proof fn lemma_round16(x: nat)
    ensures
        x <= spec_round16(x) < x + 16,
        x % 16 == 0 ==> spec_round16(x) == x,
        x % 16 != 0 ==> spec_round16(x) == x + 16 - x % 16,
{
    vstd::arithmetic::div_mod::lemma_fundamental_div_mod((x + 15) as int, 16);
    vstd::arithmetic::div_mod::lemma_fundamental_div_mod(x as int, 16);
    assert(0 <= (x + 15) as int % 16 < 16) by {
        vstd::arithmetic::div_mod::lemma_mod_bound((x + 15) as int, 16);
    }
    assert(0 <= x as int % 16 < 16) by {
        vstd::arithmetic::div_mod::lemma_mod_bound(x as int, 16);
    }
}

/// The exact byte size of the header region for `n` segments: metadata, the
/// two tables, the trailing digest, rounded up to a 16-byte boundary.
pub open spec fn spec_header_size_for(n: nat) -> nat {
    spec_round16(
        META_SIZE as nat + n * SEG_ENTRY_SIZE as nat + n * DIGEST_ENTRY_SIZE as nat
            + DIGEST_SIZE as nat,
    )
}

/// The total payload bytes of the first `i` segments: segment `i`'s payload
/// begins this many bytes into the data region.
pub open spec fn spec_data_prefix(segs: Seq<SegmentView>, i: int) -> nat
    decreases i,
{
    if i <= 0 {
        0
    } else {
        spec_data_prefix(segs, i - 1) + segs[i - 1].data.len()
    }
}

/// The total payload bytes of all segments.
pub open spec fn spec_data_size_for(segs: Seq<SegmentView>) -> nat {
    spec_data_prefix(segs, segs.len() as int)
}

/// Prefix sums grow with the prefix.
pub proof fn lemma_data_prefix_monotone(segs: Seq<SegmentView>, i: int, j: int)
    requires
        0 <= i <= j,
    ensures
        spec_data_prefix(segs, i) <= spec_data_prefix(segs, j),
    decreases j - i,
{
    if i < j {
        lemma_data_prefix_monotone(segs, i, j - 1);
    }
}

/// A package can be encoded when it is well formed and its derived sizes fit
/// the machine: header plus data no larger than `usize::MAX`.
pub open spec fn spec_encodable(p: PupView) -> bool {
    &&& p.wf()
    &&& spec_header_size_for(p.segments.len()) + spec_data_size_for(p.segments) <= usize::MAX
}

impl Pup {
    /// The exact header size for this package's segment count.
    pub fn header_size(&self) -> (n: usize)
        requires
            spec_header_size_for(self@.segments.len()) <= usize::MAX,
        ensures
            n == spec_header_size_for(self@.segments.len()),
    {
        let count = self.segments.len();
        proof {
            let raw = META_SIZE as nat + count as nat * SEG_ENTRY_SIZE as nat + count as nat
                * DIGEST_ENTRY_SIZE as nat + DIGEST_SIZE as nat;
            lemma_round16(raw);
        }
        let raw = META_SIZE + count * SEG_ENTRY_SIZE + count * DIGEST_ENTRY_SIZE + DIGEST_SIZE;
        let rem = raw % 16;
        if rem == 0 {
            raw
        } else {
            raw + (16 - rem)
        }
    }

    /// The total payload bytes of this package's segments.
    pub fn data_size(&self) -> (n: usize)
        requires
            spec_data_size_for(self@.segments) <= usize::MAX,
        ensures
            n == spec_data_size_for(self@.segments),
    {
        let count = self.segments.len();
        let mut total: usize = 0;
        let mut i: usize = 0;
        while i < count
            invariant
                i <= count,
                count == self@.segments.len(),
                total == spec_data_prefix(self@.segments, i as int),
                spec_data_size_for(self@.segments) <= usize::MAX,
            decreases count - i,
        {
            proof {
                lemma_data_prefix_monotone(self@.segments, i as int + 1, count as int);
            }
            total = total + self.segments[i].data.len();
            i = i + 1;
        }
        total
    }
}

/// The digest stored for segment index `i`: the first digest-table entry
/// whose stored `seg_index` equals `i`, found by linear scan. Storage order
/// is irrelevant; only the stored index counts.
pub open spec fn spec_find_digest(dt: Seq<digest::EntryView>, i: u64) -> Option<Seq<u8>>
    decreases dt.len(),
{
    if dt.len() == 0 {
        None
    } else if dt[0].seg_index == i {
        Some(dt[0].digest)
    } else {
        spec_find_digest(dt.drop_first(), i)
    }
}

/// Segment `j` can be assembled: it has a digest and its data range lies
/// within the buffer.
pub open spec fn spec_seg_ok(
    b: Seq<u8>,
    st: Seq<seg::Entry>,
    dt: Seq<digest::EntryView>,
    j: int,
) -> bool {
    &&& spec_find_digest(dt, j as u64) is Some
    &&& st[j].offset as int + st[j].size as int <= b.len()
}

/// The segment assembled at index `j`: id and kind from the location entry,
/// digest found by stored index, payload sliced out of the buffer.
pub open spec fn spec_segment_at(
    b: Seq<u8>,
    st: Seq<seg::Entry>,
    dt: Seq<digest::EntryView>,
    j: int,
) -> SegmentView {
    SegmentView {
        id: st[j].id,
        sig_kind: st[j].sig_kind,
        digest: spec_find_digest(dt, j as u64)->Some_0,
        data: b.subrange(st[j].offset as int, st[j].offset as int + st[j].size as int),
    }
}

/// The error reported for the first segment that cannot be assembled: a
/// missing digest takes precedence over missing data.
pub open spec fn spec_seg_err(
    b: Seq<u8>,
    st: Seq<seg::Entry>,
    dt: Seq<digest::EntryView>,
    j: int,
) -> ErrorView {
    if spec_find_digest(dt, j as u64) is None {
        ErrorView::MissingDigest(j as u64)
    } else {
        ErrorView::MissingData(j as u64)
    }
}

/// What assembling segments `k..` yields: segments assemble in index order,
/// and the first failing index fails the whole decode.
pub open spec fn spec_build_segments(
    b: Seq<u8>,
    st: Seq<seg::Entry>,
    dt: Seq<digest::EntryView>,
    k: int,
) -> Result<Seq<SegmentView>, ErrorView>
    decreases st.len() - k,
{
    if k >= st.len() {
        Ok(Seq::empty())
    } else if !spec_seg_ok(b, st, dt, k) {
        Err(spec_seg_err(b, st, dt, k))
    } else {
        match spec_build_segments(b, st, dt, k + 1) {
            Ok(rest) => Ok(seq![spec_segment_at(b, st, dt, k)] + rest),
            Err(e) => Err(e),
        }
    }
}

/// What decoding a full package from `b` yields.
pub open spec fn spec_pup_decode(b: Seq<u8>) -> Result<PupView, ErrorView> {
    match spec_header_decode(b) {
        Err(e) => Err(e),
        Ok(h) => match spec_build_segments(b, h.seg_table, h.digest_table, 0) {
            Ok(segs) => Ok(PupView { segments: segs, image_version: h.meta.img_version }),
            Err(e) => Err(e),
        },
    }
}

/// The data region a segment list encodes to: the payloads, concatenated in
/// index order.
pub open spec fn spec_data_region(segs: Seq<SegmentView>) -> Seq<u8>
    decreases segs.len(),
{
    if segs.len() == 0 {
        Seq::empty()
    } else {
        segs[0].data + spec_data_region(segs.drop_first())
    }
}

/// The bytes a package encodes to: the derived header, then the data region.
pub open spec fn spec_pup_encode(p: PupView) -> Seq<u8> {
    spec_header_encode(spec_header_for(p)) + spec_data_region(p.segments)
}

/// Abstracts a package decode result for contracts.
pub open spec fn spec_pup_res(r: Result<Pup, Error>) -> Result<PupView, ErrorView> {
    match r {
        Ok(p) => Ok(p@),
        Err(e) => Err(e@),
    }
}

/// A prefix sum, taken one segment in, drops the first payload's length.
pub proof fn lemma_data_prefix_shift(segs: Seq<SegmentView>, i: int)
    requires
        1 <= i <= segs.len(),
    ensures
        spec_data_prefix(segs, i) == segs[0].data.len() + spec_data_prefix(
            segs.drop_first(),
            i - 1,
        ),
    decreases i,
{
    if i > 1 {
        lemma_data_prefix_shift(segs, i - 1);
        assert(segs.drop_first()[i - 2] == segs[i - 1]);
    } else {
        assert(spec_data_prefix(segs, 0) == 0);
        assert(spec_data_prefix(segs.drop_first(), 0) == 0);
    }
}

/// The data region is exactly `data_size` bytes long.
pub proof fn lemma_data_region_len(segs: Seq<SegmentView>)
    ensures
        spec_data_region(segs).len() == spec_data_size_for(segs),
    decreases segs.len(),
{
    if segs.len() > 0 {
        lemma_data_region_len(segs.drop_first());
        lemma_data_prefix_shift(segs, segs.len() as int);
    }
}

/// Appending a segment appends its payload to the data region.
pub proof fn lemma_data_region_push(segs: Seq<SegmentView>, s: SegmentView)
    ensures
        spec_data_region(segs.push(s)) == spec_data_region(segs) + s.data,
    decreases segs.len(),
{
    if segs.len() == 0 {
        let empty = Seq::<SegmentView>::empty();
        assert(segs.push(s).drop_first() =~= empty);
        assert(spec_data_region(empty) == Seq::<u8>::empty());
        assert(segs =~= empty);
        assert(spec_data_region(segs.push(s)) =~= spec_data_region(segs) + s.data);
    } else {
        assert(segs.push(s).drop_first() =~= segs.drop_first().push(s));
        lemma_data_region_push(segs.drop_first(), s);
        assert(spec_data_region(segs.push(s)) =~= spec_data_region(segs) + s.data);
    }
}

/// Segment `i`'s payload occupies the data-region window starting at its
/// prefix sum.
pub proof fn lemma_data_region_window(segs: Seq<SegmentView>, i: int)
    requires
        0 <= i < segs.len(),
    ensures
        spec_data_region(segs).subrange(
            spec_data_prefix(segs, i) as int,
            spec_data_prefix(segs, i) as int + segs[i].data.len() as int,
        ) == segs[i].data,
    decreases segs.len(),
{
    lemma_data_region_len(segs);
    lemma_data_region_len(segs.drop_first());
    lemma_data_prefix_monotone(segs, i, segs.len() as int);
    if i == 0 {
        assert(spec_data_region(segs).subrange(0, segs[0].data.len() as int) =~= segs[0].data);
    } else {
        lemma_data_region_window(segs.drop_first(), i - 1);
        lemma_data_prefix_shift(segs, i);
        lemma_data_prefix_monotone(segs.drop_first(), i, segs.drop_first().len() as int);
        assert(segs.drop_first()[i - 1] == segs[i]);
        assert(spec_data_prefix(segs.drop_first(), i) == spec_data_prefix(segs.drop_first(), i - 1)
            + segs.drop_first()[i - 1].data.len());
        let head = segs[0].data;
        let rest = spec_data_region(segs.drop_first());
        let lo = spec_data_prefix(segs, i) as int;
        let hi = lo + segs[i].data.len() as int;
        assert(spec_data_region(segs) == head + rest);
        crate::bytes::lemma_concat_subrange_right(head, rest, lo, hi);
        assert(lo - head.len() == spec_data_prefix(segs.drop_first(), i - 1) as int);
        assert(rest.subrange(lo - head.len(), hi - head.len()) == rest.subrange(
            spec_data_prefix(segs.drop_first(), i - 1) as int,
            spec_data_prefix(segs.drop_first(), i - 1) as int + segs[i].data.len() as int,
        ));
    }
}

/// When every segment from `k` on can be assembled, building yields exactly
/// the assembled segments.
pub proof fn lemma_build_segments_ok(
    b: Seq<u8>,
    st: Seq<seg::Entry>,
    dt: Seq<digest::EntryView>,
    k: int,
)
    requires
        0 <= k <= st.len(),
        forall|j: int| k <= j < st.len() ==> spec_seg_ok(b, st, dt, j),
    ensures
        spec_build_segments(b, st, dt, k) is Ok,
        spec_build_segments(b, st, dt, k)->Ok_0.len() == st.len() - k,
        forall|i: int|
            0 <= i < st.len() - k ==> spec_build_segments(b, st, dt, k)->Ok_0[i]
                == spec_segment_at(b, st, dt, k + i),
    decreases st.len() - k,
{
    if k < st.len() {
        assert(spec_seg_ok(b, st, dt, k));
        lemma_build_segments_ok(b, st, dt, k + 1);
    }
}

/// Conversely, a build that succeeded had every segment assemble, each to
/// exactly its assembled value.
pub proof fn lemma_build_segments_ok_inv(
    b: Seq<u8>,
    st: Seq<seg::Entry>,
    dt: Seq<digest::EntryView>,
    k: int,
)
    requires
        0 <= k <= st.len(),
        spec_build_segments(b, st, dt, k) is Ok,
    ensures
        forall|j: int| k <= j < st.len() ==> spec_seg_ok(b, st, dt, j),
        spec_build_segments(b, st, dt, k)->Ok_0.len() == st.len() - k,
        forall|i: int|
            0 <= i < st.len() - k ==> spec_build_segments(b, st, dt, k)->Ok_0[i]
                == spec_segment_at(b, st, dt, k + i),
    decreases st.len() - k,
{
    if k < st.len() {
        lemma_build_segments_ok_inv(b, st, dt, k + 1);
    }
}

/// When the first segment that cannot be assembled is at index `i`, building
/// fails with exactly that index's error.
pub proof fn lemma_build_segments_err(
    b: Seq<u8>,
    st: Seq<seg::Entry>,
    dt: Seq<digest::EntryView>,
    k: int,
    i: int,
)
    requires
        0 <= k <= i < st.len(),
        forall|j: int| k <= j < i ==> spec_seg_ok(b, st, dt, j),
        !spec_seg_ok(b, st, dt, i),
    ensures
        spec_build_segments(b, st, dt, k) == Err::<Seq<SegmentView>, ErrorView>(
            spec_seg_err(b, st, dt, i),
        ),
    decreases i - k,
{
    if k < i {
        assert(spec_seg_ok(b, st, dt, k));
        lemma_build_segments_err(b, st, dt, k + 1, i);
    }
}

/// When entry `j` is the first whose stored index matches, the lookup finds
/// exactly its digest, wherever in the table it is stored.
pub proof fn lemma_find_digest_first(dt: Seq<digest::EntryView>, i: u64, j: int)
    requires
        0 <= j < dt.len(),
        dt[j].seg_index == i,
        forall|l: int| 0 <= l < j ==> (#[trigger] dt[l]).seg_index != i,
    ensures
        spec_find_digest(dt, i) == Some(dt[j].digest),
    decreases j,
{
    if j > 0 {
        assert(dt[0].seg_index != i);
        lemma_find_digest_first(dt.drop_first(), i, j - 1);
        assert(dt.drop_first()[j - 1] == dt[j]);
    }
}

/// Scanning past entries whose stored index does not match leaves the
/// lookup's result unchanged.
pub proof fn lemma_find_digest_skip(dt: Seq<digest::EntryView>, i: u64, j: int)
    requires
        0 <= j <= dt.len(),
        forall|l: int| 0 <= l < j ==> (#[trigger] dt[l]).seg_index != i,
    ensures
        spec_find_digest(dt, i) == spec_find_digest(dt.skip(j), i),
    decreases j,
{
    if j > 0 {
        assert(dt[0].seg_index != i);
        lemma_find_digest_skip(dt.drop_first(), i, j - 1);
        assert(dt.drop_first().skip(j - 1) =~= dt.skip(j));
    } else {
        assert(dt.skip(0) =~= dt);
    }
}

/// Looks up the digest stored for segment index `index` by linear scan over
/// the digest table.
fn find_digest(dt: &Table<digest::Entry>, index: u64) -> (r: Option<Digest>)
    ensures
        r is Some ==> spec_find_digest(digest_table_view(dt.0@), index) == Some(r->Some_0@),
        r is None ==> spec_find_digest(digest_table_view(dt.0@), index) is None,
{
    let ghost dtv = digest_table_view(dt.0@);
    let n = dt.0.len();
    let mut j: usize = 0;
    while j < n
        invariant
            j <= n,
            n == dt.0@.len(),
            dtv == digest_table_view(dt.0@),
            forall|l: int| 0 <= l < j ==> (#[trigger] dtv[l]).seg_index != index,
        decreases n - j,
    {
        if dt.0[j].seg_index == index {
            proof {
                lemma_find_digest_skip(dtv, index, j as int);
                assert(dtv.skip(j as int)[0] == dtv[j as int]);
            }
            return Some(dt.0[j].digest.duplicate());
        }
        j = j + 1;
    }
    proof {
        lemma_find_digest_skip(dtv, index, n as int);
        assert(dtv.skip(n as int) =~= Seq::<digest::EntryView>::empty());
        assert(spec_find_digest(Seq::<digest::EntryView>::empty(), index) is None);
    }
    None
}

impl Pup {
    /// Decodes a package from a byte buffer: header first, then each segment
    /// assembled from the location table, the digest table and the data
    /// region. Any single failure aborts the whole decode.
    pub fn decode(data: &Vec<u8>) -> (r: Result<Pup, Error>)
        ensures
            spec_pup_res(r) == spec_pup_decode(data@),
    {
        let len = data.len();
        let len64 = len as u64;
        let header = match Header::decode(data) {
            Ok(h) => h,
            Err(e) => {
                return Err(e);
            },
        };
        let ghost st = header@.seg_table;
        let ghost dt = header@.digest_table;
        let count = header.seg_table.0.len();
        let mut segments: Vec<Segment> = Vec::new();
        let mut k: usize = 0;
        while k < count
            invariant
                k <= count,
                count == header.seg_table.0@.len(),
                st == header@.seg_table,
                dt == header@.digest_table,
                len64 == data@.len(),
                data@.len() <= usize::MAX,
                spec_header_decode(data@) == Ok::<crate::header::HeaderView, ErrorView>(header@),
                segments@.len() == k,
                forall|j: int| 0 <= j < k ==> spec_seg_ok(data@, st, dt, j),
                forall|j: int|
                    0 <= j < k ==> (#[trigger] segments@[j])@ == spec_segment_at(data@, st, dt, j),
            decreases count - k,
        {
            let entry = header.seg_table.0[k];
            match find_digest(&header.digest_table, k as u64) {
                None => {
                    proof {
                        lemma_build_segments_err(data@, st, dt, 0, k as int);
                    }
                    return Err(Error::MissingDigest(k as u64));
                },
                Some(d) => {
                    if entry.offset > len64 || entry.size > len64 - entry.offset {
                        proof {
                            lemma_build_segments_err(data@, st, dt, 0, k as int);
                        }
                        return Err(Error::MissingData(k as u64));
                    }
                    let start = entry.offset as usize;
                    let payload = copy_range(data, start, entry.size as usize);
                    segments.push(
                        Segment { id: entry.id, sig_kind: entry.sig_kind, data: payload, digest: d },
                    );
                },
            }
            k = k + 1;
        }
        let pup = Pup { segments, image_version: header.meta.img_version };
        proof {
            lemma_build_segments_ok(data@, st, dt, 0);
            let built = spec_build_segments(data@, st, dt, 0)->Ok_0;
            assert forall|j: int| 0 <= j < count implies pup@.segments[j] == built[j] by {
                assert(built[j] == spec_segment_at(data@, st, dt, 0 + j));
            }
            assert(pup@.segments =~= built);
        }
        Ok(pup)
    }

    /// Encodes this package: the derived header, then every segment's bytes
    /// at its derived offset. Deterministic, and exactly
    /// `header_size + data_size` bytes.
    pub fn encode(&self) -> (out: Vec<u8>)
        requires
            spec_encodable(self@),
        ensures
            out@ == spec_pup_encode(self@),
            out@.len() == spec_header_size_for(self@.segments.len()) + spec_data_size_for(
                self@.segments,
            ),
    {
        proof {
            crate::header::lemma_header_for_sizes(self@);
            assert forall|i: int|
                0 <= i < spec_header_for(self@).digest_table.len() implies (
            #[trigger] spec_header_for(self@).digest_table[i]).wf() by {
                assert(self@.segments[i].wf());
            }
        }
        let header = Header::derive(self);
        proof {
            assert forall|i: int| 0 <= i < header.digest_table.0@.len() implies (
            #[trigger] header.digest_table.0@[i])@.wf() by {
                assert(digest_table_view(header.digest_table.0@)[i] == header.digest_table.0@[i]@);
                assert(spec_header_for(self@).digest_table[i].wf());
            }
        }
        let mut out = header.encode();
        let ghost header_bytes = spec_header_encode(spec_header_for(self@));
        let count = self.segments.len();
        let mut i: usize = 0;
        while i < count
            invariant
                i <= count,
                count == self.segments@.len(),
                count == self@.segments.len(),
                out@ == header_bytes + spec_data_region(self@.segments.take(i as int)),
            decreases count - i,
        {
            out.extend_from_slice(self.segments[i].data.as_slice());
            proof {
                lemma_data_region_push(
                    self@.segments.take(i as int),
                    self@.segments[i as int],
                );
                assert(self@.segments.take(i as int).push(self@.segments[i as int])
                    =~= self@.segments.take(i as int + 1));
                assert(self.segments@[i as int]@ == self@.segments[i as int]);
                assert(out@ =~= header_bytes + spec_data_region(
                    self@.segments.take(i as int + 1),
                ));
            }
            i = i + 1;
        }
        proof {
            assert(self@.segments.take(count as int) =~= self@.segments);
            lemma_data_region_len(self@.segments);
        }
        out
    }
}

} // verus!

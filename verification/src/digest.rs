//! Digest table entries: the per-segment integrity digest, keyed by a stored
//! segment index rather than by table position.

use vstd::prelude::*;

use crate::bytes::{
    copy_range, spec_u64_from_be_bytes, spec_u64_to_be_bytes, u64_be_append, u64_be_read, zero_seq,
};
use crate::types::{Digest, FixedSize, DIGEST_SIZE};

verus! {

/// The encoded size of a digest table entry in bytes.
pub const DIGEST_ENTRY_SIZE: usize = 0x20;

/// One digest table entry.
#[derive(Clone, Debug, Eq, PartialEq, Hash)]
pub struct Entry {
    /// The index of the segment this digest belongs to. A back-reference:
    /// it is not assumed to equal the entry's own table position.
    pub seg_index: u64,
    /// The segment's 20-byte digest.
    pub digest: Digest,
}

/// The mathematical value of a digest table entry.
pub ghost struct EntryView {
    /// The index of the segment this digest belongs to.
    pub seg_index: u64,
    /// The segment's digest bytes.
    pub digest: Seq<u8>,
}

impl View for Entry {
    type V = EntryView;

    open spec fn view(&self) -> EntryView {
        EntryView { seg_index: self.seg_index, digest: self.digest@ }
    }
}

impl EntryView {
    /// A digest entry is well formed when its digest holds exactly 20 bytes.
    pub open spec fn wf(self) -> bool {
        self.digest.len() == DIGEST_SIZE as nat
    }
}

/// The 0x20 bytes a digest entry encodes to: the segment index big-endian,
/// the 20 digest bytes verbatim, and four reserved zero bytes.
pub open spec fn spec_digest_entry_encode(e: EntryView) -> Seq<u8>
    recommends
        e.wf(),
{
    spec_u64_to_be_bytes(e.seg_index) + e.digest + zero_seq(4)
}

/// What decoding the digest entry stored at `b[off..off + 0x20]` yields.
/// Digest entries carry no checked fields, so decoding cannot fail.
pub open spec fn spec_digest_entry_decode(b: Seq<u8>, off: int) -> EntryView
    recommends
        0 <= off,
        off + DIGEST_ENTRY_SIZE as int <= b.len(),
{
    EntryView {
        seg_index: spec_u64_from_be_bytes(b.subrange(off, off + 8)),
        digest: b.subrange(off + 8, off + 0x1c),
    }
}

impl Entry {
    /// Decodes the digest entry stored at `data[off..off + 0x20]`.
    pub fn decode(data: &Vec<u8>, off: usize) -> (e: Entry)
        requires
            off + DIGEST_ENTRY_SIZE as int <= data@.len(),
        ensures
            e@ == spec_digest_entry_decode(data@, off as int),
            e@.wf(),
    {
        let _n: usize = data.len();
        let seg_index = u64_be_read(data, off);
        let digest = Digest(copy_range(data, off + 0x08, DIGEST_SIZE));
        Entry { seg_index, digest }
    }

    /// Appends the 0x20-byte encoding of this entry to `out`.
    pub fn encode(&self, out: &mut Vec<u8>)
        requires
            self@.wf(),
        ensures
            final(out)@ == old(out)@ + spec_digest_entry_encode(self@),
    {
        u64_be_append(out, self.seg_index);
        out.extend_from_slice(self.digest.0.as_slice());
        crate::bytes::append_zeros(out, 4);
        proof {
            assert(out@ =~= old(out)@ + spec_digest_entry_encode(self@));
        }
    }
}

impl FixedSize for Entry {
    open spec fn spec_size() -> nat {
        DIGEST_ENTRY_SIZE as nat
    }

    fn size() -> usize {
        DIGEST_ENTRY_SIZE
    }
}

/// The encoding of a well-formed digest entry is always exactly 0x20 bytes.
pub proof fn lemma_digest_entry_encode_len(e: EntryView)
    requires
        e.wf(),
    ensures
        spec_digest_entry_encode(e).len() == DIGEST_ENTRY_SIZE as nat,
{
}

/// Decoding an encoded digest entry recovers it.
pub proof fn lemma_digest_entry_roundtrip(e: EntryView, b: Seq<u8>, off: int)
    requires
        e.wf(),
        0 <= off,
        off + DIGEST_ENTRY_SIZE as int <= b.len(),
        b.subrange(off, off + DIGEST_ENTRY_SIZE as int) == spec_digest_entry_encode(e),
    ensures
        spec_digest_entry_decode(b, off) == e,
{
    let enc = spec_digest_entry_encode(e);
    crate::bytes::lemma_subrange_of_subrange(b, off, DIGEST_ENTRY_SIZE as int, 0, 8);
    crate::bytes::lemma_subrange_of_subrange(b, off, DIGEST_ENTRY_SIZE as int, 8, 0x1c);
    assert(enc.subrange(0, 8) =~= spec_u64_to_be_bytes(e.seg_index));
    assert(enc.subrange(8, 0x1c) =~= e.digest);
    assert(b.subrange(off, off + 8) == b.subrange(off + 0, off + 8));
    crate::bytes::lemma_u64_be_bytes_roundtrip(e.seg_index);
}

} // verus!

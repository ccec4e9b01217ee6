//! Segment-location table entries: where each segment's payload lives in the
//! encoded buffer, together with its id and signature kind.

use vstd::prelude::*;

use crate::bytes::{
    spec_u32_from_be_bytes, spec_u32_to_be_bytes, spec_u64_from_be_bytes, spec_u64_to_be_bytes,
    u32_be_append, u32_be_read, u64_be_append, u64_be_read, zero_seq,
};
use crate::types::{
    err_view, spec_sig_kind_code, spec_sig_kind_from_code, Error, ErrorView, FixedSize, SegmentId,
    SignatureKind,
};

verus! {

/// The encoded size of a segment-location entry in bytes.
pub const SEG_ENTRY_SIZE: usize = 0x20;

/// One segment-location table entry.
#[derive(Clone, Copy, Debug, Eq, PartialEq, Structural, Hash)]
pub struct Entry {
    /// The id of the segment at this index.
    pub id: SegmentId,
    /// The byte offset of the segment's payload, absolute from buffer start.
    pub offset: u64,
    /// The byte length of the segment's payload.
    pub size: u64,
    /// The kind of signature the segment has.
    pub sig_kind: SignatureKind,
}

/// The 0x20 bytes a location entry encodes to: id, offset and size as
/// big-endian `u64`, the signature-kind code as big-endian `u32`, and four
/// reserved zero bytes.
pub open spec fn spec_seg_entry_encode(e: Entry) -> Seq<u8> {
    spec_u64_to_be_bytes(e.id.0) + spec_u64_to_be_bytes(e.offset) + spec_u64_to_be_bytes(e.size)
        + spec_u32_to_be_bytes(spec_sig_kind_code(e.sig_kind)) + zero_seq(4)
}

/// What decoding the location entry stored at `b[off..off + 0x20]` yields:
/// an unknown signature-kind code fails the whole parse.
pub open spec fn spec_seg_entry_decode(b: Seq<u8>, off: int) -> Result<Entry, ErrorView>
    recommends
        0 <= off,
        off + SEG_ENTRY_SIZE as int <= b.len(),
{
    let code = spec_u32_from_be_bytes(b.subrange(off + 0x18, off + 0x1c));
    match spec_sig_kind_from_code(code) {
        Some(kind) => Ok(
            Entry {
                id: SegmentId(spec_u64_from_be_bytes(b.subrange(off, off + 8))),
                offset: spec_u64_from_be_bytes(b.subrange(off + 8, off + 0x10)),
                size: spec_u64_from_be_bytes(b.subrange(off + 0x10, off + 0x18)),
                sig_kind: kind,
            },
        ),
        None => Err(ErrorView::InvalidSignatureKind(code)),
    }
}

impl Entry {
    /// Decodes the location entry stored at `data[off..off + 0x20]`.
    pub fn decode(data: &Vec<u8>, off: usize) -> (r: Result<Entry, Error>)
        requires
            off + SEG_ENTRY_SIZE as int <= data@.len(),
        ensures
            err_view(r) == spec_seg_entry_decode(data@, off as int),
    {
        let _n: usize = data.len();
        let id = u64_be_read(data, off);
        let offset = u64_be_read(data, off + 0x08);
        let size = u64_be_read(data, off + 0x10);
        let code = u32_be_read(data, off + 0x18);
        match SignatureKind::from_code(code) {
            Some(sig_kind) => Ok(Entry { id: SegmentId(id), offset, size, sig_kind }),
            None => Err(Error::InvalidSignatureKind(code)),
        }
    }

    /// Appends the 0x20-byte encoding of this entry to `out`.
    pub fn encode(&self, out: &mut Vec<u8>)
        ensures
            final(out)@ == old(out)@ + spec_seg_entry_encode(*self),
    {
        u64_be_append(out, self.id.0);
        u64_be_append(out, self.offset);
        u64_be_append(out, self.size);
        u32_be_append(out, self.sig_kind.code());
        crate::bytes::append_zeros(out, 4);
        proof {
            assert(out@ =~= old(out)@ + spec_seg_entry_encode(*self));
        }
    }
}

impl FixedSize for Entry {
    open spec fn spec_size() -> nat {
        SEG_ENTRY_SIZE as nat
    }

    fn size() -> usize {
        SEG_ENTRY_SIZE
    }
}

/// The encoding of a location entry is always exactly 0x20 bytes.
pub proof fn lemma_seg_entry_encode_len(e: Entry)
    ensures
        spec_seg_entry_encode(e).len() == SEG_ENTRY_SIZE as nat,
{
}

/// Decoding an encoded location entry recovers it.
pub proof fn lemma_seg_entry_roundtrip(e: Entry, b: Seq<u8>, off: int)
    requires
        0 <= off,
        off + SEG_ENTRY_SIZE as int <= b.len(),
        b.subrange(off, off + SEG_ENTRY_SIZE as int) == spec_seg_entry_encode(e),
    ensures
        spec_seg_entry_decode(b, off) == Ok::<Entry, ErrorView>(e),
{
    let enc = spec_seg_entry_encode(e);
    crate::bytes::lemma_subrange_of_subrange(b, off, SEG_ENTRY_SIZE as int, 0, 8);
    crate::bytes::lemma_subrange_of_subrange(b, off, SEG_ENTRY_SIZE as int, 8, 0x10);
    crate::bytes::lemma_subrange_of_subrange(b, off, SEG_ENTRY_SIZE as int, 0x10, 0x18);
    crate::bytes::lemma_subrange_of_subrange(b, off, SEG_ENTRY_SIZE as int, 0x18, 0x1c);
    assert(enc.subrange(0, 8) =~= spec_u64_to_be_bytes(e.id.0));
    assert(enc.subrange(8, 0x10) =~= spec_u64_to_be_bytes(e.offset));
    assert(enc.subrange(0x10, 0x18) =~= spec_u64_to_be_bytes(e.size));
    assert(enc.subrange(0x18, 0x1c) =~= spec_u32_to_be_bytes(spec_sig_kind_code(e.sig_kind)));
    assert(b.subrange(off + 0, off + 8) == spec_u64_to_be_bytes(e.id.0));
    assert(b.subrange(off, off + 8) == b.subrange(off + 0, off + 8));
    crate::bytes::lemma_u64_be_bytes_roundtrip(e.id.0);
    crate::bytes::lemma_u64_be_bytes_roundtrip(e.offset);
    crate::bytes::lemma_u64_be_bytes_roundtrip(e.size);
    crate::bytes::lemma_u32_be_bytes_roundtrip(spec_sig_kind_code(e.sig_kind));
}

} // verus!

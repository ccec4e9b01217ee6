//! The metadata region: the fixed-size preamble of every package, holding the
//! magic, the package-format version, the image version, the segment count,
//! and the derived header and data sizes.

use vstd::prelude::*;

use crate::bytes::{
    spec_u64_from_be_bytes, spec_u64_to_be_bytes, u64_be_append, u64_be_read,
};
use crate::types::{
    err_view, spec_magic, Error, ErrorView, FixedSize, Magic, MAGIC_SIZE,
};

verus! {

/// The encoded size of the metadata region in bytes.
pub const META_SIZE: usize = 0x30;

/// The one package-format version this codec supports.
pub const PKG_VERSION: u64 = 1;

/// The fixed-size preamble of a package.
///
/// The magic and the package version are not stored here: the magic is a
/// constant, and any decoded metadata is known to carry the supported
/// package version.
#[derive(Clone, Copy, Debug, Eq, PartialEq, Structural, Hash)]
pub struct Metadata {
    /// The image version of the package: an opaque, caller-supplied value.
    pub img_version: u64,
    /// The number of segments, and so the length of both tables.
    pub seg_count: u64,
    /// The total size in bytes of the header region, padding included.
    pub header_size: u64,
    /// The total size in bytes of all segment payloads concatenated.
    pub data_size: u64,
}

/// The 0x30 bytes a metadata value encodes to: magic, package version, then
/// the four stored fields, each big-endian.
pub open spec fn spec_meta_encode(m: Metadata) -> Seq<u8> {
    spec_magic() + spec_u64_to_be_bytes(PKG_VERSION) + spec_u64_to_be_bytes(m.img_version)
        + spec_u64_to_be_bytes(m.seg_count) + spec_u64_to_be_bytes(m.header_size)
        + spec_u64_to_be_bytes(m.data_size)
}

/// What decoding the metadata region at the start of `b` yields: the first
/// failing check wins, in the order undersize, magic, version.
pub open spec fn spec_meta_decode(b: Seq<u8>) -> Result<Metadata, ErrorView> {
    if b.len() < META_SIZE as nat {
        Err(ErrorView::Undersized)
    } else if b.subrange(0, 8) != spec_magic() {
        Err(ErrorView::InvalidMagic(b.subrange(0, 8)))
    } else if spec_u64_from_be_bytes(b.subrange(8, 16)) != PKG_VERSION {
        Err(ErrorView::UnsupportedPackageVersion(spec_u64_from_be_bytes(b.subrange(8, 16))))
    } else {
        Ok(
            Metadata {
                img_version: spec_u64_from_be_bytes(b.subrange(0x10, 0x18)),
                seg_count: spec_u64_from_be_bytes(b.subrange(0x18, 0x20)),
                header_size: spec_u64_from_be_bytes(b.subrange(0x20, 0x28)),
                data_size: spec_u64_from_be_bytes(b.subrange(0x28, 0x30)),
            },
        )
    }
}

impl Metadata {
    /// Decodes the metadata region at the start of `data`, checking the magic
    /// and the package version.
    pub fn decode(data: &Vec<u8>) -> (r: Result<Metadata, Error>)
        ensures
            err_view(r) == spec_meta_decode(data@),
    {
        if data.len() < META_SIZE {
            return Err(Error::Undersized);
        }
        let magic = Magic::default();
        if !crate::bytes::range_eq(data, 0, &magic.0) {
            let actual = crate::bytes::copy_range(data, 0, MAGIC_SIZE);
            return Err(Error::InvalidMagic(Magic(actual)));
        }
        let pkg_version = u64_be_read(data, 0x08);
        if pkg_version != PKG_VERSION {
            return Err(Error::UnsupportedPackageVersion(pkg_version));
        }
        Ok(
            Metadata {
                img_version: u64_be_read(data, 0x10),
                seg_count: u64_be_read(data, 0x18),
                header_size: u64_be_read(data, 0x20),
                data_size: u64_be_read(data, 0x28),
            },
        )
    }

    /// Appends the 0x30-byte encoding of this metadata to `out`.
    pub fn encode(&self, out: &mut Vec<u8>)
        ensures
            final(out)@ == old(out)@ + spec_meta_encode(*self),
    {
        let magic = Magic::default();
        out.extend_from_slice(magic.0.as_slice());
        u64_be_append(out, PKG_VERSION);
        u64_be_append(out, self.img_version);
        u64_be_append(out, self.seg_count);
        u64_be_append(out, self.header_size);
        u64_be_append(out, self.data_size);
        proof {
            assert(out@ =~= old(out)@ + spec_meta_encode(*self));
        }
    }
}

impl FixedSize for Metadata {
    open spec fn spec_size() -> nat {
        META_SIZE as nat
    }

    fn size() -> usize {
        META_SIZE
    }
}

/// The encoding of a metadata value is always exactly 0x30 bytes.
pub proof fn lemma_meta_encode_len(m: Metadata)
    ensures
        spec_meta_encode(m).len() == META_SIZE as nat,
{
}

/// Decoding an encoded metadata value recovers it, provided it carries the
/// supported package version (an encoder writes no other).
pub proof fn lemma_meta_roundtrip(m: Metadata, b: Seq<u8>)
    requires
        spec_meta_encode(m).is_prefix_of(b),
    ensures
        spec_meta_decode(b) == Ok::<Metadata, ErrorView>(m),
{
    let e = spec_meta_encode(m);
    assert forall|i: int| 0 <= i < META_SIZE as int implies b[i] == e[i] by {
        assert(b.subrange(0, META_SIZE as int)[i] == b[i]);
    }
    assert(b.subrange(0, 8) =~= spec_magic());
    assert(b.subrange(8, 16) =~= spec_u64_to_be_bytes(PKG_VERSION));
    assert(b.subrange(0x10, 0x18) =~= spec_u64_to_be_bytes(m.img_version));
    assert(b.subrange(0x18, 0x20) =~= spec_u64_to_be_bytes(m.seg_count));
    assert(b.subrange(0x20, 0x28) =~= spec_u64_to_be_bytes(m.header_size));
    assert(b.subrange(0x28, 0x30) =~= spec_u64_to_be_bytes(m.data_size));
    crate::bytes::lemma_u64_be_bytes_roundtrip(PKG_VERSION);
    crate::bytes::lemma_u64_be_bytes_roundtrip(m.img_version);
    crate::bytes::lemma_u64_be_bytes_roundtrip(m.seg_count);
    crate::bytes::lemma_u64_be_bytes_roundtrip(m.header_size);
    crate::bytes::lemma_u64_be_bytes_roundtrip(m.data_size);
}

} // verus!

//! The plain value types of the package format: signature kinds, segment
//! identifiers, digests, the file magic, and the decode error enumeration.

use vstd::prelude::*;

use crate::bytes::zero_seq;

verus! {

/// Has a fixed, statically known encoded size in bytes.
///
/// Every binary-layout type of the format (metadata, table entries, digests,
/// the magic) occupies exactly this many bytes on disk.
pub trait FixedSize {
    /// The encoded size in bytes, as a mathematical value.
    spec fn spec_size() -> nat;

    /// The encoded size in bytes.
    fn size() -> (n: usize)
        ensures
            n == Self::spec_size(),
    ;
}

/// The kind of cryptographic signature a segment has.
#[derive(Clone, Copy, Debug, Eq, PartialEq, Structural, Hash)]
pub enum SignatureKind {
    /// The segment is signed with HMAC-SHA1.
    HmacSha1,
    /// The segment is signed with HMAC-SHA256.
    HmacSha256,
}

/// The on-disk code of a signature kind.
pub open spec fn spec_sig_kind_code(kind: SignatureKind) -> u32 {
    match kind {
        SignatureKind::HmacSha1 => 0,
        SignatureKind::HmacSha256 => 2,
    }
}

/// The signature kind denoted by an on-disk code, if the code is known.
pub open spec fn spec_sig_kind_from_code(code: u32) -> Option<SignatureKind> {
    if code == 0 {
        Some(SignatureKind::HmacSha1)
    } else if code == 2 {
        Some(SignatureKind::HmacSha256)
    } else {
        None
    }
}

impl SignatureKind {
    /// The on-disk code of this signature kind.
    pub fn code(self) -> (code: u32)
        ensures
            code == spec_sig_kind_code(self),
    {
        match self {
            SignatureKind::HmacSha1 => 0,
            SignatureKind::HmacSha256 => 2,
        }
    }

    /// The signature kind denoted by an on-disk code.
    pub fn from_code(code: u32) -> (kind: Option<SignatureKind>)
        ensures
            kind == spec_sig_kind_from_code(code),
    {
        if code == 0 {
            Some(SignatureKind::HmacSha1)
        } else if code == 2 {
            Some(SignatureKind::HmacSha256)
        } else {
            None
        }
    }
}

impl Default for SignatureKind {
    /// The kind segments are given when nothing else is requested.
    fn default() -> (kind: Self)
        ensures
            kind == SignatureKind::HmacSha1,
    {
        Self::HmacSha1
    }
}

/// The ID of a segment. Can usually be translated to a file name, but the
/// translation is display-level glue and no concern of the codec.
#[derive(Clone, Copy, Debug, Eq, PartialEq, Structural, Hash)]
pub struct SegmentId(pub u64);

/// The hash digest of a segment: a fixed 20-byte value. The codec stores and
/// transports digests verbatim; computing or checking them is out of scope.
#[derive(Clone, Debug, Eq, PartialEq, Hash)]
pub struct Digest(pub Vec<u8>);

impl View for Digest {
    type V = Seq<u8>;

    open spec fn view(&self) -> Seq<u8> {
        self.0@
    }
}

impl Digest {
    /// A digest is well formed when it holds exactly 20 bytes.
    pub open spec fn wf(&self) -> bool {
        self@.len() == DIGEST_SIZE as nat
    }

    /// A byte-for-byte copy of this digest.
    pub fn duplicate(&self) -> (d: Digest)
        ensures
            d@ == self@,
    {
        let n = self.0.len();
        let copy = crate::bytes::copy_range(&self.0, 0, n);
        proof {
            assert(copy@ =~= self.0@);
        }
        Digest(copy)
    }
}

impl Default for Digest {
    /// The all-zero digest carried by freshly constructed segments.
    fn default() -> (d: Self)
        ensures
            d@ == zero_seq(DIGEST_SIZE as nat),
            d.wf(),
    {
        let mut v: Vec<u8> = Vec::new();
        crate::bytes::append_zeros(&mut v, DIGEST_SIZE);
        Digest(v)
    }
}

impl FixedSize for Digest {
    open spec fn spec_size() -> nat {
        DIGEST_SIZE as nat
    }

    fn size() -> usize {
        DIGEST_SIZE
    }
}

/// The encoded size of a digest in bytes.
pub const DIGEST_SIZE: usize = 0x14;

/// The encoded size of the file magic in bytes.
pub const MAGIC_SIZE: usize = 0x08;

/// The bytes every package starts with: `SCEUF` followed by three zeros.
pub open spec fn spec_magic() -> Seq<u8> {
    seq![0x53u8, 0x43u8, 0x45u8, 0x55u8, 0x46u8, 0u8, 0u8, 0u8]
}

/// The file magic of a package.
///
/// This type exists chiefly to carry the offending bytes in
/// [`Error::InvalidMagic`].
#[derive(Clone, Debug, Eq, PartialEq, Hash)]
pub struct Magic(pub Vec<u8>);

impl View for Magic {
    type V = Seq<u8>;

    open spec fn view(&self) -> Seq<u8> {
        self.0@
    }
}

impl Default for Magic {
    /// The well-known magic value.
    fn default() -> (m: Self)
        ensures
            m@ == spec_magic(),
    {
        let mut v: Vec<u8> = Vec::new();
        v.push(0x53);
        v.push(0x43);
        v.push(0x45);
        v.push(0x55);
        v.push(0x46);
        v.push(0);
        v.push(0);
        v.push(0);
        proof {
            assert(v@ =~= spec_magic());
        }
        Magic(v)
    }
}

impl FixedSize for Magic {
    open spec fn spec_size() -> nat {
        MAGIC_SIZE as nat
    }

    fn size() -> usize {
        MAGIC_SIZE
    }
}

/// The mathematical value of a decode error, with raw bytes abstracted to
/// sequences. This is what contracts about [`Error`] speak of.
pub ghost enum ErrorView {
    Undersized,
    InvalidMagic(Seq<u8>),
    UnsupportedPackageVersion(u64),
    InvalidSignatureKind(u32),
    MissingDigest(u64),
    MissingData(u64),
}

/// Abstracts the error side of a decode result, so that contracts can state
/// exactly which value or which error a decoder yields.
pub open spec fn err_view<T>(r: Result<T, Error>) -> Result<T, ErrorView> {
    match r {
        Ok(v) => Ok(v),
        Err(e) => Err(e@),
    }
}

/// An erroneous result returned by decoding.
#[derive(Debug, Eq, PartialEq)]
pub enum Error {
    /// The input data is too short.
    Undersized,
    /// The file magic is invalid; carries the bytes actually found.
    InvalidMagic(Magic),
    /// The package version is unsupported; carries the version found.
    UnsupportedPackageVersion(u64),
    /// A signature kind field has an invalid value; carries the code found.
    InvalidSignatureKind(u32),
    /// The segment at this index has no corresponding digest-table entry.
    MissingDigest(u64),
    /// The segment at this index has no corresponding data in the buffer.
    MissingData(u64),
}

impl View for Error {
    type V = ErrorView;

    open spec fn view(&self) -> ErrorView {
        match self {
            Error::Undersized => ErrorView::Undersized,
            Error::InvalidMagic(m) => ErrorView::InvalidMagic(m@),
            Error::UnsupportedPackageVersion(v) => ErrorView::UnsupportedPackageVersion(*v),
            Error::InvalidSignatureKind(c) => ErrorView::InvalidSignatureKind(*c),
            Error::MissingDigest(i) => ErrorView::MissingDigest(*i),
            Error::MissingData(i) => ErrorView::MissingData(*i),
        }
    }
}

} // verus!

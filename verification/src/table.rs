//! Tables: tightly packed, variable-length sequences of fixed-size entries.
//! A table's length is always driven by the caller-supplied segment count,
//! never self-described.

use vstd::prelude::*;

use crate::digest;
use crate::digest::DIGEST_ENTRY_SIZE;
use crate::seg;
use crate::seg::SEG_ENTRY_SIZE;
use crate::types::{Error, ErrorView};

verus! {

/// An ordered sequence of fixed-size table entries.
#[derive(Clone, Debug, Eq, PartialEq, Hash)]
pub struct Table<T>(pub Vec<T>);

/// The views of a sequence of digest entries.
pub open spec fn digest_table_view(s: Seq<digest::Entry>) -> Seq<digest::EntryView> {
    Seq::new(s.len(), |i: int| s[i]@)
}

/// The bytes a location table encodes to: each entry's encoding in sequence
/// order, concatenated.
pub open spec fn spec_seg_table_encode(s: Seq<seg::Entry>) -> Seq<u8>
    decreases s.len(),
{
    if s.len() == 0 {
        Seq::empty()
    } else {
        seg::spec_seg_entry_encode(s[0]) + spec_seg_table_encode(s.drop_first())
    }
}

/// The bytes a digest table encodes to.
pub open spec fn spec_digest_table_encode(s: Seq<digest::EntryView>) -> Seq<u8>
    decreases s.len(),
{
    if s.len() == 0 {
        Seq::empty()
    } else {
        digest::spec_digest_entry_encode(s[0]) + spec_digest_table_encode(s.drop_first())
    }
}

/// What decoding `n` location entries at `off` yields: entries decode in
/// order, and the first failing entry fails the whole table.
pub open spec fn spec_seg_table_decode(b: Seq<u8>, off: int, n: nat) -> Result<
    Seq<seg::Entry>,
    ErrorView,
>
    decreases n,
{
    if n == 0 {
        Ok(Seq::empty())
    } else {
        match seg::spec_seg_entry_decode(b, off) {
            Ok(e) => match spec_seg_table_decode(b, off + SEG_ENTRY_SIZE as int, (n - 1) as nat) {
                Ok(rest) => Ok(seq![e] + rest),
                Err(err) => Err(err),
            },
            Err(err) => Err(err),
        }
    }
}

/// What decoding `n` digest entries at `off` yields. Digest entries carry no
/// checked fields, so table decoding cannot fail.
pub open spec fn spec_digest_table_decode(b: Seq<u8>, off: int, n: nat) -> Seq<
    digest::EntryView,
> {
    Seq::new(n, |i: int| digest::spec_digest_entry_decode(b, off + i * DIGEST_ENTRY_SIZE as int))
}

/// The encoding of a location table is exactly 0x20 bytes per entry.
pub proof fn lemma_seg_table_encode_len(s: Seq<seg::Entry>)
    ensures
        spec_seg_table_encode(s).len() == s.len() * SEG_ENTRY_SIZE as nat,
    decreases s.len(),
{
    if s.len() > 0 {
        lemma_seg_table_encode_len(s.drop_first());
    }
}

/// The encoding of a well-formed digest table is exactly 0x20 bytes per entry.
pub proof fn lemma_digest_table_encode_len(s: Seq<digest::EntryView>)
    requires
        forall|i: int| 0 <= i < s.len() ==> (#[trigger] s[i]).wf(),
    ensures
        spec_digest_table_encode(s).len() == s.len() * DIGEST_ENTRY_SIZE as nat,
    decreases s.len(),
{
    if s.len() > 0 {
        assert(s[0].wf());
        lemma_digest_table_encode_len(s.drop_first());
    }
}

/// Appending an entry to a location table appends its encoding.
pub proof fn lemma_seg_table_encode_push(s: Seq<seg::Entry>, e: seg::Entry)
    ensures
        spec_seg_table_encode(s.push(e)) == spec_seg_table_encode(s)
            + seg::spec_seg_entry_encode(e),
    decreases s.len(),
{
    if s.len() == 0 {
        let empty = Seq::<seg::Entry>::empty();
        assert(s.push(e).drop_first() =~= empty);
        assert(spec_seg_table_encode(empty) == Seq::<u8>::empty());
        assert(s =~= empty);
        assert(spec_seg_table_encode(s.push(e)) =~= spec_seg_table_encode(s)
            + seg::spec_seg_entry_encode(e));
    } else {
        assert(s.push(e).drop_first() =~= s.drop_first().push(e));
        lemma_seg_table_encode_push(s.drop_first(), e);
        assert(spec_seg_table_encode(s.push(e)) =~= spec_seg_table_encode(s)
            + seg::spec_seg_entry_encode(e));
    }
}

/// Appending an entry to a digest table appends its encoding.
pub proof fn lemma_digest_table_encode_push(s: Seq<digest::EntryView>, e: digest::EntryView)
    ensures
        spec_digest_table_encode(s.push(e)) == spec_digest_table_encode(s)
            + digest::spec_digest_entry_encode(e),
    decreases s.len(),
{
    if s.len() == 0 {
        let empty = Seq::<digest::EntryView>::empty();
        assert(s.push(e).drop_first() =~= empty);
        assert(spec_digest_table_encode(empty) == Seq::<u8>::empty());
        assert(s =~= empty);
        assert(spec_digest_table_encode(s.push(e)) =~= spec_digest_table_encode(s)
            + digest::spec_digest_entry_encode(e));
    } else {
        assert(s.push(e).drop_first() =~= s.drop_first().push(e));
        lemma_digest_table_encode_push(s.drop_first(), e);
        assert(spec_digest_table_encode(s.push(e)) =~= spec_digest_table_encode(s)
            + digest::spec_digest_entry_encode(e));
    }
}

/// Entry `i` of a location table's encoding occupies the window at
/// `[i * 0x20, (i + 1) * 0x20)`.
pub proof fn lemma_seg_table_encode_window(s: Seq<seg::Entry>, i: int)
    requires
        0 <= i < s.len(),
    ensures
        spec_seg_table_encode(s).subrange(i * SEG_ENTRY_SIZE as int, (i + 1) * SEG_ENTRY_SIZE as int)
            == seg::spec_seg_entry_encode(s[i]),
    decreases s.len(),
{
    lemma_seg_table_encode_len(s);
    lemma_seg_table_encode_len(s.drop_first());
    if i == 0 {
        assert(spec_seg_table_encode(s).subrange(0, SEG_ENTRY_SIZE as int)
            =~= seg::spec_seg_entry_encode(s[0]));
    } else {
        lemma_seg_table_encode_window(s.drop_first(), i - 1);
        assert(spec_seg_table_encode(s).subrange(
            i * SEG_ENTRY_SIZE as int,
            (i + 1) * SEG_ENTRY_SIZE as int,
        ) =~= spec_seg_table_encode(s.drop_first()).subrange(
            (i - 1) * SEG_ENTRY_SIZE as int,
            i * SEG_ENTRY_SIZE as int,
        ));
    }
}

/// Entry `i` of a digest table's encoding occupies the window at
/// `[i * 0x20, (i + 1) * 0x20)`.
pub proof fn lemma_digest_table_encode_window(s: Seq<digest::EntryView>, i: int)
    requires
        0 <= i < s.len(),
        forall|j: int| 0 <= j < s.len() ==> (#[trigger] s[j]).wf(),
    ensures
        spec_digest_table_encode(s).subrange(
            i * DIGEST_ENTRY_SIZE as int,
            (i + 1) * DIGEST_ENTRY_SIZE as int,
        ) == digest::spec_digest_entry_encode(s[i]),
    decreases s.len(),
{
    lemma_digest_table_encode_len(s);
    lemma_digest_table_encode_len(s.drop_first());
    assert(s[0].wf());
    if i == 0 {
        assert(spec_digest_table_encode(s).subrange(0, DIGEST_ENTRY_SIZE as int)
            =~= digest::spec_digest_entry_encode(s[0]));
    } else {
        lemma_digest_table_encode_window(s.drop_first(), i - 1);
        assert(spec_digest_table_encode(s).subrange(
            i * DIGEST_ENTRY_SIZE as int,
            (i + 1) * DIGEST_ENTRY_SIZE as int,
        ) =~= spec_digest_table_encode(s.drop_first()).subrange(
            (i - 1) * DIGEST_ENTRY_SIZE as int,
            i * DIGEST_ENTRY_SIZE as int,
        ));
    }
}

/// When every entry in range decodes, the table decodes to exactly those
/// entries.
pub proof fn lemma_seg_table_decode_ok(b: Seq<u8>, off: int, n: nat)
    requires
        forall|j: int|
            0 <= j < n ==> (#[trigger] seg::spec_seg_entry_decode(
                b,
                off + j * SEG_ENTRY_SIZE as int,
            )) is Ok,
    ensures
        spec_seg_table_decode(b, off, n) is Ok,
        spec_seg_table_decode(b, off, n)->Ok_0.len() == n,
        forall|j: int|
            0 <= j < n ==> spec_seg_table_decode(b, off, n)->Ok_0[j] == (
            #[trigger] seg::spec_seg_entry_decode(b, off + j * SEG_ENTRY_SIZE as int))->Ok_0,
    decreases n,
{
    if n > 0 {
        assert(seg::spec_seg_entry_decode(b, off + 0 * SEG_ENTRY_SIZE as int) is Ok);
        assert forall|j: int| 0 <= j < n - 1 implies (#[trigger] seg::spec_seg_entry_decode(
            b,
            (off + SEG_ENTRY_SIZE as int) + j * SEG_ENTRY_SIZE as int,
        )) is Ok by {
            assert(seg::spec_seg_entry_decode(b, off + (j + 1) * SEG_ENTRY_SIZE as int) is Ok);
            assert((off + SEG_ENTRY_SIZE as int) + j * SEG_ENTRY_SIZE as int == off + (j + 1)
                * SEG_ENTRY_SIZE as int) by (nonlinear_arith);
        }
        lemma_seg_table_decode_ok(b, off + SEG_ENTRY_SIZE as int, (n - 1) as nat);
        assert forall|j: int| 0 <= j < n implies spec_seg_table_decode(b, off, n)->Ok_0[j] == (
        #[trigger] seg::spec_seg_entry_decode(b, off + j * SEG_ENTRY_SIZE as int))->Ok_0 by {
            if j > 0 {
                assert((off + SEG_ENTRY_SIZE as int) + (j - 1) * SEG_ENTRY_SIZE as int == off + j
                    * SEG_ENTRY_SIZE as int) by (nonlinear_arith);
            }
        }
    }
}

/// When the first failing entry is at index `i`, the table decode fails with
/// exactly that entry's error.
pub proof fn lemma_seg_table_decode_err(b: Seq<u8>, off: int, n: nat, i: int, e: ErrorView)
    requires
        0 <= i < n,
        forall|j: int|
            0 <= j < i ==> (#[trigger] seg::spec_seg_entry_decode(
                b,
                off + j * SEG_ENTRY_SIZE as int,
            )) is Ok,
        seg::spec_seg_entry_decode(b, off + i * SEG_ENTRY_SIZE as int) == Err::<
            seg::Entry,
            ErrorView,
        >(e),
    ensures
        spec_seg_table_decode(b, off, n) == Err::<Seq<seg::Entry>, ErrorView>(e),
    decreases n,
{
    if i == 0 {
        assert(seg::spec_seg_entry_decode(b, off + 0 * SEG_ENTRY_SIZE as int) == Err::<
            seg::Entry,
            ErrorView,
        >(e));
        assert(off + 0 * SEG_ENTRY_SIZE as int == off);
    } else {
        assert(seg::spec_seg_entry_decode(b, off + 0 * SEG_ENTRY_SIZE as int) is Ok);
        assert(off + 0 * SEG_ENTRY_SIZE as int == off);
        assert forall|j: int| 0 <= j < i - 1 implies (#[trigger] seg::spec_seg_entry_decode(
            b,
            (off + SEG_ENTRY_SIZE as int) + j * SEG_ENTRY_SIZE as int,
        )) is Ok by {
            assert(seg::spec_seg_entry_decode(b, off + (j + 1) * SEG_ENTRY_SIZE as int) is Ok);
            assert((off + SEG_ENTRY_SIZE as int) + j * SEG_ENTRY_SIZE as int == off + (j + 1)
                * SEG_ENTRY_SIZE as int) by (nonlinear_arith);
        }
        assert((off + SEG_ENTRY_SIZE as int) + (i - 1) * SEG_ENTRY_SIZE as int == off + i
            * SEG_ENTRY_SIZE as int) by (nonlinear_arith);
        lemma_seg_table_decode_err(b, off + SEG_ENTRY_SIZE as int, (n - 1) as nat, i - 1, e);
    }
}

impl Table<seg::Entry> {
    /// Decodes `count` location entries stored at `data[off..]`.
    pub fn decode(data: &Vec<u8>, off: usize, count: usize) -> (r: Result<Self, Error>)
        requires
            off + count * SEG_ENTRY_SIZE as int <= data@.len(),
        ensures
            r is Ok ==> spec_seg_table_decode(data@, off as int, count as nat) == Ok::<
                _,
                ErrorView,
            >(r->Ok_0.0@),
            r is Err ==> spec_seg_table_decode(data@, off as int, count as nat) == Err::<
                Seq<seg::Entry>,
                _,
            >(r->Err_0@),
    {
        let _n: usize = data.len();
        let mut entries: Vec<seg::Entry> = Vec::new();
        let mut i: usize = 0;
        while i < count
            invariant
                i <= count,
                off + count * SEG_ENTRY_SIZE as int <= data@.len(),
                data@.len() <= usize::MAX,
                entries@.len() == i,
                forall|j: int|
                    0 <= j < i ==> (#[trigger] seg::spec_seg_entry_decode(
                        data@,
                        off as int + j * SEG_ENTRY_SIZE as int,
                    )) is Ok,
                forall|j: int|
                    0 <= j < i ==> entries@[j] == (#[trigger] seg::spec_seg_entry_decode(
                        data@,
                        off as int + j * SEG_ENTRY_SIZE as int,
                    ))->Ok_0,
            decreases count - i,
        {
            proof {
                assert(i * SEG_ENTRY_SIZE as int <= count * SEG_ENTRY_SIZE as int && (i + 1)
                    * SEG_ENTRY_SIZE as int <= count * SEG_ENTRY_SIZE as int) by (nonlinear_arith)
                    requires
                        i < count,
                ;
            }
            let entry_off = off + i * SEG_ENTRY_SIZE;
            match seg::Entry::decode(data, entry_off) {
                Ok(e) => {
                    entries.push(e);
                },
                Err(e) => {
                    proof {
                        lemma_seg_table_decode_err(
                            data@,
                            off as int,
                            count as nat,
                            i as int,
                            e@,
                        );
                    }
                    return Err(e);
                },
            }
            i = i + 1;
        }
        proof {
            lemma_seg_table_decode_ok(data@, off as int, count as nat);
            let decoded = spec_seg_table_decode(data@, off as int, count as nat)->Ok_0;
            assert forall|j: int| 0 <= j < count implies entries@[j] == decoded[j] by {
                assert(seg::spec_seg_entry_decode(
                    data@,
                    off as int + j * SEG_ENTRY_SIZE as int,
                ) is Ok);
            }
            assert(entries@ =~= decoded);
        }
        Ok(Table(entries))
    }

    /// Appends the encoding of this table to `out`.
    pub fn encode(&self, out: &mut Vec<u8>)
        ensures
            final(out)@ == old(out)@ + spec_seg_table_encode(self.0@),
    {
        let n = self.0.len();
        let mut i: usize = 0;
        while i < n
            invariant
                i <= n,
                n == self.0@.len(),
                out@ == old(out)@ + spec_seg_table_encode(self.0@.take(i as int)),
            decreases n - i,
        {
            let e = self.0[i];
            e.encode(out);
            proof {
                lemma_seg_table_encode_push(self.0@.take(i as int), self.0@[i as int]);
                assert(self.0@.take(i as int).push(self.0@[i as int]) =~= self.0@.take(i as int
                    + 1));
            }
            i = i + 1;
        }
        proof {
            assert(self.0@.take(n as int) =~= self.0@);
        }
    }
}

impl Table<digest::Entry> {
    /// Decodes `count` digest entries stored at `data[off..]`.
    pub fn decode(data: &Vec<u8>, off: usize, count: usize) -> (t: Self)
        requires
            off + count * DIGEST_ENTRY_SIZE as int <= data@.len(),
        ensures
            digest_table_view(t.0@) == spec_digest_table_decode(data@, off as int, count as nat),
            t.0@.len() == count,
    {
        let _n: usize = data.len();
        let mut entries: Vec<digest::Entry> = Vec::new();
        let mut i: usize = 0;
        while i < count
            invariant
                i <= count,
                off + count * DIGEST_ENTRY_SIZE as int <= data@.len(),
                data@.len() <= usize::MAX,
                entries@.len() == i,
                forall|j: int|
                    0 <= j < i ==> (#[trigger] entries@[j])@ == digest::spec_digest_entry_decode(
                        data@,
                        off as int + j * DIGEST_ENTRY_SIZE as int,
                    ),
            decreases count - i,
        {
            proof {
                assert(i * DIGEST_ENTRY_SIZE as int <= count * DIGEST_ENTRY_SIZE as int && (i + 1)
                    * DIGEST_ENTRY_SIZE as int <= count * DIGEST_ENTRY_SIZE as int)
                    by (nonlinear_arith)
                    requires
                        i < count,
                ;
            }
            let entry_off = off + i * DIGEST_ENTRY_SIZE;
            let e = digest::Entry::decode(data, entry_off);
            entries.push(e);
            i = i + 1;
        }
        proof {
            assert(digest_table_view(entries@) =~= spec_digest_table_decode(
                data@,
                off as int,
                count as nat,
            ));
        }
        Table(entries)
    }

    /// Appends the encoding of this table to `out`.
    pub fn encode(&self, out: &mut Vec<u8>)
        requires
            forall|i: int| 0 <= i < self.0@.len() ==> (#[trigger] self.0@[i])@.wf(),
        ensures
            final(out)@ == old(out)@ + spec_digest_table_encode(digest_table_view(self.0@)),
    {
        let n = self.0.len();
        let mut i: usize = 0;
        while i < n
            invariant
                i <= n,
                n == self.0@.len(),
                forall|j: int| 0 <= j < n ==> (#[trigger] self.0@[j])@.wf(),
                out@ == old(out)@ + spec_digest_table_encode(
                    digest_table_view(self.0@).take(i as int),
                ),
            decreases n - i,
        {
            let e = &self.0[i];
            e.encode(out);
            proof {
                lemma_digest_table_encode_push(
                    digest_table_view(self.0@).take(i as int),
                    self.0@[i as int]@,
                );
                assert(digest_table_view(self.0@).take(i as int).push(self.0@[i as int]@)
                    =~= digest_table_view(self.0@).take(i as int + 1));
            }
            i = i + 1;
        }
        proof {
            assert(digest_table_view(self.0@).take(n as int) =~= digest_table_view(self.0@));
        }
    }
}

/// Decoding an encoded location table recovers its entries.
pub proof fn lemma_seg_table_roundtrip(s: Seq<seg::Entry>, b: Seq<u8>, off: int)
    requires
        0 <= off,
        off + s.len() * SEG_ENTRY_SIZE as int <= b.len(),
        b.subrange(off, off + s.len() * SEG_ENTRY_SIZE as int) == spec_seg_table_encode(s),
    ensures
        spec_seg_table_decode(b, off, s.len()) == Ok::<_, ErrorView>(s),
{
    let n = s.len();
    let enc = spec_seg_table_encode(s);
    lemma_seg_table_encode_len(s);
    assert forall|j: int| 0 <= j < n implies (#[trigger] seg::spec_seg_entry_decode(
        b,
        off + j * SEG_ENTRY_SIZE as int,
    )) == Ok::<seg::Entry, ErrorView>(s[j]) by {
        assert(0 <= j * SEG_ENTRY_SIZE as int && (j + 1) * SEG_ENTRY_SIZE as int <= n
            * SEG_ENTRY_SIZE as int) by (nonlinear_arith)
            requires
                0 <= j < n,
        ;
        lemma_seg_table_encode_window(s, j);
        crate::bytes::lemma_subrange_of_subrange(
            b,
            off,
            n as int * SEG_ENTRY_SIZE as int,
            j * SEG_ENTRY_SIZE as int,
            (j + 1) * SEG_ENTRY_SIZE as int,
        );
        assert(b.subrange(
            off + j * SEG_ENTRY_SIZE as int,
            off + (j + 1) * SEG_ENTRY_SIZE as int,
        ) == seg::spec_seg_entry_encode(s[j]));
        assert(off + (j + 1) * SEG_ENTRY_SIZE as int == (off + j * SEG_ENTRY_SIZE as int)
            + SEG_ENTRY_SIZE as int) by (nonlinear_arith);
        seg::lemma_seg_entry_roundtrip(s[j], b, off + j * SEG_ENTRY_SIZE as int);
    }
    lemma_seg_table_decode_ok(b, off, n);
    let decoded = spec_seg_table_decode(b, off, n)->Ok_0;
    assert forall|j: int| 0 <= j < n implies decoded[j] == s[j] by {
        assert(seg::spec_seg_entry_decode(b, off + j * SEG_ENTRY_SIZE as int) is Ok);
    }
    assert(decoded =~= s);
}

/// Decoding an encoded digest table recovers its entries.
pub proof fn lemma_digest_table_roundtrip(s: Seq<digest::EntryView>, b: Seq<u8>, off: int)
    requires
        0 <= off,
        forall|i: int| 0 <= i < s.len() ==> (#[trigger] s[i]).wf(),
        off + s.len() * DIGEST_ENTRY_SIZE as int <= b.len(),
        b.subrange(off, off + s.len() * DIGEST_ENTRY_SIZE as int) == spec_digest_table_encode(s),
    ensures
        spec_digest_table_decode(b, off, s.len()) == s,
{
    let n = s.len();
    lemma_digest_table_encode_len(s);
    assert forall|j: int| 0 <= j < n implies digest::spec_digest_entry_decode(
        b,
        off + j * DIGEST_ENTRY_SIZE as int,
    ) == s[j] by {
        assert(0 <= j * DIGEST_ENTRY_SIZE as int && (j + 1) * DIGEST_ENTRY_SIZE as int <= n
            * DIGEST_ENTRY_SIZE as int) by (nonlinear_arith)
            requires
                0 <= j < n,
        ;
        lemma_digest_table_encode_window(s, j);
        crate::bytes::lemma_subrange_of_subrange(
            b,
            off,
            n as int * DIGEST_ENTRY_SIZE as int,
            j * DIGEST_ENTRY_SIZE as int,
            (j + 1) * DIGEST_ENTRY_SIZE as int,
        );
        assert(b.subrange(
            off + j * DIGEST_ENTRY_SIZE as int,
            off + (j + 1) * DIGEST_ENTRY_SIZE as int,
        ) == digest::spec_digest_entry_encode(s[j]));
        assert(off + (j + 1) * DIGEST_ENTRY_SIZE as int == (off + j * DIGEST_ENTRY_SIZE as int)
            + DIGEST_ENTRY_SIZE as int) by (nonlinear_arith);
        digest::lemma_digest_entry_roundtrip(s[j], b, off + j * DIGEST_ENTRY_SIZE as int);
    }
    assert(spec_digest_table_decode(b, off, n) =~= s);
}

} // verus!

//! The capability contract: the operations and static layout facts a type
//! must provide to take part in zero-copy encode and decode, together with
//! the laws every implementation proves about them.
use vstd::prelude::*;

use crate::WrapErr;

verus! {

/// The shape of parsing a buffer: either a prefix of `used` bytes decodes to
/// a value, or the input is too short (`needed` bytes were wanted for the
/// field or element under the cursor), or a union discriminant matched no
/// declared variant. The shape is a deterministic function of the buffer, so
/// it pins down exactly when each error is returned; the decoded value itself
/// is related to the consumed bytes by [`FlatSerializable::dec`].
pub enum Outcome {
    Val { used: int },
    Short { needed: int },
    Tag { tag: int },
}

/// The capability contract. A type implementing it has a canonical byte
/// image [`enc`](FlatSerializable::enc), a deterministic parse shape
/// [`parse`](FlatSerializable::parse), and static layout facts; decoding
/// never reads past the supplied buffer and never yields a partial value.
///
/// `'input` is the lifetime of the buffer a decoded value may borrow from:
/// variable-length fields of decoded records are views into the original
/// input, never fresh allocations.
pub trait FlatSerializable<'input>: Sized {
    /// Internal invariant of a value: counts of variable-length parts agree
    /// with the fields that declare them.
    spec fn wf(self) -> bool;

    /// The canonical byte image: fields in declaration order, little-endian,
    /// with zero alignment padding bytes. Its length is the value's concrete
    /// length ([`len`](FlatSerializable::len)).
    spec fn enc(self) -> Seq<u8>;

    /// Model equality: the decoded content is the same, with borrowed slices
    /// compared by the bytes they view.
    spec fn eqv(self, other: Self) -> bool;

    /// `b` is a byte image that decodes, in full, to `v`. Unlike
    /// `b == v.enc()` this tolerates nonzero alignment padding bytes in `b`:
    /// padding is skipped on read and excluded from the decoded value.
    spec fn dec(b: Seq<u8>, v: Self) -> bool;

    /// The deterministic shape of parsing `b`: how many bytes a successful
    /// decode consumes, or which error is returned.
    spec fn parse(b: Seq<u8>) -> Outcome;

    /// Minimum footprint: the byte length with all variable parts empty and
    /// all conditional parts absent.
    spec fn spec_min_len() -> usize;

    /// Alignment the first byte of an image must satisfy.
    spec fn spec_required_alignment() -> usize;

    /// Worst-case alignment statically guaranteed immediately after an
    /// image: `None` when the end offset is statically tracked, `Some(k)`
    /// when an internal variable-length part degrades the guarantee to `k`.
    spec fn spec_max_provided_alignment() -> Option<usize>;

    /// Whether a value may be read and written by one bulk byte copy with no
    /// validation.
    spec fn spec_trivial_copy() -> bool;

    /// Decode a value from the front of `input` without copying the
    /// variable-length parts: a decoded value borrows from `input`. Returns
    /// the value and the unconsumed remainder, or the error that
    /// [`parse`](FlatSerializable::parse) assigns to `input`.
    fn try_ref(input: &'input [u8]) -> (r: Result<(Self, &'input [u8]), WrapErr>)
        ensures
            match r {
                Ok((v, rem)) => {
                    &&& rem@.len() <= input@.len()
                    &&& Self::parse(input@) == (Outcome::Val {
                        used: input@.len() - rem@.len(),
                    })
                    &&& rem@ == input@.subrange(
                        input@.len() - rem@.len(),
                        input@.len() as int,
                    )
                    &&& v.wf()
                    &&& Self::dec(input@.take(input@.len() - rem@.len()), v)
                },
                Err(WrapErr::NotEnoughBytes(n)) => Self::parse(input@) == (Outcome::Short {
                    needed: n as int,
                }),
                Err(WrapErr::InvalidTag(t)) => Self::parse(input@) == (Outcome::Tag {
                    tag: t as int,
                }),
            },
    ;

    /// Append the canonical byte image of `self` to `out`.
    fn fill_vec(&self, out: &mut Vec<u8>)
        requires
            self.wf(),
            old(out)@.len() + self.enc().len() <= usize::MAX,
        ensures
            final(out)@ == old(out)@ + self.enc(),
    ;

    /// The concrete length of the value's byte image.
    fn len(&self) -> (r: usize)
        requires
            self.wf(),
            self.enc().len() <= usize::MAX,
        ensures
            r == self.enc().len(),
    ;

    /// Executable form of [`spec_min_len`](FlatSerializable::spec_min_len).
    fn min_len() -> (r: usize)
        ensures
            r == Self::spec_min_len(),
    ;

    /// Executable form of
    /// [`spec_required_alignment`](FlatSerializable::spec_required_alignment).
    fn required_alignment() -> (r: usize)
        ensures
            r == Self::spec_required_alignment(),
    ;

    /// Executable form of
    /// [`spec_max_provided_alignment`](FlatSerializable::spec_max_provided_alignment).
    fn max_provided_alignment() -> (r: Option<usize>)
        ensures
            r == Self::spec_max_provided_alignment(),
    ;

    /// Executable form of
    /// [`spec_trivial_copy`](FlatSerializable::spec_trivial_copy).
    fn trivial_copy() -> (r: bool)
        ensures
            r == Self::spec_trivial_copy(),
    ;

    /// Law: parsing the canonical image of a well-formed value succeeds,
    /// consumes exactly the image, and decodes back to the value, whatever
    /// bytes follow.
    proof fn lemma_enc_dec(v: Self, extra: Seq<u8>)
        requires
            v.wf(),
        ensures
            Self::parse(v.enc() + extra) == (Outcome::Val { used: v.enc().len() as int }),
            Self::dec(v.enc(), v),
    ;

    /// Law: a byte image decodes to at most one value, up to model equality.
    proof fn lemma_dec_deterministic(b: Seq<u8>, v: Self, w: Self)
        requires
            Self::dec(b, v),
            Self::dec(b, w),
        ensures
            v.eqv(w),
    ;

    /// Law: a decoded value is well formed and its canonical image has the
    /// length of the bytes it was decoded from (padding differs only in
    /// byte values, never in count).
    proof fn lemma_dec_len(b: Seq<u8>, v: Self)
        requires
            Self::dec(b, v),
        ensures
            v.wf(),
            b.len() == v.enc().len(),
    ;

    /// Law: a successful parse consumes at least one byte (every image
    /// carries at least its first fixed field) and no more than the buffer
    /// holds.
    proof fn lemma_parse_bounds(b: Seq<u8>)
        ensures
            Self::parse(b) matches Outcome::Val { used } ==> 1 <= used <= b.len(),
    ;

    /// Law (truncation): cutting a buffer strictly inside the consumed
    /// prefix makes the parse fail with `NotEnoughBytes`.
    proof fn lemma_parse_prefix(b: Seq<u8>, m: int)
        requires
            Self::parse(b) is Val,
            0 <= m <= b.len(),
            m < Self::parse(b)->used,
        ensures
            Self::parse(b.take(m)) is Short,
    ;

    /// Law: a successful parse depends only on the bytes it consumed, so
    /// cutting the buffer anywhere at or after the consumed prefix changes
    /// nothing.
    proof fn lemma_parse_prefix_stable(b: Seq<u8>, m: int)
        requires
            Self::parse(b) is Val,
            Self::parse(b)->used <= m <= b.len(),
        ensures
            Self::parse(b.take(m)) == Self::parse(b),
    ;

    /// Law: a successful parse depends only on the bytes it consumed, so
    /// appending bytes changes nothing.
    proof fn lemma_parse_extend(b: Seq<u8>, c: Seq<u8>)
        requires
            Self::parse(b) is Val,
        ensures
            Self::parse(b + c) == Self::parse(b),
    ;

    /// Law: model equality is reflexive.
    proof fn lemma_eqv_refl(v: Self)
        ensures
            v.eqv(v),
    ;

    /// Law: model-equal values have the same canonical image and the same
    /// well-formedness.
    proof fn lemma_eqv_enc(v: Self, w: Self)
        requires
            v.eqv(w),
        ensures
            v.enc() == w.enc(),
            v.wf() <==> w.wf(),
    ;

    /// Law: alignments are at least one.
    proof fn lemma_layout_sane()
        ensures
            Self::spec_required_alignment() >= 1,
            Self::spec_max_provided_alignment() matches Some(k) ==> k >= 1,
    ;
}

/// Round trip: for any well-formed value `v`, parsing bytes written from `v`
/// (followed by anything) consumes exactly `v.enc().len()` bytes and yields
/// a value model-equal to `v`.
pub proof fn lemma_round_trip<'i, T: FlatSerializable<'i>>(v: T, extra: Seq<u8>)
    requires
        v.wf(),
    ensures
        T::parse(v.enc() + extra) == (Outcome::Val { used: v.enc().len() as int }),
        T::dec(v.enc(), v),
        forall|w: T| T::dec(v.enc(), w) ==> #[trigger] w.eqv(v),
{
    T::lemma_enc_dec(v, extra);
    assert forall|w: T| T::dec(v.enc(), w) implies #[trigger] w.eqv(v) by {
        T::lemma_dec_deterministic(v.enc(), w, v);
    }
}

/// Truncation: whenever parsing `b` succeeds consuming `used` bytes, parsing
/// any strict prefix of those `used` bytes fails with `NotEnoughBytes`.
pub proof fn lemma_truncation<'i, T: FlatSerializable<'i>>(b: Seq<u8>, m: int)
    requires
        T::parse(b) is Val,
        0 <= m <= b.len(),
        m < T::parse(b)->used,
    ensures
        T::parse(b.take(m)) is Short,
{
    T::lemma_parse_prefix(b, m);
}

} // verus!

//! Plain-structure derived records: sequential, unconditional, fixed-shape
//! fields only. The deriver composes the layout facts as for any struct and
//! additionally proves absence of interior padding, which is what makes
//! these types trivially copyable. The derived path reports a bad
//! discriminant as `InvalidTag` carrying the discriminant's byte offset.
use vstd::prelude::*;

use vstd::bytes::lemma_auto_spec_u16_to_from_le_bytes;
use vstd::bytes::spec_u16_from_le_bytes;
use vstd::bytes::spec_u16_to_le_bytes;
use vstd::bytes::spec_u32_from_le_bytes;
use vstd::bytes::spec_u32_to_le_bytes;

use crate::contract::FlatSerializable;
use crate::contract::Outcome;
use crate::layout::spec_plain_no_padding;
use crate::layout::spec_struct_min_len;
use crate::layout::FieldFacts;
use crate::WrapErr;

verus! {

/// A plain two-field record: the deriver proves it free of interior
/// padding, so it is trivially copyable.
#[derive(Clone, Copy, PartialEq, Eq, Structural, Debug)]
pub struct Foo {
    pub a: i32,
    pub b: i32,
}

/// The field list `Foo` was derived from: two `i32` scalars.
pub open spec fn foo_fields() -> Seq<FieldFacts> {
    seq![
        FieldFacts {
            min_len: 4,
            required_alignment: 4,
            provided: 4,
            variable: false,
            trivial: true,
        },
        FieldFacts {
            min_len: 4,
            required_alignment: 4,
            provided: 4,
            variable: false,
            trivial: true,
        },
    ]
}

/// The deriver's rules give `Foo` its layout facts, interior-padding proof
/// included: both field offsets are aligned and the total size is a
/// multiple of the record's alignment.
pub proof fn lemma_foo_facts()
    ensures
        spec_struct_min_len(foo_fields()) == 8,
        foo_fields()[0].required_alignment == 4,
        spec_plain_no_padding(foo_fields(), 0),
        spec_struct_min_len(foo_fields()) % (foo_fields()[0].required_alignment as int) == 0,
{
    reveal_with_fuel(crate::layout::spec_struct_min_len, 4);
    reveal_with_fuel(crate::layout::spec_plain_no_padding, 4);
    let fs = foo_fields();
    assert(fs.drop_first() =~= seq![fs[1]]);
    assert(seq![fs[1]].drop_first() =~= Seq::<FieldFacts>::empty());
}

impl<'i> FlatSerializable<'i> for Foo {
    open spec fn wf(self) -> bool {
        true
    }

    open spec fn enc(self) -> Seq<u8> {
        spec_u32_to_le_bytes(self.a as u32) + spec_u32_to_le_bytes(self.b as u32)
    }

    open spec fn eqv(self, other: Self) -> bool {
        self == other
    }

    open spec fn dec(b: Seq<u8>, v: Self) -> bool {
        &&& b.len() == 8
        &&& v.a == spec_u32_from_le_bytes(b.subrange(0, 4)) as i32
        &&& v.b == spec_u32_from_le_bytes(b.subrange(4, 8)) as i32
    }

    open spec fn parse(b: Seq<u8>) -> Outcome {
        if b.len() < 4 {
            Outcome::Short { needed: 4 }
        } else if b.len() < 8 {
            Outcome::Short { needed: 4 }
        } else {
            Outcome::Val { used: 8 }
        }
    }

    open spec fn spec_min_len() -> usize {
        spec_struct_min_len(foo_fields()) as usize
    }

    open spec fn spec_required_alignment() -> usize {
        foo_fields()[0].required_alignment
    }

    open spec fn spec_max_provided_alignment() -> Option<usize> {
        None
    }

    open spec fn spec_trivial_copy() -> bool {
        spec_plain_no_padding(foo_fields(), 0) && spec_struct_min_len(foo_fields()) % (
        foo_fields()[0].required_alignment as int) == 0
    }

    fn try_ref(input: &'i [u8]) -> (r: Result<(Self, &'i [u8]), WrapErr>) {
        let (a, rem) = match <i32 as FlatSerializable<'i>>::try_ref(input) {
            Ok(p) => p,
            Err(e) => {
                return Err(e);
            },
        };
        let (b, rem2) = match <i32 as FlatSerializable<'i>>::try_ref(rem) {
            Ok(p) => p,
            Err(e) => {
                return Err(e);
            },
        };
        let v = Foo { a, b };
        proof {
            assert(input@.take(8).subrange(0, 4) =~= input@.subrange(0, 4));
            assert(input@.take(4) =~= input@.subrange(0, 4));
            assert(rem@.take(4) =~= input@.take(8).subrange(4, 8));
            assert(rem2@ =~= input@.subrange(8, input@.len() as int));
        }
        Ok((v, rem2))
    }

    fn fill_vec(&self, out: &mut Vec<u8>) {
        self.a.fill_vec(out);
        self.b.fill_vec(out);
        assert(final(out)@ =~= old(out)@ + self.enc());
    }

    fn len(&self) -> (r: usize) {
        proof {
            vstd::bytes::lemma_auto_spec_u32_to_from_le_bytes();
        }
        8
    }

    fn min_len() -> (r: usize) {
        proof {
            lemma_foo_facts();
        }
        8
    }

    fn required_alignment() -> (r: usize) {
        4
    }

    fn max_provided_alignment() -> (r: Option<usize>) {
        None
    }

    fn trivial_copy() -> (r: bool) {
        proof {
            lemma_foo_facts();
        }
        true
    }

    proof fn lemma_enc_dec(v: Self, extra: Seq<u8>) {
        vstd::bytes::lemma_auto_spec_u32_to_from_le_bytes();
        let b = v.enc() + extra;
        assert(b.subrange(0, 4) =~= spec_u32_to_le_bytes(v.a as u32));
        assert(b.subrange(4, 8) =~= spec_u32_to_le_bytes(v.b as u32));
        assert(v.enc().subrange(0, 4) =~= spec_u32_to_le_bytes(v.a as u32));
        assert(v.enc().subrange(4, 8) =~= spec_u32_to_le_bytes(v.b as u32));
        let x = v.a;
        let y = v.b;
        assert(((x as u32) as i32) == x) by (bit_vector);
        assert(((y as u32) as i32) == y) by (bit_vector);
    }

    proof fn lemma_dec_deterministic(b: Seq<u8>, v: Self, w: Self) {
    }

    proof fn lemma_dec_len(b: Seq<u8>, v: Self) {
        vstd::bytes::lemma_auto_spec_u32_to_from_le_bytes();
    }

    proof fn lemma_parse_bounds(b: Seq<u8>) {
    }

    proof fn lemma_parse_prefix(b: Seq<u8>, m: int) {
    }

    proof fn lemma_parse_prefix_stable(b: Seq<u8>, m: int) {
    }

    proof fn lemma_parse_extend(b: Seq<u8>, c: Seq<u8>) {
    }

    proof fn lemma_eqv_refl(v: Self) {
    }

    proof fn lemma_eqv_enc(v: Self, w: Self) {
    }

    proof fn lemma_layout_sane() {
        lemma_foo_facts();
    }
}

/// A fieldless derived enum carried as a `u16` discriminant: `A` is tag 0,
/// `B` is tag 1111. Any other discriminant fails with `InvalidTag(0)`, the
/// discriminant's byte offset.
#[derive(Clone, Copy, PartialEq, Eq, Structural, Debug)]
pub enum Bar {
    A,
    B,
}

impl Bar {
    /// The literal discriminant carried on the wire for each variant.
    pub open spec fn spec_tag(self) -> u16 {
        match self {
            Bar::A => 0,
            Bar::B => 1111,
        }
    }

    /// Executable form of [`Bar::spec_tag`].
    pub fn tag(&self) -> (r: u16)
        ensures
            r == self.spec_tag(),
    {
        match self {
            Bar::A => 0,
            Bar::B => 1111,
        }
    }
}

impl<'i> FlatSerializable<'i> for Bar {
    open spec fn wf(self) -> bool {
        true
    }

    open spec fn enc(self) -> Seq<u8> {
        spec_u16_to_le_bytes(self.spec_tag())
    }

    open spec fn eqv(self, other: Self) -> bool {
        self == other
    }

    open spec fn dec(b: Seq<u8>, v: Self) -> bool {
        b.len() == 2 && spec_u16_from_le_bytes(b) == v.spec_tag()
    }

    open spec fn parse(b: Seq<u8>) -> Outcome {
        if b.len() < 2 {
            Outcome::Short { needed: 2 }
        } else {
            let k = spec_u16_from_le_bytes(b.subrange(0, 2));
            if k == 0 || k == 1111 {
                Outcome::Val { used: 2 }
            } else {
                Outcome::Tag { tag: 0 }
            }
        }
    }

    open spec fn spec_min_len() -> usize {
        2
    }

    open spec fn spec_required_alignment() -> usize {
        2
    }

    open spec fn spec_max_provided_alignment() -> Option<usize> {
        None
    }

    open spec fn spec_trivial_copy() -> bool {
        true
    }

    fn try_ref(input: &'i [u8]) -> (r: Result<(Self, &'i [u8]), WrapErr>) {
        let (k, rem) = match <u16 as FlatSerializable<'i>>::try_ref(input) {
            Ok(p) => p,
            Err(e) => {
                return Err(e);
            },
        };
        proof {
            assert(input@.take(2) =~= input@.subrange(0, 2));
        }
        if k == 0 {
            Ok((Bar::A, rem))
        } else if k == 1111 {
            Ok((Bar::B, rem))
        } else {
            Err(WrapErr::InvalidTag(0))
        }
    }

    fn fill_vec(&self, out: &mut Vec<u8>) {
        let t = self.tag();
        t.fill_vec(out);
    }

    fn len(&self) -> (r: usize) {
        proof {
            lemma_auto_spec_u16_to_from_le_bytes();
        }
        2
    }

    fn min_len() -> (r: usize) {
        2
    }

    fn required_alignment() -> (r: usize) {
        2
    }

    fn max_provided_alignment() -> (r: Option<usize>) {
        None
    }

    fn trivial_copy() -> (r: bool) {
        true
    }

    proof fn lemma_enc_dec(v: Self, extra: Seq<u8>) {
        lemma_auto_spec_u16_to_from_le_bytes();
        let b = v.enc() + extra;
        assert(b.subrange(0, 2) =~= v.enc());
    }

    proof fn lemma_dec_deterministic(b: Seq<u8>, v: Self, w: Self) {
    }

    proof fn lemma_dec_len(b: Seq<u8>, v: Self) {
        lemma_auto_spec_u16_to_from_le_bytes();
    }

    proof fn lemma_parse_bounds(b: Seq<u8>) {
    }

    proof fn lemma_parse_prefix(b: Seq<u8>, m: int) {
    }

    proof fn lemma_parse_prefix_stable(b: Seq<u8>, m: int) {
        assert(b.take(m).subrange(0, 2) =~= b.subrange(0, 2));
    }

    proof fn lemma_parse_extend(b: Seq<u8>, c: Seq<u8>) {
        assert((b + c).subrange(0, 2) =~= b.subrange(0, 2));
    }

    proof fn lemma_eqv_refl(v: Self) {
    }

    proof fn lemma_eqv_enc(v: Self, w: Self) {
    }

    proof fn lemma_layout_sane() {
    }
}

} // verus!

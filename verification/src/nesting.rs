//! Nested record shapes: records containing other compiled records — plain
//! nesting, a conditional nested record, and a counted sequence of nested
//! records whose elements are re-aligned with padding. Their contracts are
//! proved from the nested types' own capability laws.
use vstd::prelude::*;

use vstd::bytes::lemma_auto_spec_u64_to_from_le_bytes;
use vstd::bytes::spec_u64_from_le_bytes;
use vstd::bytes::spec_u64_to_le_bytes;

use crate::contract::FlatSerializable;
use crate::contract::Outcome;
use crate::layout::spec_struct_facts;
use crate::layout::spec_struct_min_len;
use crate::layout::FieldFacts;
use crate::layout::RecordFacts;
use crate::records::Basic;
use crate::records::Optional;
use crate::sequence::lemma_enc_region;
use crate::sequence::lemma_iterable_elems_wf;
use crate::sequence::lemma_region_deterministic;
use crate::sequence::lemma_region_len;
use crate::sequence::lemma_seq_parse_bounds;
use crate::sequence::lemma_seq_parse_extend;
use crate::sequence::lemma_seq_parse_prefix;
use crate::sequence::lemma_seq_parse_prefix_stable;
use crate::sequence::lemma_seq_parse_prepend;
use crate::sequence::len_of_iterable;
use crate::sequence::seq_enc;
use crate::sequence::seq_parse;
use crate::sequence::Iterable;
use crate::sequence::Slice;
use crate::WrapErr;

verus! {

/// A record nested inside another: a fixed prefix, then a whole `Basic`.
#[derive(Clone, Copy)]
pub struct Nested<'input> {
    pub prefix: u64,
    pub basic: Basic<'input>,
}

/// The field list `Nested` was compiled from: a `u64` scalar, then the
/// nested `Basic` record (variable shape, worst-case guarantee one).
pub open spec fn nested_fields() -> Seq<FieldFacts> {
    seq![
        FieldFacts {
            min_len: 8,
            required_alignment: 8,
            provided: 8,
            variable: false,
            trivial: true,
        },
        FieldFacts {
            min_len: 18,
            required_alignment: 8,
            provided: 1,
            variable: true,
            trivial: false,
        },
    ]
}

/// The composition rules give `Nested` its layout facts.
pub proof fn lemma_nested_facts()
    ensures
        spec_struct_facts(nested_fields()) == (RecordFacts {
            min_len: 26,
            required_alignment: 8,
            max_provided_alignment: Some(1),
            trivial_copy: false,
            fixed_shape: false,
        }),
{
    reveal_with_fuel(crate::layout::spec_struct_min_len, 4);
    reveal_with_fuel(crate::layout::spec_fold_provided, 4);
    let fs = nested_fields();
    assert(fs.drop_first() =~= seq![fs[1]]);
    assert(seq![fs[1]].drop_first() =~= Seq::<FieldFacts>::empty());
    assert(!(spec_struct_facts(fs).fixed_shape)) by {
        assert(fs[1].variable);
    }
}

impl<'i> FlatSerializable<'i> for Nested<'i> {
    open spec fn wf(self) -> bool {
        self.basic.wf()
    }

    open spec fn enc(self) -> Seq<u8> {
        spec_u64_to_le_bytes(self.prefix) + self.basic.enc()
    }

    open spec fn eqv(self, other: Self) -> bool {
        self.prefix == other.prefix && self.basic.eqv(other.basic)
    }

    open spec fn dec(b: Seq<u8>, v: Self) -> bool {
        &&& b.len() >= 8
        &&& v.prefix == spec_u64_from_le_bytes(b.subrange(0, 8))
        &&& <Basic<'i> as FlatSerializable<'i>>::dec(b.subrange(8, b.len() as int), v.basic)
    }

    open spec fn parse(b: Seq<u8>) -> Outcome {
        if b.len() < 8 {
            Outcome::Short { needed: 8 }
        } else {
            match <Basic<'i> as FlatSerializable<'i>>::parse(b.skip(8)) {
                Outcome::Val { used } => Outcome::Val { used: 8 + used },
                Outcome::Short { needed } => Outcome::Short { needed },
                Outcome::Tag { tag } => Outcome::Tag { tag },
            }
        }
    }

    open spec fn spec_min_len() -> usize {
        spec_struct_facts(nested_fields()).min_len
    }

    open spec fn spec_required_alignment() -> usize {
        spec_struct_facts(nested_fields()).required_alignment
    }

    open spec fn spec_max_provided_alignment() -> Option<usize> {
        spec_struct_facts(nested_fields()).max_provided_alignment
    }

    open spec fn spec_trivial_copy() -> bool {
        spec_struct_facts(nested_fields()).trivial_copy
    }

    fn try_ref(input: &'i [u8]) -> (r: Result<(Self, &'i [u8]), WrapErr>) {
        let (prefix, rem) = match <u64 as FlatSerializable<'i>>::try_ref(input) {
            Ok(p) => p,
            Err(e) => {
                return Err(e);
            },
        };
        proof {
            assert(input@.take(8) =~= input@.subrange(0, 8));
            assert(rem@ =~= input@.skip(8));
        }
        let (basic, rem2) = match <Basic<'i> as FlatSerializable<'i>>::try_ref(rem) {
            Ok(p) => p,
            Err(e) => {
                return Err(e);
            },
        };
        let v = Nested { prefix, basic };
        proof {
            let used_b = rem@.len() - rem2@.len();
            let b = input@.take(8 + used_b);
            assert(b.subrange(0, 8) =~= input@.subrange(0, 8));
            assert(b.subrange(8, b.len() as int) =~= rem@.take(used_b));
            assert(rem2@ =~= input@.subrange(input@.len() - rem2@.len(), input@.len() as int));
        }
        Ok((v, rem2))
    }

    fn fill_vec(&self, out: &mut Vec<u8>) {
        self.prefix.fill_vec(out);
        self.basic.fill_vec(out);
        assert(final(out)@ =~= old(out)@ + self.enc());
    }

    fn len(&self) -> (r: usize) {
        proof {
            lemma_auto_spec_u64_to_from_le_bytes();
        }
        let n = self.basic.len();
        8 + n
    }

    fn min_len() -> (r: usize) {
        proof {
            lemma_nested_facts();
        }
        26
    }

    fn required_alignment() -> (r: usize) {
        proof {
            lemma_nested_facts();
        }
        8
    }

    fn max_provided_alignment() -> (r: Option<usize>) {
        proof {
            lemma_nested_facts();
        }
        Some(1)
    }

    fn trivial_copy() -> (r: bool) {
        proof {
            lemma_nested_facts();
        }
        false
    }

    proof fn lemma_enc_dec(v: Self, extra: Seq<u8>) {
        lemma_auto_spec_u64_to_from_le_bytes();
        let b = v.enc() + extra;
        <Basic<'i> as FlatSerializable<'i>>::lemma_enc_dec(v.basic, extra);
        assert(b.subrange(0, 8) =~= spec_u64_to_le_bytes(v.prefix));
        assert(b.skip(8) =~= v.basic.enc() + extra);
        assert(v.enc().subrange(0, 8) =~= spec_u64_to_le_bytes(v.prefix));
        assert(v.enc().subrange(8, v.enc().len() as int) =~= v.basic.enc());
    }

    proof fn lemma_dec_deterministic(b: Seq<u8>, v: Self, w: Self) {
        <Basic<'i> as FlatSerializable<'i>>::lemma_dec_deterministic(
            b.subrange(8, b.len() as int),
            v.basic,
            w.basic,
        );
    }

    proof fn lemma_dec_len(b: Seq<u8>, v: Self) {
        lemma_auto_spec_u64_to_from_le_bytes();
        <Basic<'i> as FlatSerializable<'i>>::lemma_dec_len(
            b.subrange(8, b.len() as int),
            v.basic,
        );
    }

    proof fn lemma_parse_bounds(b: Seq<u8>) {
        if b.len() >= 8 {
            <Basic<'i> as FlatSerializable<'i>>::lemma_parse_bounds(b.skip(8));
        }
    }

    proof fn lemma_parse_prefix(b: Seq<u8>, m: int) {
        <Basic<'i> as FlatSerializable<'i>>::lemma_parse_bounds(b.skip(8));
        if m >= 8 {
            assert(b.take(m).subrange(0, 8) =~= b.subrange(0, 8));
            assert(b.take(m).skip(8) =~= b.skip(8).take(m - 8));
            <Basic<'i> as FlatSerializable<'i>>::lemma_parse_prefix(b.skip(8), m - 8);
        }
    }

    proof fn lemma_parse_prefix_stable(b: Seq<u8>, m: int) {
        <Basic<'i> as FlatSerializable<'i>>::lemma_parse_bounds(b.skip(8));
        assert(b.take(m).subrange(0, 8) =~= b.subrange(0, 8));
        assert(b.take(m).skip(8) =~= b.skip(8).take(m - 8));
        <Basic<'i> as FlatSerializable<'i>>::lemma_parse_prefix_stable(b.skip(8), m - 8);
    }

    proof fn lemma_parse_extend(b: Seq<u8>, c: Seq<u8>) {
        assert((b + c).subrange(0, 8) =~= b.subrange(0, 8));
        assert((b + c).skip(8) =~= b.skip(8) + c);
        <Basic<'i> as FlatSerializable<'i>>::lemma_parse_extend(b.skip(8), c);
    }

    proof fn lemma_eqv_refl(v: Self) {
        <Basic<'i> as FlatSerializable<'i>>::lemma_eqv_refl(v.basic);
    }

    proof fn lemma_eqv_enc(v: Self, w: Self) {
        <Basic<'i> as FlatSerializable<'i>>::lemma_eqv_enc(v.basic, w.basic);
    }

    proof fn lemma_layout_sane() {
        lemma_nested_facts();
    }
}

/// A conditional nested record: the whole `Optional` record is present
/// exactly when `present > 2`.
#[derive(Clone, Copy, PartialEq, Eq, Debug)]
pub struct NestedOptional {
    pub present: u64,
    pub val: Option<Optional>,
}

/// The field list `NestedOptional` was compiled from: a `u64` scalar, then
/// a conditional nested `Optional`.
pub open spec fn nested_optional_fields() -> Seq<FieldFacts> {
    seq![
        FieldFacts {
            min_len: 8,
            required_alignment: 8,
            provided: 8,
            variable: false,
            trivial: true,
        },
        FieldFacts {
            min_len: 0,
            required_alignment: 8,
            provided: 2,
            variable: true,
            trivial: false,
        },
    ]
}

/// The composition rules give `NestedOptional` its layout facts.
pub proof fn lemma_nested_optional_facts()
    ensures
        spec_struct_facts(nested_optional_fields()) == (RecordFacts {
            min_len: 8,
            required_alignment: 8,
            max_provided_alignment: Some(2),
            trivial_copy: false,
            fixed_shape: false,
        }),
{
    reveal_with_fuel(crate::layout::spec_struct_min_len, 4);
    reveal_with_fuel(crate::layout::spec_fold_provided, 4);
    let fs = nested_optional_fields();
    assert(fs.drop_first() =~= seq![fs[1]]);
    assert(seq![fs[1]].drop_first() =~= Seq::<FieldFacts>::empty());
    assert(!(spec_struct_facts(fs).fixed_shape)) by {
        assert(fs[1].variable);
    }
}

impl<'i> FlatSerializable<'i> for NestedOptional {
    open spec fn wf(self) -> bool {
        &&& self.present > 2 <==> self.val is Some
        &&& (self.val matches Some(o) ==> o.wf())
    }

    open spec fn enc(self) -> Seq<u8> {
        spec_u64_to_le_bytes(self.present) + (match self.val {
            Some(o) => o.enc(),
            None => Seq::empty(),
        })
    }

    open spec fn eqv(self, other: Self) -> bool {
        self == other
    }

    open spec fn dec(b: Seq<u8>, v: Self) -> bool {
        let hdr = spec_u64_from_le_bytes(b.subrange(0, 8));
        if b.len() >= 8 && hdr > 2 {
            &&& v.present == hdr
            &&& v.val matches Some(o)
            &&& <Optional as FlatSerializable<'i>>::dec(b.subrange(8, b.len() as int), o)
        } else {
            &&& b.len() == 8
            &&& v.present == hdr
            &&& hdr <= 2
            &&& v.val is None
        }
    }

    open spec fn parse(b: Seq<u8>) -> Outcome {
        if b.len() < 8 {
            Outcome::Short { needed: 8 }
        } else {
            let hdr = spec_u64_from_le_bytes(b.subrange(0, 8));
            if hdr > 2 {
                match <Optional as FlatSerializable<'i>>::parse(b.skip(8)) {
                    Outcome::Val { used } => Outcome::Val { used: 8 + used },
                    Outcome::Short { needed } => Outcome::Short { needed },
                    Outcome::Tag { tag } => Outcome::Tag { tag },
                }
            } else {
                Outcome::Val { used: 8 }
            }
        }
    }

    open spec fn spec_min_len() -> usize {
        spec_struct_facts(nested_optional_fields()).min_len
    }

    open spec fn spec_required_alignment() -> usize {
        spec_struct_facts(nested_optional_fields()).required_alignment
    }

    open spec fn spec_max_provided_alignment() -> Option<usize> {
        spec_struct_facts(nested_optional_fields()).max_provided_alignment
    }

    open spec fn spec_trivial_copy() -> bool {
        spec_struct_facts(nested_optional_fields()).trivial_copy
    }

    fn try_ref(input: &'i [u8]) -> (r: Result<(Self, &'i [u8]), WrapErr>) {
        let (present, rem) = match <u64 as FlatSerializable<'i>>::try_ref(input) {
            Ok(p) => p,
            Err(e) => {
                return Err(e);
            },
        };
        proof {
            assert(input@.take(8) =~= input@.subrange(0, 8));
            assert(rem@ =~= input@.skip(8));
        }
        if present > 2 {
            let (o, rem2) = match <Optional as FlatSerializable<'i>>::try_ref(rem) {
                Ok(p) => p,
                Err(e) => {
                    return Err(e);
                },
            };
            let v = NestedOptional { present, val: Some(o) };
            proof {
                let used_o = rem@.len() - rem2@.len();
                let b = input@.take(8 + used_o);
                assert(b.subrange(0, 8) =~= input@.subrange(0, 8));
                assert(b.subrange(8, b.len() as int) =~= rem@.take(used_o));
                assert(rem2@ =~= input@.subrange(
                    input@.len() - rem2@.len(),
                    input@.len() as int,
                ));
            }
            Ok((v, rem2))
        } else {
            let v = NestedOptional { present, val: None };
            proof {
                assert(input@.take(8).subrange(0, 8) =~= input@.subrange(0, 8));
            }
            Ok((v, rem))
        }
    }

    fn fill_vec(&self, out: &mut Vec<u8>) {
        self.present.fill_vec(out);
        match self.val {
            Some(o) => {
                o.fill_vec(out);
            },
            None => {},
        }
        assert(final(out)@ =~= old(out)@ + self.enc());
    }

    fn len(&self) -> (r: usize) {
        proof {
            lemma_auto_spec_u64_to_from_le_bytes();
        }
        match &self.val {
            Some(o) => {
                let n = o.len();
                8 + n
            },
            None => 8,
        }
    }

    fn min_len() -> (r: usize) {
        proof {
            lemma_nested_optional_facts();
        }
        8
    }

    fn required_alignment() -> (r: usize) {
        proof {
            lemma_nested_optional_facts();
        }
        8
    }

    fn max_provided_alignment() -> (r: Option<usize>) {
        proof {
            lemma_nested_optional_facts();
        }
        Some(2)
    }

    fn trivial_copy() -> (r: bool) {
        proof {
            lemma_nested_optional_facts();
        }
        false
    }

    proof fn lemma_enc_dec(v: Self, extra: Seq<u8>) {
        lemma_auto_spec_u64_to_from_le_bytes();
        let b = v.enc() + extra;
        assert(b.subrange(0, 8) =~= spec_u64_to_le_bytes(v.present));
        match v.val {
            Some(o) => {
                <Optional as FlatSerializable<'i>>::lemma_enc_dec(o, extra);
                <Optional as FlatSerializable<'i>>::lemma_enc_dec(o, Seq::empty());
                assert(b.skip(8) =~= o.enc() + extra);
                assert(v.enc().subrange(0, 8) =~= spec_u64_to_le_bytes(v.present));
                assert(v.enc().subrange(8, v.enc().len() as int) =~= o.enc());
                <Optional as FlatSerializable<'i>>::lemma_parse_bounds(o.enc() + extra);
            },
            None => {
                assert(v.enc().subrange(0, 8) =~= spec_u64_to_le_bytes(v.present));
                assert(v.enc().len() == 8);
            },
        }
    }

    proof fn lemma_dec_deterministic(b: Seq<u8>, v: Self, w: Self) {
        let hdr = spec_u64_from_le_bytes(b.subrange(0, 8));
        if b.len() >= 8 && hdr > 2 {
            <Optional as FlatSerializable<'i>>::lemma_dec_deterministic(
                b.subrange(8, b.len() as int),
                v.val->0,
                w.val->0,
            );
        }
    }

    proof fn lemma_dec_len(b: Seq<u8>, v: Self) {
        lemma_auto_spec_u64_to_from_le_bytes();
        let hdr = spec_u64_from_le_bytes(b.subrange(0, 8));
        if b.len() >= 8 && hdr > 2 {
            <Optional as FlatSerializable<'i>>::lemma_dec_len(
                b.subrange(8, b.len() as int),
                v.val->0,
            );
        }
    }

    proof fn lemma_parse_bounds(b: Seq<u8>) {
        if b.len() >= 8 {
            <Optional as FlatSerializable<'i>>::lemma_parse_bounds(b.skip(8));
        }
    }

    proof fn lemma_parse_prefix(b: Seq<u8>, m: int) {
        <Optional as FlatSerializable<'i>>::lemma_parse_bounds(b.skip(8));
        if m >= 8 {
            assert(b.take(m).subrange(0, 8) =~= b.subrange(0, 8));
            assert(b.take(m).skip(8) =~= b.skip(8).take(m - 8));
            <Optional as FlatSerializable<'i>>::lemma_parse_prefix(b.skip(8), m - 8);
        }
    }

    proof fn lemma_parse_prefix_stable(b: Seq<u8>, m: int) {
        <Optional as FlatSerializable<'i>>::lemma_parse_bounds(b.skip(8));
        assert(b.take(m).subrange(0, 8) =~= b.subrange(0, 8));
        let hdr = spec_u64_from_le_bytes(b.subrange(0, 8));
        if hdr > 2 {
            assert(b.take(m).skip(8) =~= b.skip(8).take(m - 8));
            <Optional as FlatSerializable<'i>>::lemma_parse_prefix_stable(b.skip(8), m - 8);
        }
    }

    proof fn lemma_parse_extend(b: Seq<u8>, c: Seq<u8>) {
        assert((b + c).subrange(0, 8) =~= b.subrange(0, 8));
        let hdr = spec_u64_from_le_bytes(b.subrange(0, 8));
        if hdr > 2 {
            assert((b + c).skip(8) =~= b.skip(8) + c);
            <Optional as FlatSerializable<'i>>::lemma_parse_extend(b.skip(8), c);
        }
    }

    proof fn lemma_eqv_refl(v: Self) {
    }

    proof fn lemma_eqv_enc(v: Self, w: Self) {
    }

    proof fn lemma_layout_sane() {
        lemma_nested_optional_facts();
    }
}

/// A counted sequence of nested records: `num_vals` whole `Optional`
/// records, each padded on the wire up to `Optional`'s required alignment.
#[derive(Clone, Copy)]
pub struct NestedSlice<'input> {
    pub num_vals: u64,
    pub vals: Iterable<'input, Optional>,
}

/// The field list `NestedSlice` was compiled from: a `u64` scalar, then a
/// sequence of nested `Optional` records.
pub open spec fn nested_slice_fields() -> Seq<FieldFacts> {
    seq![
        FieldFacts {
            min_len: 8,
            required_alignment: 8,
            provided: 8,
            variable: false,
            trivial: true,
        },
        FieldFacts {
            min_len: 0,
            required_alignment: 8,
            provided: 8,
            variable: true,
            trivial: false,
        },
    ]
}

/// The composition rules give `NestedSlice` its layout facts: the sequence
/// pads every element to `Optional`'s required alignment, so the sequence
/// itself still guarantees that alignment after the record.
pub proof fn lemma_nested_slice_facts()
    ensures
        spec_struct_facts(nested_slice_fields()) == (RecordFacts {
            min_len: 8,
            required_alignment: 8,
            max_provided_alignment: Some(8),
            trivial_copy: false,
            fixed_shape: false,
        }),
{
    reveal_with_fuel(crate::layout::spec_struct_min_len, 4);
    reveal_with_fuel(crate::layout::spec_fold_provided, 4);
    let fs = nested_slice_fields();
    assert(fs.drop_first() =~= seq![fs[1]]);
    assert(seq![fs[1]].drop_first() =~= Seq::<FieldFacts>::empty());
    assert(!(spec_struct_facts(fs).fixed_shape)) by {
        assert(fs[1].variable);
    }
}

impl<'i> FlatSerializable<'i> for NestedSlice<'i> {
    open spec fn wf(self) -> bool {
        &&& self.vals.wf()
        &&& self.num_vals as usize as int <= self.vals.elems().len()
    }

    open spec fn enc(self) -> Seq<u8> {
        spec_u64_to_le_bytes(self.num_vals) + seq_enc(
            self.vals.elems().take(self.num_vals as usize as int),
        )
    }

    open spec fn eqv(self, other: Self) -> bool {
        let c = self.num_vals as usize as int;
        &&& self.num_vals == other.num_vals
        &&& self.vals.elems().take(c) == other.vals.elems().take(c)
        &&& (self.wf() <==> other.wf())
    }

    open spec fn dec(b: Seq<u8>, v: Self) -> bool {
        let nv = spec_u64_from_le_bytes(b.subrange(0, 8));
        &&& b.len() >= 8
        &&& v.num_vals == nv
        &&& <Iterable<'i, Optional> as Slice<'i>>::dec_n(
            b.subrange(8, b.len() as int),
            nv as usize as int,
            v.vals,
        )
    }

    open spec fn parse(b: Seq<u8>) -> Outcome {
        if b.len() < 8 {
            Outcome::Short { needed: 8 }
        } else {
            let nv = spec_u64_from_le_bytes(b.subrange(0, 8));
            match seq_parse::<'i, Optional>(b.skip(8), nv as usize as int) {
                Outcome::Val { used } => Outcome::Val { used: 8 + used },
                Outcome::Short { needed } => Outcome::Short { needed },
                Outcome::Tag { tag } => Outcome::Tag { tag },
            }
        }
    }

    open spec fn spec_min_len() -> usize {
        spec_struct_facts(nested_slice_fields()).min_len
    }

    open spec fn spec_required_alignment() -> usize {
        spec_struct_facts(nested_slice_fields()).required_alignment
    }

    open spec fn spec_max_provided_alignment() -> Option<usize> {
        spec_struct_facts(nested_slice_fields()).max_provided_alignment
    }

    open spec fn spec_trivial_copy() -> bool {
        spec_struct_facts(nested_slice_fields()).trivial_copy
    }

    fn try_ref(input: &'i [u8]) -> (r: Result<(Self, &'i [u8]), WrapErr>) {
        let (num_vals, rem) = match <u64 as FlatSerializable<'i>>::try_ref(input) {
            Ok(p) => p,
            Err(e) => {
                return Err(e);
            },
        };
        proof {
            assert(input@.take(8) =~= input@.subrange(0, 8));
            assert(rem@ =~= input@.skip(8));
        }
        let count = num_vals as usize;
        let (vals, rem2) = match <Iterable<'i, Optional> as Slice<'i>>::try_ref(rem, count) {
            Ok(p) => p,
            Err(e) => {
                return Err(e);
            },
        };
        let v = NestedSlice { num_vals, vals };
        proof {
            let used_s = rem@.len() - rem2@.len();
            let b = input@.take(8 + used_s);
            assert(b.subrange(0, 8) =~= input@.subrange(0, 8));
            assert(b.subrange(8, b.len() as int) =~= rem@.take(used_s));
            assert(rem2@ =~= input@.subrange(input@.len() - rem2@.len(), input@.len() as int));
        }
        Ok((v, rem2))
    }

    fn fill_vec(&self, out: &mut Vec<u8>) {
        self.num_vals.fill_vec(out);
        self.vals.fill_slice(self.num_vals as usize, out);
        assert(final(out)@ =~= old(out)@ + self.enc());
    }

    fn len(&self) -> (r: usize) {
        proof {
            lemma_auto_spec_u64_to_from_le_bytes();
        }
        let n = len_of_iterable(&self.vals, self.num_vals as usize);
        8 + n
    }

    fn min_len() -> (r: usize) {
        proof {
            lemma_nested_slice_facts();
        }
        8
    }

    fn required_alignment() -> (r: usize) {
        proof {
            lemma_nested_slice_facts();
        }
        8
    }

    fn max_provided_alignment() -> (r: Option<usize>) {
        proof {
            lemma_nested_slice_facts();
        }
        Some(8)
    }

    fn trivial_copy() -> (r: bool) {
        proof {
            lemma_nested_slice_facts();
        }
        false
    }

    proof fn lemma_enc_dec(v: Self, extra: Seq<u8>) {
        lemma_auto_spec_u64_to_from_le_bytes();
        let c = v.num_vals as usize as int;
        let region = seq_enc(v.vals.elems().take(c));
        let b = v.enc() + extra;
        assert(b.subrange(0, 8) =~= spec_u64_to_le_bytes(v.num_vals));
        lemma_iterable_elems_wf(v.vals);
        assert(forall|j: int|
            0 <= j < v.vals.elems().take(c).len() ==> (#[trigger] v.vals.elems().take(
                c,
            )[j]).wf());
        lemma_enc_region(v.vals.elems().take(c));
        lemma_seq_parse_prepend::<'i, Optional>(region, v.vals.elems().take(c), extra, 0);
        assert(b.skip(8) =~= region + extra);
        assert(v.enc().subrange(0, 8) =~= spec_u64_to_le_bytes(v.num_vals));
        assert(v.enc().subrange(8, v.enc().len() as int) =~= region);
    }

    proof fn lemma_dec_deterministic(b: Seq<u8>, v: Self, w: Self) {
        let nv = spec_u64_from_le_bytes(b.subrange(0, 8));
        let c = nv as usize as int;
        let region = b.subrange(8, b.len() as int);
        lemma_region_deterministic(region, v.vals.elems().take(c), w.vals.elems().take(c));
        assert(v.vals.elems().take(c) =~= w.vals.elems().take(c)) by {
            assert forall|j: int|
                0 <= j < c implies v.vals.elems().take(c)[j] == w.vals.elems().take(c)[j] by {
                assert(v.vals.elems().take(c)[j].eqv(w.vals.elems().take(c)[j]));
            }
        }
    }

    proof fn lemma_dec_len(b: Seq<u8>, v: Self) {
        lemma_auto_spec_u64_to_from_le_bytes();
        let nv = spec_u64_from_le_bytes(b.subrange(0, 8));
        let c = nv as usize as int;
        let region = b.subrange(8, b.len() as int);
        lemma_region_len(region, v.vals.elems().take(c));
    }

    proof fn lemma_parse_bounds(b: Seq<u8>) {
        if b.len() >= 8 {
            let nv = spec_u64_from_le_bytes(b.subrange(0, 8));
            lemma_seq_parse_bounds::<'i, Optional>(b.skip(8), nv as usize as int);
        }
    }

    proof fn lemma_parse_prefix(b: Seq<u8>, m: int) {
        let nv = spec_u64_from_le_bytes(b.subrange(0, 8));
        let c = nv as usize as int;
        lemma_seq_parse_bounds::<'i, Optional>(b.skip(8), c);
        if m >= 8 {
            assert(b.take(m).subrange(0, 8) =~= b.subrange(0, 8));
            assert(b.take(m).skip(8) =~= b.skip(8).take(m - 8));
            lemma_seq_parse_prefix::<'i, Optional>(b.skip(8), m - 8, c);
        }
    }

    proof fn lemma_parse_prefix_stable(b: Seq<u8>, m: int) {
        let nv = spec_u64_from_le_bytes(b.subrange(0, 8));
        let c = nv as usize as int;
        lemma_seq_parse_bounds::<'i, Optional>(b.skip(8), c);
        assert(b.take(m).subrange(0, 8) =~= b.subrange(0, 8));
        assert(b.take(m).skip(8) =~= b.skip(8).take(m - 8));
        lemma_seq_parse_prefix_stable::<'i, Optional>(b.skip(8), m - 8, c);
    }

    proof fn lemma_parse_extend(b: Seq<u8>, c: Seq<u8>) {
        let nv = spec_u64_from_le_bytes(b.subrange(0, 8));
        assert((b + c).subrange(0, 8) =~= b.subrange(0, 8));
        assert((b + c).skip(8) =~= b.skip(8) + c);
        lemma_seq_parse_extend::<'i, Optional>(b.skip(8), c, nv as usize as int);
    }

    proof fn lemma_eqv_refl(v: Self) {
    }

    proof fn lemma_eqv_enc(v: Self, w: Self) {
    }

    proof fn lemma_layout_sane() {
        lemma_nested_slice_facts();
    }
}

} // verus!

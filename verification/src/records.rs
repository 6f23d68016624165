//! Compiled record shapes with conditional and variable-length fields: the
//! output of the schema compiler's struct rules, written out as concrete
//! capability implementations. Each type's layout facts are proved equal to
//! the composition rules applied to its field list.
use vstd::prelude::*;

use vstd::bytes::lemma_auto_spec_u16_to_from_le_bytes;
use vstd::bytes::lemma_auto_spec_u32_to_from_le_bytes;
use vstd::bytes::lemma_auto_spec_u64_to_from_le_bytes;
use vstd::bytes::spec_u16_from_le_bytes;
use vstd::bytes::spec_u16_to_le_bytes;
use vstd::bytes::spec_u32_from_le_bytes;
use vstd::bytes::spec_u32_to_le_bytes;
use vstd::bytes::spec_u64_from_le_bytes;
use vstd::bytes::spec_u64_to_le_bytes;

use crate::contract::FlatSerializable;
use crate::contract::Outcome;
use crate::layout::spec_struct_facts;
use crate::layout::spec_struct_min_len;
use crate::layout::FieldFacts;
use crate::layout::RecordFacts;
use crate::sequence::lemma_enc_region;
use crate::sequence::lemma_iterable_elems_wf;
use crate::sequence::lemma_region_deterministic;
use crate::sequence::lemma_region_len;
use crate::sequence::lemma_seq_parse_bounds;
use crate::sequence::lemma_seq_parse_extend;
use crate::sequence::lemma_seq_parse_prefix;
use crate::sequence::lemma_seq_parse_prefix_stable;
use crate::sequence::lemma_seq_parse_prepend;
use crate::sequence::len_of_iterable;
use crate::sequence::seq_enc;
use crate::sequence::seq_parse;
use crate::sequence::Iterable;
use crate::sequence::Slice;
use crate::WrapErr;

verus! {

broadcast use vstd::array::group_array_axioms;

/// A record with a conditional field: `header`, then `optional_field`
/// present exactly when `header != 1`, then `non_optional_field`.
#[derive(Clone, Copy, PartialEq, Eq, Debug)]
pub struct Optional {
    pub header: u64,
    pub optional_field: Option<u32>,
    pub non_optional_field: u16,
}

/// The field list `Optional` was compiled from: a `u64` scalar, a
/// conditional `u32`, a `u16` scalar.
pub open spec fn optional_fields() -> Seq<FieldFacts> {
    seq![
        FieldFacts {
            min_len: 8,
            required_alignment: 8,
            provided: 8,
            variable: false,
            trivial: true,
        },
        FieldFacts {
            min_len: 0,
            required_alignment: 4,
            provided: 4,
            variable: true,
            trivial: false,
        },
        FieldFacts {
            min_len: 2,
            required_alignment: 2,
            provided: 2,
            variable: false,
            trivial: true,
        },
    ]
}

/// The composition rules give `Optional` its layout facts.
pub proof fn lemma_optional_facts()
    ensures
        spec_struct_facts(optional_fields()) == (RecordFacts {
            min_len: 10,
            required_alignment: 8,
            max_provided_alignment: Some(2),
            trivial_copy: false,
            fixed_shape: false,
        }),
{
    reveal_with_fuel(crate::layout::spec_struct_min_len, 5);
    reveal_with_fuel(crate::layout::spec_fold_provided, 5);
    let fs = optional_fields();
    assert(fs.drop_first() =~= seq![fs[1], fs[2]]);
    assert(fs.drop_first().drop_first() =~= seq![fs[2]]);
    assert(seq![fs[2]].drop_first() =~= Seq::<FieldFacts>::empty());
    assert(spec_struct_min_len(fs) == 10);
    assert(!(spec_struct_facts(fs).fixed_shape)) by {
        assert(fs[1].variable);
    }
}

impl<'i> FlatSerializable<'i> for Optional {
    open spec fn wf(self) -> bool {
        self.header != 1 <==> self.optional_field is Some
    }

    open spec fn enc(self) -> Seq<u8> {
        spec_u64_to_le_bytes(self.header) + (match self.optional_field {
            Some(x) => spec_u32_to_le_bytes(x),
            None => Seq::empty(),
        }) + spec_u16_to_le_bytes(self.non_optional_field)
    }

    open spec fn eqv(self, other: Self) -> bool {
        self == other
    }

    open spec fn dec(b: Seq<u8>, v: Self) -> bool {
        let hdr = spec_u64_from_le_bytes(b.subrange(0, 8));
        if b.len() >= 8 && hdr != 1 {
            &&& b.len() == 14
            &&& v.header == hdr
            &&& v.optional_field == Some(spec_u32_from_le_bytes(b.subrange(8, 12)))
            &&& v.non_optional_field == spec_u16_from_le_bytes(b.subrange(12, 14))
        } else {
            &&& b.len() == 10
            &&& v.header == hdr
            &&& hdr == 1
            &&& v.optional_field is None
            &&& v.non_optional_field == spec_u16_from_le_bytes(b.subrange(8, 10))
        }
    }

    open spec fn parse(b: Seq<u8>) -> Outcome {
        if b.len() < 8 {
            Outcome::Short { needed: 8 }
        } else {
            let hdr = spec_u64_from_le_bytes(b.subrange(0, 8));
            if hdr != 1 {
                if b.len() < 12 {
                    Outcome::Short { needed: 4 }
                } else if b.len() < 14 {
                    Outcome::Short { needed: 2 }
                } else {
                    Outcome::Val { used: 14 }
                }
            } else {
                if b.len() < 10 {
                    Outcome::Short { needed: 2 }
                } else {
                    Outcome::Val { used: 10 }
                }
            }
        }
    }

    open spec fn spec_min_len() -> usize {
        spec_struct_facts(optional_fields()).min_len
    }

    open spec fn spec_required_alignment() -> usize {
        spec_struct_facts(optional_fields()).required_alignment
    }

    open spec fn spec_max_provided_alignment() -> Option<usize> {
        spec_struct_facts(optional_fields()).max_provided_alignment
    }

    open spec fn spec_trivial_copy() -> bool {
        spec_struct_facts(optional_fields()).trivial_copy
    }

    fn try_ref(input: &'i [u8]) -> (r: Result<(Self, &'i [u8]), WrapErr>) {
        let (header, rem) = match <u64 as FlatSerializable<'i>>::try_ref(input) {
            Ok(p) => p,
            Err(e) => {
                return Err(e);
            },
        };
        proof {
            assert(input@.take(8) =~= input@.subrange(0, 8));
        }
        if header != 1 {
            let (opt, rem2) = match <u32 as FlatSerializable<'i>>::try_ref(rem) {
                Ok(p) => p,
                Err(e) => {
                    return Err(e);
                },
            };
            let (tail, rem3) = match <u16 as FlatSerializable<'i>>::try_ref(rem2) {
                Ok(p) => p,
                Err(e) => {
                    return Err(e);
                },
            };
            let v = Optional { header, optional_field: Some(opt), non_optional_field: tail };
            proof {
                let b = input@.take(14);
                assert(b.subrange(0, 8) =~= input@.subrange(0, 8));
                assert(rem@.take(4) =~= b.subrange(8, 12));
                assert(rem2@.take(2) =~= b.subrange(12, 14));
                assert(rem3@ =~= input@.subrange(14, input@.len() as int));
            }
            Ok((v, rem3))
        } else {
            let (tail, rem2) = match <u16 as FlatSerializable<'i>>::try_ref(rem) {
                Ok(p) => p,
                Err(e) => {
                    return Err(e);
                },
            };
            let v = Optional { header, optional_field: None, non_optional_field: tail };
            proof {
                let b = input@.take(10);
                assert(b.subrange(0, 8) =~= input@.subrange(0, 8));
                assert(rem@.take(2) =~= b.subrange(8, 10));
                assert(rem2@ =~= input@.subrange(10, input@.len() as int));
            }
            Ok((v, rem2))
        }
    }

    fn fill_vec(&self, out: &mut Vec<u8>) {
        self.header.fill_vec(out);
        match self.optional_field {
            Some(x) => {
                x.fill_vec(out);
            },
            None => {},
        }
        self.non_optional_field.fill_vec(out);
        assert(final(out)@ =~= old(out)@ + self.enc());
    }

    fn len(&self) -> (r: usize) {
        proof {
            lemma_auto_spec_u64_to_from_le_bytes();
            lemma_auto_spec_u32_to_from_le_bytes();
            lemma_auto_spec_u16_to_from_le_bytes();
        }
        if self.header != 1 {
            14
        } else {
            10
        }
    }

    fn min_len() -> (r: usize) {
        proof {
            lemma_optional_facts();
        }
        10
    }

    fn required_alignment() -> (r: usize) {
        proof {
            lemma_optional_facts();
        }
        8
    }

    fn max_provided_alignment() -> (r: Option<usize>) {
        proof {
            lemma_optional_facts();
        }
        Some(2)
    }

    fn trivial_copy() -> (r: bool) {
        proof {
            lemma_optional_facts();
        }
        false
    }

    proof fn lemma_enc_dec(v: Self, extra: Seq<u8>) {
        lemma_auto_spec_u64_to_from_le_bytes();
        lemma_auto_spec_u32_to_from_le_bytes();
        lemma_auto_spec_u16_to_from_le_bytes();
        let b = v.enc() + extra;
        assert(b.subrange(0, 8) =~= spec_u64_to_le_bytes(v.header));
        if v.header != 1 {
            let x = v.optional_field->0;
            assert(v.enc().len() == 14);
            assert(b.subrange(8, 12) =~= spec_u32_to_le_bytes(x));
            assert(b.subrange(12, 14) =~= spec_u16_to_le_bytes(v.non_optional_field));
            assert(v.enc().subrange(0, 8) =~= spec_u64_to_le_bytes(v.header));
            assert(v.enc().subrange(8, 12) =~= spec_u32_to_le_bytes(x));
            assert(v.enc().subrange(12, 14) =~= spec_u16_to_le_bytes(v.non_optional_field));
        } else {
            assert(v.enc().len() == 10);
            assert(b.subrange(8, 10) =~= spec_u16_to_le_bytes(v.non_optional_field));
            assert(v.enc().subrange(0, 8) =~= spec_u64_to_le_bytes(v.header));
            assert(v.enc().subrange(8, 10) =~= spec_u16_to_le_bytes(v.non_optional_field));
        }
    }

    proof fn lemma_dec_deterministic(b: Seq<u8>, v: Self, w: Self) {
    }

    proof fn lemma_dec_len(b: Seq<u8>, v: Self) {
        lemma_auto_spec_u64_to_from_le_bytes();
        lemma_auto_spec_u32_to_from_le_bytes();
        lemma_auto_spec_u16_to_from_le_bytes();
    }

    proof fn lemma_parse_bounds(b: Seq<u8>) {
    }

    proof fn lemma_parse_prefix(b: Seq<u8>, m: int) {
        if m >= 8 {
            assert(b.take(m).subrange(0, 8) =~= b.subrange(0, 8));
        }
    }

    proof fn lemma_parse_prefix_stable(b: Seq<u8>, m: int) {
        assert(b.take(m).subrange(0, 8) =~= b.subrange(0, 8));
    }

    proof fn lemma_parse_extend(b: Seq<u8>, c: Seq<u8>) {
        assert((b + c).subrange(0, 8) =~= b.subrange(0, 8));
    }

    proof fn lemma_eqv_refl(v: Self) {
    }

    proof fn lemma_eqv_enc(v: Self, w: Self) {
    }

    proof fn lemma_layout_sane() {
        lemma_optional_facts();
    }
}

/// A record with a length-prefixed byte field and a length-derived sequence
/// of byte pairs: `header`, `data_len`, a fixed array, `data_len` bytes of
/// `data`, and `data_len / 3` pairs in `data2`.
#[derive(Clone, Copy)]
pub struct Basic<'input> {
    pub header: u64,
    pub data_len: u32,
    pub array: [u16; 3],
    pub data: &'input [u8],
    pub data2: Iterable<'input, [u8; 2]>,
}

/// The field list `Basic` was compiled from.
pub open spec fn basic_fields() -> Seq<FieldFacts> {
    seq![
        FieldFacts {
            min_len: 8,
            required_alignment: 8,
            provided: 8,
            variable: false,
            trivial: true,
        },
        FieldFacts {
            min_len: 4,
            required_alignment: 4,
            provided: 4,
            variable: false,
            trivial: true,
        },
        FieldFacts {
            min_len: 6,
            required_alignment: 2,
            provided: 2,
            variable: false,
            trivial: true,
        },
        FieldFacts {
            min_len: 0,
            required_alignment: 1,
            provided: 1,
            variable: true,
            trivial: false,
        },
        FieldFacts {
            min_len: 0,
            required_alignment: 1,
            provided: 1,
            variable: true,
            trivial: false,
        },
    ]
}

/// The composition rules give `Basic` its layout facts.
pub proof fn lemma_basic_facts()
    ensures
        spec_struct_facts(basic_fields()) == (RecordFacts {
            min_len: 18,
            required_alignment: 8,
            max_provided_alignment: Some(1),
            trivial_copy: false,
            fixed_shape: false,
        }),
{
    reveal_with_fuel(crate::layout::spec_struct_min_len, 7);
    reveal_with_fuel(crate::layout::spec_fold_provided, 7);
    let fs = basic_fields();
    assert(fs.drop_first() =~= seq![fs[1], fs[2], fs[3], fs[4]]);
    assert(fs.drop_first().drop_first() =~= seq![fs[2], fs[3], fs[4]]);
    assert(seq![fs[2], fs[3], fs[4]].drop_first() =~= seq![fs[3], fs[4]]);
    assert(seq![fs[3], fs[4]].drop_first() =~= seq![fs[4]]);
    assert(seq![fs[4]].drop_first() =~= Seq::<FieldFacts>::empty());
    assert(spec_struct_min_len(fs) == 18);
    assert(!(spec_struct_facts(fs).fixed_shape)) by {
        assert(fs[3].variable);
    }
}

/// `data2`'s element count, derived from `data_len`.
pub open spec fn basic_count2(dl: int) -> int {
    dl / 3
}

impl<'i> FlatSerializable<'i> for Basic<'i> {
    open spec fn wf(self) -> bool {
        &&& self.data@.len() >= self.data_len
        &&& self.data2.wf()
        &&& basic_count2(self.data_len as int) <= self.data2.elems().len()
    }

    open spec fn enc(self) -> Seq<u8> {
        spec_u64_to_le_bytes(self.header) + spec_u32_to_le_bytes(self.data_len)
            + self.array.enc() + self.data@.take(self.data_len as int) + seq_enc(
            self.data2.elems().take(basic_count2(self.data_len as int)),
        )
    }

    open spec fn eqv(self, other: Self) -> bool {
        let dl = self.data_len as int;
        let c2 = basic_count2(dl);
        &&& self.header == other.header
        &&& self.data_len == other.data_len
        &&& self.array@ == other.array@
        &&& self.data@.take(dl) == other.data@.take(dl)
        &&& self.data2.elems().take(c2) == other.data2.elems().take(c2)
        &&& (self.wf() <==> other.wf())
    }

    open spec fn dec(b: Seq<u8>, v: Self) -> bool {
        let dl = spec_u32_from_le_bytes(b.subrange(8, 12)) as int;
        let c2 = basic_count2(dl);
        &&& b.len() >= 18 + dl
        &&& v.header == spec_u64_from_le_bytes(b.subrange(0, 8))
        &&& v.data_len == spec_u32_from_le_bytes(b.subrange(8, 12))
        &&& <[u16; 3] as FlatSerializable<'i>>::dec(b.subrange(12, 18), v.array)
        &&& v.data@.len() >= dl
        &&& v.data@.take(dl) == b.subrange(18, 18 + dl)
        &&& <Iterable<'i, [u8; 2]> as Slice<'i>>::dec_n(
            b.subrange(18 + dl, b.len() as int),
            c2,
            v.data2,
        )
    }

    open spec fn parse(b: Seq<u8>) -> Outcome {
        if b.len() < 8 {
            Outcome::Short { needed: 8 }
        } else if b.len() < 12 {
            Outcome::Short { needed: 4 }
        } else {
            let dl = spec_u32_from_le_bytes(b.subrange(8, 12)) as int;
            if b.len() < 18 {
                Outcome::Short { needed: 6 }
            } else if b.len() < 18 + dl {
                Outcome::Short { needed: dl }
            } else {
                match seq_parse::<'i, [u8; 2]>(b.skip(18 + dl), basic_count2(dl)) {
                    Outcome::Val { used } => Outcome::Val { used: 18 + dl + used },
                    Outcome::Short { needed } => Outcome::Short { needed },
                    Outcome::Tag { tag } => Outcome::Tag { tag },
                }
            }
        }
    }

    open spec fn spec_min_len() -> usize {
        spec_struct_facts(basic_fields()).min_len
    }

    open spec fn spec_required_alignment() -> usize {
        spec_struct_facts(basic_fields()).required_alignment
    }

    open spec fn spec_max_provided_alignment() -> Option<usize> {
        spec_struct_facts(basic_fields()).max_provided_alignment
    }

    open spec fn spec_trivial_copy() -> bool {
        spec_struct_facts(basic_fields()).trivial_copy
    }

    fn try_ref(input: &'i [u8]) -> (r: Result<(Self, &'i [u8]), WrapErr>) {
        let (header, rem) = match <u64 as FlatSerializable<'i>>::try_ref(input) {
            Ok(p) => p,
            Err(e) => {
                return Err(e);
            },
        };
        proof {
            assert(input@.take(8) =~= input@.subrange(0, 8));
        }
        let (data_len, rem2) = match <u32 as FlatSerializable<'i>>::try_ref(rem) {
            Ok(p) => p,
            Err(e) => {
                return Err(e);
            },
        };
        proof {
            assert(rem@.take(4) =~= input@.subrange(8, 12));
        }
        let ghost dl = data_len as int;
        let ghost c2 = basic_count2(dl);
        let (array, rem3) = match <[u16; 3] as FlatSerializable<'i>>::try_ref(rem2) {
            Ok(p) => p,
            Err(e) => {
                return Err(e);
            },
        };
        proof {
            assert(rem2@.take(6) =~= input@.subrange(12, 18));
            assert(rem3@ =~= input@.subrange(18, input@.len() as int));
        }
        let dl_usize = data_len as usize;
        let (data, rem4) = match <&'i [u8] as Slice<'i>>::try_ref(rem3, dl_usize) {
            Ok(p) => p,
            Err(e) => {
                return Err(e);
            },
        };
        proof {
            assert(rem3@.take(dl) =~= input@.subrange(18, 18 + dl));
            assert(rem4@ =~= input@.skip(18 + dl));
        }
        let count2 = dl_usize / 3;
        let (data2, rem5) = match <Iterable<'i, [u8; 2]> as Slice<'i>>::try_ref(rem4, count2) {
            Ok(p) => p,
            Err(e) => {
                return Err(e);
            },
        };
        let v = Basic { header, data_len, array, data, data2 };
        proof {
            let used2 = rem4@.len() - rem5@.len();
            let total = 18 + dl + used2;
            let b = input@.take(total);
            assert(b.subrange(0, 8) =~= input@.subrange(0, 8));
            assert(b.subrange(8, 12) =~= input@.subrange(8, 12));
            assert(b.subrange(12, 18) =~= input@.subrange(12, 18));
            assert(b.subrange(18, 18 + dl) =~= input@.subrange(18, 18 + dl));
            assert(b.subrange(18 + dl, b.len() as int) =~= rem4@.take(used2));
            assert(rem5@ =~= input@.subrange(input@.len() - rem5@.len(), input@.len() as int));
            assert(data@.take(dl) =~= data@);
            assert(Self::parse(input@) == (Outcome::Val { used: total }));
        }
        Ok((v, rem5))
    }

    fn fill_vec(&self, out: &mut Vec<u8>) {
        proof {
            lemma_auto_spec_u64_to_from_le_bytes();
            lemma_auto_spec_u32_to_from_le_bytes();
        }
        self.header.fill_vec(out);
        self.data_len.fill_vec(out);
        self.array.fill_vec(out);
        let dl_usize = self.data_len as usize;
        self.data.fill_slice(dl_usize, out);
        self.data2.fill_slice(dl_usize / 3, out);
        assert(final(out)@ =~= old(out)@ + self.enc());
    }

    fn len(&self) -> (r: usize)
    {
        proof {
            lemma_auto_spec_u64_to_from_le_bytes();
            lemma_auto_spec_u32_to_from_le_bytes();
            lemma_auto_spec_u16_to_from_le_bytes();
            assert(self.data@.take(self.data_len as int).len() == self.data_len as int);
            assert(self.array.enc().len() == 6);
            assert(self.enc().len() == 18 + self.data_len as int + seq_enc(
                self.data2.elems().take(basic_count2(self.data_len as int)),
            ).len());
        }
        let dl_usize = self.data_len as usize;
        let n2 = len_of_iterable(&self.data2, dl_usize / 3);
        18 + dl_usize + n2
    }

    fn min_len() -> (r: usize) {
        proof {
            lemma_basic_facts();
        }
        18
    }

    fn required_alignment() -> (r: usize) {
        proof {
            lemma_basic_facts();
        }
        8
    }

    fn max_provided_alignment() -> (r: Option<usize>) {
        proof {
            lemma_basic_facts();
        }
        Some(1)
    }

    fn trivial_copy() -> (r: bool) {
        proof {
            lemma_basic_facts();
        }
        false
    }

    proof fn lemma_enc_dec(v: Self, extra: Seq<u8>) {
        lemma_auto_spec_u64_to_from_le_bytes();
        lemma_auto_spec_u32_to_from_le_bytes();
        let dl = v.data_len as int;
        let c2 = basic_count2(dl);
        let e3 = v.array.enc();
        let e5 = seq_enc(v.data2.elems().take(c2));
        let b = v.enc() + extra;
        assert(v.data@.take(dl).len() == dl);
        <[u16; 3] as FlatSerializable<'i>>::lemma_enc_dec(v.array, Seq::empty());
        assert(e3.len() == 6) by {
            lemma_auto_spec_u16_to_from_le_bytes();
        }
        assert(v.enc().len() == 18 + dl + e5.len());
        assert(b.subrange(0, 8) =~= spec_u64_to_le_bytes(v.header));
        assert(b.subrange(8, 12) =~= spec_u32_to_le_bytes(v.data_len));
        assert(b.subrange(12, 18) =~= e3);
        assert(b.subrange(18, 18 + dl) =~= v.data@.take(dl));
        assert(v.enc().subrange(0, 8) =~= spec_u64_to_le_bytes(v.header));
        assert(v.enc().subrange(8, 12) =~= spec_u32_to_le_bytes(v.data_len));
        assert(v.enc().subrange(12, 18) =~= e3);
        assert(v.enc().subrange(18, 18 + dl) =~= v.data@.take(dl));
        assert(v.enc().subrange(18 + dl, v.enc().len() as int) =~= e5);
        lemma_iterable_elems_wf(v.data2);
        assert(forall|j: int|
            0 <= j < v.data2.elems().take(c2).len() ==> (#[trigger] v.data2.elems().take(
                c2,
            )[j]).wf());
        lemma_enc_region(v.data2.elems().take(c2));
        lemma_seq_parse_prepend::<'i, [u8; 2]>(e5, v.data2.elems().take(c2), extra, 0);
        assert(b.skip(18 + dl) =~= e5 + extra);
    }

    proof fn lemma_dec_deterministic(b: Seq<u8>, v: Self, w: Self) {
        let dl = spec_u32_from_le_bytes(b.subrange(8, 12)) as int;
        let c2 = basic_count2(dl);
        <[u16; 3] as FlatSerializable<'i>>::lemma_dec_deterministic(
            b.subrange(12, 18),
            v.array,
            w.array,
        );
        let region = b.subrange(18 + dl, b.len() as int);
        lemma_region_deterministic(
            region,
            v.data2.elems().take(c2),
            w.data2.elems().take(c2),
        );
        assert(v.array@ =~= w.array@);
        assert(v.data2.elems().take(c2) =~= w.data2.elems().take(c2)) by {
            assert forall|j: int|
                0 <= j < c2 implies v.data2.elems().take(c2)[j] == w.data2.elems().take(
                c2,
            )[j] by {
                assert(v.data2.elems().take(c2)[j].eqv(w.data2.elems().take(c2)[j]));
            }
        }
    }

    proof fn lemma_dec_len(b: Seq<u8>, v: Self) {
        lemma_auto_spec_u64_to_from_le_bytes();
        lemma_auto_spec_u32_to_from_le_bytes();
        lemma_auto_spec_u16_to_from_le_bytes();
        let dl = spec_u32_from_le_bytes(b.subrange(8, 12)) as int;
        let c2 = basic_count2(dl);
        let region = b.subrange(18 + dl, b.len() as int);
        lemma_region_len(region, v.data2.elems().take(c2));
        assert(v.data@.take(dl).len() == dl);
    }

    proof fn lemma_parse_bounds(b: Seq<u8>) {
        if b.len() >= 12 {
            let dl = spec_u32_from_le_bytes(b.subrange(8, 12)) as int;
            if b.len() >= 18 + dl {
                lemma_seq_parse_bounds::<'i, [u8; 2]>(b.skip(18 + dl), basic_count2(dl));
            }
        }
    }

    proof fn lemma_parse_prefix(b: Seq<u8>, m: int) {
        let dl = spec_u32_from_le_bytes(b.subrange(8, 12)) as int;
        let c2 = basic_count2(dl);
        if m >= 12 {
            assert(b.take(m).subrange(8, 12) =~= b.subrange(8, 12));
        }
        if m >= 18 + dl {
            assert(b.take(m).skip(18 + dl) =~= b.skip(18 + dl).take(m - 18 - dl));
            lemma_seq_parse_bounds::<'i, [u8; 2]>(b.skip(18 + dl), c2);
            lemma_seq_parse_prefix::<'i, [u8; 2]>(b.skip(18 + dl), m - 18 - dl, c2);
        }
    }

    proof fn lemma_parse_prefix_stable(b: Seq<u8>, m: int) {
        let dl = spec_u32_from_le_bytes(b.subrange(8, 12)) as int;
        let c2 = basic_count2(dl);
        lemma_seq_parse_bounds::<'i, [u8; 2]>(b.skip(18 + dl), c2);
        assert(m >= 18 + dl);
        assert(b.take(m).subrange(0, 8) =~= b.subrange(0, 8));
        assert(b.take(m).subrange(8, 12) =~= b.subrange(8, 12));
        assert(b.take(m).subrange(12, 18) =~= b.subrange(12, 18));
        assert(b.take(m).skip(18 + dl) =~= b.skip(18 + dl).take(m - 18 - dl));
        lemma_seq_parse_prefix_stable::<'i, [u8; 2]>(b.skip(18 + dl), m - 18 - dl, c2);
    }

    proof fn lemma_parse_extend(b: Seq<u8>, c: Seq<u8>) {
        let dl = spec_u32_from_le_bytes(b.subrange(8, 12)) as int;
        let c2 = basic_count2(dl);
        assert((b + c).subrange(0, 8) =~= b.subrange(0, 8));
        assert((b + c).subrange(8, 12) =~= b.subrange(8, 12));
        assert((b + c).subrange(12, 18) =~= b.subrange(12, 18));
        assert((b + c).skip(18 + dl) =~= b.skip(18 + dl) + c);
        lemma_seq_parse_extend::<'i, [u8; 2]>(b.skip(18 + dl), c, c2);
    }

    proof fn lemma_eqv_refl(v: Self) {
    }

    proof fn lemma_eqv_enc(v: Self, w: Self) {
    }

    proof fn lemma_layout_sane() {
        lemma_basic_facts();
    }
}

} // verus!

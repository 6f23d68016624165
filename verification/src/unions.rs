//! Compiled tagged-union shapes: one discriminant field, then a closed set
//! of named variants, each with its own field list. Decoding selects the
//! variant whose literal tag equals the discriminant and fails with
//! `InvalidTag` otherwise; writing emits the discriminant and the active
//! variant only, never bytes for unselected variants. The `InvalidTag`
//! payload on this path is the offending tag value.
use vstd::prelude::*;

use vstd::bytes::lemma_auto_spec_u16_to_from_le_bytes;
use vstd::bytes::lemma_auto_spec_u32_to_from_le_bytes;
use vstd::bytes::lemma_auto_spec_u64_to_from_le_bytes;
use vstd::bytes::spec_u32_from_le_bytes;
use vstd::bytes::spec_u32_to_le_bytes;
use vstd::bytes::spec_u64_from_le_bytes;
use vstd::bytes::spec_u64_to_le_bytes;

use crate::contract::FlatSerializable;
use crate::contract::Outcome;
use crate::layout::spec_union_facts;
use crate::layout::FieldFacts;
use crate::layout::RecordFacts;
use crate::sequence::Slice;
use crate::WrapErr;

verus! {

broadcast use vstd::array::group_array_axioms;

/// A union with a `u64` discriminant: tag 2 selects a length-prefixed byte
/// field, tag 3 a fixed array.
#[derive(Clone, Copy)]
pub enum BasicEnum<'input> {
    First { data_len: u32, data: &'input [u8] },
    Fixed { array: [u16; 3] },
}

/// The discriminant and variant field lists `BasicEnum` was compiled from.
pub open spec fn basic_enum_tag_field() -> FieldFacts {
    FieldFacts { min_len: 8, required_alignment: 8, provided: 8, variable: false, trivial: true }
}

/// Variant field lists: tag 2 is a `u32` count then that many bytes; tag 3
/// is a fixed `[u16; 3]`.
pub open spec fn basic_enum_variants() -> Seq<Seq<FieldFacts>> {
    seq![
        seq![
            FieldFacts {
                min_len: 4,
                required_alignment: 4,
                provided: 4,
                variable: false,
                trivial: true,
            },
            FieldFacts {
                min_len: 0,
                required_alignment: 1,
                provided: 1,
                variable: true,
                trivial: false,
            },
        ],
        seq![
            FieldFacts {
                min_len: 6,
                required_alignment: 2,
                provided: 2,
                variable: false,
                trivial: true,
            },
        ],
    ]
}

/// The union composition rules give `BasicEnum` its layout facts.
pub proof fn lemma_basic_enum_facts()
    ensures
        spec_union_facts(basic_enum_tag_field(), basic_enum_variants()) == (RecordFacts {
            min_len: 12,
            required_alignment: 8,
            max_provided_alignment: Some(1),
            trivial_copy: false,
            fixed_shape: false,
        }),
{
    reveal_with_fuel(crate::layout::spec_struct_min_len, 4);
    reveal_with_fuel(crate::layout::spec_union_min_variant, 4);
    reveal_with_fuel(crate::layout::spec_union_provided, 4);
    reveal_with_fuel(crate::layout::spec_variant_provided, 4);
    let vs = basic_enum_variants();
    let v0 = vs[0];
    let v1 = vs[1];
    assert(vs.drop_first() =~= seq![v1]);
    assert(seq![v1].drop_first() =~= Seq::<Seq<FieldFacts>>::empty());
    assert(v0.drop_first() =~= seq![v0[1]]);
    assert(seq![v0[1]].drop_first() =~= Seq::<FieldFacts>::empty());
    assert(v1.drop_first() =~= Seq::<FieldFacts>::empty());
}

impl<'i> FlatSerializable<'i> for BasicEnum<'i> {
    open spec fn wf(self) -> bool {
        match self {
            BasicEnum::First { data_len, data } => data@.len() >= data_len,
            BasicEnum::Fixed { array } => true,
        }
    }

    open spec fn enc(self) -> Seq<u8> {
        match self {
            BasicEnum::First { data_len, data } => spec_u64_to_le_bytes(2u64)
                + spec_u32_to_le_bytes(data_len) + data@.take(data_len as int),
            BasicEnum::Fixed { array } => spec_u64_to_le_bytes(3u64) + array.enc(),
        }
    }

    open spec fn eqv(self, other: Self) -> bool {
        match (self, other) {
            (
                BasicEnum::First { data_len: a, data: d },
                BasicEnum::First { data_len: b, data: e },
            ) => a == b && d@.take(a as int) == e@.take(a as int) && (self.wf() <==> other.wf()),
            (BasicEnum::Fixed { array: x }, BasicEnum::Fixed { array: y }) => x@ == y@,
            _ => false,
        }
    }

    open spec fn dec(b: Seq<u8>, v: Self) -> bool {
        let k = spec_u64_from_le_bytes(b.subrange(0, 8));
        if b.len() >= 8 && k == 2 {
            let dl = spec_u32_from_le_bytes(b.subrange(8, 12)) as int;
            &&& b.len() == 12 + dl
            &&& v matches BasicEnum::First { data_len, data }
            &&& data_len == spec_u32_from_le_bytes(b.subrange(8, 12))
            &&& data@.len() >= dl
            &&& data@.take(dl) == b.subrange(12, 12 + dl)
        } else if b.len() >= 8 && k == 3 {
            &&& b.len() == 14
            &&& v matches BasicEnum::Fixed { array }
            &&& <[u16; 3] as FlatSerializable<'i>>::dec(b.subrange(8, 14), array)
        } else {
            false
        }
    }

    open spec fn parse(b: Seq<u8>) -> Outcome {
        if b.len() < 8 {
            Outcome::Short { needed: 8 }
        } else {
            let k = spec_u64_from_le_bytes(b.subrange(0, 8));
            if k == 2 {
                if b.len() < 12 {
                    Outcome::Short { needed: 4 }
                } else {
                    let dl = spec_u32_from_le_bytes(b.subrange(8, 12)) as int;
                    if b.len() < 12 + dl {
                        Outcome::Short { needed: dl }
                    } else {
                        Outcome::Val { used: 12 + dl }
                    }
                }
            } else if k == 3 {
                if b.len() < 14 {
                    Outcome::Short { needed: 6 }
                } else {
                    Outcome::Val { used: 14 }
                }
            } else {
                Outcome::Tag { tag: (k as usize) as int }
            }
        }
    }

    open spec fn spec_min_len() -> usize {
        spec_union_facts(basic_enum_tag_field(), basic_enum_variants()).min_len
    }

    open spec fn spec_required_alignment() -> usize {
        spec_union_facts(basic_enum_tag_field(), basic_enum_variants()).required_alignment
    }

    open spec fn spec_max_provided_alignment() -> Option<usize> {
        spec_union_facts(basic_enum_tag_field(), basic_enum_variants()).max_provided_alignment
    }

    open spec fn spec_trivial_copy() -> bool {
        spec_union_facts(basic_enum_tag_field(), basic_enum_variants()).trivial_copy
    }

    fn try_ref(input: &'i [u8]) -> (r: Result<(Self, &'i [u8]), WrapErr>) {
        let (k, rem) = match <u64 as FlatSerializable<'i>>::try_ref(input) {
            Ok(p) => p,
            Err(e) => {
                return Err(e);
            },
        };
        proof {
            assert(input@.take(8) =~= input@.subrange(0, 8));
        }
        if k == 2 {
            let (data_len, rem2) = match <u32 as FlatSerializable<'i>>::try_ref(rem) {
                Ok(p) => p,
                Err(e) => {
                    return Err(e);
                },
            };
            proof {
                assert(rem@.take(4) =~= input@.subrange(8, 12));
            }
            let ghost dl = data_len as int;
            let (data, rem3) = match <&'i [u8] as Slice<'i>>::try_ref(rem2, data_len as usize) {
                Ok(p) => p,
                Err(e) => {
                    return Err(e);
                },
            };
            let v = BasicEnum::First { data_len, data };
            proof {
                let b = input@.take(12 + dl);
                assert(b.subrange(0, 8) =~= input@.subrange(0, 8));
                assert(b.subrange(8, 12) =~= input@.subrange(8, 12));
                assert(rem2@.take(dl) =~= b.subrange(12, 12 + dl));
                assert(data@.take(dl) =~= data@);
                assert(rem3@ =~= input@.subrange(input@.len() - rem3@.len(), input@.len() as int));
            }
            Ok((v, rem3))
        } else if k == 3 {
            let (array, rem2) = match <[u16; 3] as FlatSerializable<'i>>::try_ref(rem) {
                Ok(p) => p,
                Err(e) => {
                    return Err(e);
                },
            };
            let v = BasicEnum::Fixed { array };
            proof {
                let b = input@.take(14);
                assert(b.subrange(0, 8) =~= input@.subrange(0, 8));
                assert(rem@.take(6) =~= b.subrange(8, 14));
                assert(rem2@ =~= input@.subrange(14, input@.len() as int));
            }
            Ok((v, rem2))
        } else {
            Err(WrapErr::InvalidTag(k as usize))
        }
    }

    fn fill_vec(&self, out: &mut Vec<u8>) {
        proof {
            lemma_auto_spec_u64_to_from_le_bytes();
            lemma_auto_spec_u32_to_from_le_bytes();
        }
        match self {
            BasicEnum::First { data_len, data } => {
                2u64.fill_vec(out);
                data_len.fill_vec(out);
                data.fill_slice(*data_len as usize, out);
            },
            BasicEnum::Fixed { array } => {
                3u64.fill_vec(out);
                array.fill_vec(out);
            },
        }
        assert(final(out)@ =~= old(out)@ + self.enc());
    }

    fn len(&self) -> (r: usize) {
        proof {
            lemma_auto_spec_u64_to_from_le_bytes();
            lemma_auto_spec_u32_to_from_le_bytes();
            lemma_auto_spec_u16_to_from_le_bytes();
        }
        match self {
            BasicEnum::First { data_len, data } => {
                proof {
                    assert(data@.take(*data_len as int).len() == *data_len as int);
                }
                12 + (*data_len as usize)
            },
            BasicEnum::Fixed { array } => 14,
        }
    }

    fn min_len() -> (r: usize) {
        proof {
            lemma_basic_enum_facts();
        }
        12
    }

    fn required_alignment() -> (r: usize) {
        proof {
            lemma_basic_enum_facts();
        }
        8
    }

    fn max_provided_alignment() -> (r: Option<usize>) {
        proof {
            lemma_basic_enum_facts();
        }
        Some(1)
    }

    fn trivial_copy() -> (r: bool) {
        proof {
            lemma_basic_enum_facts();
        }
        false
    }

    proof fn lemma_enc_dec(v: Self, extra: Seq<u8>) {
        lemma_auto_spec_u64_to_from_le_bytes();
        lemma_auto_spec_u32_to_from_le_bytes();
        let b = v.enc() + extra;
        match v {
            BasicEnum::First { data_len, data } => {
                let dl = data_len as int;
                assert(data@.take(dl).len() == dl);
                assert(b.subrange(0, 8) =~= spec_u64_to_le_bytes(2u64));
                assert(b.subrange(8, 12) =~= spec_u32_to_le_bytes(data_len));
                assert(b.subrange(12, 12 + dl) =~= data@.take(dl));
                assert(v.enc().subrange(0, 8) =~= spec_u64_to_le_bytes(2u64));
                assert(v.enc().subrange(8, 12) =~= spec_u32_to_le_bytes(data_len));
                assert(v.enc().subrange(12, 12 + dl) =~= data@.take(dl));
            },
            BasicEnum::Fixed { array } => {
                <[u16; 3] as FlatSerializable<'i>>::lemma_enc_dec(array, Seq::empty());
                assert(array.enc().len() == 6) by {
                    lemma_auto_spec_u16_to_from_le_bytes();
                }
                assert(b.subrange(0, 8) =~= spec_u64_to_le_bytes(3u64));
                assert(b.subrange(8, 14) =~= array.enc());
                assert(v.enc().subrange(0, 8) =~= spec_u64_to_le_bytes(3u64));
                assert(v.enc().subrange(8, 14) =~= array.enc());
            },
        }
    }

    proof fn lemma_dec_deterministic(b: Seq<u8>, v: Self, w: Self) {
        let k = spec_u64_from_le_bytes(b.subrange(0, 8));
        if b.len() >= 8 && k == 3 {
            <[u16; 3] as FlatSerializable<'i>>::lemma_dec_deterministic(
                b.subrange(8, 14),
                v->array,
                w->array,
            );
            assert((v->array)@ =~= (w->array)@);
        }
    }

    proof fn lemma_dec_len(b: Seq<u8>, v: Self) {
        lemma_auto_spec_u64_to_from_le_bytes();
        lemma_auto_spec_u32_to_from_le_bytes();
        lemma_auto_spec_u16_to_from_le_bytes();
        let k = spec_u64_from_le_bytes(b.subrange(0, 8));
        if b.len() >= 8 && k == 2 {
            let dl = spec_u32_from_le_bytes(b.subrange(8, 12)) as int;
            assert((v->data)@.take(dl).len() == dl);
        }
    }

    proof fn lemma_parse_bounds(b: Seq<u8>) {
    }

    proof fn lemma_parse_prefix(b: Seq<u8>, m: int) {
        if m >= 8 {
            assert(b.take(m).subrange(0, 8) =~= b.subrange(0, 8));
        }
        if m >= 12 {
            assert(b.take(m).subrange(8, 12) =~= b.subrange(8, 12));
        }
    }

    proof fn lemma_parse_prefix_stable(b: Seq<u8>, m: int) {
        assert(b.take(m).subrange(0, 8) =~= b.subrange(0, 8));
        let k = spec_u64_from_le_bytes(b.subrange(0, 8));
        if k == 2 {
            assert(b.take(m).subrange(8, 12) =~= b.subrange(8, 12));
        }
    }

    proof fn lemma_parse_extend(b: Seq<u8>, c: Seq<u8>) {
        assert((b + c).subrange(0, 8) =~= b.subrange(0, 8));
        let k = spec_u64_from_le_bytes(b.subrange(0, 8));
        if b.len() >= 12 {
            assert((b + c).subrange(8, 12) =~= b.subrange(8, 12));
        }
    }

    proof fn lemma_eqv_refl(v: Self) {
    }

    proof fn lemma_eqv_enc(v: Self, w: Self) {
    }

    proof fn lemma_layout_sane() {
        lemma_basic_enum_facts();
    }
}

/// Union exclusivity: a discriminant equal to a declared tag always selects
/// that variant, and any other discriminant makes the parse fail with
/// `InvalidTag`; no bytes of unselected variants are ever read.
pub proof fn lemma_basic_enum_exclusive<'i>(b: Seq<u8>)
    requires
        b.len() >= 8,
    ensures
        ({
            let k = spec_u64_from_le_bytes(b.subrange(0, 8));
            &&& (<BasicEnum<'i> as FlatSerializable<'i>>::parse(b) is Tag <==> k != 2 && k != 3)
            &&& forall|v: BasicEnum<'i>|
                <BasicEnum<'i> as FlatSerializable<'i>>::dec(b, v) ==> (if k == 2 {
                    v is First
                } else {
                    k == 3 && v is Fixed
                })
        }),
{
}

/// A union with a one-byte discriminant and explicit padding fields inside
/// the variants: tag 2 pads to a `u32` count then that many bytes, tag 3
/// pads by one byte to a `[u16; 3]`.
#[derive(Clone, Copy)]
#[allow(inconsistent_fields)]
pub enum PaddedEnum<'input> {
    First { padding: [u8; 3], data_len: u32, data: &'input [u8] },
    Fixed { padding: u8, array: [u16; 3] },
}

/// The discriminant field `PaddedEnum` was compiled from.
pub open spec fn padded_enum_tag_field() -> FieldFacts {
    FieldFacts { min_len: 1, required_alignment: 1, provided: 1, variable: false, trivial: true }
}

/// Variant field lists of `PaddedEnum`.
pub open spec fn padded_enum_variants() -> Seq<Seq<FieldFacts>> {
    seq![
        seq![
            FieldFacts {
                min_len: 3,
                required_alignment: 1,
                provided: 1,
                variable: false,
                trivial: true,
            },
            FieldFacts {
                min_len: 4,
                required_alignment: 4,
                provided: 4,
                variable: false,
                trivial: true,
            },
            FieldFacts {
                min_len: 0,
                required_alignment: 1,
                provided: 1,
                variable: true,
                trivial: false,
            },
        ],
        seq![
            FieldFacts {
                min_len: 1,
                required_alignment: 1,
                provided: 1,
                variable: false,
                trivial: true,
            },
            FieldFacts {
                min_len: 6,
                required_alignment: 2,
                provided: 2,
                variable: false,
                trivial: true,
            },
        ],
    ]
}

/// The union composition rules give `PaddedEnum` its layout facts.
pub proof fn lemma_padded_enum_facts()
    ensures
        spec_union_facts(padded_enum_tag_field(), padded_enum_variants()) == (RecordFacts {
            min_len: 8,
            required_alignment: 1,
            max_provided_alignment: Some(1),
            trivial_copy: false,
            fixed_shape: false,
        }),
{
    reveal_with_fuel(crate::layout::spec_struct_min_len, 5);
    reveal_with_fuel(crate::layout::spec_union_min_variant, 4);
    reveal_with_fuel(crate::layout::spec_union_provided, 4);
    reveal_with_fuel(crate::layout::spec_variant_provided, 5);
    let vs = padded_enum_variants();
    let v0 = vs[0];
    let v1 = vs[1];
    assert(vs.drop_first() =~= seq![v1]);
    assert(seq![v1].drop_first() =~= Seq::<Seq<FieldFacts>>::empty());
    assert(v0.drop_first() =~= seq![v0[1], v0[2]]);
    assert(seq![v0[1], v0[2]].drop_first() =~= seq![v0[2]]);
    assert(seq![v0[2]].drop_first() =~= Seq::<FieldFacts>::empty());
    assert(v1.drop_first() =~= seq![v1[1]]);
    assert(seq![v1[1]].drop_first() =~= Seq::<FieldFacts>::empty());
}

impl<'i> FlatSerializable<'i> for PaddedEnum<'i> {
    open spec fn wf(self) -> bool {
        match self {
            PaddedEnum::First { padding, data_len, data } => data@.len() >= data_len,
            PaddedEnum::Fixed { padding, array } => true,
        }
    }

    open spec fn enc(self) -> Seq<u8> {
        match self {
            PaddedEnum::First { padding, data_len, data } => seq![2u8] + padding.enc()
                + spec_u32_to_le_bytes(data_len) + data@.take(data_len as int),
            PaddedEnum::Fixed { padding, array } => seq![3u8] + seq![padding] + array.enc(),
        }
    }

    open spec fn eqv(self, other: Self) -> bool {
        match (self, other) {
            (
                PaddedEnum::First { padding: p, data_len: a, data: d },
                PaddedEnum::First { padding: q, data_len: b, data: e },
            ) => p@ == q@ && a == b && d@.take(a as int) == e@.take(a as int) && (self.wf()
                <==> other.wf()),
            (
                PaddedEnum::Fixed { padding: p, array: x },
                PaddedEnum::Fixed { padding: q, array: y },
            ) => p == q && x@ == y@,
            _ => false,
        }
    }

    open spec fn dec(b: Seq<u8>, v: Self) -> bool {
        if b.len() >= 1 && b[0] == 2 {
            let dl = spec_u32_from_le_bytes(b.subrange(4, 8)) as int;
            &&& b.len() == 8 + dl
            &&& v matches PaddedEnum::First { padding, data_len, data }
            &&& <[u8; 3] as FlatSerializable<'i>>::dec(b.subrange(1, 4), padding)
            &&& data_len == spec_u32_from_le_bytes(b.subrange(4, 8))
            &&& data@.len() >= dl
            &&& data@.take(dl) == b.subrange(8, 8 + dl)
        } else if b.len() >= 1 && b[0] == 3 {
            &&& b.len() == 8
            &&& v matches PaddedEnum::Fixed { padding, array }
            &&& padding == b[1]
            &&& <[u16; 3] as FlatSerializable<'i>>::dec(b.subrange(2, 8), array)
        } else {
            false
        }
    }

    open spec fn parse(b: Seq<u8>) -> Outcome {
        if b.len() < 1 {
            Outcome::Short { needed: 1 }
        } else {
            let k = b[0];
            if k == 2 {
                if b.len() < 4 {
                    Outcome::Short { needed: 3 }
                } else if b.len() < 8 {
                    Outcome::Short { needed: 4 }
                } else {
                    let dl = spec_u32_from_le_bytes(b.subrange(4, 8)) as int;
                    if b.len() < 8 + dl {
                        Outcome::Short { needed: dl }
                    } else {
                        Outcome::Val { used: 8 + dl }
                    }
                }
            } else if k == 3 {
                if b.len() < 2 {
                    Outcome::Short { needed: 1 }
                } else if b.len() < 8 {
                    Outcome::Short { needed: 6 }
                } else {
                    Outcome::Val { used: 8 }
                }
            } else {
                Outcome::Tag { tag: k as int }
            }
        }
    }

    open spec fn spec_min_len() -> usize {
        spec_union_facts(padded_enum_tag_field(), padded_enum_variants()).min_len
    }

    open spec fn spec_required_alignment() -> usize {
        spec_union_facts(padded_enum_tag_field(), padded_enum_variants()).required_alignment
    }

    open spec fn spec_max_provided_alignment() -> Option<usize> {
        spec_union_facts(padded_enum_tag_field(), padded_enum_variants()).max_provided_alignment
    }

    open spec fn spec_trivial_copy() -> bool {
        spec_union_facts(padded_enum_tag_field(), padded_enum_variants()).trivial_copy
    }

    fn try_ref(input: &'i [u8]) -> (r: Result<(Self, &'i [u8]), WrapErr>) {
        let (k, rem) = match <u8 as FlatSerializable<'i>>::try_ref(input) {
            Ok(p) => p,
            Err(e) => {
                return Err(e);
            },
        };
        proof {
            assert(input@.take(1) =~= input@.subrange(0, 1));
        }
        if k == 2 {
            let (padding, rem2) = match <[u8; 3] as FlatSerializable<'i>>::try_ref(rem) {
                Ok(p) => p,
                Err(e) => {
                    return Err(e);
                },
            };
            proof {
                assert(rem@.take(3) =~= input@.subrange(1, 4));
            }
            let (data_len, rem3) = match <u32 as FlatSerializable<'i>>::try_ref(rem2) {
                Ok(p) => p,
                Err(e) => {
                    return Err(e);
                },
            };
            proof {
                assert(rem2@.take(4) =~= input@.subrange(4, 8));
            }
            let ghost dl = data_len as int;
            let (data, rem4) = match <&'i [u8] as Slice<'i>>::try_ref(rem3, data_len as usize) {
                Ok(p) => p,
                Err(e) => {
                    return Err(e);
                },
            };
            let v = PaddedEnum::First { padding, data_len, data };
            proof {
                let b = input@.take(8 + dl);
                assert(b.subrange(1, 4) =~= input@.subrange(1, 4));
                assert(b.subrange(4, 8) =~= input@.subrange(4, 8));
                assert(rem3@.take(dl) =~= b.subrange(8, 8 + dl));
                assert(data@.take(dl) =~= data@);
                assert(b[0] == input@[0]);
                assert(rem4@ =~= input@.subrange(input@.len() - rem4@.len(), input@.len() as int));
            }
            Ok((v, rem4))
        } else if k == 3 {
            let (padding, rem2) = match <u8 as FlatSerializable<'i>>::try_ref(rem) {
                Ok(p) => p,
                Err(e) => {
                    return Err(e);
                },
            };
            let (array, rem3) = match <[u16; 3] as FlatSerializable<'i>>::try_ref(rem2) {
                Ok(p) => p,
                Err(e) => {
                    return Err(e);
                },
            };
            let v = PaddedEnum::Fixed { padding, array };
            proof {
                let b = input@.take(8);
                assert(b[0] == input@[0]);
                assert(b[1] == input@[1]);
                assert(rem@.take(1) =~= input@.subrange(1, 2));
                assert(rem2@.take(6) =~= b.subrange(2, 8));
                assert(rem3@ =~= input@.subrange(8, input@.len() as int));
            }
            Ok((v, rem3))
        } else {
            Err(WrapErr::InvalidTag(k as usize))
        }
    }

    fn fill_vec(&self, out: &mut Vec<u8>) {
        proof {
            lemma_auto_spec_u32_to_from_le_bytes();
        }
        match self {
            PaddedEnum::First { padding, data_len, data } => {
                2u8.fill_vec(out);
                padding.fill_vec(out);
                data_len.fill_vec(out);
                data.fill_slice(*data_len as usize, out);
            },
            PaddedEnum::Fixed { padding, array } => {
                3u8.fill_vec(out);
                padding.fill_vec(out);
                array.fill_vec(out);
            },
        }
        assert(final(out)@ =~= old(out)@ + self.enc());
    }

    fn len(&self) -> (r: usize) {
        proof {
            lemma_auto_spec_u32_to_from_le_bytes();
            lemma_auto_spec_u16_to_from_le_bytes();
        }
        match self {
            PaddedEnum::First { padding, data_len, data } => {
                proof {
                    assert(data@.take(*data_len as int).len() == *data_len as int);
                }
                8 + (*data_len as usize)
            },
            PaddedEnum::Fixed { padding, array } => 8,
        }
    }

    fn min_len() -> (r: usize) {
        proof {
            lemma_padded_enum_facts();
        }
        8
    }

    fn required_alignment() -> (r: usize) {
        proof {
            lemma_padded_enum_facts();
        }
        1
    }

    fn max_provided_alignment() -> (r: Option<usize>) {
        proof {
            lemma_padded_enum_facts();
        }
        Some(1)
    }

    fn trivial_copy() -> (r: bool) {
        proof {
            lemma_padded_enum_facts();
        }
        false
    }

    proof fn lemma_enc_dec(v: Self, extra: Seq<u8>) {
        lemma_auto_spec_u32_to_from_le_bytes();
        let b = v.enc() + extra;
        match v {
            PaddedEnum::First { padding, data_len, data } => {
                let dl = data_len as int;
                assert(data@.take(dl).len() == dl);
                <[u8; 3] as FlatSerializable<'i>>::lemma_enc_dec(padding, Seq::empty());
                assert(b[0] == 2);
                assert(b.subrange(1, 4) =~= padding.enc());
                assert(b.subrange(4, 8) =~= spec_u32_to_le_bytes(data_len));
                assert(b.subrange(8, 8 + dl) =~= data@.take(dl));
                assert(v.enc()[0] == 2);
                assert(v.enc().subrange(1, 4) =~= padding.enc());
                assert(v.enc().subrange(4, 8) =~= spec_u32_to_le_bytes(data_len));
                assert(v.enc().subrange(8, 8 + dl) =~= data@.take(dl));
            },
            PaddedEnum::Fixed { padding, array } => {
                <[u16; 3] as FlatSerializable<'i>>::lemma_enc_dec(array, Seq::empty());
                assert(array.enc().len() == 6) by {
                    lemma_auto_spec_u16_to_from_le_bytes();
                }
                assert(b[0] == 3);
                assert(b[1] == padding);
                assert(b.subrange(2, 8) =~= array.enc());
                assert(v.enc()[0] == 3);
                assert(v.enc()[1] == padding);
                assert(v.enc().subrange(2, 8) =~= array.enc());
            },
        }
    }

    proof fn lemma_dec_deterministic(b: Seq<u8>, v: Self, w: Self) {
        if b.len() >= 1 && b[0] == 2 {
            <[u8; 3] as FlatSerializable<'i>>::lemma_dec_deterministic(
                b.subrange(1, 4),
                v->First_padding,
                w->First_padding,
            );
            assert((v->First_padding)@ =~= (w->First_padding)@);
        } else if b.len() >= 1 && b[0] == 3 {
            <[u16; 3] as FlatSerializable<'i>>::lemma_dec_deterministic(
                b.subrange(2, 8),
                v->array,
                w->array,
            );
            assert((v->array)@ =~= (w->array)@);
        }
    }

    proof fn lemma_dec_len(b: Seq<u8>, v: Self) {
        lemma_auto_spec_u32_to_from_le_bytes();
        lemma_auto_spec_u16_to_from_le_bytes();
        if b.len() >= 1 && b[0] == 2 {
            let dl = spec_u32_from_le_bytes(b.subrange(4, 8)) as int;
            assert((v->data)@.take(dl).len() == dl);
            assert((v->First_padding).enc().len() == 3);
        } else if b.len() >= 1 && b[0] == 3 {
            assert((v->array).enc().len() == 6);
        }
    }

    proof fn lemma_parse_bounds(b: Seq<u8>) {
    }

    proof fn lemma_parse_prefix(b: Seq<u8>, m: int) {
        if m >= 1 {
            assert(b.take(m)[0] == b[0]);
        }
        if m >= 8 {
            assert(b.take(m).subrange(4, 8) =~= b.subrange(4, 8));
        }
    }

    proof fn lemma_parse_prefix_stable(b: Seq<u8>, m: int) {
        assert(b.take(m)[0] == b[0]);
        if b[0] == 2 {
            assert(b.take(m).subrange(4, 8) =~= b.subrange(4, 8));
        }
    }

    proof fn lemma_parse_extend(b: Seq<u8>, c: Seq<u8>) {
        assert((b + c)[0] == b[0]);
        if b[0] == 2 && b.len() >= 8 {
            assert((b + c).subrange(4, 8) =~= b.subrange(4, 8));
        }
    }

    proof fn lemma_eqv_refl(v: Self) {
    }

    proof fn lemma_eqv_enc(v: Self, w: Self) {
        match (v, w) {
            (
                PaddedEnum::First { padding: p, data_len: a, data: d },
                PaddedEnum::First { padding: q, data_len: bb, data: e },
            ) => {
                assert(p.enc() =~= q.enc());
                assert(v.enc() =~= w.enc());
            },
            (
                PaddedEnum::Fixed { padding: p, array: x },
                PaddedEnum::Fixed { padding: q, array: y },
            ) => {
                assert(x.enc() =~= y.enc());
                assert(v.enc() =~= w.enc());
            },
            _ => {
            },
        }
    }

    proof fn lemma_layout_sane() {
        lemma_padded_enum_facts();
    }
}

/// Union exclusivity for the padded union: a declared tag always selects
/// its variant; any other discriminant fails with `InvalidTag`.
pub proof fn lemma_padded_enum_exclusive<'i>(b: Seq<u8>)
    requires
        b.len() >= 1,
    ensures
        (<PaddedEnum<'i> as FlatSerializable<'i>>::parse(b) is Tag <==> b[0] != 2 && b[0] != 3),
        forall|v: PaddedEnum<'i>|
            <PaddedEnum<'i> as FlatSerializable<'i>>::dec(b, v) ==> (if b[0] == 2 {
                v is First
            } else {
                b[0] == 3 && v is Fixed
            }),
{
}

} // verus!

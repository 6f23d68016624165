//! Leaf capability implementations for fixed-size scalars: little-endian
//! byte images of exactly `size_of` bytes, read from anywhere in a buffer
//! (the buffer itself may be misaligned, since records live inside larger
//! containers), natural required alignment, no variable parts.
use vstd::prelude::*;

use vstd::bytes::lemma_auto_spec_u16_to_from_le_bytes;
use vstd::bytes::lemma_auto_spec_u32_to_from_le_bytes;
use vstd::bytes::lemma_auto_spec_u64_to_from_le_bytes;
use vstd::bytes::spec_u16_from_le_bytes;
use vstd::bytes::spec_u16_to_le_bytes;
use vstd::bytes::spec_u32_from_le_bytes;
use vstd::bytes::spec_u32_to_le_bytes;
use vstd::bytes::spec_u64_from_le_bytes;
use vstd::bytes::spec_u64_to_le_bytes;
use vstd::bytes::u16_from_le_bytes;
use vstd::bytes::u16_to_le_bytes;
use vstd::bytes::u32_from_le_bytes;
use vstd::bytes::u32_to_le_bytes;
use vstd::bytes::u64_from_le_bytes;
use vstd::bytes::u64_to_le_bytes;
use vstd::slice::slice_index_get;
use vstd::slice::slice_subrange;

use crate::contract::FlatSerializable;
use crate::contract::Outcome;
use crate::WrapErr;

verus! {

impl<'i> FlatSerializable<'i> for u8 {
    open spec fn wf(self) -> bool {
        true
    }

    open spec fn enc(self) -> Seq<u8> {
        seq![self]
    }

    open spec fn eqv(self, other: Self) -> bool {
        self == other
    }

    open spec fn dec(b: Seq<u8>, v: Self) -> bool {
        b.len() == 1 && v == b[0]
    }

    open spec fn parse(b: Seq<u8>) -> Outcome {
        if b.len() < 1 {
            Outcome::Short { needed: 1 }
        } else {
            Outcome::Val { used: 1 }
        }
    }

    open spec fn spec_min_len() -> usize {
        1
    }

    open spec fn spec_required_alignment() -> usize {
        1
    }

    open spec fn spec_max_provided_alignment() -> Option<usize> {
        None
    }

    open spec fn spec_trivial_copy() -> bool {
        true
    }

    fn try_ref(input: &'i [u8]) -> (r: Result<(Self, &'i [u8]), WrapErr>) {
        if input.len() < 1 {
            return Err(WrapErr::NotEnoughBytes(1));
        }
        let v: u8 = *slice_index_get(input, 0);
        let rem = slice_subrange(input, 1, input.len());
        assert(input@.take(1) =~= seq![v]);
        proof {
            assert(<Self as FlatSerializable<'i>>::parse(input@) == (Outcome::Val {
                used: 1int,
            }));
            assert(v.wf());
            assert(<Self as FlatSerializable<'i>>::dec(input@.take(1), v));
        }
        Ok((v, rem))
    }

    fn fill_vec(&self, out: &mut Vec<u8>) {
        out.push(*self);
        assert(out@ =~= old(out)@ + self.enc());
    }

    fn len(&self) -> (r: usize) {
        1
    }

    fn min_len() -> (r: usize) {
        1
    }

    fn required_alignment() -> (r: usize) {
        1
    }

    fn max_provided_alignment() -> (r: Option<usize>) {
        None
    }

    fn trivial_copy() -> (r: bool) {
        true
    }

    proof fn lemma_enc_dec(v: Self, extra: Seq<u8>) {
        assert((v.enc() + extra).len() >= 1);
        assert(v.enc()[0] == v);
    }

    proof fn lemma_dec_deterministic(b: Seq<u8>, v: Self, w: Self) {
    }

    proof fn lemma_dec_len(b: Seq<u8>, v: Self) {
    }

    proof fn lemma_parse_bounds(b: Seq<u8>) {
    }

    proof fn lemma_parse_prefix(b: Seq<u8>, m: int) {
    }

    proof fn lemma_parse_prefix_stable(b: Seq<u8>, m: int) {
    }

    proof fn lemma_parse_extend(b: Seq<u8>, c: Seq<u8>) {
        assert((b + c).len() >= b.len());
    }

    proof fn lemma_eqv_refl(v: Self) {
    }

    proof fn lemma_eqv_enc(v: Self, w: Self) {
    }

    proof fn lemma_layout_sane() {
    }
}

impl<'i> FlatSerializable<'i> for u16 {
    open spec fn wf(self) -> bool {
        true
    }

    open spec fn enc(self) -> Seq<u8> {
        spec_u16_to_le_bytes(self)
    }

    open spec fn eqv(self, other: Self) -> bool {
        self == other
    }

    open spec fn dec(b: Seq<u8>, v: Self) -> bool {
        b.len() == 2 && v == spec_u16_from_le_bytes(b)
    }

    open spec fn parse(b: Seq<u8>) -> Outcome {
        if b.len() < 2 {
            Outcome::Short { needed: 2 }
        } else {
            Outcome::Val { used: 2 }
        }
    }

    open spec fn spec_min_len() -> usize {
        2
    }

    open spec fn spec_required_alignment() -> usize {
        2
    }

    open spec fn spec_max_provided_alignment() -> Option<usize> {
        None
    }

    open spec fn spec_trivial_copy() -> bool {
        true
    }

    fn try_ref(input: &'i [u8]) -> (r: Result<(Self, &'i [u8]), WrapErr>) {
        if input.len() < 2 {
            return Err(WrapErr::NotEnoughBytes(2));
        }
        let field = slice_subrange(input, 0, 2);
        let v = u16_from_le_bytes(field);
        let rem = slice_subrange(input, 2, input.len());
        assert(input@.take(2) =~= field@);
        proof {
            assert(<Self as FlatSerializable<'i>>::parse(input@) == (Outcome::Val {
                used: 2int,
            }));
            assert(v.wf());
            assert(<Self as FlatSerializable<'i>>::dec(input@.take(2), v));
        }
        Ok((v, rem))
    }

    fn fill_vec(&self, out: &mut Vec<u8>) {
        let mut bytes = u16_to_le_bytes(*self);
        out.append(&mut bytes);
    }

    fn len(&self) -> (r: usize) {
        proof {
            lemma_auto_spec_u16_to_from_le_bytes();
        }
        2
    }

    fn min_len() -> (r: usize) {
        2
    }

    fn required_alignment() -> (r: usize) {
        2
    }

    fn max_provided_alignment() -> (r: Option<usize>) {
        None
    }

    fn trivial_copy() -> (r: bool) {
        true
    }

    proof fn lemma_enc_dec(v: Self, extra: Seq<u8>) {
        lemma_auto_spec_u16_to_from_le_bytes();
    }

    proof fn lemma_dec_deterministic(b: Seq<u8>, v: Self, w: Self) {
    }

    proof fn lemma_dec_len(b: Seq<u8>, v: Self) {
        lemma_auto_spec_u16_to_from_le_bytes();
    }

    proof fn lemma_parse_bounds(b: Seq<u8>) {
    }

    proof fn lemma_parse_prefix(b: Seq<u8>, m: int) {
    }

    proof fn lemma_parse_prefix_stable(b: Seq<u8>, m: int) {
    }

    proof fn lemma_parse_extend(b: Seq<u8>, c: Seq<u8>) {
        assert((b + c).len() >= b.len());
    }

    proof fn lemma_eqv_refl(v: Self) {
    }

    proof fn lemma_eqv_enc(v: Self, w: Self) {
    }

    proof fn lemma_layout_sane() {
    }
}

impl<'i> FlatSerializable<'i> for u32 {
    open spec fn wf(self) -> bool {
        true
    }

    open spec fn enc(self) -> Seq<u8> {
        spec_u32_to_le_bytes(self)
    }

    open spec fn eqv(self, other: Self) -> bool {
        self == other
    }

    open spec fn dec(b: Seq<u8>, v: Self) -> bool {
        b.len() == 4 && v == spec_u32_from_le_bytes(b)
    }

    open spec fn parse(b: Seq<u8>) -> Outcome {
        if b.len() < 4 {
            Outcome::Short { needed: 4 }
        } else {
            Outcome::Val { used: 4 }
        }
    }

    open spec fn spec_min_len() -> usize {
        4
    }

    open spec fn spec_required_alignment() -> usize {
        4
    }

    open spec fn spec_max_provided_alignment() -> Option<usize> {
        None
    }

    open spec fn spec_trivial_copy() -> bool {
        true
    }

    fn try_ref(input: &'i [u8]) -> (r: Result<(Self, &'i [u8]), WrapErr>) {
        if input.len() < 4 {
            return Err(WrapErr::NotEnoughBytes(4));
        }
        let field = slice_subrange(input, 0, 4);
        let v = u32_from_le_bytes(field);
        let rem = slice_subrange(input, 4, input.len());
        assert(input@.take(4) =~= field@);
        proof {
            assert(<Self as FlatSerializable<'i>>::parse(input@) == (Outcome::Val {
                used: 4int,
            }));
            assert(v.wf());
            assert(<Self as FlatSerializable<'i>>::dec(input@.take(4), v));
        }
        Ok((v, rem))
    }

    fn fill_vec(&self, out: &mut Vec<u8>) {
        let mut bytes = u32_to_le_bytes(*self);
        out.append(&mut bytes);
    }

    fn len(&self) -> (r: usize) {
        proof {
            lemma_auto_spec_u32_to_from_le_bytes();
        }
        4
    }

    fn min_len() -> (r: usize) {
        4
    }

    fn required_alignment() -> (r: usize) {
        4
    }

    fn max_provided_alignment() -> (r: Option<usize>) {
        None
    }

    fn trivial_copy() -> (r: bool) {
        true
    }

    proof fn lemma_enc_dec(v: Self, extra: Seq<u8>) {
        lemma_auto_spec_u32_to_from_le_bytes();
    }

    proof fn lemma_dec_deterministic(b: Seq<u8>, v: Self, w: Self) {
    }

    proof fn lemma_dec_len(b: Seq<u8>, v: Self) {
        lemma_auto_spec_u32_to_from_le_bytes();
    }

    proof fn lemma_parse_bounds(b: Seq<u8>) {
    }

    proof fn lemma_parse_prefix(b: Seq<u8>, m: int) {
    }

    proof fn lemma_parse_prefix_stable(b: Seq<u8>, m: int) {
    }

    proof fn lemma_parse_extend(b: Seq<u8>, c: Seq<u8>) {
        assert((b + c).len() >= b.len());
    }

    proof fn lemma_eqv_refl(v: Self) {
    }

    proof fn lemma_eqv_enc(v: Self, w: Self) {
    }

    proof fn lemma_layout_sane() {
    }
}

impl<'i> FlatSerializable<'i> for u64 {
    open spec fn wf(self) -> bool {
        true
    }

    open spec fn enc(self) -> Seq<u8> {
        spec_u64_to_le_bytes(self)
    }

    open spec fn eqv(self, other: Self) -> bool {
        self == other
    }

    open spec fn dec(b: Seq<u8>, v: Self) -> bool {
        b.len() == 8 && v == spec_u64_from_le_bytes(b)
    }

    open spec fn parse(b: Seq<u8>) -> Outcome {
        if b.len() < 8 {
            Outcome::Short { needed: 8 }
        } else {
            Outcome::Val { used: 8 }
        }
    }

    open spec fn spec_min_len() -> usize {
        8
    }

    open spec fn spec_required_alignment() -> usize {
        8
    }

    open spec fn spec_max_provided_alignment() -> Option<usize> {
        None
    }

    open spec fn spec_trivial_copy() -> bool {
        true
    }

    fn try_ref(input: &'i [u8]) -> (r: Result<(Self, &'i [u8]), WrapErr>) {
        if input.len() < 8 {
            return Err(WrapErr::NotEnoughBytes(8));
        }
        let field = slice_subrange(input, 0, 8);
        let v = u64_from_le_bytes(field);
        let rem = slice_subrange(input, 8, input.len());
        assert(input@.take(8) =~= field@);
        proof {
            assert(<Self as FlatSerializable<'i>>::parse(input@) == (Outcome::Val {
                used: 8int,
            }));
            assert(v.wf());
            assert(<Self as FlatSerializable<'i>>::dec(input@.take(8), v));
        }
        Ok((v, rem))
    }

    fn fill_vec(&self, out: &mut Vec<u8>) {
        let mut bytes = u64_to_le_bytes(*self);
        out.append(&mut bytes);
    }

    fn len(&self) -> (r: usize) {
        proof {
            lemma_auto_spec_u64_to_from_le_bytes();
        }
        8
    }

    fn min_len() -> (r: usize) {
        8
    }

    fn required_alignment() -> (r: usize) {
        8
    }

    fn max_provided_alignment() -> (r: Option<usize>) {
        None
    }

    fn trivial_copy() -> (r: bool) {
        true
    }

    proof fn lemma_enc_dec(v: Self, extra: Seq<u8>) {
        lemma_auto_spec_u64_to_from_le_bytes();
    }

    proof fn lemma_dec_deterministic(b: Seq<u8>, v: Self, w: Self) {
    }

    proof fn lemma_dec_len(b: Seq<u8>, v: Self) {
        lemma_auto_spec_u64_to_from_le_bytes();
    }

    proof fn lemma_parse_bounds(b: Seq<u8>) {
    }

    proof fn lemma_parse_prefix(b: Seq<u8>, m: int) {
    }

    proof fn lemma_parse_prefix_stable(b: Seq<u8>, m: int) {
    }

    proof fn lemma_parse_extend(b: Seq<u8>, c: Seq<u8>) {
        assert((b + c).len() >= b.len());
    }

    proof fn lemma_eqv_refl(v: Self) {
    }

    proof fn lemma_eqv_enc(v: Self, w: Self) {
    }

    proof fn lemma_layout_sane() {
    }
}

impl<'i> FlatSerializable<'i> for i32 {
    open spec fn wf(self) -> bool {
        true
    }

    open spec fn enc(self) -> Seq<u8> {
        spec_u32_to_le_bytes(self as u32)
    }

    open spec fn eqv(self, other: Self) -> bool {
        self == other
    }

    open spec fn dec(b: Seq<u8>, v: Self) -> bool {
        b.len() == 4 && v == spec_u32_from_le_bytes(b) as i32
    }

    open spec fn parse(b: Seq<u8>) -> Outcome {
        if b.len() < 4 {
            Outcome::Short { needed: 4 }
        } else {
            Outcome::Val { used: 4 }
        }
    }

    open spec fn spec_min_len() -> usize {
        4
    }

    open spec fn spec_required_alignment() -> usize {
        4
    }

    open spec fn spec_max_provided_alignment() -> Option<usize> {
        None
    }

    open spec fn spec_trivial_copy() -> bool {
        true
    }

    fn try_ref(input: &'i [u8]) -> (r: Result<(Self, &'i [u8]), WrapErr>) {
        if input.len() < 4 {
            return Err(WrapErr::NotEnoughBytes(4));
        }
        let field = slice_subrange(input, 0, 4);
        let v = u32_from_le_bytes(field) as i32;
        let rem = slice_subrange(input, 4, input.len());
        assert(input@.take(4) =~= field@);
        proof {
            assert(<Self as FlatSerializable<'i>>::parse(input@) == (Outcome::Val {
                used: 4int,
            }));
            assert(v.wf());
            assert(<Self as FlatSerializable<'i>>::dec(input@.take(4), v));
        }
        Ok((v, rem))
    }

    fn fill_vec(&self, out: &mut Vec<u8>) {
        let mut bytes = u32_to_le_bytes(*self as u32);
        out.append(&mut bytes);
    }

    fn len(&self) -> (r: usize) {
        proof {
            lemma_auto_spec_u32_to_from_le_bytes();
        }
        4
    }

    fn min_len() -> (r: usize) {
        4
    }

    fn required_alignment() -> (r: usize) {
        4
    }

    fn max_provided_alignment() -> (r: Option<usize>) {
        None
    }

    fn trivial_copy() -> (r: bool) {
        true
    }

    proof fn lemma_enc_dec(v: Self, extra: Seq<u8>) {
        lemma_auto_spec_u32_to_from_le_bytes();
        assert(((v as u32) as i32) == v) by (bit_vector);
    }

    proof fn lemma_dec_deterministic(b: Seq<u8>, v: Self, w: Self) {
    }

    proof fn lemma_dec_len(b: Seq<u8>, v: Self) {
        lemma_auto_spec_u32_to_from_le_bytes();
    }

    proof fn lemma_parse_bounds(b: Seq<u8>) {
    }

    proof fn lemma_parse_prefix(b: Seq<u8>, m: int) {
    }

    proof fn lemma_parse_prefix_stable(b: Seq<u8>, m: int) {
    }

    proof fn lemma_parse_extend(b: Seq<u8>, c: Seq<u8>) {
        assert((b + c).len() >= b.len());
    }

    proof fn lemma_eqv_refl(v: Self) {
    }

    proof fn lemma_eqv_enc(v: Self, w: Self) {
    }

    proof fn lemma_layout_sane() {
    }
}

impl<'i> FlatSerializable<'i> for i64 {
    open spec fn wf(self) -> bool {
        true
    }

    open spec fn enc(self) -> Seq<u8> {
        spec_u64_to_le_bytes(self as u64)
    }

    open spec fn eqv(self, other: Self) -> bool {
        self == other
    }

    open spec fn dec(b: Seq<u8>, v: Self) -> bool {
        b.len() == 8 && v == spec_u64_from_le_bytes(b) as i64
    }

    open spec fn parse(b: Seq<u8>) -> Outcome {
        if b.len() < 8 {
            Outcome::Short { needed: 8 }
        } else {
            Outcome::Val { used: 8 }
        }
    }

    open spec fn spec_min_len() -> usize {
        8
    }

    open spec fn spec_required_alignment() -> usize {
        8
    }

    open spec fn spec_max_provided_alignment() -> Option<usize> {
        None
    }

    open spec fn spec_trivial_copy() -> bool {
        true
    }

    fn try_ref(input: &'i [u8]) -> (r: Result<(Self, &'i [u8]), WrapErr>) {
        if input.len() < 8 {
            return Err(WrapErr::NotEnoughBytes(8));
        }
        let field = slice_subrange(input, 0, 8);
        let v = u64_from_le_bytes(field) as i64;
        let rem = slice_subrange(input, 8, input.len());
        assert(input@.take(8) =~= field@);
        proof {
            assert(<Self as FlatSerializable<'i>>::parse(input@) == (Outcome::Val {
                used: 8int,
            }));
            assert(v.wf());
            assert(<Self as FlatSerializable<'i>>::dec(input@.take(8), v));
        }
        Ok((v, rem))
    }

    fn fill_vec(&self, out: &mut Vec<u8>) {
        let mut bytes = u64_to_le_bytes(*self as u64);
        out.append(&mut bytes);
    }

    fn len(&self) -> (r: usize) {
        proof {
            lemma_auto_spec_u64_to_from_le_bytes();
        }
        8
    }

    fn min_len() -> (r: usize) {
        8
    }

    fn required_alignment() -> (r: usize) {
        8
    }

    fn max_provided_alignment() -> (r: Option<usize>) {
        None
    }

    fn trivial_copy() -> (r: bool) {
        true
    }

    proof fn lemma_enc_dec(v: Self, extra: Seq<u8>) {
        lemma_auto_spec_u64_to_from_le_bytes();
        assert(((v as u64) as i64) == v) by (bit_vector);
    }

    proof fn lemma_dec_deterministic(b: Seq<u8>, v: Self, w: Self) {
    }

    proof fn lemma_dec_len(b: Seq<u8>, v: Self) {
        lemma_auto_spec_u64_to_from_le_bytes();
    }

    proof fn lemma_parse_bounds(b: Seq<u8>) {
    }

    proof fn lemma_parse_prefix(b: Seq<u8>, m: int) {
    }

    proof fn lemma_parse_prefix_stable(b: Seq<u8>, m: int) {
    }

    proof fn lemma_parse_extend(b: Seq<u8>, c: Seq<u8>) {
        assert((b + c).len() >= b.len());
    }

    proof fn lemma_eqv_refl(v: Self) {
    }

    proof fn lemma_eqv_enc(v: Self, w: Self) {
    }

    proof fn lemma_layout_sane() {
    }
}

} // verus!

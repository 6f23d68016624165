//! Leaf capability implementations for fixed-size arrays: `N` copies of a
//! fixed-size element, one after another with no inter-element padding.
//! Layout facts are inherited from the element type, and the minimum length
//! is `N` times the element's.
use vstd::prelude::*;

use vstd::bytes::lemma_auto_spec_u16_to_from_le_bytes;
use vstd::bytes::spec_u16_from_le_bytes;
use vstd::bytes::spec_u16_to_le_bytes;
use vstd::bytes::u16_from_le_bytes;
use vstd::bytes::u16_to_le_bytes;
use vstd::slice::slice_index_get;
use vstd::slice::slice_subrange;

use crate::contract::FlatSerializable;
use crate::contract::Outcome;
use crate::WrapErr;

verus! {

broadcast use vstd::array::group_array_axioms;

impl<'i> FlatSerializable<'i> for [u8; 2] {
    open spec fn wf(self) -> bool {
        true
    }

    open spec fn enc(self) -> Seq<u8> {
        seq![self@[0], self@[1]]
    }

    open spec fn eqv(self, other: Self) -> bool {
        self@ == other@
    }

    open spec fn dec(b: Seq<u8>, v: Self) -> bool {
        b.len() == 2 && v@[0] == b[0] && v@[1] == b[1]
    }

    open spec fn parse(b: Seq<u8>) -> Outcome {
        if b.len() < 2 {
            Outcome::Short { needed: 2 }
        } else {
            Outcome::Val { used: 2 }
        }
    }

    open spec fn spec_min_len() -> usize {
        2
    }

    open spec fn spec_required_alignment() -> usize {
        1
    }

    open spec fn spec_max_provided_alignment() -> Option<usize> {
        None
    }

    open spec fn spec_trivial_copy() -> bool {
        true
    }

    fn try_ref(input: &'i [u8]) -> (r: Result<(Self, &'i [u8]), WrapErr>) {
        if input.len() < 2 {
            return Err(WrapErr::NotEnoughBytes(2));
        }
        let v: [u8; 2] = [*slice_index_get(input, 0), *slice_index_get(input, 1)];
        let rem = slice_subrange(input, 2, input.len());
        Ok((v, rem))
    }

    fn fill_vec(&self, out: &mut Vec<u8>) {
        out.push(self[0]);
        out.push(self[1]);
        assert(final(out)@ =~= old(out)@ + self.enc());
    }

    fn len(&self) -> (r: usize) {
        2
    }

    fn min_len() -> (r: usize) {
        2
    }

    fn required_alignment() -> (r: usize) {
        1
    }

    fn max_provided_alignment() -> (r: Option<usize>) {
        None
    }

    fn trivial_copy() -> (r: bool) {
        true
    }

    proof fn lemma_enc_dec(v: Self, extra: Seq<u8>) {
    }

    proof fn lemma_dec_deterministic(b: Seq<u8>, v: Self, w: Self) {
        assert(v@ =~= w@);
    }

    proof fn lemma_dec_len(b: Seq<u8>, v: Self) {
    }

    proof fn lemma_parse_bounds(b: Seq<u8>) {
    }

    proof fn lemma_parse_prefix(b: Seq<u8>, m: int) {
    }

    proof fn lemma_parse_prefix_stable(b: Seq<u8>, m: int) {
    }

    proof fn lemma_parse_extend(b: Seq<u8>, c: Seq<u8>) {
        assert((b + c).len() >= b.len());
    }

    proof fn lemma_eqv_refl(v: Self) {
    }

    proof fn lemma_eqv_enc(v: Self, w: Self) {
        assert(v.enc() =~= w.enc());
    }

    proof fn lemma_layout_sane() {
    }
}

impl<'i> FlatSerializable<'i> for [u8; 3] {
    open spec fn wf(self) -> bool {
        true
    }

    open spec fn enc(self) -> Seq<u8> {
        seq![self@[0], self@[1], self@[2]]
    }

    open spec fn eqv(self, other: Self) -> bool {
        self@ == other@
    }

    open spec fn dec(b: Seq<u8>, v: Self) -> bool {
        b.len() == 3 && v@[0] == b[0] && v@[1] == b[1] && v@[2] == b[2]
    }

    open spec fn parse(b: Seq<u8>) -> Outcome {
        if b.len() < 3 {
            Outcome::Short { needed: 3 }
        } else {
            Outcome::Val { used: 3 }
        }
    }

    open spec fn spec_min_len() -> usize {
        3
    }

    open spec fn spec_required_alignment() -> usize {
        1
    }

    open spec fn spec_max_provided_alignment() -> Option<usize> {
        None
    }

    open spec fn spec_trivial_copy() -> bool {
        true
    }

    fn try_ref(input: &'i [u8]) -> (r: Result<(Self, &'i [u8]), WrapErr>) {
        if input.len() < 3 {
            return Err(WrapErr::NotEnoughBytes(3));
        }
        let v: [u8; 3] = [
            *slice_index_get(input, 0),
            *slice_index_get(input, 1),
            *slice_index_get(input, 2),
        ];
        let rem = slice_subrange(input, 3, input.len());
        Ok((v, rem))
    }

    fn fill_vec(&self, out: &mut Vec<u8>) {
        out.push(self[0]);
        out.push(self[1]);
        out.push(self[2]);
        assert(final(out)@ =~= old(out)@ + self.enc());
    }

    fn len(&self) -> (r: usize) {
        3
    }

    fn min_len() -> (r: usize) {
        3
    }

    fn required_alignment() -> (r: usize) {
        1
    }

    fn max_provided_alignment() -> (r: Option<usize>) {
        None
    }

    fn trivial_copy() -> (r: bool) {
        true
    }

    proof fn lemma_enc_dec(v: Self, extra: Seq<u8>) {
    }

    proof fn lemma_dec_deterministic(b: Seq<u8>, v: Self, w: Self) {
        assert(v@ =~= w@);
    }

    proof fn lemma_dec_len(b: Seq<u8>, v: Self) {
    }

    proof fn lemma_parse_bounds(b: Seq<u8>) {
    }

    proof fn lemma_parse_prefix(b: Seq<u8>, m: int) {
    }

    proof fn lemma_parse_prefix_stable(b: Seq<u8>, m: int) {
    }

    proof fn lemma_parse_extend(b: Seq<u8>, c: Seq<u8>) {
        assert((b + c).len() >= b.len());
    }

    proof fn lemma_eqv_refl(v: Self) {
    }

    proof fn lemma_eqv_enc(v: Self, w: Self) {
        assert(v.enc() =~= w.enc());
    }

    proof fn lemma_layout_sane() {
    }
}

impl<'i> FlatSerializable<'i> for [u16; 3] {
    open spec fn wf(self) -> bool {
        true
    }

    open spec fn enc(self) -> Seq<u8> {
        spec_u16_to_le_bytes(self@[0]) + spec_u16_to_le_bytes(self@[1]) + spec_u16_to_le_bytes(
            self@[2],
        )
    }

    open spec fn eqv(self, other: Self) -> bool {
        self@ == other@
    }

    open spec fn dec(b: Seq<u8>, v: Self) -> bool {
        &&& b.len() == 6
        &&& v@[0] == spec_u16_from_le_bytes(b.subrange(0, 2))
        &&& v@[1] == spec_u16_from_le_bytes(b.subrange(2, 4))
        &&& v@[2] == spec_u16_from_le_bytes(b.subrange(4, 6))
    }

    open spec fn parse(b: Seq<u8>) -> Outcome {
        if b.len() < 6 {
            Outcome::Short { needed: 6 }
        } else {
            Outcome::Val { used: 6 }
        }
    }

    open spec fn spec_min_len() -> usize {
        6
    }

    open spec fn spec_required_alignment() -> usize {
        2
    }

    open spec fn spec_max_provided_alignment() -> Option<usize> {
        None
    }

    open spec fn spec_trivial_copy() -> bool {
        true
    }

    fn try_ref(input: &'i [u8]) -> (r: Result<(Self, &'i [u8]), WrapErr>) {
        if input.len() < 6 {
            return Err(WrapErr::NotEnoughBytes(6));
        }
        let e0 = u16_from_le_bytes(slice_subrange(input, 0, 2));
        let e1 = u16_from_le_bytes(slice_subrange(input, 2, 4));
        let e2 = u16_from_le_bytes(slice_subrange(input, 4, 6));
        let v: [u16; 3] = [e0, e1, e2];
        let rem = slice_subrange(input, 6, input.len());
        assert(input@.take(6).subrange(0, 2) =~= input@.subrange(0, 2));
        assert(input@.take(6).subrange(2, 4) =~= input@.subrange(2, 4));
        assert(input@.take(6).subrange(4, 6) =~= input@.subrange(4, 6));
        Ok((v, rem))
    }

    fn fill_vec(&self, out: &mut Vec<u8>) {
        let mut b0 = u16_to_le_bytes(self[0]);
        out.append(&mut b0);
        let mut b1 = u16_to_le_bytes(self[1]);
        out.append(&mut b1);
        let mut b2 = u16_to_le_bytes(self[2]);
        out.append(&mut b2);
        proof {
            lemma_auto_spec_u16_to_from_le_bytes();
        }
        assert(final(out)@ =~= old(out)@ + self.enc());
    }

    fn len(&self) -> (r: usize) {
        proof {
            lemma_auto_spec_u16_to_from_le_bytes();
        }
        6
    }

    fn min_len() -> (r: usize) {
        6
    }

    fn required_alignment() -> (r: usize) {
        2
    }

    fn max_provided_alignment() -> (r: Option<usize>) {
        None
    }

    fn trivial_copy() -> (r: bool) {
        true
    }

    proof fn lemma_enc_dec(v: Self, extra: Seq<u8>) {
        lemma_auto_spec_u16_to_from_le_bytes();
        assert(v.enc().subrange(0, 2) =~= spec_u16_to_le_bytes(v@[0]));
        assert(v.enc().subrange(2, 4) =~= spec_u16_to_le_bytes(v@[1]));
        assert(v.enc().subrange(4, 6) =~= spec_u16_to_le_bytes(v@[2]));
    }

    proof fn lemma_dec_deterministic(b: Seq<u8>, v: Self, w: Self) {
        assert(v@ =~= w@);
    }

    proof fn lemma_dec_len(b: Seq<u8>, v: Self) {
        lemma_auto_spec_u16_to_from_le_bytes();
    }

    proof fn lemma_parse_bounds(b: Seq<u8>) {
    }

    proof fn lemma_parse_prefix(b: Seq<u8>, m: int) {
    }

    proof fn lemma_parse_prefix_stable(b: Seq<u8>, m: int) {
    }

    proof fn lemma_parse_extend(b: Seq<u8>, c: Seq<u8>) {
        assert((b + c).len() >= b.len());
    }

    proof fn lemma_eqv_refl(v: Self) {
    }

    proof fn lemma_eqv_enc(v: Self, w: Self) {
    }

    proof fn lemma_layout_sane() {
    }
}

} // verus!

//! The variable-count sequence engine: "N copies of T", with N supplied at
//! use time. Elements are laid out one after another; after each element the
//! cursor advances to the next multiple of the element's required alignment,
//! skipping padding bytes on read and emitting zero padding bytes on write.
//!
//! A sequence is represented either as a direct reference to
//! already-contiguous data ([`Iterable::Slice`]) or as a lazy re-aligning
//! cursor over the original input bytes ([`Iterable::Iter`]).
use vstd::prelude::*;

use vstd::arithmetic::div_mod::lemma_fundamental_div_mod;
use vstd::arithmetic::div_mod::lemma_mod_bound;

use vstd::slice::slice_index_get;
use vstd::slice::slice_subrange;

use crate::contract::FlatSerializable;
use crate::contract::Outcome;
use crate::WrapErr;

verus! {

/// A sequence of `n` zero bytes: the canonical content of alignment padding.
pub open spec fn zeros(n: int) -> Seq<u8> {
    Seq::new(n as nat, |i: int| 0u8)
}

/// Bytes of padding needed after `len` bytes to reach a multiple of `align`.
pub open spec fn pad_len(len: int, align: int) -> int
    recommends
        align >= 1,
{
    if len % align == 0 {
        0
    } else {
        align - len % align
    }
}

/// The padding is shorter than the alignment, and fills exactly up to the
/// next multiple of it.
pub proof fn lemma_pad_len(len: int, align: int)
    requires
        align >= 1,
        len >= 0,
    ensures
        0 <= pad_len(len, align) < align,
        (len + pad_len(len, align)) % align == 0,
{
    lemma_mod_bound(len, align);
    let m = len % align;
    lemma_fundamental_div_mod(len, align);
    if m != 0 {
        let k = len / align;
        assert(len == align * k + m);
        assert(align * k + align == (k + 1) * align) by (nonlinear_arith);
        assert(len + pad_len(len, align) == (k + 1) * align);
        vstd::arithmetic::div_mod::lemma_mod_multiples_basic(k + 1, align);
    }
}

/// The element's required alignment, as a mathematical integer.
pub open spec fn elem_align<'i, T: FlatSerializable<'i>>() -> int {
    T::spec_required_alignment() as int
}

/// The canonical padded block of one element: its byte image followed by
/// zero padding up to the element type's required alignment.
pub open spec fn padded_enc<'i, T: FlatSerializable<'i>>(v: T) -> Seq<u8> {
    v.enc() + zeros(pad_len(v.enc().len() as int, elem_align::<T>()))
}

/// The canonical byte image of a whole sequence: each element's padded
/// block, in order.
pub open spec fn seq_enc<'i, T: FlatSerializable<'i>>(elems: Seq<T>) -> Seq<u8>
    decreases elems.len(),
{
    if elems.len() == 0 {
        Seq::empty()
    } else {
        padded_enc(elems[0]) + seq_enc(elems.drop_first())
    }
}

/// `b` is exactly a sequence region decoding to `elems`: each element's
/// bytes followed by its alignment padding (whose byte values are ignored),
/// with nothing left over.
pub open spec fn region_wf<'i, T: FlatSerializable<'i>>(b: Seq<u8>, elems: Seq<T>) -> bool
    decreases elems.len(),
{
    if elems.len() == 0 {
        b.len() == 0
    } else {
        &&& T::parse(b) matches Outcome::Val { used }
        &&& used + pad_len(used, elem_align::<T>()) <= b.len()
        &&& T::dec(b.take(used), elems[0])
        &&& region_wf(b.skip(used + pad_len(used, elem_align::<T>())), elems.drop_first())
    }
}

/// The deterministic shape of parsing `count` elements from the front of
/// `b`: total bytes consumed (elements plus their trailing padding), or the
/// error met first.
pub open spec fn seq_parse<'i, T: FlatSerializable<'i>>(b: Seq<u8>, count: int) -> Outcome
    decreases count,
{
    if count <= 0 {
        Outcome::Val { used: 0 }
    } else {
        match T::parse(b) {
            Outcome::Val { used } => {
                let p = pad_len(used, elem_align::<T>());
                if b.len() < used + p {
                    Outcome::Short { needed: p }
                } else {
                    match seq_parse::<T>(b.skip(used + p), count - 1) {
                        Outcome::Val { used: tail } => Outcome::Val { used: used + p + tail },
                        Outcome::Short { needed } => Outcome::Short { needed },
                        Outcome::Tag { tag } => Outcome::Tag { tag },
                    }
                }
            },
            Outcome::Short { needed } => Outcome::Short { needed },
            Outcome::Tag { tag } => Outcome::Tag { tag },
        }
    }
}

/// Unfolds the facts a nonempty region gives about its first element, with
/// the bounds that make the skip and take indices meaningful.
proof fn lemma_region_head<'i, T: FlatSerializable<'i>>(b: Seq<u8>, elems: Seq<T>)
    requires
        region_wf(b, elems),
        elems.len() > 0,
    ensures
        T::parse(b) is Val,
        elem_align::<T>() >= 1,
        ({
            let used = T::parse(b)->used;
            let p = pad_len(used, elem_align::<T>());
            &&& 1 <= used <= b.len()
            &&& 0 <= p < elem_align::<T>()
            &&& used + p <= b.len()
            &&& T::dec(b.take(used), elems[0])
            &&& region_wf(b.skip(used + p), elems.drop_first())
        }),
{
    T::lemma_layout_sane();
    T::lemma_parse_bounds(b);
    let used = T::parse(b)->used;
    lemma_pad_len(used, elem_align::<T>());
}

/// Appending one more padded element block to a region keeps it a region.
pub proof fn lemma_region_snoc<'i, T: FlatSerializable<'i>>(
    b: Seq<u8>,
    elems: Seq<T>,
    c: Seq<u8>,
    v: T,
)
    requires
        region_wf(b, elems),
        T::parse(c) is Val,
        T::dec(c.take(T::parse(c)->used), v),
        c.len() == T::parse(c)->used + pad_len(T::parse(c)->used, elem_align::<T>()),
    ensures
        region_wf(b + c, elems.push(v)),
    decreases elems.len(),
{
    T::lemma_layout_sane();
    T::lemma_parse_bounds(c);
    if elems.len() == 0 {
        assert(b + c =~= c);
        let used = T::parse(c)->used;
        let p = pad_len(used, elem_align::<T>());
        lemma_pad_len(used, elem_align::<T>());
        assert(elems.push(v)[0] == v);
        assert(elems.push(v).drop_first() =~= Seq::<T>::empty());
        assert(c.skip(used + p).len() == 0);
        assert(region_wf(c.skip(used + p), elems.push(v).drop_first()));
        assert(region_wf(c, elems.push(v)));
    } else {
        lemma_region_head(b, elems);
        let used = T::parse(b)->used;
        let p = pad_len(used, elem_align::<T>());
        T::lemma_parse_extend(b, c);
        assert((b + c).take(used) =~= b.take(used));
        assert((b + c).skip(used + p) =~= b.skip(used + p) + c);
        lemma_region_snoc(b.skip(used + p), elems.drop_first(), c, v);
        assert(elems.push(v).drop_first() =~= elems.drop_first().push(v));
        assert(elems.push(v)[0] == elems[0]);
        assert(region_wf((b + c).skip(used + p), elems.push(v).drop_first()));
        assert(T::dec((b + c).take(used), elems.push(v)[0]));
        assert(region_wf(b + c, elems.push(v)));
    }
}

/// Parsing a region followed by more bytes parses the region first, then
/// the rest: consumed counts add, errors in the rest pass through.
pub proof fn lemma_seq_parse_prepend<'i, T: FlatSerializable<'i>>(
    b: Seq<u8>,
    elems: Seq<T>,
    rest: Seq<u8>,
    c2: int,
)
    requires
        region_wf(b, elems),
        c2 >= 0,
    ensures
        seq_parse::<T>(b + rest, elems.len() + c2) == match seq_parse::<T>(rest, c2) {
            Outcome::Val { used } => Outcome::Val { used: used + b.len() },
            Outcome::Short { needed } => Outcome::Short { needed },
            Outcome::Tag { tag } => Outcome::Tag { tag },
        },
    decreases elems.len(),
{
    if elems.len() == 0 {
        assert(b + rest =~= rest);
    } else {
        lemma_region_head(b, elems);
        let used = T::parse(b)->used;
        let p = pad_len(used, elem_align::<T>());
        T::lemma_parse_extend(b, rest);
        assert((b + rest).skip(used + p) =~= b.skip(used + p) + rest);
        lemma_seq_parse_prepend(b.skip(used + p), elems.drop_first(), rest, c2);
    }
}

/// A byte region decodes to at most one element sequence, up to model
/// equality of the elements.
pub proof fn lemma_region_deterministic<'i, T: FlatSerializable<'i>>(
    b: Seq<u8>,
    elems: Seq<T>,
    other: Seq<T>,
)
    requires
        region_wf(b, elems),
        region_wf(b, other),
    ensures
        elems.len() == other.len(),
        forall|i: int| 0 <= i < elems.len() ==> #[trigger] elems[i].eqv(other[i]),
    decreases elems.len(),
{
    if elems.len() == 0 {
        if other.len() > 0 {
            lemma_region_head(b, other);
        }
    } else {
        lemma_region_head(b, elems);
        assert(other.len() > 0) by {
            lemma_region_head(b, elems);
        }
        lemma_region_head(b, other);
        let used = T::parse(b)->used;
        let p = pad_len(used, elem_align::<T>());
        T::lemma_dec_deterministic(b.take(used), elems[0], other[0]);
        lemma_region_deterministic(b.skip(used + p), elems.drop_first(), other.drop_first());
        assert forall|i: int| 0 <= i < elems.len() implies #[trigger] elems[i].eqv(other[i]) by {
            if i > 0 {
                assert(elems.drop_first()[i - 1].eqv(other.drop_first()[i - 1]));
            }
        }
    }
}

/// A region's length equals its canonical image's length (padding differs
/// only in byte values), and its elements are well formed.
pub proof fn lemma_region_len<'i, T: FlatSerializable<'i>>(b: Seq<u8>, elems: Seq<T>)
    requires
        region_wf(b, elems),
    ensures
        b.len() == seq_enc(elems).len(),
        forall|i: int| 0 <= i < elems.len() ==> (#[trigger] elems[i]).wf(),
    decreases elems.len(),
{
    if elems.len() > 0 {
        lemma_region_head(b, elems);
        let used = T::parse(b)->used;
        let p = pad_len(used, elem_align::<T>());
        T::lemma_dec_len(b.take(used), elems[0]);
        lemma_region_len(b.skip(used + p), elems.drop_first());
        assert(seq_enc(elems).len() == padded_enc(elems[0]).len() + seq_enc(
            elems.drop_first(),
        ).len());
        assert forall|i: int| 0 <= i < elems.len() implies (#[trigger] elems[i]).wf() by {
            if i > 0 {
                assert(elems.drop_first()[i - 1].wf());
            }
        }
    }
}

/// The canonical image of well-formed elements is itself a region decoding
/// back to those elements: the write path round-trips through the read path.
pub proof fn lemma_enc_region<'i, T: FlatSerializable<'i>>(elems: Seq<T>)
    requires
        forall|i: int| 0 <= i < elems.len() ==> (#[trigger] elems[i]).wf(),
    ensures
        region_wf(seq_enc(elems), elems),
    decreases elems.len(),
{
    if elems.len() > 0 {
        let v = elems[0];
        let rest = seq_enc(elems.drop_first());
        T::lemma_layout_sane();
        let al = elem_align::<T>();
        lemma_pad_len(v.enc().len() as int, al);
        let extra = zeros(pad_len(v.enc().len() as int, al)) + rest;
        T::lemma_enc_dec(v, extra);
        let b = seq_enc(elems);
        assert(b =~= v.enc() + extra);
        let used = T::parse(b)->used;
        assert(used == v.enc().len());
        let p = pad_len(used, al);
        assert(b.take(used) =~= v.enc());
        assert(forall|i: int|
            0 <= i < elems.drop_first().len() ==> (#[trigger] elems.drop_first()[i]).wf());
        lemma_enc_region(elems.drop_first());
        assert(b.skip(used + p) =~= rest);
    }
}

/// The canonical image splits at any element boundary.
pub proof fn lemma_seq_enc_decompose<'i, T: FlatSerializable<'i>>(elems: Seq<T>, i: int)
    requires
        0 <= i <= elems.len(),
    ensures
        seq_enc(elems) == seq_enc(elems.take(i)) + seq_enc(elems.skip(i)),
    decreases i,
{
    if i == 0 {
        assert(elems.take(0) =~= Seq::<T>::empty());
        assert(elems.skip(0) =~= elems);
        assert(seq_enc(elems) =~= seq_enc(elems.take(0)) + seq_enc(elems.skip(0)));
    } else {
        let df = elems.drop_first();
        lemma_seq_enc_decompose(df, i - 1);
        assert(elems.take(i).drop_first() =~= df.take(i - 1));
        assert(elems.take(i)[0] == elems[0]);
        assert(elems.skip(i) =~= df.skip(i - 1));
        assert(seq_enc(elems) =~= seq_enc(elems.take(i)) + seq_enc(elems.skip(i)));
    }
}

/// Alignment (the padding law): in the canonical image of a sequence, each
/// element starts at an offset that is a multiple of its required alignment,
/// occupies exactly its own byte image there, and is followed by zero
/// padding bytes up to the next multiple.
pub proof fn lemma_seq_alignment<'i, T: FlatSerializable<'i>>(elems: Seq<T>, i: int)
    requires
        0 <= i < elems.len(),
    ensures
        seq_enc(elems.take(i)).len() as int % elem_align::<T>() == 0,
        seq_enc(elems).subrange(
            seq_enc(elems.take(i)).len() as int,
            seq_enc(elems.take(i)).len() + elems[i].enc().len() as int,
        ) == elems[i].enc(),
        seq_enc(elems).subrange(
            seq_enc(elems.take(i)).len() + elems[i].enc().len() as int,
            seq_enc(elems.take(i)).len() + padded_enc(elems[i]).len() as int,
        ) == zeros(pad_len(elems[i].enc().len() as int, elem_align::<T>())),
    decreases i,
{
    T::lemma_layout_sane();
    let al = elem_align::<T>();
    lemma_seq_enc_offset_aligned(elems, i);
    lemma_seq_enc_decompose(elems, i);
    let off = seq_enc(elems.take(i)).len() as int;
    let tail = elems.skip(i);
    assert(tail[0] == elems[i]);
    assert(tail.len() > 0);
    assert(seq_enc(tail) == padded_enc(elems[i]) + seq_enc(tail.drop_first()));
    lemma_pad_len(elems[i].enc().len() as int, al);
    assert(seq_enc(elems).subrange(off, off + elems[i].enc().len() as int) =~= elems[i].enc());
    assert(seq_enc(elems).subrange(
        off + elems[i].enc().len() as int,
        off + padded_enc(elems[i]).len() as int,
    ) =~= zeros(pad_len(elems[i].enc().len() as int, al)));
}

/// The offset of each element boundary in a canonical image is a multiple
/// of the element type's required alignment.
pub proof fn lemma_seq_enc_offset_aligned<'i, T: FlatSerializable<'i>>(elems: Seq<T>, i: int)
    requires
        0 <= i <= elems.len(),
    ensures
        seq_enc(elems.take(i)).len() as int % elem_align::<T>() == 0,
    decreases i,
{
    T::lemma_layout_sane();
    let al = elem_align::<T>();
    if i == 0 {
        assert(elems.take(0) =~= Seq::<T>::empty());
        assert(seq_enc(elems.take(0)).len() == 0);
        vstd::arithmetic::div_mod::lemma_mod_multiples_basic(0, al);
        assert(0int * al == 0) by (nonlinear_arith);
    } else {
        lemma_seq_enc_offset_aligned(elems, i - 1);
        lemma_seq_enc_decompose(elems.take(i), i - 1);
        assert(elems.take(i).take(i - 1) =~= elems.take(i - 1));
        let tail = elems.take(i).skip(i - 1);
        assert(tail.len() == 1);
        assert(tail[0] == elems[i - 1]);
        assert(tail.drop_first() =~= Seq::<T>::empty());
        assert(seq_enc(tail) == padded_enc(tail[0]) + seq_enc(tail.drop_first()));
        assert(seq_enc(tail.drop_first()).len() == 0);
        assert(seq_enc(tail) =~= padded_enc(elems[i - 1]));
        lemma_pad_len(elems[i - 1].enc().len() as int, al);
        assert(padded_enc(elems[i - 1]).len() as int % al == 0);
        vstd::arithmetic::div_mod::lemma_mod_adds(
            seq_enc(elems.take(i - 1)).len() as int,
            padded_enc(elems[i - 1]).len() as int,
            al,
        );
    }
}

/// A successful sequence parse consumes no more than the buffer holds.
pub proof fn lemma_seq_parse_bounds<'i, T: FlatSerializable<'i>>(b: Seq<u8>, count: int)
    ensures
        seq_parse::<'i, T>(b, count) matches Outcome::Val { used } ==> 0 <= used <= b.len(),
    decreases count,
{
    if count > 0 {
        if T::parse(b) is Val {
            T::lemma_layout_sane();
            T::lemma_parse_bounds(b);
            let used = T::parse(b)->used;
            let p = pad_len(used, elem_align::<T>());
            lemma_pad_len(used, elem_align::<T>());
            if b.len() >= used + p {
                lemma_seq_parse_bounds::<'i, T>(b.skip(used + p), count - 1);
            }
        }
    }
}

/// A successful sequence parse depends only on the bytes it consumed:
/// appending bytes changes nothing.
pub proof fn lemma_seq_parse_extend<'i, T: FlatSerializable<'i>>(b: Seq<u8>, c: Seq<u8>, count: int)
    requires
        seq_parse::<'i, T>(b, count) is Val,
    ensures
        seq_parse::<'i, T>(b + c, count) == seq_parse::<'i, T>(b, count),
    decreases count,
{
    if count > 0 {
        T::lemma_layout_sane();
        T::lemma_parse_bounds(b);
        let used = T::parse(b)->used;
        let p = pad_len(used, elem_align::<T>());
        lemma_pad_len(used, elem_align::<T>());
        T::lemma_parse_extend(b, c);
        assert((b + c).skip(used + p) =~= b.skip(used + p) + c);
        lemma_seq_parse_extend::<'i, T>(b.skip(used + p), c, count - 1);
    }
}

/// Cutting a buffer at or after what a successful sequence parse consumed
/// changes nothing.
pub proof fn lemma_seq_parse_prefix_stable<'i, T: FlatSerializable<'i>>(
    b: Seq<u8>,
    m: int,
    count: int,
)
    requires
        seq_parse::<'i, T>(b, count) is Val,
        seq_parse::<'i, T>(b, count)->used <= m <= b.len(),
    ensures
        seq_parse::<'i, T>(b.take(m), count) == seq_parse::<'i, T>(b, count),
    decreases count,
{
    if count > 0 {
        T::lemma_layout_sane();
        T::lemma_parse_bounds(b);
        let used = T::parse(b)->used;
        let p = pad_len(used, elem_align::<T>());
        lemma_pad_len(used, elem_align::<T>());
        lemma_seq_parse_bounds::<'i, T>(b.skip(used + p), count - 1);
        T::lemma_parse_prefix_stable(b, m);
        assert(b.take(m).skip(used + p) =~= b.skip(used + p).take(m - used - p));
        lemma_seq_parse_prefix_stable::<'i, T>(b.skip(used + p), m - used - p, count - 1);
    }
}

/// Cutting a buffer strictly inside what a successful sequence parse
/// consumed makes the parse fail for want of bytes.
pub proof fn lemma_seq_parse_prefix<'i, T: FlatSerializable<'i>>(b: Seq<u8>, m: int, count: int)
    requires
        seq_parse::<'i, T>(b, count) is Val,
        0 <= m <= b.len(),
        m < seq_parse::<'i, T>(b, count)->used,
    ensures
        seq_parse::<'i, T>(b.take(m), count) is Short,
    decreases count,
{
    assert(count > 0);
    T::lemma_layout_sane();
    T::lemma_parse_bounds(b);
    let used = T::parse(b)->used;
    let p = pad_len(used, elem_align::<T>());
    lemma_pad_len(used, elem_align::<T>());
    lemma_seq_parse_bounds::<'i, T>(b.skip(used + p), count - 1);
    if m < used {
        T::lemma_parse_prefix(b, m);
    } else if m < used + p {
        T::lemma_parse_prefix_stable(b, m);
    } else {
        T::lemma_parse_prefix_stable(b, m);
        assert(b.take(m).skip(used + p) =~= b.skip(used + p).take(m - used - p));
        lemma_seq_parse_prefix::<'i, T>(b.skip(used + p), m - used - p, count - 1);
    }
}

/// A well-formed sequence has well-formed elements.
pub proof fn lemma_iterable_elems_wf<'i, T: FlatSerializable<'i> + Copy>(v: Iterable<'i, T>)
    requires
        v.wf(),
    ensures
        forall|i: int| 0 <= i < v.elems().len() ==> (#[trigger] v.elems()[i]).wf(),
{
    match v {
        Iterable::Slice(s) => {
        },
        Iterable::Iter(it) => {
            lemma_region_len(it.slice@, it.elems@);
        },
    }
}

/// The canonical image of one more element extends the image of the prefix
/// by that element's padded block.
pub proof fn lemma_seq_enc_snoc<'i, T: FlatSerializable<'i>>(elems: Seq<T>, k: int)
    requires
        0 <= k < elems.len(),
    ensures
        seq_enc(elems.take(k + 1)) == seq_enc(elems.take(k)) + padded_enc(elems[k]),
{
    lemma_seq_enc_decompose(elems.take(k + 1), k);
    assert(elems.take(k + 1).take(k) =~= elems.take(k));
    let tail = elems.take(k + 1).skip(k);
    assert(tail.len() == 1);
    assert(tail[0] == elems[k]);
    assert(tail.drop_first() =~= Seq::<T>::empty());
    assert(seq_enc(tail) == padded_enc(tail[0]) + seq_enc(tail.drop_first()));
    assert(seq_enc(tail) =~= padded_enc(elems[k]));
}

/// The image of a longer prefix is no shorter.
pub proof fn lemma_seq_enc_take_mono<'i, T: FlatSerializable<'i>>(elems: Seq<T>, i: int, j: int)
    requires
        0 <= i <= j <= elems.len(),
    ensures
        seq_enc(elems.take(i)).len() <= seq_enc(elems.take(j)).len(),
{
    lemma_seq_enc_decompose(elems.take(j), i);
    assert(elems.take(j).take(i) =~= elems.take(i));
}

/// Bytes of padding needed after `len` bytes to reach the next multiple of
/// `align`: zero when `len` is already there.
pub fn aligning_len(len: usize, align: usize) -> (r: usize)
    requires
        align >= 1,
    ensures
        r == pad_len(len as int, align as int),
        r < align,
{
    proof {
        lemma_pad_len(len as int, align as int);
    }
    if len % align == 0 {
        0
    } else {
        align - len % align
    }
}

/// Append `n` zero bytes: the write path's canonical alignment padding.
fn push_zeros(out: &mut Vec<u8>, n: usize)
    requires
        old(out)@.len() + n <= usize::MAX,
    ensures
        final(out)@ == old(out)@ + zeros(n as int),
{
    let mut i: usize = 0;
    while i < n
        invariant
            i <= n,
            old(out)@.len() + n <= usize::MAX,
            out@ == old(out)@ + zeros(i as int),
        decreases n - i,
    {
        out.push(0u8);
        assert(out@ =~= old(out)@ + zeros(i + 1 as int));
        i = i + 1;
    }
}

/// The repeated-element representation: decoding `count` copies of an
/// element type from a buffer, writing them back, and measuring them.
pub trait Slice<'input>: Sized {
    /// The value can stand for `count` elements.
    spec fn wf_n(self, count: int) -> bool;

    /// Canonical byte image of the first `count` elements, padding included.
    spec fn enc_n(self, count: int) -> Seq<u8>;

    /// `b` is exactly a byte region decoding to this value's `count`
    /// elements, padding byte values ignored.
    spec fn dec_n(b: Seq<u8>, count: int, v: Self) -> bool;

    /// Deterministic shape of parsing `count` elements from the front of
    /// `b`.
    spec fn parse_n(b: Seq<u8>, count: int) -> Outcome;

    /// Decode `count` elements from the front of `input`, without copying:
    /// the result borrows `input`. Returns the remainder past the elements
    /// and their trailing padding.
    fn try_ref(input: &'input [u8], count: usize) -> (r: Result<(Self, &'input [u8]), WrapErr>)
        ensures
            match r {
                Ok((v, rem)) => {
                    &&& rem@.len() <= input@.len()
                    &&& Self::parse_n(input@, count as int) == (Outcome::Val {
                        used: input@.len() - rem@.len(),
                    })
                    &&& rem@ == input@.subrange(
                        input@.len() - rem@.len(),
                        input@.len() as int,
                    )
                    &&& v.wf_n(count as int)
                    &&& Self::dec_n(input@.take(input@.len() - rem@.len()), count as int, v)
                },
                Err(WrapErr::NotEnoughBytes(n)) => Self::parse_n(input@, count as int)
                    == (Outcome::Short { needed: n as int }),
                Err(WrapErr::InvalidTag(t)) => Self::parse_n(input@, count as int)
                    == (Outcome::Tag { tag: t as int }),
            },
    ;

    /// Append the canonical image of the first `count` elements to `out`,
    /// zero padding included.
    fn fill_slice(&self, count: usize, out: &mut Vec<u8>)
        requires
            self.wf_n(count as int),
            old(out)@.len() + self.enc_n(count as int).len() <= usize::MAX,
        ensures
            final(out)@ == old(out)@ + self.enc_n(count as int),
    ;

    /// The byte length of the first `count` elements, padding included.
    fn len(&self, count: usize) -> (r: usize)
        requires
            self.wf_n(count as int),
            self.enc_n(count as int).len() <= usize::MAX,
        ensures
            r == self.enc_n(count as int).len(),
    ;
}

/// A sequence of `T` values, either an already-decoded contiguous slice (the
/// eager form, used by the write path and by bulk-copyable data) or a lazy
/// re-aligning cursor over the original input bytes (what decoding
/// produces). Copying an `Iterable` copies its current position
/// independently.
pub enum Iterable<'input, T> {
    Iter(Iter<'input, T>),
    Slice(&'input [T]),
}

/// A lazy forward-only cursor over the byte region of a decoded sequence;
/// the elements it will yield are tracked in ghost state.
pub struct Iter<'input, T> {
    pub slice: &'input [u8],
    pub elems: Ghost<Seq<T>>,
}

impl<'input, T> Clone for Iter<'input, T> {
    fn clone(&self) -> (r: Self)
        ensures
            r == *self,
    {
        Iter { slice: self.slice, elems: self.elems }
    }
}

impl<'input, T> Copy for Iter<'input, T> {

}

impl<'input, T> Clone for Iterable<'input, T> {
    fn clone(&self) -> (r: Self)
        ensures
            r == *self,
    {
        *self
    }
}

impl<'input, T> Copy for Iterable<'input, T> {

}

impl<'input, T> From<&'input [T]> for Iterable<'input, T> {
    fn from(val: &'input [T]) -> (r: Self) {
        Iterable::Slice(val)
    }
}

impl<'input, T> vstd::std_specs::convert::FromSpecImpl<&'input [T]> for Iterable<'input, T> {
    open spec fn obeys_from_spec() -> bool {
        true
    }

    open spec fn from_spec(val: &'input [T]) -> Self {
        Iterable::Slice(val)
    }
}

impl<'input, T: FlatSerializable<'input> + Copy> Iterable<'input, T> {
    /// The elements this sequence stands for: the slice's contents, or what
    /// the cursor's bytes decode to.
    pub open spec fn elems(self) -> Seq<T> {
        match self {
            Iterable::Slice(s) => s@,
            Iterable::Iter(it) => it.elems@,
        }
    }

    /// Internal invariant: slice elements are well formed; a cursor's bytes
    /// are exactly the region its ghost elements decode from.
    pub open spec fn wf(self) -> bool {
        match self {
            Iterable::Slice(s) => forall|i: int| 0 <= i < s@.len() ==> (#[trigger] s@[i]).wf(),
            Iterable::Iter(it) => region_wf(it.slice@, it.elems@),
        }
    }

    /// Wrap a byte region, already known to be a well-formed sequence
    /// region, as a lazy cursor over its elements.
    pub fn from_bytes(bytes: &'input [u8]) -> (r: Self)
        requires
            exists|es: Seq<T>| region_wf::<'input, T>(bytes@, es),
        ensures
            r.wf(),
            r matches Iterable::Iter(it) && it.slice@ == bytes@,
            region_wf(bytes@, r.elems()),
    {
        let ghost es = choose|es: Seq<T>| region_wf::<'input, T>(bytes@, es);
        Iterable::Iter(Iter { slice: bytes, elems: Ghost(es) })
    }

    /// Yield the next element, advancing past it and its alignment padding.
    /// On the slice form this pops the front element; on the cursor form it
    /// decodes one element from the remaining bytes.
    pub fn next(&mut self) -> (r: Option<T>)
        requires
            old(self).wf(),
        ensures
            final(self).wf(),
            match r {
                None => old(self).elems().len() == 0 && final(self).elems()
                    == old(self).elems(),
                Some(v) => {
                    &&& old(self).elems().len() > 0
                    &&& v.wf()
                    &&& v.eqv(old(self).elems()[0])
                    &&& final(self).elems() == old(self).elems().drop_first()
                },
            },
    {
        let cur = *self;
        match cur {
            Iterable::Slice(s) => {
                if s.len() == 0 {
                    None
                } else {
                    let v = *slice_index_get(s, 0);
                    *self = Iterable::Slice(slice_subrange(s, 1, s.len()));
                    proof {
                        T::lemma_eqv_refl(v);
                        assert(final(self).elems() =~= old(self).elems().drop_first());
                    }
                    Some(v)
                }
            },
            Iterable::Iter(it) => {
                if it.slice.len() == 0 {
                    proof {
                        if it.elems@.len() > 0 {
                            lemma_region_head(it.slice@, it.elems@);
                        }
                    }
                    None
                } else {
                    proof {
                        lemma_region_head(it.slice@, it.elems@);
                    }
                    match T::try_ref(it.slice) {
                        Err(e) => {
                            proof {
                                assert(false);
                            }
                            None
                        },
                        Ok((v, rem)) => {
                            let used = it.slice.len() - rem.len();
                            let align = T::required_alignment();
                            let pad = aligning_len(used, align);
                            let rem2 = slice_subrange(rem, pad, rem.len());
                            proof {
                                T::lemma_dec_deterministic(
                                    it.slice@.take(used as int),
                                    v,
                                    it.elems@[0],
                                );
                                assert(rem2@ =~= it.slice@.skip(used + pad));
                            }
                            *self = Iterable::Iter(
                                Iter { slice: rem2, elems: Ghost(it.elems@.drop_first()) },
                            );
                            Some(v)
                        },
                    }
                }
            },
        }
    }
}

impl<'i, T: FlatSerializable<'i> + Copy> Slice<'i> for Iterable<'i, T> {
    open spec fn wf_n(self, count: int) -> bool {
        self.wf() && 0 <= count <= self.elems().len()
    }

    open spec fn enc_n(self, count: int) -> Seq<u8> {
        seq_enc(self.elems().take(count))
    }

    open spec fn dec_n(b: Seq<u8>, count: int, v: Self) -> bool {
        &&& v.wf()
        &&& 0 <= count <= v.elems().len()
        &&& region_wf(b, v.elems().take(count))
    }

    open spec fn parse_n(b: Seq<u8>, count: int) -> Outcome {
        seq_parse::<'i, T>(b, count)
    }

    fn try_ref(input: &'i [u8], count: usize) -> (r: Result<(Self, &'i [u8]), WrapErr>) {
        let mut rest = input;
        let mut k: usize = 0;
        let ghost mut es: Seq<T> = Seq::empty();
        proof {
            T::lemma_layout_sane();
        }
        let align = T::required_alignment();
        while k < count
            invariant
                k <= count,
                es.len() == k as int,
                rest@.len() <= input@.len(),
                rest@ == input@.subrange(input@.len() - rest@.len(), input@.len() as int),
                region_wf(input@.take(input@.len() - rest@.len()), es),
                align == T::spec_required_alignment(),
            decreases count - k,
        {
            proof {
                T::lemma_layout_sane();
            }
            let ghost c0 = input@.len() - rest@.len();
            let ghost prefix = input@.take(c0);
            proof {
                assert(input@ =~= prefix + rest@);
            }
            match T::try_ref(rest) {
                Err(e) => {
                    proof {
                        lemma_seq_parse_prepend::<'i, T>(prefix, es, rest@, (count - k) as int);
                    }
                    return Err(e);
                },
                Ok((v, rem)) => {
                    let used = rest.len() - rem.len();
                    let pad = aligning_len(used, align);
                    proof {
                        T::lemma_parse_bounds(rest@);
                        lemma_pad_len(used as int, align as int);
                    }
                    if rem.len() < pad {
                        proof {
                            lemma_seq_parse_prepend::<'i, T>(
                                prefix,
                                es,
                                rest@,
                                (count - k) as int,
                            );
                        }
                        return Err(WrapErr::NotEnoughBytes(pad));
                    }
                    let rem2 = slice_subrange(rem, pad, rem.len());
                    proof {
                        let c = rest@.take(used + pad);
                        T::lemma_parse_prefix_stable(rest@, used + pad);
                        assert(c.take(used as int) =~= rest@.take(used as int));
                        lemma_region_snoc(prefix, es, c, v);
                        assert(prefix + c =~= input@.take(c0 + used + pad));
                        es = es.push(v);
                        assert(rem2@ =~= input@.subrange(
                            input@.len() - rem2@.len(),
                            input@.len() as int,
                        ));
                    }
                    rest = rem2;
                    k = k + 1;
                },
            }
        }
        let consumed = input.len() - rest.len();
        let region = slice_subrange(input, 0, consumed);
        proof {
            assert(input@ =~= input@.take(consumed as int) + rest@);
            lemma_seq_parse_prepend::<'i, T>(input@.take(consumed as int), es, rest@, 0);
            assert(es.take(count as int) =~= es);
        }
        Ok((Iterable::Iter(Iter { slice: region, elems: Ghost(es) }), rest))
    }

    fn fill_slice(&self, count: usize, out: &mut Vec<u8>) {
        fill_slice_from_iter(self, count, out)
    }

    fn len(&self, count: usize) -> (r: usize) {
        len_of_iterable(self, count)
    }
}

/// Append the canonical image of the first `count` elements of a sequence
/// to `out`: each element's bytes, then zero padding up to the next multiple
/// of the element's required alignment.
pub fn fill_slice_from_iter<'i, T: FlatSerializable<'i> + Copy>(
    it: &Iterable<'i, T>,
    count: usize,
    out: &mut Vec<u8>,
)
    requires
        it.wf(),
        count <= it.elems().len(),
        old(out)@.len() + seq_enc(it.elems().take(count as int)).len() <= usize::MAX,
    ensures
        final(out)@ == old(out)@ + seq_enc(it.elems().take(count as int)),
{
    let mut cur = *it;
    let mut k: usize = 0;
    proof {
        T::lemma_layout_sane();
    }
    let align = T::required_alignment();
    let ghost total = seq_enc(it.elems().take(count as int));
    while k < count
        invariant
            k <= count,
            count <= it.elems().len(),
            cur.wf(),
            cur.elems() == it.elems().skip(k as int),
            out@ == old(out)@ + seq_enc(it.elems().take(k as int)),
            old(out)@.len() + seq_enc(it.elems().take(count as int)).len() <= usize::MAX,
            align == T::spec_required_alignment(),
        decreases count - k,
    {
        proof {
            T::lemma_layout_sane();
            lemma_seq_enc_snoc(it.elems(), k as int);
            lemma_seq_enc_take_mono(it.elems(), k + 1 as int, count as int);
            assert(it.elems().skip(k as int)[0] == it.elems()[k as int]);
        }
        match cur.next() {
            None => {
                proof {
                    assert(false);
                }
            },
            Some(v) => {
                proof {
                    T::lemma_eqv_enc(v, it.elems()[k as int]);
                }
                v.fill_vec(out);
                let elen = v.len();
                let pad = aligning_len(elen, align);
                push_zeros(out, pad);
                proof {
                    assert(out@ =~= old(out)@ + seq_enc(it.elems().take(k + 1 as int)));
                    assert(cur.elems() =~= it.elems().skip(k + 1 as int));
                }
                k = k + 1;
            },
        }
    }
    proof {
        assert(it.elems().take(count as int) == it.elems().take(k as int));
    }
}

/// The byte length of the first `count` elements of a sequence, trailing
/// alignment padding included.
pub fn len_of_iterable<'i, T: FlatSerializable<'i> + Copy>(
    it: &Iterable<'i, T>,
    count: usize,
) -> (r: usize)
    requires
        it.wf(),
        count <= it.elems().len(),
        seq_enc(it.elems().take(count as int)).len() <= usize::MAX,
    ensures
        r == seq_enc(it.elems().take(count as int)).len(),
{
    let mut cur = *it;
    let mut k: usize = 0;
    let mut total: usize = 0;
    proof {
        T::lemma_layout_sane();
    }
    let align = T::required_alignment();
    while k < count
        invariant
            k <= count,
            count <= it.elems().len(),
            cur.wf(),
            cur.elems() == it.elems().skip(k as int),
            total == seq_enc(it.elems().take(k as int)).len(),
            seq_enc(it.elems().take(count as int)).len() <= usize::MAX,
            align == T::spec_required_alignment(),
        decreases count - k,
    {
        proof {
            T::lemma_layout_sane();
            lemma_seq_enc_snoc(it.elems(), k as int);
            lemma_seq_enc_take_mono(it.elems(), k + 1 as int, count as int);
            assert(it.elems().skip(k as int)[0] == it.elems()[k as int]);
        }
        match cur.next() {
            None => {
                proof {
                    assert(false);
                }
            },
            Some(v) => {
                proof {
                    T::lemma_eqv_enc(v, it.elems()[k as int]);
                }
                let elen = v.len();
                let pad = aligning_len(elen, align);
                total = total + elen + pad;
                proof {
                    assert(cur.elems() =~= it.elems().skip(k + 1 as int));
                }
                k = k + 1;
            },
        }
    }
    proof {
        assert(it.elems().take(count as int) == it.elems().take(k as int));
    }
    total
}

/// The eager, bulk-copy representation of "`count` bytes": decoding is one
/// bound check and a re-slice of the input, with no padding (a byte's
/// alignment is one).
impl<'i> Slice<'i> for &'i [u8] {
    open spec fn wf_n(self, count: int) -> bool {
        0 <= count <= self@.len()
    }

    open spec fn enc_n(self, count: int) -> Seq<u8> {
        self@.take(count)
    }

    open spec fn dec_n(b: Seq<u8>, count: int, v: Self) -> bool {
        b.len() == count && v@ == b
    }

    open spec fn parse_n(b: Seq<u8>, count: int) -> Outcome {
        if b.len() < count {
            Outcome::Short { needed: count }
        } else {
            Outcome::Val { used: count }
        }
    }

    fn try_ref(input: &'i [u8], count: usize) -> (r: Result<(Self, &'i [u8]), WrapErr>) {
        if input.len() < count {
            proof {
                assert(<&'i [u8] as Slice<'i>>::parse_n(input@, count as int)
                    == (Outcome::Short { needed: count as int }));
            }
            return Err(WrapErr::NotEnoughBytes(count));
        }
        let field = slice_subrange(input, 0, count);
        let rem = slice_subrange(input, count, input.len());
        assert(input@.take(count as int) =~= field@);
        proof {
            assert(<&'i [u8] as Slice<'i>>::parse_n(input@, count as int) == (Outcome::Val {
                used: count as int,
            }));
            assert(field.wf_n(count as int));
            assert(<&'i [u8] as Slice<'i>>::dec_n(input@.take(count as int), count as int, field));
        }
        Ok((field, rem))
    }

    fn fill_slice(&self, count: usize, out: &mut Vec<u8>) {
        let mut i: usize = 0;
        while i < count
            invariant
                i <= count,
                count <= self@.len(),
                old(out)@.len() + count <= usize::MAX,
                out@ == old(out)@ + self@.take(i as int),
            decreases count - i,
        {
            out.push(*slice_index_get(*self, i));
            assert(out@ =~= old(out)@ + self@.take(i + 1 as int));
            i = i + 1;
        }
    }

    fn len(&self, count: usize) -> (r: usize) {
        count
    }
}

} // verus!

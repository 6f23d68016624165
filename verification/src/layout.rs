//! The schema compiler's layout computation: given the ordered field list of
//! a record (or the variants of a tagged union), compute the composite
//! static layout facts — minimum length, required start alignment,
//! worst-case alignment still guaranteed after the record, and (for the
//! plain-structure deriver) trivial-copy eligibility.
use vstd::prelude::*;

verus! {

/// The static layout facts of one field, as the schema compiler sees it:
/// how many bytes it contributes when variable parts are empty, what
/// alignment its first byte needs, what alignment it can still guarantee
/// for whatever follows once offsets have become dynamic, and whether its
/// size depends on runtime data.
#[derive(Clone, Copy, PartialEq, Eq, Structural, Debug)]
pub struct FieldFacts {
    pub min_len: usize,
    pub required_alignment: usize,
    pub provided: usize,
    pub variable: bool,
    pub trivial: bool,
}

/// The composite layout facts of a compiled record shape.
#[derive(Clone, Copy, PartialEq, Eq, Structural, Debug)]
pub struct RecordFacts {
    pub min_len: usize,
    pub required_alignment: usize,
    pub max_provided_alignment: Option<usize>,
    pub trivial_copy: bool,
    pub fixed_shape: bool,
}

/// A fixed-size scalar field: its size and natural alignment.
pub fn scalar(size: usize, align: usize) -> (r: FieldFacts)
    ensures
        r == (FieldFacts {
            min_len: size,
            required_alignment: align,
            provided: align,
            variable: false,
            trivial: true,
        }),
{
    FieldFacts {
        min_len: size,
        required_alignment: align,
        provided: align,
        variable: false,
        trivial: true,
    }
}

/// A fixed-size array of `n` copies of a fixed-shape element: size scales,
/// alignment and copyability are inherited.
pub fn fixed_array(n: usize, elem: FieldFacts) -> (r: FieldFacts)
    requires
        !elem.variable,
        n * elem.min_len <= usize::MAX,
    ensures
        r == (FieldFacts {
            min_len: (n * elem.min_len) as usize,
            required_alignment: elem.required_alignment,
            provided: elem.provided,
            variable: false,
            trivial: elem.trivial,
        }),
{
    FieldFacts {
        min_len: n * elem.min_len,
        required_alignment: elem.required_alignment,
        provided: elem.provided,
        variable: false,
        trivial: elem.trivial,
    }
}

/// A nested record field: its facts are the nested record's; once offsets
/// are dynamic it guarantees its own worst-case provided alignment.
pub fn nested(rec: RecordFacts) -> (r: FieldFacts)
    ensures
        r == (FieldFacts {
            min_len: rec.min_len,
            required_alignment: rec.required_alignment,
            provided: match rec.max_provided_alignment {
                Some(k) => k,
                None => rec.required_alignment,
            },
            variable: !rec.fixed_shape,
            trivial: rec.trivial_copy,
        }),
{
    let provided = match rec.max_provided_alignment {
        Some(k) => k,
        None => rec.required_alignment,
    };
    FieldFacts {
        min_len: rec.min_len,
        required_alignment: rec.required_alignment,
        provided,
        variable: !rec.fixed_shape,
        trivial: rec.trivial_copy,
    }
}

/// A conditional field (present only when a predicate over earlier fields
/// holds): contributes nothing to the minimum length, and guarantees after
/// itself only what holds both when absent (its start alignment) and when
/// present (what the inner field provides).
pub fn conditional(inner: FieldFacts) -> (r: FieldFacts)
    ensures
        r == (FieldFacts {
            min_len: 0,
            required_alignment: inner.required_alignment,
            provided: min_usize_spec(inner.provided, inner.required_alignment),
            variable: true,
            trivial: false,
        }),
{
    FieldFacts {
        min_len: 0,
        required_alignment: inner.required_alignment,
        provided: min_usize(inner.provided, inner.required_alignment),
        variable: true,
        trivial: false,
    }
}

/// A variable-count sequence field (count read from an earlier field):
/// contributes nothing to the minimum length; every element, and so the
/// end of the sequence, sits on a multiple of the element's required
/// alignment.
pub fn sequence(elem: FieldFacts) -> (r: FieldFacts)
    ensures
        r == (FieldFacts {
            min_len: 0,
            required_alignment: elem.required_alignment,
            provided: elem.required_alignment,
            variable: true,
            trivial: false,
        }),
{
    FieldFacts {
        min_len: 0,
        required_alignment: elem.required_alignment,
        provided: elem.required_alignment,
        variable: true,
        trivial: false,
    }
}

/// The smaller of two alignments.
pub open spec fn min_usize_spec(a: usize, b: usize) -> usize {
    if a <= b {
        a
    } else {
        b
    }
}

/// Executable form of [`min_usize_spec`].
pub fn min_usize(a: usize, b: usize) -> (r: usize)
    ensures
        r == min_usize_spec(a, b),
{
    if a <= b {
        a
    } else {
        b
    }
}

/// Sum of the fields' isolated minimum lengths: absent-by-default
/// conditional fields and zero-count sequences contribute zero.
pub open spec fn spec_struct_min_len(fields: Seq<FieldFacts>) -> int
    decreases fields.len(),
{
    if fields.len() == 0 {
        0
    } else {
        fields[0].min_len + spec_struct_min_len(fields.drop_first())
    }
}

/// The fold computing the worst-case alignment still statically guaranteed
/// after the record: `running` is `None` while every offset so far is
/// statically known. The first variable-length field degrades the running
/// value to what it provides; every later field — fixed or not — further
/// degrades it to the minimum of itself and that field's guarantee, because
/// once one offset depends on runtime data every later offset does too.
pub open spec fn spec_fold_provided(fields: Seq<FieldFacts>, running: Option<usize>) -> Option<
    usize,
>
    decreases fields.len(),
{
    if fields.len() == 0 {
        running
    } else {
        let f = fields[0];
        let next = match running {
            Some(k) => Some(min_usize_spec(k, f.provided)),
            None => if f.variable {
                Some(f.provided)
            } else {
                None
            },
        };
        spec_fold_provided(fields.drop_first(), next)
    }
}

/// The composite facts of a struct-shaped record, per the composition
/// rules: minimum length is the sum, required alignment is the first
/// field's, the provided-alignment fold runs over the fields in order, and
/// schema-compiled records are never trivially copyable (conservative by
/// design).
pub open spec fn spec_struct_facts(fields: Seq<FieldFacts>) -> RecordFacts {
    RecordFacts {
        min_len: spec_struct_min_len(fields) as usize,
        required_alignment: fields[0].required_alignment,
        max_provided_alignment: spec_fold_provided(fields, None),
        trivial_copy: false,
        fixed_shape: forall|i: int| 0 <= i < fields.len() ==> !(#[trigger] fields[i]).variable,
    }
}

/// Executable form of [`spec_struct_min_len`].
pub fn struct_min_len(fields: &Vec<FieldFacts>) -> (r: usize)
    requires
        spec_struct_min_len(fields@) <= usize::MAX,
    ensures
        r == spec_struct_min_len(fields@),
{
    let mut total: usize = 0;
    let mut i: usize = 0;
    proof {
        assert(fields@.skip(0) =~= fields@);
    }
    while i < fields.len()
        invariant
            i <= fields@.len(),
            spec_struct_min_len(fields@) <= usize::MAX,
            total + spec_struct_min_len(fields@.skip(i as int)) == spec_struct_min_len(fields@),
            total <= usize::MAX,
        decreases fields@.len() - i,
    {
        proof {
            assert(fields@.skip(i as int)[0] == fields@[i as int]);
            assert(fields@.skip(i as int).drop_first() =~= fields@.skip(i + 1 as int));
            lemma_struct_min_len_nonneg(fields@.skip(i + 1 as int));
        }
        total = total + fields[i].min_len;
        i = i + 1;
    }
    proof {
        assert(fields@.skip(i as int).len() == 0);
    }
    total
}

/// Every partial sum of minimum lengths is nonnegative.
proof fn lemma_struct_min_len_nonneg(fields: Seq<FieldFacts>)
    ensures
        spec_struct_min_len(fields) >= 0,
    decreases fields.len(),
{
    if fields.len() > 0 {
        lemma_struct_min_len_nonneg(fields.drop_first());
    }
}

/// Executable form of the required-alignment rule: the first field's.
pub fn struct_required_alignment(fields: &Vec<FieldFacts>) -> (r: usize)
    requires
        fields@.len() >= 1,
    ensures
        r == fields@[0].required_alignment,
{
    fields[0].required_alignment
}

/// Executable form of [`spec_fold_provided`] started unconstrained.
pub fn struct_max_provided_alignment(fields: &Vec<FieldFacts>) -> (r: Option<usize>)
    ensures
        r == spec_fold_provided(fields@, None),
{
    let mut running: Option<usize> = None;
    let mut degraded = false;
    let mut i: usize = 0;
    proof {
        assert(fields@.skip(0) =~= fields@);
    }
    while i < fields.len()
        invariant
            i <= fields@.len(),
            degraded <==> running is Some,
            spec_fold_provided(fields@.skip(i as int), running) == spec_fold_provided(
                fields@,
                None,
            ),
        decreases fields@.len() - i,
    {
        proof {
            assert(fields@.skip(i as int)[0] == fields@[i as int]);
            assert(fields@.skip(i as int).drop_first() =~= fields@.skip(i + 1 as int));
        }
        let f = fields[i];
        match running {
            Some(k) => {
                running = Some(min_usize(k, f.provided));
            },
            None => {
                if f.variable {
                    degraded = true;
                    running = Some(f.provided);
                }
            },
        }
        i = i + 1;
    }
    proof {
        assert(fields@.skip(i as int).len() == 0);
    }
    running
}

/// The schema compiler's composition for a struct-shaped record.
pub fn struct_facts(fields: &Vec<FieldFacts>) -> (r: RecordFacts)
    requires
        fields@.len() >= 1,
        spec_struct_min_len(fields@) <= usize::MAX,
    ensures
        r == spec_struct_facts(fields@),
{
    let min_len = struct_min_len(fields);
    let required_alignment = struct_required_alignment(fields);
    let max_provided_alignment = struct_max_provided_alignment(fields);
    let mut fixed_shape = true;
    let mut i: usize = 0;
    while i < fields.len()
        invariant
            i <= fields@.len(),
            fixed_shape <==> forall|j: int|
                0 <= j < i as int ==> !(#[trigger] fields@[j]).variable,
        decreases fields@.len() - i,
    {
        if fields[i].variable {
            fixed_shape = false;
        }
        i = i + 1;
    }
    RecordFacts { min_len, required_alignment, max_provided_alignment, trivial_copy: false, fixed_shape }
}

/// The alignment a union variant still guarantees after itself: the active
/// variant is not known statically, so only the minimum over the tag's
/// alignment and every field's own guarantee can be promised.
pub open spec fn spec_variant_provided(fields: Seq<FieldFacts>, tag_align: usize) -> usize
    decreases fields.len(),
{
    if fields.len() == 0 {
        tag_align
    } else {
        min_usize_spec(fields[0].provided, spec_variant_provided(fields.drop_first(), tag_align))
    }
}

/// The composite facts of a tagged-union record: minimum length is the
/// discriminant's plus the smallest variant's; required alignment is the
/// discriminant's; the provided alignment is the most conservative value
/// across all variants; unions are never trivially copyable and never
/// fixed-shape.
pub open spec fn spec_union_facts(tag: FieldFacts, variants: Seq<Seq<FieldFacts>>) -> RecordFacts {
    RecordFacts {
        min_len: (tag.min_len + spec_union_min_variant(variants)) as usize,
        required_alignment: tag.required_alignment,
        max_provided_alignment: Some(
            spec_union_provided(variants, tag.required_alignment),
        ),
        trivial_copy: false,
        fixed_shape: false,
    }
}

/// The smallest minimum length over the variants' field lists.
pub open spec fn spec_union_min_variant(variants: Seq<Seq<FieldFacts>>) -> int
    decreases variants.len(),
{
    if variants.len() == 0 {
        0
    } else if variants.len() == 1 {
        spec_struct_min_len(variants[0])
    } else {
        let rest = spec_union_min_variant(variants.drop_first());
        if spec_struct_min_len(variants[0]) <= rest {
            spec_struct_min_len(variants[0])
        } else {
            rest
        }
    }
}

/// The smallest after-record alignment guarantee over the variants.
pub open spec fn spec_union_provided(variants: Seq<Seq<FieldFacts>>, tag_align: usize) -> usize
    decreases variants.len(),
{
    if variants.len() == 0 {
        tag_align
    } else {
        min_usize_spec(
            spec_variant_provided(variants[0], tag_align),
            spec_union_provided(variants.drop_first(), tag_align),
        )
    }
}

/// Executable form of [`spec_variant_provided`].
fn variant_provided(fields: &Vec<FieldFacts>, tag_align: usize) -> (r: usize)
    ensures
        r == spec_variant_provided(fields@, tag_align),
{
    let mut i: usize = fields.len();
    let mut acc: usize = tag_align;
    while i > 0
        invariant
            i <= fields@.len(),
            acc == spec_variant_provided(fields@.skip(i as int), tag_align),
        decreases i,
    {
        i = i - 1;
        proof {
            assert(fields@.skip(i as int)[0] == fields@[i as int]);
            assert(fields@.skip(i as int).drop_first() =~= fields@.skip(i + 1 as int));
        }
        acc = min_usize(fields[i].provided, acc);
    }
    proof {
        assert(fields@.skip(0) =~= fields@);
    }
    acc
}

/// The schema compiler's composition for a tagged-union record.
pub fn union_facts(tag: FieldFacts, variants: &Vec<Vec<FieldFacts>>) -> (r: RecordFacts)
    requires
        variants@.len() >= 1,
        tag.min_len + spec_union_min_variant(variants@.map_values(|v: Vec<FieldFacts>| v@))
            <= usize::MAX,
        forall|i: int|
            0 <= i < variants@.len() ==> spec_struct_min_len(
                (#[trigger] variants@[i])@,
            ) <= usize::MAX,
    ensures
        r == spec_union_facts(tag, variants@.map_values(|v: Vec<FieldFacts>| v@)),
{
    let ghost vs = variants@.map_values(|v: Vec<FieldFacts>| v@);
    let mut i: usize = variants.len();
    let mut min_var: usize = 0;
    let mut provided: usize = tag.required_alignment;
    proof {
        assert(vs.skip(i as int).len() == 0);
    }
    while i > 0
        invariant
            i <= vs.len(),
            vs.len() == variants@.len(),
            forall|j: int| 0 <= j < vs.len() ==> vs[j] == (#[trigger] variants@[j])@,
            forall|j: int|
                0 <= j < vs.len() ==> spec_struct_min_len(#[trigger] vs[j]) <= usize::MAX,
            tag.min_len + spec_union_min_variant(vs) <= usize::MAX,
            min_var == spec_union_min_variant(vs.skip(i as int)),
            provided == spec_union_provided(vs.skip(i as int), tag.required_alignment),
        decreases i,
    {
        i = i - 1;
        proof {
            assert(vs.skip(i as int)[0] == vs[i as int]);
            assert(vs.skip(i as int).drop_first() =~= vs.skip(i + 1 as int));
            lemma_union_min_variant_bound(vs, i as int);
            lemma_struct_min_len_nonneg(vs[i as int]);
        }
        let vlen = struct_min_len(&variants[i]);
        if i + 1 == variants.len() {
            min_var = vlen;
        } else if vlen <= min_var {
            min_var = vlen;
        }
        provided = min_usize(variant_provided(&variants[i], tag.required_alignment), provided);
    }
    proof {
        assert(vs.skip(0) =~= vs);
        lemma_union_min_variant_bound(vs, 0);
    }
    RecordFacts {
        min_len: tag.min_len + min_var,
        required_alignment: tag.required_alignment,
        max_provided_alignment: Some(provided),
        trivial_copy: false,
        fixed_shape: false,
    }
}

/// The union minimum over a suffix is bounded by each of its variants'.
proof fn lemma_union_min_variant_bound(vs: Seq<Seq<FieldFacts>>, i: int)
    requires
        0 <= i <= vs.len(),
        forall|j: int| 0 <= j < vs.len() ==> spec_struct_min_len(#[trigger] vs[j]) <= usize::MAX,
    ensures
        spec_union_min_variant(vs.skip(i)) <= usize::MAX,
        spec_union_min_variant(vs.skip(i)) >= 0,
    decreases vs.len() - i,
{
    if i < vs.len() {
        assert(vs.skip(i)[0] == vs[i]);
        assert(vs.skip(i).drop_first() =~= vs.skip(i + 1));
        lemma_union_min_variant_bound(vs, i + 1);
        lemma_struct_min_len_nonneg(vs[i]);
    }
}

/// The plain-structure deriver's interior-padding proof: walking the fields
/// in order from `offset`, every field starts at a multiple of its own
/// required alignment.
pub open spec fn spec_plain_no_padding(fields: Seq<FieldFacts>, offset: int) -> bool
    decreases fields.len(),
{
    if fields.len() == 0 {
        true
    } else {
        &&& fields[0].required_alignment >= 1
        &&& offset % (fields[0].required_alignment as int) == 0
        &&& spec_plain_no_padding(fields.drop_first(), offset + fields[0].min_len)
    }
}

/// The plain-structure deriver: for a record whose fields are all
/// fixed-shape and trivially copyable, compose the facts as for a struct
/// and additionally prove absence of interior padding (every field
/// boundary satisfies the next field's alignment and the total size is a
/// multiple of the record's own alignment); only when that proof holds is
/// the record trivially copyable. Returns `None` when a field is variable
/// or not itself trivially copyable.
pub fn plain_struct_facts(fields: &Vec<FieldFacts>) -> (r: Option<RecordFacts>)
    requires
        fields@.len() >= 1,
        spec_struct_min_len(fields@) <= usize::MAX,
    ensures
        match r {
            Some(rec) => {
                &&& (forall|i: int|
                    0 <= i < fields@.len() ==> !(#[trigger] fields@[i]).variable
                        && fields@[i].trivial)
                &&& rec.min_len == spec_struct_min_len(fields@)
                &&& rec.required_alignment == fields@[0].required_alignment
                &&& rec.max_provided_alignment is None
                &&& rec.fixed_shape
                &&& rec.trivial_copy <==> (spec_plain_no_padding(fields@, 0)
                    && fields@[0].required_alignment >= 1 && spec_struct_min_len(fields@) % (
                fields@[0].required_alignment as int) == 0)
            },
            None => exists|i: int|
                0 <= i < fields@.len() && ((#[trigger] fields@[i]).variable
                    || !fields@[i].trivial),
        },
{
    let mut i: usize = 0;
    while i < fields.len()
        invariant
            i <= fields@.len(),
            forall|j: int|
                0 <= j < i as int ==> !(#[trigger] fields@[j]).variable && fields@[j].trivial,
        decreases fields@.len() - i,
    {
        if fields[i].variable || !fields[i].trivial {
            return None;
        }
        i = i + 1;
    }
    let min_len = struct_min_len(fields);
    let required_alignment = struct_required_alignment(fields);
    let mut offset: usize = 0;
    let mut aligned = true;
    let mut k: usize = 0;
    proof {
        lemma_struct_min_len_nonneg(fields@);
        assert(fields@.skip(0) =~= fields@);
        assert(fields@.take(0) =~= Seq::<FieldFacts>::empty());
    }
    while k < fields.len()
        invariant
            k <= fields@.len(),
            spec_struct_min_len(fields@) <= usize::MAX,
            offset + spec_struct_min_len(fields@.skip(k as int)) == spec_struct_min_len(fields@),
            offset >= 0,
            aligned <==> spec_plain_no_padding(fields@.take(k as int), 0),
        decreases fields@.len() - k,
    {
        proof {
            assert(fields@.skip(k as int)[0] == fields@[k as int]);
            assert(fields@.skip(k as int).drop_first() =~= fields@.skip(k + 1 as int));
            lemma_struct_min_len_nonneg(fields@.skip(k + 1 as int));
            lemma_struct_min_len_split(fields@, k as int);
            lemma_plain_take_snoc(fields@, k as int, 0);
        }
        let f = fields[k];
        if f.required_alignment == 0 {
            aligned = false;
        } else if offset % f.required_alignment != 0 {
            aligned = false;
        }
        offset = offset + f.min_len;
        k = k + 1;
    }
    proof {
        assert(fields@.take(k as int) =~= fields@);
    }
    let trivial_copy = if aligned && required_alignment >= 1 {
        offset % required_alignment == 0
    } else {
        false
    };
    Some(
        RecordFacts {
            min_len,
            required_alignment,
            max_provided_alignment: None,
            trivial_copy,
            fixed_shape: true,
        },
    )
}

/// The minimum length splits at any field boundary.
proof fn lemma_struct_min_len_split(fields: Seq<FieldFacts>, k: int)
    requires
        0 <= k <= fields.len(),
    ensures
        spec_struct_min_len(fields) == spec_struct_min_len(fields.take(k)) + spec_struct_min_len(
            fields.skip(k),
        ),
    decreases k,
{
    if k == 0 {
        assert(fields.take(0) =~= Seq::<FieldFacts>::empty());
        assert(fields.skip(0) =~= fields);
    } else {
        assert(fields.take(k)[0] == fields[0]);
        assert(fields.take(k).drop_first() =~= fields.drop_first().take(k - 1));
        assert(fields.skip(k) =~= fields.drop_first().skip(k - 1));
        lemma_struct_min_len_split(fields.drop_first(), k - 1);
    }
}

/// Appending one field to the walked prefix checks exactly that field's
/// boundary.
proof fn lemma_plain_take_snoc(fields: Seq<FieldFacts>, k: int, offset: int)
    requires
        0 <= k < fields.len(),
    ensures
        spec_plain_no_padding(fields.take(k + 1), offset) <==> (spec_plain_no_padding(
            fields.take(k),
            offset,
        ) && fields[k].required_alignment >= 1 && (offset + spec_struct_min_len(fields.take(k)))
            % (fields[k].required_alignment as int) == 0),
    decreases k,
{
    if k == 0 {
        assert(fields.take(0) =~= Seq::<FieldFacts>::empty());
        assert(fields.take(1)[0] == fields[0]);
        assert(fields.take(1).drop_first() =~= Seq::<FieldFacts>::empty());
        assert(spec_plain_no_padding(fields.take(0), offset));
        assert(spec_struct_min_len(fields.take(0)) == 0);
        assert(spec_plain_no_padding(fields.take(1), offset) <==> (
            fields[0].required_alignment >= 1
            && offset % (fields[0].required_alignment as int) == 0
            && spec_plain_no_padding(fields.take(1).drop_first(), offset + fields[0].min_len)
        ));
        assert(spec_plain_no_padding(fields.take(1).drop_first(), offset + fields[0].min_len));
    } else {
        assert(fields.take(k + 1)[0] == fields[0]);
        assert(fields.take(k)[0] == fields[0]);
        assert(fields.take(k + 1).drop_first() =~= fields.drop_first().take(k));
        assert(fields.take(k).drop_first() =~= fields.drop_first().take(k - 1));
        lemma_plain_take_snoc(fields.drop_first(), k - 1, offset + fields[0].min_len);
        assert(fields.drop_first()[k - 1] == fields[k]);
        assert(spec_struct_min_len(fields.take(k)) == fields[0].min_len + spec_struct_min_len(
            fields.drop_first().take(k - 1),
        ));
        assert(spec_plain_no_padding(fields.take(k + 1), offset) <==> (
            fields[0].required_alignment >= 1
            && offset % (fields[0].required_alignment as int) == 0
            && spec_plain_no_padding(fields.drop_first().take(k), offset + fields[0].min_len)
        ));
        assert(spec_plain_no_padding(fields.take(k), offset) <==> (
            fields[0].required_alignment >= 1
            && offset % (fields[0].required_alignment as int) == 0
            && spec_plain_no_padding(fields.drop_first().take(k - 1), offset + fields[0].min_len)
        ));
    }
}

} // verus!

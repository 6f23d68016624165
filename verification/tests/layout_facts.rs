//! The schema compiler's layout composition checked on a range of field
//! lists, plus the plain-structure deriver and the padding helper.
use flat_serialize::aligning_len;
use flat_serialize::layout::conditional;
use flat_serialize::layout::fixed_array;
use flat_serialize::layout::nested;
use flat_serialize::layout::plain_struct_facts;
use flat_serialize::layout::scalar;
use flat_serialize::layout::sequence;
use flat_serialize::layout::struct_facts;
use flat_serialize::layout::union_facts;
use flat_serialize::layout::FieldFacts;

fn check_size_align(fields: Vec<FieldFacts>, len: usize, align: usize, max: Option<usize>) {
    let facts = struct_facts(&fields);
    assert_eq!(facts.min_len, len, "length");
    assert_eq!(facts.required_alignment, align, "required");
    assert_eq!(facts.max_provided_alignment, max, "max provided");
    assert_eq!(facts.trivial_copy, false, "trivial copy");
}

#[test]
fn test_size_align_struct() {
    // struct { f: u8 }
    check_size_align(vec![scalar(1, 1)], 1, 1, None);
    // struct { f: u16 }
    check_size_align(vec![scalar(2, 2)], 2, 2, None);
    // struct { f: u32 }
    check_size_align(vec![scalar(4, 4)], 4, 4, None);
    // struct { f: u64 }
    check_size_align(vec![scalar(8, 8)], 8, 8, None);
    // struct { a: u64, b: u32, c: u16 }
    check_size_align(
        vec![scalar(8, 8), scalar(4, 4), scalar(2, 2)],
        8 + 4 + 2,
        8,
        None,
    );
    // struct { a: u32, b: u32, c: u32 }
    check_size_align(
        vec![scalar(4, 4), scalar(4, 4), scalar(4, 4)],
        4 + 4 + 4,
        4,
        None,
    );
    // struct { a: [u32; 3] }
    check_size_align(vec![fixed_array(3, scalar(4, 4))], 4 * 3, 4, None);
    // struct { a: u32, b: [u16; self.a] }
    check_size_align(vec![scalar(4, 4), sequence(scalar(2, 2))], 4, 4, Some(2));
    // struct { a: u32, b: [u32; self.a] }
    check_size_align(vec![scalar(4, 4), sequence(scalar(4, 4))], 4, 4, Some(4));
    // struct { a: u32, b: [u32; self.a], c: u32 }
    check_size_align(
        vec![scalar(4, 4), sequence(scalar(4, 4)), scalar(4, 4)],
        4 + 4,
        4,
        Some(4),
    );

    // struct NestedA { a: u32, b: u16 }
    let nested_a = struct_facts(&vec![scalar(4, 4), scalar(2, 2)]);
    // struct { a: u32, b: NestedA }
    check_size_align(vec![scalar(4, 4), nested(nested_a)], 4 + (4 + 2), 4, None);
    // struct { a: u64, b: NestedA }
    check_size_align(vec![scalar(8, 8), nested(nested_a)], 8 + (4 + 2), 8, None);
    // struct { a: u64, b: NestedA, c: u8 }
    check_size_align(
        vec![scalar(8, 8), nested(nested_a), scalar(1, 1)],
        8 + (4 + 2) + 1,
        8,
        None,
    );
    // struct { a: NestedA, b: u8, c: u8, f: NestedA }
    check_size_align(
        vec![
            nested(nested_a),
            scalar(1, 1),
            scalar(1, 1),
            nested(nested_a),
        ],
        (4 + 2) + 1 + 1 + (4 + 2),
        4,
        None,
    );

    // struct NestedB { a: u32, b: [u16; self.a] }
    let nested_b = struct_facts(&vec![scalar(4, 4), sequence(scalar(2, 2))]);
    // struct { a: u32, b: NestedB }
    check_size_align(vec![scalar(4, 4), nested(nested_b)], 4 + 4, 4, Some(2));
    // struct { a: u64, b: NestedB }
    check_size_align(vec![scalar(8, 8), nested(nested_b)], 8 + 4, 8, Some(2));
    // struct { a: u64, b: NestedB, c: u8 }
    check_size_align(
        vec![scalar(8, 8), nested(nested_b), scalar(1, 1)],
        8 + 4 + 1,
        8,
        Some(1),
    );
    // struct { a: u8, b: u8, c: u8, d: u8, e: NestedB }. The record's
    // required alignment is its first field's, a byte's.
    check_size_align(
        vec![
            scalar(1, 1),
            scalar(1, 1),
            scalar(1, 1),
            scalar(1, 1),
            nested(nested_b),
        ],
        4 + 4,
        1,
        Some(2),
    );
}

#[test]
fn test_size_align_enum() {
    // enum EnumA { tag: u32, A: 1 { a: u32 }, B: 2 { a: u16 } }
    let enum_a = union_facts(
        scalar(4, 4),
        &vec![vec![scalar(4, 4)], vec![scalar(2, 2)]],
    );
    // struct { a: EnumA }
    check_size_align(vec![nested(enum_a)], 4 + 2, 4, Some(2));
    // struct { a: EnumA, b: u16 }
    check_size_align(vec![nested(enum_a), scalar(2, 2)], (4 + 2) + 2, 4, Some(2));
    // struct { b: u64, a: EnumA }
    check_size_align(vec![scalar(8, 8), nested(enum_a)], 8 + (4 + 2), 8, Some(2));

    // enum EnumB { tag: u32, A: 1 { a: [u8; 5] }, B: 2 { a: u16 } }
    let enum_b = union_facts(
        scalar(4, 4),
        &vec![vec![fixed_array(5, scalar(1, 1))], vec![scalar(2, 2)]],
    );
    // struct { a: EnumB }
    check_size_align(vec![nested(enum_b)], 4 + 2, 4, Some(1));
    // struct { b: u64, a: EnumB }
    check_size_align(vec![scalar(8, 8), nested(enum_b)], 8 + (4 + 2), 8, Some(1));

    // enum EnumC { tag: u64, A: 1 { a: u64 }, B: 2 { a: u16, b: [u16; self.a] } }
    let enum_c = union_facts(
        scalar(8, 8),
        &vec![
            vec![scalar(8, 8)],
            vec![scalar(2, 2), sequence(scalar(2, 2))],
        ],
    );
    // struct { a: EnumC }
    check_size_align(vec![nested(enum_c)], 8 + 2, 8, Some(2));
    // struct { a: EnumC, b: u16 }
    check_size_align(vec![nested(enum_c), scalar(2, 2)], (8 + 2) + 2, 8, Some(2));
    // struct { b: u64, a: EnumC }
    check_size_align(vec![scalar(8, 8), nested(enum_c)], 8 + (8 + 2), 8, Some(2));

    // enum EnumD { tag: u32, A: 1 { a: u16 }, B: 2 { a: u32, b: [u8; self.a] } }
    let enum_d = union_facts(
        scalar(4, 4),
        &vec![
            vec![scalar(2, 2)],
            vec![scalar(4, 4), sequence(scalar(1, 1))],
        ],
    );
    // struct { a: EnumD }
    check_size_align(vec![nested(enum_d)], 4 + 2, 4, Some(1));
    // struct { a: EnumD, b: u8 }
    check_size_align(vec![nested(enum_d), scalar(1, 1)], (4 + 2) + 1, 4, Some(1));
    // struct { b: u64, a: EnumD }
    check_size_align(vec![scalar(8, 8), nested(enum_d)], 8 + (4 + 2), 8, Some(1));
}

#[test]
fn plain_deriver_no_interior_padding() {
    // struct { a: i32, b: i32 }: both offsets aligned, size a multiple of
    // the alignment, so a single memory copy is sound.
    let facts = plain_struct_facts(&vec![scalar(4, 4), scalar(4, 4)]).unwrap();
    assert_eq!(facts.min_len, 8);
    assert_eq!(facts.required_alignment, 4);
    assert_eq!(facts.max_provided_alignment, None);
    assert!(facts.trivial_copy);
    assert!(facts.fixed_shape);
}

#[test]
fn plain_deriver_rejects_interior_padding() {
    // struct { a: u8, b: u32 }: the second field would sit at offset 1,
    // which breaks its alignment, so the trivial-copy proof fails.
    let facts = plain_struct_facts(&vec![scalar(1, 1), scalar(4, 4)]).unwrap();
    assert!(!facts.trivial_copy);
    // A variable-length field disqualifies the deriver entirely.
    assert!(plain_struct_facts(&vec![scalar(4, 4), sequence(scalar(1, 1))]).is_none());
}

#[test]
fn aligning_len_values() {
    assert_eq!(aligning_len(0, 8), 0);
    assert_eq!(aligning_len(8, 8), 0);
    assert_eq!(aligning_len(10, 8), 6);
    assert_eq!(aligning_len(14, 8), 2);
    assert_eq!(aligning_len(5, 1), 0);
    assert_eq!(aligning_len(3, 2), 1);
}

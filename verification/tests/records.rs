//! Round-trip, truncation and layout checks for the compiled record shapes.
use flat_serialize::Basic;
use flat_serialize::FlatSerializable;
use flat_serialize::Iterable;
use flat_serialize::Nested;
use flat_serialize::NestedOptional;
use flat_serialize::NestedSlice;
use flat_serialize::Optional;
use flat_serialize::WrapErr;

fn collect_pairs(mut it: Iterable<'_, [u8; 2]>) -> Vec<[u8; 2]> {
    let mut out = Vec::new();
    while let Some(v) = it.next() {
        out.push(v);
    }
    out
}

fn collect_optionals(mut it: Iterable<'_, Optional>) -> Vec<Optional> {
    let mut out = Vec::new();
    while let Some(v) = it.next() {
        out.push(v);
    }
    out
}

#[test]
fn basic() {
    let mut bytes = Vec::new();
    bytes.extend_from_slice(&33u64.to_ne_bytes());
    bytes.extend_from_slice(&6u32.to_ne_bytes());
    bytes.extend_from_slice(&202u16.to_ne_bytes());
    bytes.extend_from_slice(&404u16.to_ne_bytes());
    bytes.extend_from_slice(&555u16.to_ne_bytes());
    bytes.extend_from_slice(&[1, 3, 5, 7, 9, 11]);
    bytes.extend_from_slice(&[4, 4, 95, 99]);
    let (
        Basic {
            header,
            data_len,
            data,
            data2,
            array,
        },
        rem,
    ) = Basic::try_ref(&bytes).unwrap();
    assert_eq!(
        (header, data_len, array, data, rem),
        (33, 6, [202, 404, 555], &[1, 3, 5, 7, 9, 11][..], &[][..])
    );
    assert_eq!(collect_pairs(data2), vec![[4, 4], [95, 99]]);

    let mut output = vec![];
    Basic {
        header,
        data_len,
        data,
        data2,
        array,
    }
    .fill_vec(&mut output);
    assert_eq!(output, bytes);

    assert_eq!(Basic::min_len(), 18);
    assert_eq!(Basic::required_alignment(), 8);
    assert_eq!(Basic::max_provided_alignment(), Some(1));
    assert_eq!(Basic::trivial_copy(), false);

    for i in 0..bytes.len() - 1 {
        let res = Basic::try_ref(&bytes[..i]);
        assert!(matches!(res, Err(WrapErr::NotEnoughBytes(..))));
    }
}

#[test]
fn basic_constructed_round_trip() {
    let data = [8u8, 6, 4, 2, 0, 255];
    let pairs = [[1u8, 2], [3, 4]];
    let v = Basic {
        header: 77,
        data_len: 6,
        array: [1, 2, 3],
        data: &data,
        data2: Iterable::Slice(&pairs),
    };
    let mut bytes = vec![];
    v.fill_vec(&mut bytes);
    assert_eq!(v.len(), bytes.len());
    let (w, rem) = Basic::try_ref(&bytes).unwrap();
    assert!(rem.is_empty());
    assert_eq!(w.header, 77);
    assert_eq!(w.data_len, 6);
    assert_eq!(w.array, [1, 2, 3]);
    assert_eq!(w.data, &data[..]);
    assert_eq!(collect_pairs(w.data2), vec![[1, 2], [3, 4]]);
}

#[test]
fn basic_empty_data() {
    let v = Basic {
        header: 0,
        data_len: 0,
        array: [0, 0, 0],
        data: &[],
        data2: Iterable::Slice(&[]),
    };
    let mut bytes = vec![];
    v.fill_vec(&mut bytes);
    assert_eq!(bytes.len(), 18);
    assert_eq!(v.len(), 18);
    let (w, rem) = Basic::try_ref(&bytes).unwrap();
    assert!(rem.is_empty());
    assert_eq!(w.data_len, 0);
    assert_eq!(w.data, &[][..]);
    assert!(collect_pairs(w.data2).is_empty());
}

#[test]
fn basic_overlong_count_rejected() {
    // The length prefix claims far more bytes than the buffer holds: the
    // decode must fail for want of bytes, never read past the input.
    let mut bytes = Vec::new();
    bytes.extend_from_slice(&1u64.to_ne_bytes());
    bytes.extend_from_slice(&u32::MAX.to_ne_bytes());
    bytes.extend_from_slice(&0u16.to_ne_bytes());
    bytes.extend_from_slice(&0u16.to_ne_bytes());
    bytes.extend_from_slice(&0u16.to_ne_bytes());
    bytes.extend_from_slice(&[1, 2, 3]);
    let res = Basic::try_ref(&bytes);
    assert!(matches!(
        res,
        Err(WrapErr::NotEnoughBytes(n)) if n == u32::MAX as usize
    ));
}

#[test]
fn optional_present() {
    let mut bytes = Vec::new();
    bytes.extend_from_slice(&101010101u64.to_ne_bytes());
    bytes.extend_from_slice(&30u32.to_ne_bytes());
    bytes.extend_from_slice(&6u16.to_ne_bytes());
    let (
        Optional {
            header,
            optional_field,
            non_optional_field,
        },
        rem,
    ) = Optional::try_ref(&bytes).unwrap();
    assert_eq!(
        (header, optional_field, non_optional_field, rem),
        (101010101, Some(30), 6, &[][..])
    );

    let mut output = vec![];
    Optional {
        header,
        optional_field,
        non_optional_field,
    }
    .fill_vec(&mut output);
    assert_eq!(output, bytes);

    for i in 0..bytes.len() - 1 {
        let res = Optional::try_ref(&bytes[..i]);
        assert!(matches!(res, Err(WrapErr::NotEnoughBytes(..))));
    }

    assert_eq!(Optional::min_len(), 10);
    assert_eq!(Optional::required_alignment(), 8);
    assert_eq!(Optional::max_provided_alignment(), Some(2));
    assert_eq!(Optional::trivial_copy(), false);
}

#[test]
fn optional_absent() {
    let mut bytes = Vec::new();
    bytes.extend_from_slice(&1u64.to_ne_bytes());
    bytes.extend_from_slice(&7u16.to_ne_bytes());
    let (
        Optional {
            header,
            optional_field,
            non_optional_field,
        },
        rem,
    ) = Optional::try_ref(&bytes).unwrap();
    assert_eq!(
        (header, optional_field, non_optional_field, rem),
        (1, None, 7, &[][..])
    );

    let mut output = vec![];
    Optional {
        header,
        optional_field,
        non_optional_field,
    }
    .fill_vec(&mut output);
    assert_eq!(output, bytes);

    for i in 0..bytes.len() - 1 {
        let res = Optional::try_ref(&bytes[..i]);
        assert!(matches!(res, Err(WrapErr::NotEnoughBytes(..))));
    }
}

#[test]
fn nested() {
    let mut bytes = Vec::new();
    bytes.extend_from_slice(&101010101u64.to_ne_bytes());
    bytes.extend_from_slice(&33u64.to_ne_bytes());
    bytes.extend_from_slice(&6u32.to_ne_bytes());
    bytes.extend_from_slice(&202u16.to_ne_bytes());
    bytes.extend_from_slice(&404u16.to_ne_bytes());
    bytes.extend_from_slice(&555u16.to_ne_bytes());
    bytes.extend_from_slice(&[1, 3, 5, 7, 9, 11]);
    bytes.extend_from_slice(&[3, 0, 104, 2]);
    let (
        Nested {
            prefix,
            basic:
                Basic {
                    header,
                    data_len,
                    array,
                    data,
                    data2,
                },
        },
        rem,
    ) = Nested::try_ref(&bytes).unwrap();
    assert_eq!(
        (prefix, header, data_len, array, data, rem),
        (
            101010101,
            33,
            6,
            [202, 404, 555],
            &[1, 3, 5, 7, 9, 11][..],
            &[][..]
        )
    );
    assert_eq!(collect_pairs(data2), vec![[3, 0], [104, 2]]);

    let mut output = vec![];
    Nested {
        prefix,
        basic: Basic {
            header,
            data_len,
            data,
            data2,
            array,
        },
    }
    .fill_vec(&mut output);
    assert_eq!(output, bytes);

    for i in 0..bytes.len() - 1 {
        let res = Nested::try_ref(&bytes[..i]);
        assert!(matches!(res, Err(WrapErr::NotEnoughBytes(..))));
    }
}

#[test]
fn nested_optional() {
    let mut bytes = Vec::new();
    bytes.extend_from_slice(&3u64.to_ne_bytes());
    {
        bytes.extend_from_slice(&0u64.to_ne_bytes());
        bytes.extend_from_slice(&111111111u32.to_ne_bytes());
        bytes.extend_from_slice(&0xf00fu16.to_ne_bytes());
        bytes.extend_from_slice(&[77; 2]);
    }

    let (NestedOptional { present, val }, rem) = NestedOptional::try_ref(&bytes).unwrap();

    assert_eq!(
        (present, val, rem),
        (
            3,
            Some(Optional {
                header: 0,
                optional_field: Some(111111111),
                non_optional_field: 0xf00f,
            }),
            &[77; 2][..],
        )
    );

    let mut output = vec![];
    NestedOptional { present, val }.fill_vec(&mut output);
    assert_eq!(output, &bytes[..bytes.len() - 2]);

    for i in 0..bytes.len() - 3 {
        let res = NestedOptional::try_ref(&bytes[..i]);
        assert!(matches!(res, Err(WrapErr::NotEnoughBytes(..))));
    }

    assert_eq!(NestedOptional::min_len(), 8);
    assert_eq!(NestedOptional::required_alignment(), 8);
    assert_eq!(NestedOptional::max_provided_alignment(), Some(2));
    assert_eq!(NestedOptional::trivial_copy(), false);
}

#[test]
fn nested_slice() {
    let mut bytes = Vec::new();
    bytes.extend_from_slice(&3u64.to_ne_bytes());
    {
        bytes.extend_from_slice(&101010101u64.to_ne_bytes());
        bytes.extend_from_slice(&30u32.to_ne_bytes());
        bytes.extend_from_slice(&6u16.to_ne_bytes());
        bytes.extend_from_slice(&[0; 2]);
    }
    {
        bytes.extend_from_slice(&1u64.to_ne_bytes());
        bytes.extend_from_slice(&7u16.to_ne_bytes());
        bytes.extend_from_slice(&[0; 6]);
    }
    {
        bytes.extend_from_slice(&0u64.to_ne_bytes());
        bytes.extend_from_slice(&111111111u32.to_ne_bytes());
        bytes.extend_from_slice(&0xf00fu16.to_ne_bytes());
        bytes.extend_from_slice(&[0; 2]);
    }

    let (NestedSlice { num_vals, vals }, rem) = NestedSlice::try_ref(&bytes).unwrap();
    let vals_vec = collect_optionals(vals);
    assert_eq!(
        (num_vals, &*vals_vec, rem),
        (
            3,
            &[
                Optional {
                    header: 101010101,
                    optional_field: Some(30),
                    non_optional_field: 6,
                },
                Optional {
                    header: 1,
                    optional_field: None,
                    non_optional_field: 7,
                },
                Optional {
                    header: 0,
                    optional_field: Some(111111111),
                    non_optional_field: 0xf00f,
                },
            ][..],
            &[][..],
        )
    );

    let mut output = vec![];
    NestedSlice { num_vals, vals }.fill_vec(&mut output);
    assert_eq!(output, bytes);

    for i in 0..bytes.len() - 1 {
        let res = NestedSlice::try_ref(&bytes[..i]);
        assert!(matches!(res, Err(WrapErr::NotEnoughBytes(..))));
    }

    assert_eq!(NestedSlice::min_len(), 8);
    assert_eq!(NestedSlice::required_alignment(), 8);
    assert_eq!(NestedSlice::max_provided_alignment(), Some(8));
    assert_eq!(NestedSlice::trivial_copy(), false);
}

#[test]
fn nested_slice_padding_written_as_zero() {
    // Two elements of different concrete sizes: the writer must pad each to
    // a multiple of the element alignment (8) with zero bytes.
    let elems = [
        Optional {
            header: 9,
            optional_field: Some(5),
            non_optional_field: 1,
        },
        Optional {
            header: 1,
            optional_field: None,
            non_optional_field: 2,
        },
    ];
    let v = NestedSlice {
        num_vals: 2,
        vals: Iterable::Slice(&elems),
    };
    let mut bytes = vec![];
    v.fill_vec(&mut bytes);
    // 8 (count) + 14 + 2 (pad) + 10 + 6 (pad)
    assert_eq!(bytes.len(), 8 + 16 + 16);
    assert_eq!(&bytes[8 + 14..8 + 16], &[0, 0]);
    assert_eq!(&bytes[8 + 16 + 10..], &[0, 0, 0, 0, 0, 0]);
    // Elements after the first start at multiples of the required alignment.
    assert_eq!((8 + 16 - 8) % 8, 0);
    // Round trip: the padded image decodes to the same elements.
    let (w, rem) = NestedSlice::try_ref(&bytes).unwrap();
    assert!(rem.is_empty());
    assert_eq!(collect_optionals(w.vals), elems.to_vec());
}

#[test]
fn nested_slice_empty() {
    let v = NestedSlice {
        num_vals: 0,
        vals: Iterable::Slice(&[]),
    };
    let mut bytes = vec![];
    v.fill_vec(&mut bytes);
    assert_eq!(bytes.len(), 8);
    let (w, rem) = NestedSlice::try_ref(&bytes).unwrap();
    assert!(rem.is_empty());
    assert_eq!(w.num_vals, 0);
    assert!(collect_optionals(w.vals).is_empty());
}

//! Tagged-union decoding (variant selection and `InvalidTag`) and the
//! plain-structure derived types.
use flat_serialize::Bar;
use flat_serialize::BasicEnum;
use flat_serialize::FlatSerializable;
use flat_serialize::Foo;
use flat_serialize::PaddedEnum;
use flat_serialize::WrapErr;

#[test]
fn basic_enum1() {
    let mut bytes = Vec::new();
    bytes.extend_from_slice(&2u64.to_ne_bytes());
    bytes.extend_from_slice(&6u32.to_ne_bytes());
    bytes.extend_from_slice(&[1, 3, 5, 7, 9, 11]);
    let (data_len, data, rem) = match BasicEnum::try_ref(&bytes).unwrap() {
        (BasicEnum::First { data_len, data }, rem) => (data_len, data, rem),
        _ => unreachable!(),
    };
    assert_eq!((data_len, data, rem), (6, &[1, 3, 5, 7, 9, 11][..], &[][..]));

    let mut output = vec![];
    BasicEnum::First { data_len, data }.fill_vec(&mut output);
    assert_eq!(output, bytes);

    for i in 0..bytes.len() - 1 {
        let res = BasicEnum::try_ref(&bytes[..i]);
        assert!(matches!(res, Err(WrapErr::NotEnoughBytes(..))));
    }
}

#[test]
fn basic_enum2() {
    let mut bytes = Vec::new();
    bytes.extend_from_slice(&3u64.to_ne_bytes());
    bytes.extend_from_slice(&3u16.to_ne_bytes());
    bytes.extend_from_slice(&6u16.to_ne_bytes());
    bytes.extend_from_slice(&9u16.to_ne_bytes());
    bytes.extend_from_slice(&[7]);
    let (array, rem) = match BasicEnum::try_ref(&bytes).unwrap() {
        (BasicEnum::Fixed { array }, rem) => (array, rem),
        _ => unreachable!(),
    };
    assert_eq!((array, rem), ([3, 6, 9], &[7][..]));

    let (array, rem) = match BasicEnum::try_ref(&bytes).unwrap() {
        (BasicEnum::Fixed { array }, rem) => (array, rem),
        _ => unreachable!(),
    };
    assert_eq!((array, rem), ([3, 6, 9], &[7][..]));

    let mut output = vec![];
    BasicEnum::Fixed { array }.fill_vec(&mut output);
    assert_eq!(output, &bytes[..bytes.len() - 1]);

    for i in 0..bytes.len() - 1 {
        let res = BasicEnum::try_ref(&bytes[..i]);
        assert!(matches!(res, Err(WrapErr::NotEnoughBytes(..))));
    }
}

#[test]
fn basic_enum_bad_tag() {
    let mut bytes = Vec::new();
    bytes.extend_from_slice(&999u64.to_ne_bytes());
    bytes.extend_from_slice(&6u32.to_ne_bytes());
    bytes.extend_from_slice(&[1, 3, 5, 7, 9, 11]);
    let res = BasicEnum::try_ref(&bytes);
    assert!(matches!(res, Err(WrapErr::InvalidTag(999))));
}

#[test]
fn basic_enum_layout() {
    assert_eq!(BasicEnum::min_len(), 12);
    assert_eq!(BasicEnum::required_alignment(), 8);
    assert_eq!(BasicEnum::max_provided_alignment(), Some(1));
    assert_eq!(BasicEnum::trivial_copy(), false);
}

#[test]
fn padded_enum1() {
    let mut bytes = Vec::new();
    bytes.extend_from_slice(&2u8.to_ne_bytes());
    bytes.extend_from_slice(&[0xf, 0xf, 0xf]);
    bytes.extend_from_slice(&6u32.to_ne_bytes());
    bytes.extend_from_slice(&[1, 3, 5, 7, 9, 11]);
    let (padding, data_len, data, rem) = match PaddedEnum::try_ref(&bytes).unwrap() {
        (
            PaddedEnum::First {
                padding,
                data_len,
                data,
            },
            rem,
        ) => (padding, data_len, data, rem),
        _ => unreachable!(),
    };
    assert_eq!(
        (padding, data_len, data, rem),
        ([0xf, 0xf, 0xf], 6, &[1, 3, 5, 7, 9, 11][..], &[][..])
    );

    let mut output = vec![];
    PaddedEnum::First {
        padding,
        data_len,
        data,
    }
    .fill_vec(&mut output);
    assert_eq!(output, bytes);

    for i in 0..bytes.len() - 1 {
        let res = PaddedEnum::try_ref(&bytes[..i]);
        assert!(matches!(res, Err(WrapErr::NotEnoughBytes(..))));
    }
}

#[test]
fn padded_enum2() {
    let mut bytes = Vec::new();
    bytes.extend_from_slice(&3u8.to_ne_bytes());
    bytes.extend_from_slice(&[0]);
    bytes.extend_from_slice(&3u16.to_ne_bytes());
    bytes.extend_from_slice(&6u16.to_ne_bytes());
    bytes.extend_from_slice(&9u16.to_ne_bytes());
    bytes.extend_from_slice(&[7]);
    let (padding, array, rem) = match PaddedEnum::try_ref(&bytes).unwrap() {
        (PaddedEnum::Fixed { padding, array }, rem) => (padding, array, rem),
        _ => unreachable!(),
    };
    assert_eq!((padding, array, rem), (0, [3, 6, 9], &[7][..]));

    let (padding, array, rem) = match PaddedEnum::try_ref(&bytes).unwrap() {
        (PaddedEnum::Fixed { padding, array }, rem) => (padding, array, rem),
        _ => unreachable!(),
    };
    assert_eq!((padding, array, rem), (0, [3, 6, 9], &[7][..]));

    let mut output = vec![];
    PaddedEnum::Fixed { padding, array }.fill_vec(&mut output);
    assert_eq!(output, &bytes[..bytes.len() - 1]);

    for i in 0..bytes.len() - 1 {
        let res = PaddedEnum::try_ref(&bytes[..i]);
        assert!(matches!(res, Err(WrapErr::NotEnoughBytes(..))));
    }
}

#[test]
fn padded_enum_bad_tag() {
    let bytes = [9u8, 0, 0, 0, 0, 0, 0, 0];
    let res = PaddedEnum::try_ref(&bytes);
    assert!(matches!(res, Err(WrapErr::InvalidTag(9))));
}

#[test]
fn foo() {
    let mut bytes = Vec::new();
    bytes.extend_from_slice(&33i32.to_ne_bytes());
    bytes.extend_from_slice(&100000001i32.to_ne_bytes());

    let (Foo { a, b }, rem) = Foo::try_ref(&bytes).unwrap();
    assert_eq!((a, b, rem), (33, 100000001, &[][..]),);

    let mut output = vec![];
    Foo { a, b }.fill_vec(&mut output);
    assert_eq!(output, bytes);

    assert_eq!(Foo::min_len(), 8);
    assert_eq!(Foo::required_alignment(), 4);
    assert_eq!(Foo::max_provided_alignment(), None);
    assert_eq!(Foo::trivial_copy(), true);

    for i in 0..bytes.len() - 1 {
        let res = Foo::try_ref(&bytes[..i]);
        assert!(matches!(res, Err(WrapErr::NotEnoughBytes(..))));
    }
}

#[test]
fn foo_negative_round_trip() {
    let v = Foo { a: -7, b: i32::MIN };
    let mut bytes = vec![];
    v.fill_vec(&mut bytes);
    let (w, rem) = Foo::try_ref(&bytes).unwrap();
    assert!(rem.is_empty());
    assert_eq!(w, v);
}

#[test]
fn fs_enum_a() {
    let mut bytes = Vec::new();
    bytes.extend_from_slice(&0u16.to_ne_bytes());

    let (val, rem) = Bar::try_ref(&bytes).unwrap();
    assert_eq!((val.tag(), rem), (Bar::A.tag(), &[][..]));

    let mut output = vec![];
    val.fill_vec(&mut output);
    assert_eq!(output, bytes);

    assert_eq!(Bar::min_len(), 2);
    assert_eq!(Bar::required_alignment(), 2);
    assert_eq!(Bar::max_provided_alignment(), None);
    assert_eq!(Bar::trivial_copy(), true);

    for i in 0..bytes.len() - 1 {
        let res = Bar::try_ref(&bytes[..i]);
        assert!(matches!(res, Err(WrapErr::NotEnoughBytes(..))));
    }
}

#[test]
fn fs_enum_b() {
    let mut bytes = Vec::new();
    bytes.extend_from_slice(&1111u16.to_ne_bytes());

    let (val, rem) = Bar::try_ref(&bytes).unwrap();
    assert_eq!((val.tag(), rem), (Bar::B.tag(), &[][..]));

    let mut output = vec![];
    val.fill_vec(&mut output);
    assert_eq!(output, bytes);

    for i in 0..bytes.len() - 1 {
        let res = Bar::try_ref(&bytes[..i]);
        assert!(matches!(res, Err(WrapErr::NotEnoughBytes(..))));
    }
}

#[test]
fn fs_enum_non() {
    let mut bytes = Vec::new();
    bytes.extend_from_slice(&1u16.to_ne_bytes());

    let res = Bar::try_ref(&bytes);
    assert!(matches!(res, Err(WrapErr::InvalidTag(0))));
}

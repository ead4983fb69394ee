use rusty_bolt::pack::{can_pack, pack, pack_list, pack_map, pack_string, pack_structure, Packer};
use rusty_bolt::unpack::{unpack, unpack_at, Unpacker};
use rusty_bolt::value::{get, insert, CodecError, Data, Value, ValueCast, ValueMatch};

#[test]
fn lib_it_works() {}

#[test]
fn should_cast_value_from_true() {
    let value = ValueCast::from(&true);
    assert!(ValueMatch::is_boolean(&value));
    assert_eq!(value, Value::Boolean(true));
}

#[test]
fn should_cast_value_from_false() {
    let value = ValueCast::from(&false);
    assert!(ValueMatch::is_boolean(&value));
    assert_eq!(value, Value::Boolean(false));
}

#[test]
fn should_cast_value_from_i8() {
    for i in -0x80..0x80 {
        let value = ValueCast::from(&(i as i8));
        assert!(ValueMatch::is_integer(&value));
        assert_eq!(value, Value::Integer(i as i64));
    }
}

#[test]
fn should_cast_value_from_i16() {
    for i in -0x8000..0x8000 {
        let value = ValueCast::from(&(i as i16));
        assert!(ValueMatch::is_integer(&value));
        assert_eq!(value, Value::Integer(i as i64));
    }
}

#[test]
fn should_cast_value_from_u8() {
    for i in 0..0x100 {
        let value = ValueCast::from(&(i as u8));
        assert!(ValueMatch::is_integer(&value));
        assert_eq!(value, Value::Integer(i as i64));
    }
}

#[test]
fn should_cast_value_from_u16() {
    for i in 0..0x10000 {
        let value = ValueCast::from(&(i as u16));
        assert!(ValueMatch::is_integer(&value));
        assert_eq!(value, Value::Integer(i as i64));
    }
}

#[test]
fn should_pack_and_unpack_null() {
    let mut packer = Packer::new();
    packer.pack_null();
    assert_eq!(&packer[..], &[0xC0]);
    let mut unpacker = Unpacker::from_slice(&packer[..]);
    let value = unpacker.unpack().unwrap();
    assert!(ValueMatch::is_null(&value));
}

#[test]
fn should_pack_and_unpack_tiny_integer() {
    for i in 0..128 {
        let mut packer = Packer::new();
        packer.pack_integer(i as i64);
        assert_eq!(&packer[..], &[i as u8]);
        let mut unpacker = Unpacker::from_slice(&packer[..]);
        let value = unpacker.unpack().unwrap();
        assert!(ValueMatch::is_integer(&value));
        assert_eq!(value, Value::Integer(i as i64));
    }
}

fn packed(value: Value) -> Vec<u8> {
    value.pack_into().unwrap()
}

fn text(s: &str) -> Value {
    Value::String(s.to_string())
}

#[test]
fn casts_of_other_plain_values() {
    assert_eq!(ValueCast::from(&'x'), text("x"));
    assert_eq!(ValueCast::from(&"abc"), text("abc"));
    assert_eq!(ValueCast::from(&"abc".to_string()), text("abc"));
    assert_eq!(ValueCast::from(&-5i32), Value::Integer(-5));
    assert_eq!(ValueCast::from(&-5i64), Value::Integer(-5));
    assert_eq!(ValueCast::from(&-5isize), Value::Integer(-5));
    assert_eq!(ValueCast::from(&7u32), Value::Integer(7));
    assert_eq!(ValueCast::from(&7u64), Value::Integer(7));
    assert_eq!(ValueCast::from(&7usize), Value::Integer(7));
    assert_eq!(ValueCast::from(&u64::MAX), Value::Integer(-1));
    assert_eq!(ValueCast::from(&0x8000_0000_0000_0000u64), Value::Integer(i64::MIN));
    assert_eq!(
        ValueCast::from(&vec![1u8, 2, 3]),
        Value::List(vec![Value::Integer(1), Value::Integer(2), Value::Integer(3)])
    );
    assert_eq!(<Value as From<bool>>::from(true), Value::Boolean(true));
    assert_eq!(<Value as From<i64>>::from(9), Value::Integer(9));
    assert_eq!(<Value as From<String>>::from("s".to_string()), text("s"));
}

#[test]
fn variant_tests_tell_the_variants_apart() {
    let values = vec![
        Value::Null,
        Value::Boolean(true),
        Value::Integer(1),
        Value::Float(1.5f64.to_bits()),
        text("a"),
        Value::List(vec![]),
        Value::Dictionary(vec![]),
        Value::Structure { signature: 1, fields: vec![] },
    ];
    for (i, v) in values.iter().enumerate() {
        assert_eq!(v.is_null(), i == 0);
        assert_eq!(v.is_boolean(), i == 1);
        assert_eq!(v.is_integer(), i == 2);
        assert_eq!(v.is_float(), i == 3);
        assert_eq!(v.is_string(), i == 4);
        assert_eq!(v.is_list(), i == 5);
        assert_eq!(v.is_map(), i == 6);
        assert_eq!(v.is_structure(), i == 7);
    }
}

#[test]
fn accessors_give_the_inside_or_nothing() {
    assert_eq!(Value::Boolean(true).into_bool(), Some(true));
    assert_eq!(Value::Integer(1).into_bool(), None);
    assert_eq!(Value::Integer(-3).into_int(), Some(-3));
    assert_eq!(Value::Null.into_int(), None);
    assert_eq!(Value::Float(2.5f64.to_bits()).into_float().map(f64::from_bits), Some(2.5));
    assert_eq!(Value::Null.into_float(), None);
    assert_eq!(text("a").into_string(), Some("a".to_string()));
    assert_eq!(Value::Null.into_string(), None);
    assert_eq!(Value::List(vec![Value::Null]).into_vec(), Some(vec![Value::Null]));
    assert_eq!(Value::Null.into_vec(), None);
    assert_eq!(
        Value::Dictionary(vec![("k".to_string(), Value::Null)]).into_map(),
        Some(vec![("k".to_string(), Value::Null)])
    );
    assert_eq!(Value::Null.into_map(), None);
}

#[test]
fn clone_copies_deeply() {
    let v = Value::Structure {
        signature: 0x4E,
        fields: vec![
            Value::Integer(1),
            Value::List(vec![text("a"), Value::Float(0)]),
            Value::Dictionary(vec![("k".to_string(), Value::Boolean(false))]),
        ],
    };
    assert_eq!(v.clone(), v);
    let d = Data::Record(vec![v.clone()]);
    assert_eq!(d.clone(), d);
}

#[test]
fn dictionary_insert_overwrites_in_place() {
    let mut entries: Vec<(String, Value)> = Vec::new();
    insert(&mut entries, "a".to_string(), Value::Integer(1));
    insert(&mut entries, "b".to_string(), Value::Integer(2));
    insert(&mut entries, "a".to_string(), Value::Integer(3));
    assert_eq!(
        entries,
        vec![("a".to_string(), Value::Integer(3)), ("b".to_string(), Value::Integer(2))]
    );
    assert_eq!(get(&entries, "a"), Some(&Value::Integer(3)));
    assert_eq!(get(&entries, "b"), Some(&Value::Integer(2)));
    assert_eq!(get(&entries, "c"), None);
}

#[test]
fn a_dictionary_that_names_a_key_twice_is_not_well_formed() {
    assert!(sample().is_well_formed());
    assert!(Value::Null.is_well_formed());
    assert!(Value::Dictionary(vec![]).is_well_formed());
    let twice = Value::Dictionary(vec![
        ("a".to_string(), Value::Integer(1)),
        ("b".to_string(), Value::Integer(2)),
        ("a".to_string(), Value::Integer(3)),
    ]);
    assert!(!twice.is_well_formed());
    assert!(!Value::List(vec![Value::Null, twice.clone()]).is_well_formed());
    assert!(!Value::Structure { signature: 1, fields: vec![twice.clone()] }.is_well_formed());
    assert!(!Value::Dictionary(vec![("k".to_string(), twice.clone())]).is_well_formed());
    let bytes = packed(twice);
    assert_eq!(
        unpack(&bytes),
        Ok(Value::Dictionary(vec![("a".to_string(), Value::Integer(3)), ("b".to_string(), Value::Integer(2))]))
    );
    assert!(unpack(&bytes).unwrap().is_well_formed());
}

#[test]
fn integers_take_the_narrowest_form() {
    let cases: Vec<(i64, Vec<u8>)> = vec![
        (0, vec![0x00]),
        (1, vec![0x01]),
        (127, vec![0x7F]),
        (-1, vec![0xFF]),
        (-16, vec![0xF0]),
        (-17, vec![0xC8, 0xEF]),
        (-128, vec![0xC8, 0x80]),
        (128, vec![0xC9, 0x00, 0x80]),
        (-129, vec![0xC9, 0xFF, 0x7F]),
        (256, vec![0xC9, 0x01, 0x00]),
        (-256, vec![0xC9, 0xFF, 0x00]),
        (32767, vec![0xC9, 0x7F, 0xFF]),
        (-32768, vec![0xC9, 0x80, 0x00]),
        (32768, vec![0xCA, 0x00, 0x00, 0x80, 0x00]),
        (-32769, vec![0xCA, 0xFF, 0xFF, 0x7F, 0xFF]),
        (2147483647, vec![0xCA, 0x7F, 0xFF, 0xFF, 0xFF]),
        (-2147483648, vec![0xCA, 0x80, 0x00, 0x00, 0x00]),
        (2147483648, vec![0xCB, 0x00, 0x00, 0x00, 0x00, 0x80, 0x00, 0x00, 0x00]),
        (-2147483649, vec![0xCB, 0xFF, 0xFF, 0xFF, 0xFF, 0x7F, 0xFF, 0xFF, 0xFF]),
        (i64::MAX, vec![0xCB, 0x7F, 0xFF, 0xFF, 0xFF, 0xFF, 0xFF, 0xFF, 0xFF]),
        (i64::MIN, vec![0xCB, 0x80, 0x00, 0x00, 0x00, 0x00, 0x00, 0x00, 0x00]),
        (0x0102030405060708, vec![0xCB, 0x01, 0x02, 0x03, 0x04, 0x05, 0x06, 0x07, 0x08]),
    ];
    for (n, bytes) in cases {
        assert_eq!(packed(Value::Integer(n)), bytes, "packing {}", n);
        assert_eq!(unpack(&bytes), Ok(Value::Integer(n)), "unpacking {}", n);
    }
}

#[test]
fn wider_forms_of_small_integers_are_read() {
    assert_eq!(unpack(&[0xC8, 0x01]), Ok(Value::Integer(1)));
    assert_eq!(unpack(&[0xC9, 0x00, 0x01]), Ok(Value::Integer(1)));
    assert_eq!(unpack(&[0xCA, 0x00, 0x00, 0x00, 0x01]), Ok(Value::Integer(1)));
    assert_eq!(unpack(&[0xCB, 0, 0, 0, 0, 0, 0, 0, 1]), Ok(Value::Integer(1)));
    assert_eq!(unpack(&[0xCB, 0xFF, 0xFF, 0xFF, 0xFF, 0xFF, 0xFF, 0xFF, 0xFE]), Ok(Value::Integer(-2)));
}

#[test]
fn null_booleans_and_floats_have_their_markers() {
    assert_eq!(packed(Value::Null), vec![0xC0]);
    assert_eq!(packed(Value::Boolean(false)), vec![0xC2]);
    assert_eq!(packed(Value::Boolean(true)), vec![0xC3]);
    assert_eq!(
        packed(Value::Float(1.0f64.to_bits())),
        vec![0xC1, 0x3F, 0xF0, 0x00, 0x00, 0x00, 0x00, 0x00, 0x00]
    );
    assert_eq!(
        packed(Value::Float((-1.1f64).to_bits())),
        vec![0xC1, 0xBF, 0xF1, 0x99, 0x99, 0x99, 0x99, 0x99, 0x9A]
    );
    assert_eq!(unpack(&[0xC0]), Ok(Value::Null));
    assert_eq!(unpack(&[0xC2]), Ok(Value::Boolean(false)));
    assert_eq!(unpack(&[0xC3]), Ok(Value::Boolean(true)));
    let nan = f64::NAN.to_bits() | 0x1234;
    let back = unpack(&packed(Value::Float(nan))).unwrap();
    assert_eq!(back, Value::Float(nan));
}

#[test]
fn strings_take_the_narrowest_header() {
    assert_eq!(packed(text("")), vec![0x80]);
    assert_eq!(packed(text("a")), vec![0x81, 0x61]);
    let s15 = "a".repeat(15);
    assert_eq!(packed(text(&s15))[0], 0x8F);
    let s16 = "a".repeat(16);
    assert_eq!(&packed(text(&s16))[..2], &[0xD0, 0x10]);
    let s255 = "a".repeat(255);
    assert_eq!(&packed(text(&s255))[..2], &[0xD0, 0xFF]);
    let s256 = "a".repeat(256);
    assert_eq!(&packed(text(&s256))[..3], &[0xD1, 0x01, 0x00]);
    let s65535 = "a".repeat(65535);
    assert_eq!(&packed(text(&s65535))[..3], &[0xD1, 0xFF, 0xFF]);
    let s65536 = "a".repeat(65536);
    let bytes = packed(text(&s65536));
    assert_eq!(&bytes[..5], &[0xD2, 0x00, 0x01, 0x00, 0x00]);
    assert_eq!(bytes.len(), 5 + 65536);
    assert_eq!(unpack(&bytes), Ok(text(&s65536)));
    assert_eq!(packed(text("Größe")), vec![0x87, 0x47, 0x72, 0xC3, 0xB6, 0xC3, 0x9F, 0x65]);
    assert_eq!(unpack(&[0x87, 0x47, 0x72, 0xC3, 0xB6, 0xC3, 0x9F, 0x65]), Ok(text("Größe")));
}

#[test]
fn containers_take_the_narrowest_header() {
    assert_eq!(packed(Value::List(vec![])), vec![0x90]);
    assert_eq!(
        packed(Value::List(vec![Value::Integer(1), Value::Integer(2), Value::Integer(3)])),
        vec![0x93, 1, 2, 3]
    );
    let l16: Vec<Value> = (0..16).map(|_| Value::Null).collect();
    assert_eq!(&packed(Value::List(l16))[..2], &[0xD4, 0x10]);
    let l256: Vec<Value> = (0..256).map(|_| Value::Null).collect();
    assert_eq!(&packed(Value::List(l256))[..3], &[0xD5, 0x01, 0x00]);
    let l65536: Vec<Value> = (0..65536).map(|_| Value::Null).collect();
    let bytes = packed(Value::List(l65536.clone()));
    assert_eq!(&bytes[..5], &[0xD6, 0x00, 0x01, 0x00, 0x00]);
    assert_eq!(unpack(&bytes), Ok(Value::List(l65536)));

    assert_eq!(packed(Value::Dictionary(vec![])), vec![0xA0]);
    assert_eq!(
        packed(Value::Dictionary(vec![("a".to_string(), Value::Integer(1))])),
        vec![0xA1, 0x81, 0x61, 0x01]
    );
    let m16: Vec<(String, Value)> = (0..16).map(|i| (format!("k{}", i), Value::Null)).collect();
    assert_eq!(&packed(Value::Dictionary(m16))[..2], &[0xD8, 0x10]);
    let m256: Vec<(String, Value)> = (0..256).map(|i| (format!("k{}", i), Value::Null)).collect();
    let bytes = packed(Value::Dictionary(m256.clone()));
    assert_eq!(&bytes[..3], &[0xD9, 0x01, 0x00]);
    assert_eq!(unpack(&bytes), Ok(Value::Dictionary(m256)));

    assert_eq!(packed(Value::Structure { signature: 0x0E, fields: vec![] }), vec![0xB0, 0x0E]);
    assert_eq!(
        packed(Value::Structure { signature: 0x71, fields: vec![Value::List(vec![Value::Integer(1)])] }),
        vec![0xB1, 0x71, 0x91, 0x01]
    );
    let f16: Vec<Value> = (0..16).map(|_| Value::Null).collect();
    assert_eq!(&packed(Value::Structure { signature: 7, fields: f16 })[..3], &[0xDC, 0x10, 0x07]);
    let f256: Vec<Value> = (0..256).map(|_| Value::Null).collect();
    let bytes = packed(Value::Structure { signature: 7, fields: f256.clone() });
    assert_eq!(&bytes[..4], &[0xDD, 0x01, 0x00, 0x07]);
    assert_eq!(unpack(&bytes), Ok(Value::Structure { signature: 7, fields: f256 }));
}

fn sample() -> Value {
    Value::Structure {
        signature: 0x4E,
        fields: vec![
            Value::Integer(-300),
            Value::List(vec![text("Person"), Value::Float(3.25f64.to_bits()), Value::Null]),
            Value::Dictionary(vec![
                ("name".to_string(), text("Alice")),
                ("tags".to_string(), Value::List(vec![Value::Boolean(true), Value::Integer(70000)])),
                (
                    "inner".to_string(),
                    Value::Dictionary(vec![("x".to_string(), Value::Integer(i64::MIN))]),
                ),
            ]),
        ],
    }
}

#[test]
fn reading_what_was_written_gives_the_value_back() {
    let bytes = packed(sample());
    assert_eq!(unpack(&bytes), Ok(sample()));
    assert_eq!(unpack_at(&bytes, 0), Ok((sample(), bytes.len())));
    let mut longer = bytes.clone();
    longer.extend_from_slice(&[0xC0, 0x01]);
    assert_eq!(unpack_at(&longer, 0), Ok((sample(), bytes.len())));
    assert_eq!(unpack_at(&longer, bytes.len()), Ok((Value::Null, bytes.len() + 1)));
    assert_eq!(unpack_at(&longer, bytes.len() + 1), Ok((Value::Integer(1), bytes.len() + 2)));
    assert_eq!(unpack_at(&longer, bytes.len() + 2), Err(CodecError::DecodeTruncated));
}

#[test]
fn the_free_functions_and_the_packer_write_the_same() {
    let mut out = vec![0xAAu8];
    assert_eq!(pack(sample(), &mut out), Ok(()));
    let mut expected = vec![0xAAu8];
    expected.extend_from_slice(&packed(sample()));
    assert_eq!(out, expected);

    let mut packer = Packer::new();
    assert_eq!(packer.len(), 0);
    assert_eq!(packer.pack(&sample()), Ok(()));
    assert_eq!(packer.as_slice(), &packed(sample())[..]);
    assert_eq!(packer.len(), packed(sample()).len());
    packer.clear();
    assert_eq!(packer.len(), 0);

    let mut out = Vec::new();
    assert_eq!(sample().pack(&mut out), Ok(()));
    assert_eq!(out, packed(sample()));

    let mut out = Vec::new();
    assert_eq!(pack_string("ab", &mut out), Ok(()));
    assert_eq!(pack_list(vec![Value::Null], &mut out), Ok(()));
    assert_eq!(pack_map(vec![("k".to_string(), Value::Null)], &mut out), Ok(()));
    assert_eq!(pack_structure(9, vec![Value::Null], &mut out), Ok(()));
    assert_eq!(out, vec![0x82, 0x61, 0x62, 0x91, 0xC0, 0xA1, 0x81, 0x6B, 0xC0, 0xB1, 0x09, 0xC0]);
}

#[test]
fn packer_writes_piece_by_piece() {
    let mut packer = Packer::new();
    packer.pack_structure_header(2, 0x10).unwrap();
    packer.pack_string("RETURN 1").unwrap();
    packer.pack_map_header(1).unwrap();
    packer.pack_string("x").unwrap();
    packer.pack_list_header(3).unwrap();
    packer.pack_integer(-256);
    packer.pack_boolean(true);
    packer.pack_float(0.5f64.to_bits());
    packer.write_slice(&[0xC0]);
    let expected = Value::Structure {
        signature: 0x10,
        fields: vec![
            text("RETURN 1"),
            Value::Dictionary(vec![(
                "x".to_string(),
                Value::List(vec![Value::Integer(-256), Value::Boolean(true), Value::Float(0.5f64.to_bits())]),
            )]),
        ],
    };
    let mut bytes = packed(expected);
    bytes.push(0xC0);
    assert_eq!(&packer[..], &bytes[..]);
    let mut packer = Packer::new();
    packer.pack_list_header(16).unwrap();
    packer.pack_map_header(256).unwrap();
    packer.pack_list_header(65536).unwrap();
    packer.pack_structure_header(16, 1).unwrap();
    packer.pack_structure_header(256, 2).unwrap();
    assert_eq!(
        &packer[..],
        &[0xD4, 0x10, 0xD9, 0x01, 0x00, 0xD6, 0x00, 0x01, 0x00, 0x00, 0xDC, 0x10, 0x01, 0xDD, 0x01, 0x00, 0x02]
    );
}

#[test]
fn what_is_too_large_is_refused_and_nothing_is_written() {
    let fields: Vec<Value> = (0..65536).map(|_| Value::Null).collect();
    let too_many = Value::Structure { signature: 1, fields };
    assert!(!can_pack(&too_many));
    assert!(can_pack(&sample()));
    let mut out = vec![1u8, 2, 3];
    assert_eq!(pack(too_many.clone(), &mut out), Err(CodecError::EncodeTooLarge));
    assert_eq!(out, vec![1u8, 2, 3]);
    assert_eq!(too_many.clone().pack_into(), Err(CodecError::EncodeTooLarge));
    let nested = Value::List(vec![Value::Integer(1), too_many]);
    assert_eq!(nested.pack_into(), Err(CodecError::EncodeTooLarge));
    let mut packer = Packer::new();
    packer.pack_null();
    assert_eq!(packer.pack_structure_header(65536, 1), Err(CodecError::EncodeTooLarge));
    assert_eq!(&packer[..], &[0xC0]);
    if usize::BITS > 32 {
        assert_eq!(packer.pack_list_header(0x1_0000_0000u64 as usize), Err(CodecError::EncodeTooLarge));
        assert_eq!(packer.pack_map_header(0x1_0000_0000u64 as usize), Err(CodecError::EncodeTooLarge));
        assert_eq!(&packer[..], &[0xC0]);
    }
}

#[test]
fn truncated_input_is_reported() {
    assert_eq!(unpack(&[]), Err(CodecError::DecodeTruncated));
    let bytes = packed(sample());
    for cut in 0..bytes.len() {
        assert_eq!(unpack(&bytes[..cut]), Err(CodecError::DecodeTruncated), "cut at {}", cut);
    }
    assert_eq!(unpack(&[0xC1, 0, 0, 0]), Err(CodecError::DecodeTruncated));
    assert_eq!(unpack(&[0xC8]), Err(CodecError::DecodeTruncated));
    assert_eq!(unpack(&[0xC9, 0]), Err(CodecError::DecodeTruncated));
    assert_eq!(unpack(&[0xCA, 0, 0, 0]), Err(CodecError::DecodeTruncated));
    assert_eq!(unpack(&[0xCB, 0, 0, 0, 0, 0, 0, 0]), Err(CodecError::DecodeTruncated));
    assert_eq!(unpack(&[0xD0]), Err(CodecError::DecodeTruncated));
    assert_eq!(unpack(&[0xD1, 0]), Err(CodecError::DecodeTruncated));
    assert_eq!(unpack(&[0xD2, 0, 0, 0]), Err(CodecError::DecodeTruncated));
    assert_eq!(unpack(&[0xD6, 0xFF, 0xFF, 0xFF, 0xFF, 0xC0]), Err(CodecError::DecodeTruncated));
    assert_eq!(unpack(&[0xB1]), Err(CodecError::DecodeTruncated));
    assert_eq!(unpack(&[0x82, 0x61]), Err(CodecError::DecodeTruncated));
}

#[test]
fn unknown_markers_are_reported() {
    let unknown: Vec<u8> = vec![
        0xC4, 0xC5, 0xC6, 0xC7, 0xCC, 0xCD, 0xCE, 0xCF, 0xD3, 0xD7, 0xDB, 0xDE, 0xDF, 0xE0, 0xE1, 0xE7, 0xEF,
    ];
    for marker in unknown {
        assert_eq!(unpack(&[marker, 0, 0, 0, 0, 0, 0, 0, 0]), Err(CodecError::DecodeMarker), "marker {:02X}", marker);
    }
    assert_eq!(unpack(&[0x91, 0xC4]), Err(CodecError::DecodeMarker));
}

#[test]
fn a_map_key_must_be_a_string() {
    assert_eq!(unpack(&[0xA1, 0x01, 0x01]), Err(CodecError::DecodeMapKey));
    assert_eq!(unpack(&[0xA1, 0xC0, 0x01]), Err(CodecError::DecodeMapKey));
    assert_eq!(unpack(&[0xD8, 0x01, 0x90, 0x01]), Err(CodecError::DecodeMapKey));
}

#[test]
fn text_must_be_utf8() {
    assert_eq!(unpack(&[0x81, 0xFF]), Err(CodecError::DecodeText));
    assert_eq!(unpack(&[0x82, 0xC3, 0x28]), Err(CodecError::DecodeText));
    assert_eq!(unpack(&[0xD0, 0x01, 0x80]), Err(CodecError::DecodeText));
}

#[test]
fn of_two_entries_under_one_key_the_later_stays() {
    let bytes = vec![0xA3, 0x81, 0x61, 0x01, 0x81, 0x62, 0x02, 0x81, 0x61, 0x03];
    assert_eq!(
        unpack(&bytes),
        Ok(Value::Dictionary(vec![
            ("a".to_string(), Value::Integer(3)),
            ("b".to_string(), Value::Integer(2)),
        ]))
    );
}

#[test]
fn unpacker_reads_values_one_after_the_other() {
    let mut bytes = packed(Value::Integer(1000));
    bytes.extend_from_slice(&packed(text("next")));
    let mut unpacker = Unpacker::from_slice(&bytes);
    assert_eq!(unpacker.unpack(), Ok(Value::Integer(1000)));
    assert_eq!(unpacker.unpack(), Ok(text("next")));
    assert_eq!(unpacker.unpack(), Err(CodecError::DecodeTruncated));
    unpacker.clear();
    assert_eq!(unpacker.unpack(), Err(CodecError::DecodeTruncated));
    let mut unpacker = Unpacker::new();
    {
        let room = unpacker.buffer(3);
        assert_eq!(room, &[0u8, 0, 0]);
        room.copy_from_slice(&[0x92, 0x01, 0xC3]);
    }
    {
        let room = unpacker.buffer(1);
        assert_eq!(room.len(), 1);
        room[0] = 0x7F;
    }
    assert_eq!(unpacker.unpack(), Ok(Value::List(vec![Value::Integer(1), Value::Boolean(true)])));
    assert_eq!(unpacker.unpack(), Ok(Value::Integer(127)));
}

#[test]
fn unpacker_reads_plain_numbers() {
    let bytes = [
        0xFEu8, 0x80, 0x7F, 0xFF, 0xFE, 0x80, 0x00, 0x00, 0x01, 0xFF, 0xFF, 0xFF, 0xFF, 0xFF, 0xFF, 0xFF, 0xFD, 0x01,
    ];
    let mut unpacker = Unpacker::from_slice(&bytes);
    assert_eq!(unpacker.unpack_u8(), Ok(0xFE));
    assert_eq!(unpacker.unpack_i8(), Ok(-128));
    assert_eq!(unpacker.unpack_i8(), Ok(127));
    assert_eq!(unpacker.unpack_i16(), Ok(-2));
    assert_eq!(unpacker.unpack_i32(), Ok(-2147483647));
    assert_eq!(unpacker.unpack_i64(), Ok(-3));
    assert_eq!(unpacker.unpack_i16(), Err(CodecError::DecodeTruncated));
    assert_eq!(unpacker.unpack_i32(), Err(CodecError::DecodeTruncated));
    assert_eq!(unpacker.unpack_i64(), Err(CodecError::DecodeTruncated));
    assert_eq!(unpacker.unpack_i8(), Ok(1));
    assert_eq!(unpacker.unpack_u8(), Err(CodecError::DecodeTruncated));
    assert_eq!(unpacker.unpack_i8(), Err(CodecError::DecodeTruncated));
}

use ben::num::Float64;
use ben::wire::envelope::Envelope;
use ben::wire::error::WireError;
use ben::wire::event::{EventSchema, FieldDescriptor};
use ben::wire::rowbinary::RowBinCursor;
use ben::wire::value::{
    check_field, check_scalar, decode_field, encode_field, read_scalar, write_field,
    write_scalar, FieldKind, FieldValue, ScalarKind, ScalarValue, Width,
};

fn f(x: f64) -> Float64 {
    Float64::from_bits(x.to_bits())
}

fn same_scalar(a: &ScalarValue, b: &ScalarValue) -> bool {
    match (a, b) {
        (ScalarValue::UInt(x), ScalarValue::UInt(y)) => x == y,
        (ScalarValue::Int(x), ScalarValue::Int(y)) => x == y,
        (ScalarValue::UInt128(x), ScalarValue::UInt128(y)) => x == y,
        (ScalarValue::Float64(x), ScalarValue::Float64(y)) => x == y,
        (ScalarValue::Bool(x), ScalarValue::Bool(y)) => x == y,
        (ScalarValue::Str(x), ScalarValue::Str(y)) => x == y,
        (ScalarValue::Fixed16(x), ScalarValue::Fixed16(y)) => x == y,
        (ScalarValue::Fixed32(x), ScalarValue::Fixed32(y)) => x == y,
        (ScalarValue::Discriminant(x), ScalarValue::Discriminant(y)) => x == y,
        _ => false,
    }
}

fn same_field(a: &FieldValue, b: &FieldValue) -> bool {
    match (a, b) {
        (FieldValue::Null, FieldValue::Null) => true,
        (FieldValue::Scalar(x), FieldValue::Scalar(y)) => same_scalar(x, y),
        (FieldValue::Array(x), FieldValue::Array(y)) => {
            x.len() == y.len() && x.iter().zip(y).all(|(a, b)| same_scalar(a, b))
        }
        (FieldValue::StrMap(x), FieldValue::StrMap(y)) => x == y,
        _ => false,
    }
}

fn round_trip(kind: &FieldKind, nullable: bool, v: &FieldValue) -> Vec<u8> {
    assert!(check_field(kind, nullable, v), "{v:?} should fit {kind:?}");
    let mut out = vec![0xEE];
    encode_field(&mut out, kind, nullable, v).unwrap();
    assert_eq!(out[0], 0xEE);
    let mut written = vec![0xEE];
    write_field(&mut written, kind, nullable, v);
    assert_eq!(written, out);
    let bytes = out[1..].to_vec();
    // alone
    let mut cur = RowBinCursor::new(&bytes);
    let back = decode_field(&mut cur, kind, nullable).unwrap();
    assert!(same_field(&back, v), "{back:?} != {v:?}");
    assert_eq!(cur.pos, bytes.len());
    // with bytes behind it
    let mut longer = bytes.clone();
    longer.extend_from_slice(&[1, 2, 3]);
    let mut cur = RowBinCursor::new(&longer);
    let back = decode_field(&mut cur, kind, nullable).unwrap();
    assert!(same_field(&back, v));
    assert_eq!(cur.pos, bytes.len());
    // cut short anywhere, it fails
    for cut in 0..bytes.len() {
        let mut cur = RowBinCursor::new(&bytes[..cut]);
        assert!(
            decode_field(&mut cur, kind, nullable).is_err(),
            "{v:?} cut at {cut}"
        );
    }
    bytes
}

fn scalar(kind: ScalarKind, v: ScalarValue) -> Vec<u8> {
    round_trip(&FieldKind::Scalar(kind), false, &FieldValue::Scalar(v))
}

#[test]
fn unsigned_integers_of_every_width() {
    assert_eq!(scalar(ScalarKind::UInt(Width::W8), ScalarValue::UInt(0)), [0]);
    assert_eq!(
        scalar(ScalarKind::UInt(Width::W8), ScalarValue::UInt(255)),
        [255]
    );
    assert_eq!(
        scalar(ScalarKind::UInt(Width::W16), ScalarValue::UInt(0xABCD)),
        0xABCDu16.to_le_bytes()
    );
    assert_eq!(
        scalar(ScalarKind::UInt(Width::W16), ScalarValue::UInt(65535)),
        u16::MAX.to_le_bytes()
    );
    assert_eq!(
        scalar(ScalarKind::UInt(Width::W32), ScalarValue::UInt(u32::MAX as u64)),
        u32::MAX.to_le_bytes()
    );
    assert_eq!(
        scalar(ScalarKind::UInt(Width::W64), ScalarValue::UInt(u64::MAX)),
        u64::MAX.to_le_bytes()
    );
    assert_eq!(
        scalar(ScalarKind::UInt(Width::W64), ScalarValue::UInt(0)),
        0u64.to_le_bytes()
    );
    assert_eq!(
        scalar(ScalarKind::UInt128, ScalarValue::UInt128(u128::MAX)),
        u128::MAX.to_le_bytes()
    );
    assert_eq!(
        scalar(ScalarKind::UInt128, ScalarValue::UInt128(0)),
        0u128.to_le_bytes()
    );
    assert_eq!(Width::W8.bytes(), 1);
    assert_eq!(Width::W16.bytes(), 2);
    assert_eq!(Width::W32.bytes(), 4);
    assert_eq!(Width::W64.bytes(), 8);
}

#[test]
fn signed_integers_of_every_width() {
    assert_eq!(
        scalar(ScalarKind::Int(Width::W8), ScalarValue::Int(-128)),
        (-128i8).to_le_bytes()
    );
    assert_eq!(
        scalar(ScalarKind::Int(Width::W8), ScalarValue::Int(127)),
        127i8.to_le_bytes()
    );
    assert_eq!(
        scalar(ScalarKind::Int(Width::W8), ScalarValue::Int(-1)),
        (-1i8).to_le_bytes()
    );
    assert_eq!(
        scalar(ScalarKind::Int(Width::W16), ScalarValue::Int(i16::MIN as i64)),
        i16::MIN.to_le_bytes()
    );
    assert_eq!(
        scalar(ScalarKind::Int(Width::W16), ScalarValue::Int(i16::MAX as i64)),
        i16::MAX.to_le_bytes()
    );
    assert_eq!(
        scalar(ScalarKind::Int(Width::W32), ScalarValue::Int(i32::MIN as i64)),
        i32::MIN.to_le_bytes()
    );
    assert_eq!(
        scalar(ScalarKind::Int(Width::W32), ScalarValue::Int(-123456)),
        (-123456i32).to_le_bytes()
    );
    assert_eq!(
        scalar(ScalarKind::Int(Width::W64), ScalarValue::Int(i64::MIN)),
        i64::MIN.to_le_bytes()
    );
    assert_eq!(
        scalar(ScalarKind::Int(Width::W64), ScalarValue::Int(i64::MAX)),
        i64::MAX.to_le_bytes()
    );
    assert_eq!(
        scalar(ScalarKind::Int(Width::W64), ScalarValue::Int(0)),
        0i64.to_le_bytes()
    );
}

#[test]
fn floats_booleans_strings_and_fixed_arrays() {
    for x in [0.0, -0.0, 3.14159, f64::MAX, f64::MIN_POSITIVE, f64::NEG_INFINITY, f64::NAN] {
        assert_eq!(
            scalar(ScalarKind::Float64, ScalarValue::Float64(f(x))),
            x.to_bits().to_le_bytes()
        );
    }
    assert_eq!(scalar(ScalarKind::Bool, ScalarValue::Bool(true)), [1]);
    assert_eq!(scalar(ScalarKind::Bool, ScalarValue::Bool(false)), [0]);
    assert_eq!(
        scalar(ScalarKind::Str, ScalarValue::Str(String::new())),
        [0, 0, 0, 0]
    );
    assert_eq!(
        scalar(ScalarKind::Str, ScalarValue::Str("hello".into())),
        [5, 0, 0, 0, b'h', b'e', b'l', b'l', b'o']
    );
    let fire = "\u{1F525} unicode ok";
    let bytes = scalar(ScalarKind::Str, ScalarValue::Str(fire.into()));
    assert_eq!(&bytes[..4], &(fire.len() as u32).to_le_bytes());
    assert_eq!(&bytes[4..], fire.as_bytes());
    let long = "x".repeat(70_000);
    let bytes = scalar(ScalarKind::Str, ScalarValue::Str(long.clone()));
    assert_eq!(bytes.len(), 4 + 70_000);
    // fixed arrays have no length in front
    assert_eq!(
        scalar(ScalarKind::Fixed16, ScalarValue::Fixed16([0; 16])),
        [0u8; 16]
    );
    assert_eq!(
        scalar(ScalarKind::Fixed32, ScalarValue::Fixed32([0; 32])),
        [0u8; 32]
    );
    let mut id = [0u8; 32];
    for (i, b) in id.iter_mut().enumerate() {
        *b = 255 - i as u8;
    }
    assert_eq!(scalar(ScalarKind::Fixed32, ScalarValue::Fixed32(id)), id);
}

#[test]
fn discriminants_are_sixteen_bits_and_must_be_declared() {
    let kind = || ScalarKind::Discriminant(vec![0, 5, 6, -300]);
    assert_eq!(scalar(kind(), ScalarValue::Discriminant(5)), [5, 0]);
    assert_eq!(
        scalar(kind(), ScalarValue::Discriminant(-300)),
        (-300i16).to_le_bytes()
    );
    // a value that is not declared is refused both ways
    assert!(!check_scalar(&kind(), &ScalarValue::Discriminant(99)));
    let mut out = Vec::new();
    assert_eq!(
        encode_field(
            &mut out,
            &FieldKind::Scalar(kind()),
            false,
            &FieldValue::Scalar(ScalarValue::Discriminant(99))
        )
        .unwrap_err(),
        WireError::TypeMismatch
    );
    assert!(out.is_empty());
    let bytes = 99i16.to_le_bytes();
    assert_eq!(
        read_scalar(&mut RowBinCursor::new(&bytes), &kind()).unwrap_err(),
        WireError::InvalidDiscriminant
    );
    assert_eq!(
        read_scalar(&mut RowBinCursor::new(&[5]), &kind()).unwrap_err(),
        WireError::Underflow
    );
    assert_eq!(
        read_scalar(&mut RowBinCursor::new(&[0, 0]), &ScalarKind::Discriminant(vec![])).unwrap_err(),
        WireError::InvalidDiscriminant
    );
    assert!(ben::wire::value::declares(&[1, 2], 2));
    assert!(!ben::wire::value::declares(&[1, 2], 3));
}

#[test]
fn nullable_fields_start_with_a_presence_byte() {
    let kind = FieldKind::Scalar(ScalarKind::Str);
    // 0: a value follows
    assert_eq!(
        round_trip(
            &kind,
            true,
            &FieldValue::Scalar(ScalarValue::Str("hi".into()))
        ),
        [0, 2, 0, 0, 0, b'h', b'i']
    );
    // 1: none does
    assert_eq!(round_trip(&kind, true, &FieldValue::Null), [1]);
    // any other byte says null too
    let mut cur = RowBinCursor::new(&[7, 2, 0, 0, 0, b'h', b'i']);
    assert!(matches!(
        decode_field(&mut cur, &kind, true),
        Ok(FieldValue::Null)
    ));
    assert_eq!(cur.pos, 1);
    assert_eq!(
        decode_field(&mut RowBinCursor::new(&[]), &kind, true).unwrap_err(),
        WireError::Underflow
    );
    // a field that is not nullable has no presence byte and takes no null
    assert!(!check_field(&kind, false, &FieldValue::Null));
    let mut out = vec![1, 2];
    assert_eq!(
        encode_field(&mut out, &kind, false, &FieldValue::Null).unwrap_err(),
        WireError::TypeMismatch
    );
    assert_eq!(out, vec![1, 2]);
    round_trip(
        &FieldKind::Array(ScalarKind::UInt(Width::W64)),
        true,
        &FieldValue::Array(vec![ScalarValue::UInt(1)]),
    );
    round_trip(
        &FieldKind::StrMap,
        true,
        &FieldValue::StrMap(vec![("k".into(), "v".into())]),
    );
    round_trip(&FieldKind::StrMap, true, &FieldValue::Null);
}

#[test]
fn arrays_carry_their_length_in_eight_bytes() {
    let kind = FieldKind::Array(ScalarKind::Int(Width::W64));
    let bytes = round_trip(
        &kind,
        false,
        &FieldValue::Array(vec![
            ScalarValue::Int(1),
            ScalarValue::Int(2),
            ScalarValue::Int(3),
        ]),
    );
    assert_eq!(bytes.len(), 8 + 24);
    assert_eq!(&bytes[..8], &3u64.to_le_bytes());
    assert_eq!(&bytes[8..16], &1i64.to_le_bytes());
    assert_eq!(
        round_trip(&kind, false, &FieldValue::Array(vec![])),
        0u64.to_le_bytes()
    );
    // a long array
    let many: Vec<ScalarValue> = (0..50_000).map(|i| ScalarValue::UInt(i % 256)).collect();
    let kind8 = FieldKind::Array(ScalarKind::UInt(Width::W8));
    let mut out = Vec::new();
    encode_field(&mut out, &kind8, false, &FieldValue::Array(many)).unwrap();
    assert_eq!(out.len(), 8 + 50_000);
    match decode_field(&mut RowBinCursor::new(&out), &kind8, false).unwrap() {
        FieldValue::Array(items) => {
            assert_eq!(items.len(), 50_000);
            assert!(matches!(items[49_999], ScalarValue::UInt(79)));
        }
        other => panic!("expected an array, got {other:?}"),
    }
    // strings in an array
    round_trip(
        &FieldKind::Array(ScalarKind::Str),
        false,
        &FieldValue::Array(vec![
            ScalarValue::Str("".into()),
            ScalarValue::Str("a".into()),
            ScalarValue::Str("\u{e9}".into()),
        ]),
    );
    // a length that the buffer does not hold
    let lying = u64::MAX.to_le_bytes();
    assert_eq!(
        decode_field(&mut RowBinCursor::new(&lying), &kind, false).unwrap_err(),
        WireError::Underflow
    );
    // one item of another kind spoils the array, and nothing is written
    let mut out = Vec::new();
    assert_eq!(
        encode_field(
            &mut out,
            &kind,
            false,
            &FieldValue::Array(vec![ScalarValue::Int(1), ScalarValue::UInt(2)])
        )
        .unwrap_err(),
        WireError::TypeMismatch
    );
    assert!(out.is_empty());
}

#[test]
fn maps_keep_the_order_of_their_pairs() {
    let pairs = vec![
        ("z".to_string(), "1".to_string()),
        ("a".to_string(), "".to_string()),
        ("z".to_string(), "2".to_string()),
    ];
    let bytes = round_trip(&FieldKind::StrMap, false, &FieldValue::StrMap(pairs));
    assert_eq!(&bytes[..8], &3u64.to_le_bytes());
    assert_eq!(&bytes[8..13], &[1, 0, 0, 0, b'z']);
    assert_eq!(&bytes[13..18], &[1, 0, 0, 0, b'1']);
    assert_eq!(&bytes[18..23], &[1, 0, 0, 0, b'a']);
    assert_eq!(&bytes[23..27], &[0, 0, 0, 0]);
    assert_eq!(
        round_trip(&FieldKind::StrMap, false, &FieldValue::StrMap(vec![])),
        0u64.to_le_bytes()
    );
    // the same pairs in another order are other bytes
    let mut a = Vec::new();
    let mut b = Vec::new();
    encode_field(
        &mut a,
        &FieldKind::StrMap,
        false,
        &FieldValue::StrMap(vec![("k".into(), "v".into()), ("l".into(), "w".into())]),
    )
    .unwrap();
    encode_field(
        &mut b,
        &FieldKind::StrMap,
        false,
        &FieldValue::StrMap(vec![("l".into(), "w".into()), ("k".into(), "v".into())]),
    )
    .unwrap();
    assert_ne!(a, b);
    // a value that is not UTF-8
    let mut bad = 1u64.to_le_bytes().to_vec();
    bad.extend_from_slice(&[1, 0, 0, 0, b'k', 1, 0, 0, 0, 0xFF]);
    assert_eq!(
        decode_field(&mut RowBinCursor::new(&bad), &FieldKind::StrMap, false).unwrap_err(),
        WireError::Utf8Error
    );
}

#[test]
fn values_of_another_kind_are_refused() {
    let cases: Vec<(FieldKind, FieldValue)> = vec![
        (
            FieldKind::Scalar(ScalarKind::UInt(Width::W8)),
            FieldValue::Scalar(ScalarValue::UInt(256)),
        ),
        (
            FieldKind::Scalar(ScalarKind::UInt(Width::W16)),
            FieldValue::Scalar(ScalarValue::UInt(65536)),
        ),
        (
            FieldKind::Scalar(ScalarKind::UInt(Width::W32)),
            FieldValue::Scalar(ScalarValue::UInt(1 << 32)),
        ),
        (
            FieldKind::Scalar(ScalarKind::Int(Width::W8)),
            FieldValue::Scalar(ScalarValue::Int(128)),
        ),
        (
            FieldKind::Scalar(ScalarKind::Int(Width::W8)),
            FieldValue::Scalar(ScalarValue::Int(-129)),
        ),
        (
            FieldKind::Scalar(ScalarKind::Int(Width::W16)),
            FieldValue::Scalar(ScalarValue::Int(32768)),
        ),
        (
            FieldKind::Scalar(ScalarKind::Int(Width::W32)),
            FieldValue::Scalar(ScalarValue::Int(i32::MIN as i64 - 1)),
        ),
        (
            FieldKind::Scalar(ScalarKind::UInt(Width::W64)),
            FieldValue::Scalar(ScalarValue::Int(1)),
        ),
        (
            FieldKind::Scalar(ScalarKind::Bool),
            FieldValue::Scalar(ScalarValue::UInt(1)),
        ),
        (
            FieldKind::Scalar(ScalarKind::Str),
            FieldValue::Scalar(ScalarValue::Fixed16([0; 16])),
        ),
        (
            FieldKind::Scalar(ScalarKind::Fixed16),
            FieldValue::Scalar(ScalarValue::Fixed32([0; 32])),
        ),
        (
            FieldKind::Scalar(ScalarKind::Float64),
            FieldValue::Scalar(ScalarValue::UInt128(0)),
        ),
        (
            FieldKind::Scalar(ScalarKind::Str),
            FieldValue::Array(vec![]),
        ),
        (
            FieldKind::Array(ScalarKind::Str),
            FieldValue::Scalar(ScalarValue::Str("x".into())),
        ),
        (FieldKind::StrMap, FieldValue::Array(vec![])),
        (FieldKind::Array(ScalarKind::Str), FieldValue::StrMap(vec![])),
    ];
    for (kind, v) in &cases {
        for nullable in [false, true] {
            assert!(!check_field(kind, nullable, v), "{v:?} in {kind:?}");
            let mut out = vec![7];
            assert_eq!(
                encode_field(&mut out, kind, nullable, v).unwrap_err(),
                WireError::TypeMismatch
            );
            assert_eq!(out, vec![7]);
        }
    }
}

#[test]
fn scalars_are_written_and_read_alone() {
    let mut out = Vec::new();
    write_scalar(
        &mut out,
        &ScalarKind::UInt(Width::W16),
        &ScalarValue::UInt(0x0102),
    );
    write_scalar(&mut out, &ScalarKind::Bool, &ScalarValue::Bool(true));
    assert_eq!(out, vec![2, 1, 1]);
    let mut cur = RowBinCursor::new(&out);
    assert!(matches!(
        read_scalar(&mut cur, &ScalarKind::UInt(Width::W16)),
        Ok(ScalarValue::UInt(0x0102))
    ));
    assert!(matches!(
        read_scalar(&mut cur, &ScalarKind::Bool),
        Ok(ScalarValue::Bool(true))
    ));
    assert_eq!(
        read_scalar(&mut cur, &ScalarKind::Bool).unwrap_err(),
        WireError::Underflow
    );
}

fn field(name: &str, kind: FieldKind, nullable: bool) -> FieldDescriptor {
    FieldDescriptor {
        name: name.to_string(),
        kind,
        nullable,
        default: None,
    }
}

fn super_event() -> EventSchema {
    EventSchema {
        table: "super_event".into(),
        version: 9,
        fingerprint: "sha256:00".into(),
        fields: vec![
            field("id", FieldKind::Scalar(ScalarKind::UInt(Width::W64)), false),
            field("kind", FieldKind::Scalar(ScalarKind::Str), false),
            field("note", FieldKind::Scalar(ScalarKind::Str), true),
            field("values", FieldKind::Array(ScalarKind::Int(Width::W64)), false),
            field("info", FieldKind::StrMap, false),
            field(
                "danger",
                FieldKind::Scalar(ScalarKind::Discriminant(vec![2, 3, 6])),
                false,
            ),
            field("ts", FieldKind::Scalar(ScalarKind::UInt(Width::W64)), false),
            field("flag", FieldKind::Scalar(ScalarKind::Bool), false),
        ],
        evt_hash: [0x5A; 32],
    }
}

fn super_row() -> Vec<FieldValue> {
    vec![
        FieldValue::Scalar(ScalarValue::UInt(10)),
        FieldValue::Scalar(ScalarValue::Str("alpha".into())),
        FieldValue::Scalar(ScalarValue::Str("hello".into())),
        FieldValue::Array(vec![
            ScalarValue::Int(1),
            ScalarValue::Int(2),
            ScalarValue::Int(3),
        ]),
        FieldValue::StrMap(vec![("k".into(), "v".into())]),
        FieldValue::Scalar(ScalarValue::Discriminant(6)),
        FieldValue::Scalar(ScalarValue::UInt(987654321)),
        FieldValue::Scalar(ScalarValue::Bool(true)),
    ]
}

fn same_row(a: &[FieldValue], b: &[FieldValue]) -> bool {
    a.len() == b.len() && a.iter().zip(b).all(|(x, y)| same_field(x, y))
}

#[test]
fn rows_round_trip() {
    let schema = super_event();
    let row = super_row();
    assert!(schema.check_row(&row));
    assert_eq!(schema.field_count(), 8);
    let mut out = Vec::new();
    schema.encode_row(&mut out, &row).unwrap();
    assert!(out.len() > 40);
    assert_eq!(&out[..8], &10u64.to_le_bytes());
    let mut cur = RowBinCursor::new(&out);
    let back = schema.decode_row(&mut cur).unwrap();
    assert!(same_row(&back, &row));
    assert_eq!(cur.pos, out.len());
    // a null in the nullable field
    let mut with_null = super_row();
    with_null[2] = FieldValue::Null;
    let mut out = Vec::new();
    schema.encode_row(&mut out, &with_null).unwrap();
    let back = schema.decode_row(&mut RowBinCursor::new(&out)).unwrap();
    assert!(same_row(&back, &with_null));
    // cut short, the row fails and no part of it comes back
    for cut in 0..out.len() {
        assert!(schema.decode_row(&mut RowBinCursor::new(&out[..cut])).is_err());
    }
}

#[test]
fn rows_that_do_not_fit_are_refused() {
    let schema = super_event();
    let mut short = super_row();
    short.pop();
    assert!(!schema.check_row(&short));
    let mut out = vec![1];
    assert_eq!(
        schema.encode_row(&mut out, &short).unwrap_err(),
        WireError::TypeMismatch
    );
    assert_eq!(out, vec![1]);
    let mut wrong = super_row();
    wrong[7] = FieldValue::Null;
    assert_eq!(
        schema.encode_row(&mut out, &wrong).unwrap_err(),
        WireError::TypeMismatch
    );
    assert_eq!(
        schema.encode_quic(&mut out, &wrong).unwrap_err(),
        WireError::TypeMismatch
    );
    assert_eq!(
        schema.encode_frame(&mut out, 1, &wrong).unwrap_err(),
        WireError::TypeMismatch
    );
    assert_eq!(out, vec![1]);
    let mut undeclared = super_row();
    undeclared[5] = FieldValue::Scalar(ScalarValue::Discriminant(4));
    assert_eq!(
        schema.encode_row(&mut out, &undeclared).unwrap_err(),
        WireError::TypeMismatch
    );
}

#[test]
fn short_frames_round_trip_and_are_checked_before_the_payload() {
    let schema = super_event();
    let row = super_row();
    let mut frame = Vec::new();
    schema.encode_quic(&mut frame, &row).unwrap();
    assert_eq!(&frame[..32], &[0x5A; 32]);
    assert_eq!(u16::from_le_bytes([frame[32], frame[33]]), 8);
    let mut payload = Vec::new();
    schema.encode_row(&mut payload, &row).unwrap();
    assert_eq!(&frame[34..], &payload[..]);
    assert!(same_row(&schema.decode_quic(&frame).unwrap(), &row));

    assert_eq!(
        schema.decode_quic(&frame[..33]).unwrap_err(),
        WireError::ShortFrame
    );
    let mut other = frame.clone();
    other[31] = 0;
    assert_eq!(
        schema.decode_quic(&other).unwrap_err(),
        WireError::EvtHashMismatch
    );
    let mut other = frame.clone();
    other[32] = 7;
    // the payload is garbage as well, but the count is what is reported
    other.truncate(36);
    assert_eq!(
        schema.decode_quic(&other).unwrap_err(),
        WireError::FieldCountMismatch
    );
    assert_eq!(
        schema.decode_quic(&frame[..40]).unwrap_err(),
        WireError::Underflow
    );
}

#[test]
fn full_frames_round_trip_and_are_checked_before_the_payload() {
    let schema = super_event();
    let row = super_row();
    let mut frame = Vec::new();
    schema.encode_frame(&mut frame, 123456, &row).unwrap();
    let env = Envelope::parse(&frame).unwrap();
    assert_eq!(env.evt_hash, [0x5A; 32]);
    assert_eq!(env.epoch, 123456);
    assert_eq!(env.field_count, 8);
    let (epoch, back) = schema.decode_frame(&frame).unwrap();
    assert_eq!(epoch, 123456);
    assert!(same_row(&back, &row));

    assert_eq!(
        schema.decode_frame(&frame[..42]).unwrap_err(),
        WireError::ShortFrame
    );
    let mut other = frame.clone();
    other[40] = 3;
    assert_eq!(
        schema.decode_frame(&other).unwrap_err(),
        WireError::UnknownEncoding
    );
    let mut other = frame.clone();
    other[0] = 0;
    other[41] = 0;
    assert_eq!(
        schema.decode_frame(&other).unwrap_err(),
        WireError::EvtHashMismatch
    );
    let mut other = frame.clone();
    other[41] = 9;
    assert_eq!(
        schema.decode_frame(&other).unwrap_err(),
        WireError::FieldCountMismatch
    );
    assert_eq!(
        schema.decode_frame(&frame[..50]).unwrap_err(),
        WireError::Underflow
    );
}

#[test]
fn an_event_without_fields() {
    let schema = EventSchema {
        table: "empty".into(),
        version: 1,
        fingerprint: String::new(),
        fields: vec![],
        evt_hash: [0; 32],
    };
    assert_eq!(schema.field_count(), 0);
    assert!(schema.check_row(&[]));
    let mut out = Vec::new();
    schema.encode_quic(&mut out, &[]).unwrap();
    assert_eq!(out, vec![0u8; 34]);
    assert!(schema.decode_quic(&out).unwrap().is_empty());
    assert!(schema
        .decode_row(&mut RowBinCursor::new(&[1, 2, 3]))
        .unwrap()
        .is_empty());
}

use ben::num::Float64;
use ben::wire::envelope::{Encoding, Envelope};
use ben::wire::error::WireError;
use ben::wire::ch_binary::{write_str, write_uvarint};
use ben::wire::rowbinary::{
    DecodeQuic, write_bool, write_datetime64, write_f64, write_i64, write_ipv4, write_ipv6, write_string,
    write_u64, write_uuid, EncodeQuic, RowBinCursor, RowBinaryDecode, RowBinaryEncode,
    RowBinaryResult,
};

#[derive(Debug, PartialEq)]
struct TestEvent {
    a: u64,
    b: bool,
    c: String,
    d: i64,
    e: f64,
    ipv4: u32,
    ipv6: u128,
    dt_epoch: i64,
    dt_scale: u32,
    uuid: [u8; 16],
}

impl RowBinaryEncode for TestEvent {
    fn encode_rowbinary(&self, out: &mut Vec<u8>) -> RowBinaryResult {
        write_u64(out, self.a);
        write_bool(out, self.b);
        write_string(out, &self.c)?;
        write_i64(out, self.d);
        write_f64(out, Float64::from_bits(self.e.to_bits()));
        write_ipv4(out, self.ipv4);
        write_ipv6(out, self.ipv6);
        write_datetime64(out, self.dt_epoch, self.dt_scale);
        write_uuid(out, &self.uuid);
        Ok(())
    }
}

impl RowBinaryDecode for TestEvent {
    const EVT_HASH: [u8; 32] = *b"12345678901234567890123456789012";
    const FIELD_COUNT: u16 = 10;

    fn from_rowbinary(cur: &mut RowBinCursor<'_>) -> Result<Self, WireError> {
        let a = cur.read_u64()?;
        let b = cur.read_bool()?;
        let c = cur.read_string()?;
        let d = cur.read_i64()?;
        let e = f64::from_bits(cur.read_f64()?.to_bits());
        let ipv4 = cur.read_ipv4()?;
        let ipv6 = cur.read_ipv6()?;

        let (dt_epoch, dt_scale) = cur.read_datetime64()?;
        let uuid = cur.read_uuid()?;

        Ok(Self {
            a,
            b,
            c,
            d,
            e,
            ipv4,
            ipv6,
            dt_epoch,
            dt_scale,
            uuid,
        })
    }
}

fn make_event() -> TestEvent {
    TestEvent {
        a: 999,
        b: true,
        c: "hello-world".into(),
        d: -1234567,
        e: 3.14159,
        ipv4: 0x0A0B0C0D,
        ipv6: 0x11223344556677889900AABBCCDDEEFF_u128,
        dt_epoch: 1700000000,
        dt_scale: 3,
        uuid: [
            0x01, 0x02, 0x03, 0x04, 0x05, 0x06, 0x07, 0x08, 0x09, 0x0A, 0x0B, 0x0C, 0x0D, 0x0E,
            0x0F, 0x10,
        ],
    }
}

#[test]
fn test_rowbinary_roundtrip() {
    let evt = make_event();

    let mut buf = Vec::new();
    evt.encode_rowbinary(&mut buf).unwrap();

    let mut cur = RowBinCursor { buf: &buf, pos: 0 };
    let decoded = TestEvent::from_rowbinary(&mut cur).unwrap();

    assert_eq!(evt, decoded);
}

#[test]
fn test_truncated_decode_fails() {
    let evt = make_event();

    let mut buf = Vec::new();
    evt.encode_rowbinary(&mut buf).unwrap();

    let truncated = &buf[..5];

    let mut cur = RowBinCursor {
        buf: truncated,
        pos: 0,
    };

    let err = TestEvent::from_rowbinary(&mut cur).unwrap_err();
    assert!(err.to_string().contains("buffer underflow"));
}

#[test]
fn test_string_encoding() {
    let evt = TestEvent {
        c: "\u{1F525} unicode ok".into(),
        ..make_event()
    };

    let mut buf = Vec::new();
    evt.encode_rowbinary(&mut buf).unwrap();

    let mut cur = RowBinCursor { buf: &buf, pos: 0 };
    let decoded = TestEvent::from_rowbinary(&mut cur).unwrap();

    assert_eq!(decoded.c, "\u{1F525} unicode ok");
}

#[test]
fn test_envelope_roundtrip() {
    let evt = make_event();

    let mut payload = Vec::new();
    evt.encode_rowbinary(&mut payload).unwrap();

    let epoch = 123456;

    let mut outer = Vec::new();
    ben::wire::envelope::Envelope::write_rowbinary_header(
        &mut outer,
        TestEvent::EVT_HASH,
        epoch,
        TestEvent::FIELD_COUNT,
    );
    outer.extend_from_slice(&payload);

    // parse envelope
    let env = Envelope::parse(&outer).unwrap();

    assert_eq!(env.evt_hash, TestEvent::EVT_HASH);
    assert_eq!(env.epoch, epoch);
    assert_eq!(env.encoding as u8, Encoding::RowBinary as u8);
    assert_eq!(env.encoding.tag(), Encoding::RowBinary.tag());
    assert_eq!(env.encoding.tag(), 2);
    assert_eq!(env.field_count, TestEvent::FIELD_COUNT);
    assert_eq!(env.payload, payload.as_slice());
}

#[test]
fn test_quic_encoding() {
    struct Q(TestEvent);
    impl RowBinaryEncode for Q {
        fn encode_rowbinary(&self, out: &mut Vec<u8>) -> RowBinaryResult {
            self.0.encode_rowbinary(out)
        }
    }

    impl ben::wire::rowbinary::EncodeQuic for Q {
        const EVT_HASH: [u8; 32] = TestEvent::EVT_HASH;
        const FIELD_COUNT: u16 = TestEvent::FIELD_COUNT;
    }

    let evt = Q(make_event());

    let mut regular = Vec::new();
    evt.0.encode_rowbinary(&mut regular).unwrap();

    let mut quic = Vec::new();
    evt.encode_quic(&mut quic).unwrap();

    assert_eq!(
        quic,
        [
            &TestEvent::EVT_HASH[..],
            &TestEvent::FIELD_COUNT.to_le_bytes(),
            &regular[..]
        ]
        .concat()
    );
}

#[test]
fn cursor_starts_at_zero_and_counts_what_is_left() {
    let buf = [1u8, 2, 3];
    let mut cur = RowBinCursor::new(&buf);
    assert_eq!(cur.pos, 0);
    assert_eq!(cur.remaining(), 3);
    assert_eq!(cur.take(2).unwrap(), &[1u8, 2][..]);
    assert_eq!(cur.pos, 2);
    assert_eq!(cur.remaining(), 1);
    assert_eq!(cur.take(2).unwrap_err(), WireError::Underflow);
    // a failed take leaves the cursor where it is
    assert_eq!(cur.pos, 2);
    assert_eq!(cur.take(0).unwrap(), &[][..]);
    assert_eq!(cur.take(1).unwrap(), &[3u8][..]);
    assert_eq!(cur.remaining(), 0);
    assert_eq!(cur.read_u8().unwrap_err(), WireError::Underflow);
}

#[test]
fn cursor_behind_the_end_has_nothing_left() {
    let buf = [1u8, 2, 3];
    let mut cur = RowBinCursor { buf: &buf, pos: 7 };
    assert_eq!(cur.remaining(), 0);
    assert_eq!(cur.take(1).unwrap_err(), WireError::Underflow);
    assert_eq!(cur.take(0).unwrap(), &[][..]);
    assert_eq!(cur.pos, 7);
}

#[test]
fn integers_are_little_endian() {
    let mut out = Vec::new();
    write_u64(&mut out, 0x0102030405060708);
    assert_eq!(out, vec![8, 7, 6, 5, 4, 3, 2, 1]);
    assert_eq!(out, 0x0102030405060708u64.to_le_bytes());

    let mut out = Vec::new();
    write_i64(&mut out, -2);
    assert_eq!(out, (-2i64).to_le_bytes());
    let mut cur = RowBinCursor::new(&out);
    assert_eq!(cur.read_i64().unwrap(), -2);

    let mut out = Vec::new();
    ben::wire::rowbinary::write_i16(&mut out, -300);
    assert_eq!(out, (-300i16).to_le_bytes());
    let mut cur = RowBinCursor::new(&out);
    assert_eq!(cur.read_i16().unwrap(), -300);

    let mut out = Vec::new();
    ben::wire::rowbinary::write_u32(&mut out, 0xDEADBEEF);
    ben::wire::rowbinary::write_u16(&mut out, 0xBEEF);
    ben::wire::rowbinary::write_u8(&mut out, 0x7F);
    ben::wire::rowbinary::write_u128(&mut out, u128::MAX - 1);
    assert_eq!(&out[..4], &0xDEADBEEFu32.to_le_bytes());
    assert_eq!(&out[4..6], &0xBEEFu16.to_le_bytes());
    assert_eq!(out[6], 0x7F);
    assert_eq!(&out[7..], &(u128::MAX - 1).to_le_bytes());
    let mut cur = RowBinCursor::new(&out);
    assert_eq!(cur.read_u32().unwrap(), 0xDEADBEEF);
    assert_eq!(cur.take(2).unwrap(), &0xBEEFu16.to_le_bytes());
    assert_eq!(cur.read_u8().unwrap(), 0x7F);
    assert_eq!(cur.read_ipv6().unwrap(), u128::MAX - 1);
}

#[test]
fn integer_boundaries_round_trip() {
    for v in [0u64, 1, 255, 256, u64::MAX - 1, u64::MAX] {
        let mut out = Vec::new();
        write_u64(&mut out, v);
        assert_eq!(out, v.to_le_bytes());
        assert_eq!(RowBinCursor::new(&out).read_u64().unwrap(), v);
    }
    for v in [i64::MIN, i64::MIN + 1, -1, 0, 1, i64::MAX] {
        let mut out = Vec::new();
        write_i64(&mut out, v);
        assert_eq!(out, v.to_le_bytes());
        assert_eq!(RowBinCursor::new(&out).read_i64().unwrap(), v);
    }
    for v in [i16::MIN, -129, -128, -1, 0, 127, 128, i16::MAX] {
        let mut out = Vec::new();
        ben::wire::rowbinary::write_i16(&mut out, v);
        assert_eq!(out, v.to_le_bytes());
        assert_eq!(RowBinCursor::new(&out).read_i16().unwrap(), v);
    }
    for v in [0u32, 1, u32::MAX] {
        let mut out = Vec::new();
        write_ipv4(&mut out, v);
        assert_eq!(out, v.to_le_bytes());
        assert_eq!(RowBinCursor::new(&out).read_ipv4().unwrap(), v);
    }
    for v in [0u128, 1, u128::MAX] {
        let mut out = Vec::new();
        write_ipv6(&mut out, v);
        assert_eq!(out, v.to_le_bytes());
        assert_eq!(RowBinCursor::new(&out).read_ipv6().unwrap(), v);
    }
}

#[test]
fn floats_travel_as_bit_patterns() {
    for x in [0.0f64, -0.0, 1.5, -3.14159, f64::MAX, f64::MIN_POSITIVE, f64::INFINITY, f64::NAN] {
        let mut out = Vec::new();
        write_f64(&mut out, Float64::from_bits(x.to_bits()));
        assert_eq!(out, x.to_bits().to_le_bytes());
        let back = RowBinCursor::new(&out).read_f64().unwrap();
        assert_eq!(back.to_bits(), x.to_bits());
    }
}

#[test]
fn booleans_are_one_byte_and_any_nonzero_byte_is_true() {
    let mut out = Vec::new();
    write_bool(&mut out, true);
    write_bool(&mut out, false);
    assert_eq!(out, vec![1, 0]);
    assert!(RowBinCursor::new(&[1]).read_bool().unwrap());
    assert!(!RowBinCursor::new(&[0]).read_bool().unwrap());
    assert!(RowBinCursor::new(&[2]).read_bool().unwrap());
    assert!(RowBinCursor::new(&[0xFF]).read_bool().unwrap());
    assert_eq!(
        RowBinCursor::new(&[]).read_bool().unwrap_err(),
        WireError::Underflow
    );
}

#[test]
fn strings_carry_their_length_in_bytes() {
    let mut out = Vec::new();
    write_string(&mut out, "h\u{e9}").unwrap();
    // two characters, three bytes
    assert_eq!(out, vec![3, 0, 0, 0, b'h', 0xC3, 0xA9]);
    let mut cur = RowBinCursor::new(&out);
    assert_eq!(cur.read_string().unwrap(), "h\u{e9}");
    assert_eq!(cur.pos, 7);

    let mut out = Vec::new();
    write_string(&mut out, "").unwrap();
    assert_eq!(out, vec![0, 0, 0, 0]);
    assert_eq!(RowBinCursor::new(&out).read_string().unwrap(), "");
}

#[test]
fn string_errors() {
    // no room for the length
    let mut cur = RowBinCursor::new(&[5, 0, 0]);
    assert_eq!(cur.read_string().unwrap_err(), WireError::Underflow);
    assert_eq!(cur.pos, 0);
    // the length says more than there is
    let mut cur = RowBinCursor::new(&[5, 0, 0, 0, b'a', b'b']);
    assert_eq!(cur.read_string().unwrap_err(), WireError::Underflow);
    assert_eq!(cur.pos, 4);
    // not UTF-8
    let mut cur = RowBinCursor::new(&[2, 0, 0, 0, 0xFF, 0xFE]);
    assert_eq!(cur.read_string().unwrap_err(), WireError::Utf8Error);
    assert_eq!(cur.pos, 6);
    // a surrogate is not UTF-8 either
    let mut cur = RowBinCursor::new(&[3, 0, 0, 0, 0xED, 0xA0, 0x80]);
    assert_eq!(cur.read_string().unwrap_err(), WireError::Utf8Error);
}

#[test]
fn datetime64_and_uuid() {
    let mut out = Vec::new();
    write_datetime64(&mut out, -5, 9);
    assert_eq!(out.len(), 12);
    assert_eq!(&out[..8], &(-5i64).to_le_bytes());
    assert_eq!(&out[8..], &9u32.to_le_bytes());
    let mut cur = RowBinCursor::new(&out);
    assert_eq!(cur.read_datetime64().unwrap(), (-5, 9));
    // the epoch is read before the scale is missed
    let mut cur = RowBinCursor::new(&out[..10]);
    assert_eq!(cur.read_datetime64().unwrap_err(), WireError::Underflow);
    assert_eq!(cur.pos, 8);
    let mut cur = RowBinCursor::new(&out[..5]);
    assert_eq!(cur.read_datetime64().unwrap_err(), WireError::Underflow);
    assert_eq!(cur.pos, 0);

    let id = [0u8; 16];
    let mut out = Vec::new();
    write_uuid(&mut out, &id);
    assert_eq!(out, vec![0u8; 16]);
    assert_eq!(RowBinCursor::new(&out).read_uuid().unwrap(), id);
    assert_eq!(
        RowBinCursor::new(&out[..15]).read_uuid().unwrap_err(),
        WireError::Underflow
    );
}

#[test]
fn option_presence_byte_is_zero_for_a_value_and_one_for_none() {
    let mut out = Vec::new();
    Some(7u64).encode_rowbinary(&mut out).unwrap();
    assert_eq!(out, vec![0, 7, 0, 0, 0, 0, 0, 0, 0]);
    let mut cur = RowBinCursor::new(&out);
    assert_eq!(Option::<u64>::from_rowbinary(&mut cur).unwrap(), Some(7));
    assert_eq!(cur.pos, 9);

    let mut out = Vec::new();
    None::<u64>.encode_rowbinary(&mut out).unwrap();
    assert_eq!(out, vec![1]);
    let mut cur = RowBinCursor::new(&out);
    assert_eq!(Option::<u64>::from_rowbinary(&mut cur).unwrap(), None);
    assert_eq!(cur.pos, 1);

    // any other byte says none as well
    let mut cur = RowBinCursor::new(&[9, 7, 0, 0, 0, 0, 0, 0, 0]);
    assert_eq!(Option::<u64>::from_rowbinary(&mut cur).unwrap(), None);
    let mut cur = RowBinCursor::new(&[]);
    assert_eq!(
        Option::<u64>::from_rowbinary(&mut cur).unwrap_err(),
        WireError::Underflow
    );
    let mut cur = RowBinCursor::new(&[0, 1, 2]);
    assert_eq!(
        Option::<u64>::from_rowbinary(&mut cur).unwrap_err(),
        WireError::Underflow
    );
}

#[test]
fn vectors_carry_their_length_in_eight_bytes() {
    let v: Vec<u64> = vec![1, 2, 3];
    let mut out = Vec::new();
    v.encode_rowbinary(&mut out).unwrap();
    assert_eq!(out.len(), 8 + 3 * 8);
    assert_eq!(&out[..8], &3u64.to_le_bytes());
    assert_eq!(&out[8..16], &1u64.to_le_bytes());
    let mut cur = RowBinCursor::new(&out);
    assert_eq!(Vec::<u64>::from_rowbinary(&mut cur).unwrap(), v);

    let empty: Vec<u64> = vec![];
    let mut out = Vec::new();
    empty.encode_rowbinary(&mut out).unwrap();
    assert_eq!(out, 0u64.to_le_bytes());
    assert_eq!(
        Vec::<u64>::from_rowbinary(&mut RowBinCursor::new(&out)).unwrap(),
        empty
    );

    // a length that the buffer does not hold fails, and nothing is set aside for it
    let mut lying = u64::MAX.to_le_bytes().to_vec();
    lying.extend_from_slice(&1u64.to_le_bytes());
    assert_eq!(
        Vec::<u64>::from_rowbinary(&mut RowBinCursor::new(&lying)).unwrap_err(),
        WireError::Underflow
    );

    let nested: Vec<Option<u64>> = vec![Some(1), None];
    let mut out = Vec::new();
    nested.encode_rowbinary(&mut out).unwrap();
    assert_eq!(
        Vec::<Option<u64>>::from_rowbinary(&mut RowBinCursor::new(&out)).unwrap(),
        nested
    );
    assert_eq!(<u64 as RowBinaryDecode>::FIELD_COUNT, 1);
    assert_eq!(<u64 as RowBinaryDecode>::EVT_HASH, [0u8; 32]);
    assert_eq!(<Vec<u64> as RowBinaryDecode>::FIELD_COUNT, 1);
}

#[derive(Debug, PartialEq)]
struct Framed(TestEvent);

impl RowBinaryEncode for Framed {
    fn encode_rowbinary(&self, out: &mut Vec<u8>) -> RowBinaryResult {
        self.0.encode_rowbinary(out)
    }
}

impl RowBinaryDecode for Framed {
    const EVT_HASH: [u8; 32] = *b"12345678901234567890123456789012";
    const FIELD_COUNT: u16 = 10;

    fn from_rowbinary(cur: &mut RowBinCursor<'_>) -> Result<Self, WireError> {
        Ok(Framed(TestEvent::from_rowbinary(cur)?))
    }
}

impl DecodeQuic for Framed {
    const EVT_HASH: [u8; 32] = *b"12345678901234567890123456789012";
    const FIELD_COUNT: u16 = 10;
}

impl EncodeQuic for Framed {
    const EVT_HASH: [u8; 32] = *b"12345678901234567890123456789012";
    const FIELD_COUNT: u16 = 10;
}

#[test]
fn quic_frame_round_trip_and_rejection() {
    let evt = Framed(make_event());
    let mut frame = Vec::new();
    evt.encode_quic(&mut frame).unwrap();
    assert_eq!(&frame[..32], b"12345678901234567890123456789012");
    assert_eq!(&frame[32..34], &10u16.to_le_bytes());
    assert_eq!(Framed::decode_quic(&frame).unwrap(), evt);

    // too short
    assert_eq!(
        Framed::decode_quic(&frame[..33]).unwrap_err(),
        WireError::ShortFrame
    );
    // another hash
    let mut other = frame.clone();
    other[0] ^= 1;
    assert_eq!(
        Framed::decode_quic(&other).unwrap_err(),
        WireError::EvtHashMismatch
    );
    // another field count
    let mut other = frame.clone();
    other[32] = 9;
    assert_eq!(
        Framed::decode_quic(&other).unwrap_err(),
        WireError::FieldCountMismatch
    );
    // both wrong: the hash is looked at first
    other[0] ^= 1;
    assert_eq!(
        Framed::decode_quic(&other).unwrap_err(),
        WireError::EvtHashMismatch
    );
    // header only: the payload is missing
    assert_eq!(
        Framed::decode_quic(&frame[..34]).unwrap_err(),
        WireError::Underflow
    );
}

#[test]
fn lists_and_options_come_back_with_the_cursor_behind_them() {
    let v: Vec<u64> = vec![0, 1, u64::MAX, 0x0102030405060708];
    let mut out = vec![0xAA];
    v.encode_rowbinary(&mut out).unwrap();
    let mut expected = vec![0xAA];
    expected.extend_from_slice(&4u64.to_le_bytes());
    expected.extend_from_slice(&0u64.to_le_bytes());
    expected.extend_from_slice(&1u64.to_le_bytes());
    expected.extend_from_slice(&u64::MAX.to_le_bytes());
    expected.extend_from_slice(&[8, 7, 6, 5, 4, 3, 2, 1]);
    assert_eq!(out, expected);
    out.extend_from_slice(&[0xBB, 0xCC]);
    let mut cur = RowBinCursor::new(&out);
    cur.pos = 1;
    assert_eq!(Vec::<u64>::from_rowbinary(&mut cur).unwrap(), v);
    assert_eq!(cur.pos, 1 + 8 + 4 * 8);
    assert_eq!(cur.buf, &out[..]);

    // no item: the count alone, and the cursor stands behind it
    let mut out = vec![];
    Vec::<u64>::new().encode_rowbinary(&mut out).unwrap();
    assert_eq!(out, vec![0; 8]);
    out.push(5);
    let mut cur = RowBinCursor::new(&out);
    assert_eq!(Vec::<u64>::from_rowbinary(&mut cur).unwrap(), vec![]);
    assert_eq!(cur.pos, 8);

    // an item that fails ends the reading where it stood
    let mut short = 2u64.to_le_bytes().to_vec();
    short.extend_from_slice(&9u64.to_le_bytes());
    short.extend_from_slice(&[1, 2, 3]);
    let mut cur = RowBinCursor::new(&short);
    assert_eq!(
        Vec::<u64>::from_rowbinary(&mut cur).unwrap_err(),
        WireError::Underflow
    );
    assert_eq!(cur.pos, 16);

    for v in [None, Some(0u64), Some(7), Some(u64::MAX)] {
        let mut out = vec![3];
        v.encode_rowbinary(&mut out).unwrap();
        match v {
            None => assert_eq!(out, vec![3, 1]),
            Some(x) => {
                assert_eq!(out.len(), 10);
                assert_eq!(out[1], 0);
                assert_eq!(&out[2..], &x.to_le_bytes());
            }
        }
        let used = out.len();
        out.push(0);
        let mut cur = RowBinCursor::new(&out);
        cur.pos = 1;
        assert_eq!(Option::<u64>::from_rowbinary(&mut cur).unwrap(), v);
        assert_eq!(cur.pos, used);
    }

    let lists: Vec<Vec<Option<u64>>> = vec![vec![], vec![None, Some(3)], vec![Some(0)]];
    let mut out = vec![];
    lists.encode_rowbinary(&mut out).unwrap();
    assert_eq!(out.len(), 8 + 8 + (8 + 1 + 9) + (8 + 9));
    let mut cur = RowBinCursor::new(&out);
    assert_eq!(
        Vec::<Vec<Option<u64>>>::from_rowbinary(&mut cur).unwrap(),
        lists
    );
    assert_eq!(cur.pos, out.len());
}

#[test]
fn a_short_frame_is_the_header_and_the_encoding() {
    let evt = Framed(make_event());
    let mut body = Vec::new();
    evt.encode_rowbinary(&mut body).unwrap();
    let mut frame = vec![0xEE];
    evt.encode_quic(&mut frame).unwrap();
    let mut expected = vec![0xEE];
    expected.extend_from_slice(b"12345678901234567890123456789012");
    expected.extend_from_slice(&10u16.to_le_bytes());
    expected.extend_from_slice(&body);
    assert_eq!(frame, expected);
}

#[test]
fn frame_rejection() {
    // shorter than the header: always a short frame
    for len in 0..43 {
        let buf = vec![2u8; len];
        assert_eq!(Envelope::parse(&buf).unwrap_err(), WireError::ShortFrame);
    }
    // a header with an unknown encoding
    for tag in [0u8, 1, 3, 255] {
        let mut buf = vec![0u8; 43];
        buf[40] = tag;
        assert_eq!(
            Envelope::parse(&buf).unwrap_err(),
            WireError::UnknownEncoding
        );
    }
    // exactly a header: an empty payload
    let mut buf = vec![0u8; 43];
    buf[40] = 2;
    buf[32] = 5;
    buf[41] = 3;
    let env = Envelope::parse(&buf).unwrap();
    assert_eq!(env.epoch, 5);
    assert_eq!(env.field_count, 3);
    assert!(env.payload.is_empty());
    assert_eq!(env.evt_hash, [0u8; 32]);
}

#[test]
fn header_layout_is_bit_exact() {
    let mut hash = [0u8; 32];
    for (i, b) in hash.iter_mut().enumerate() {
        *b = i as u8;
    }
    let mut out = vec![0xEE];
    Envelope::write_rowbinary_header(&mut out, hash, 0x1122334455667788, 0xABCD);
    assert_eq!(out.len(), 1 + 43);
    assert_eq!(out[0], 0xEE);
    assert_eq!(&out[1..33], &hash);
    assert_eq!(&out[33..41], &0x1122334455667788u64.to_le_bytes());
    assert_eq!(out[41], 2);
    assert_eq!(&out[42..44], &0xABCDu16.to_le_bytes());

    let mut out = Vec::new();
    ben::wire::envelope::write_quic_header(&mut out, hash, 0xABCD);
    assert_eq!(out.len(), 34);
    assert_eq!(&out[..32], &hash);
    assert_eq!(&out[32..], &0xABCDu16.to_le_bytes());
    assert_eq!(
        ben::wire::envelope::quic_payload(&out, &hash, 0xABCD).unwrap(),
        &[][..]
    );
    assert!(ben::wire::envelope::hash_eq(&hash, &hash));
    assert!(!ben::wire::envelope::hash_eq(&hash, &[0u8; 32]));
}

#[test]
fn wire_error_texts() {
    assert_eq!(WireError::ShortFrame.to_string(), "short envelope");
    assert_eq!(WireError::Underflow.to_string(), "buffer underflow");
    assert_eq!(WireError::UnknownEncoding.to_string(), "unknown encoding");
    assert!(WireError::Utf8Error.to_string().contains("utf-8"));
    assert!(WireError::InvalidDiscriminant.to_string().contains("enum"));
    assert!(WireError::EvtHashMismatch.to_string().contains("hash"));
    assert!(WireError::FieldCountMismatch.to_string().contains("field count"));
    assert!(WireError::TypeMismatch.to_string().contains("type"));
}

#[test]
fn uvarint_and_prefixed_strings() {
    let enc = |x: usize| {
        let mut out = Vec::new();
        write_uvarint(x, &mut out);
        out
    };
    assert_eq!(enc(0), vec![0]);
    assert_eq!(enc(1), vec![1]);
    assert_eq!(enc(127), vec![0x7F]);
    assert_eq!(enc(128), vec![0x80, 0x01]);
    assert_eq!(enc(300), vec![0xAC, 0x02]);
    assert_eq!(enc(16384), vec![0x80, 0x80, 0x01]);
    let mut out = Vec::new();
    write_str("h\u{e9}", &mut out);
    assert_eq!(out, vec![3, b'h', 0xC3, 0xA9]);
    let long = "x".repeat(200);
    let mut out = Vec::new();
    write_str(&long, &mut out);
    assert_eq!(&out[..2], &[0xC8, 0x01]);
    assert_eq!(out.len(), 202);
}

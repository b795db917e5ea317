//! Tagged rows: each field is one tag byte followed by the fixed-width bytes of its kind.
use vstd::prelude::*;
use crate::num::Float64;
use crate::wire::bytes::{le_bytes, lemma_le_bytes_len, lemma_pow256_values};
use crate::wire::envelope::{header_bytes, Envelope};
use crate::wire::error::WireError;
use crate::wire::rowbinary::{
    bool_bytes, int_bytes, lemma_bool_roundtrip, lemma_bytes_roundtrip,
    lemma_datetime64_roundtrip, lemma_int_roundtrip, lemma_uint_roundtrip, parse_bool,
    parse_bytes, parse_datetime64, parse_int, parse_uint, write_bool, write_datetime64,
    write_f64, write_i64, write_u128, write_u32, write_u64, write_uuid, RowBinCursor,
    RowBinaryResult,
};
use crate::wire::slot::SlotValue;

verus! {

/// The kind of a slot on the wire. The tag byte of a kind is its place in this list, from 0.
#[derive(Clone, Copy, Debug, PartialEq, Eq, Structural)]
pub enum Tag {
    Missing,
    U64,
    I64,
    F64,
    Bool,
    StrId,
    IPv4,
    IPv6,
    DT64,
    Uuid,
}

impl Tag {
    /// The tag byte of the kind.
    pub open spec fn spec_code(self) -> u8 {
        match self {
            Tag::Missing => 0,
            Tag::U64 => 1,
            Tag::I64 => 2,
            Tag::F64 => 3,
            Tag::Bool => 4,
            Tag::StrId => 5,
            Tag::IPv4 => 6,
            Tag::IPv6 => 7,
            Tag::DT64 => 8,
            Tag::Uuid => 9,
        }
    }

    /// The tag byte of the kind.
    pub fn code(&self) -> (c: u8)
        ensures
            c == self.spec_code(),
    {
        match self {
            Tag::Missing => 0,
            Tag::U64 => 1,
            Tag::I64 => 2,
            Tag::F64 => 3,
            Tag::Bool => 4,
            Tag::StrId => 5,
            Tag::IPv4 => 6,
            Tag::IPv6 => 7,
            Tag::DT64 => 8,
            Tag::Uuid => 9,
        }
    }
}

/// The body of a slot after its tag: the value, and how many bytes the body takes.
pub open spec fn parse_slot_body(tag: u8, body: Seq<u8>) -> (
    Result<SlotValue<'static>, WireError>,
    nat,
) {
    if tag == 1 {
        match parse_uint(body, 8).0 {
            Ok(v) => (Ok(SlotValue::U64(v as u64)), 8),
            Err(e) => (Err(e), 0),
        }
    } else if tag == 2 {
        match parse_int(body, 8).0 {
            Ok(v) => (Ok(SlotValue::I64(v as i64)), 8),
            Err(e) => (Err(e), 0),
        }
    } else if tag == 3 {
        match parse_uint(body, 8).0 {
            Ok(v) => (Ok(SlotValue::F64(Float64 { bits: v as u64 })), 8),
            Err(e) => (Err(e), 0),
        }
    } else if tag == 4 {
        match parse_bool(body).0 {
            Ok(v) => (Ok(SlotValue::Bool(v)), 1),
            Err(e) => (Err(e), 0),
        }
    } else if tag == 6 {
        match parse_uint(body, 4).0 {
            Ok(v) => (Ok(SlotValue::IPv4(v as u32)), 4),
            Err(e) => (Err(e), 0),
        }
    } else if tag == 7 {
        match parse_uint(body, 16).0 {
            Ok(v) => (Ok(SlotValue::IPv6(v as u128)), 16),
            Err(e) => (Err(e), 0),
        }
    } else if tag == 8 {
        match parse_datetime64(body).0 {
            Ok(v) => (Ok(SlotValue::DateTime64 { epoch: v.0 as i64, scale: v.1 as u32 }), 12),
            Err(e) => (Err(e), 0),
        }
    } else if tag == 9 {
        match parse_bytes(body, 16).0 {
            Ok(v) => (Ok(SlotValue::Uuid(array_of(v))), 16),
            Err(e) => (Err(e), 0),
        }
    } else {
        (Ok(SlotValue::Missing), 0)
    }
}

/// The array that holds the 16 bytes of a sequence.
pub open spec fn array_of(s: Seq<u8>) -> [u8; 16] {
    choose|a: [u8; 16]| a@ == s
}

/// One slot at the start of `s`: the value, and how many bytes it takes.
/// A tag that names no kind with a body gives `Missing` and takes the tag byte alone.
pub open spec fn parse_slot(s: Seq<u8>) -> (Result<SlotValue<'static>, WireError>, nat) {
    if s.len() < 1 {
        (Err(WireError::Underflow), 0)
    } else {
        let (r, n) = parse_slot_body(s[0], s.skip(1));
        (r, n + 1)
    }
}

/// A row of `fields` slots at the start of `s`, or the first error met.
pub open spec fn parse_row(s: Seq<u8>, fields: nat) -> Result<Seq<SlotValue<'static>>, WireError>
    decreases fields,
{
    if fields == 0 {
        Ok(Seq::empty())
    } else {
        match parse_slot(s) {
            (Ok(v), n) => match parse_row(s.skip(n as int), (fields - 1) as nat) {
                Ok(rest) => Ok(seq![v] + rest),
                Err(e) => Err(e),
            },
            (Err(e), _) => Err(e),
        }
    }
}

/// The slots `prefix`, followed by what `r` holds.
pub open spec fn prepend(
    prefix: Seq<SlotValue<'static>>,
    r: Result<Seq<SlotValue<'static>>, WireError>,
) -> Result<Seq<SlotValue<'static>>, WireError> {
    match r {
        Ok(rest) => Ok(prefix + rest),
        Err(e) => Err(e),
    }
}

/// Whether a decoded row is the one that the model gives, or the same error.
pub open spec fn same_row(
    r: Result<Vec<SlotValue<'_>>, WireError>,
    m: Result<Seq<SlotValue<'static>>, WireError>,
) -> bool {
    match (r, m) {
        (Ok(a), Ok(b)) => a@ == b,
        (Err(a), Err(b)) => a == b,
        _ => false,
    }
}

/// Decodes one slot at the cursor.
fn decode_slot<'a>(cur: &mut RowBinCursor<'a>) -> (r: Result<SlotValue<'a>, WireError>)
    ensures
        match (r, parse_slot(old(cur).rest()).0) {
            (Ok(a), Ok(b)) => a == b,
            (Err(a), Err(b)) => a == b,
            _ => false,
        },
        r is Ok ==> final(cur).rest() == old(cur).rest().skip(parse_slot(old(cur).rest()).1 as int),
{
    let ghost whole = cur.rest();
    let tag: u8 = cur.read_u8()?;
    proof {
        assert(cur.rest() =~= whole.skip(1));
    }
    let ghost body = cur.rest();
    let slot = if tag == 1 {
        SlotValue::U64(cur.read_u64()?)
    } else if tag == 2 {
        SlotValue::I64(cur.read_i64()?)
    } else if tag == 3 {
        SlotValue::F64(cur.read_f64()?)
    } else if tag == 4 {
        SlotValue::Bool(cur.read_bool()?)
    } else if tag == 6 {
        SlotValue::IPv4(cur.read_ipv4()?)
    } else if tag == 7 {
        SlotValue::IPv6(cur.read_ipv6()?)
    } else if tag == 8 {
        let (epoch, scale) = cur.read_datetime64()?;
        SlotValue::DateTime64 { epoch, scale }
    } else if tag == 9 {
        let id = cur.read_uuid()?;
        proof {
            assert(id == array_of(id@)) by {
                let other = array_of(id@);
                assert(other@ == id@);
                assert(other =~= id);
            }
        }
        SlotValue::Uuid(id)
    } else {
        SlotValue::Missing
    };
    proof {
        let n = parse_slot_body(tag, body).1;
        assert(cur.rest() =~= body.skip(n as int));
        assert(body.skip(n as int) =~= whole.skip(n as int + 1));
    }
    Ok(slot)
}

/// Decodes a row of `fields` tagged slots from the start of `p`.
///
/// Fails with `Underflow` where `p` ends inside a slot. Bytes after the last slot are ignored.
pub fn decode_rowpack<'a>(p: &'a [u8], fields: usize) -> (r: Result<Vec<SlotValue<'a>>, WireError>)
    ensures
        same_row(r, parse_row(p@, fields as nat)),
        r is Ok ==> r->Ok_0@.len() == fields,
{
    let mut cur = RowBinCursor::new(p);
    let mut row: Vec<SlotValue<'a>> = Vec::new();
    let mut id: usize = 0;
    proof {
        assert(prepend(row@, parse_row(cur.rest(), fields as nat)) == parse_row(p@, fields as nat)) by {
            match parse_row(p@, fields as nat) {
                Ok(rest) => {
                    assert(row@ + rest =~= rest);
                },
                Err(_) => {},
            }
        }
    }
    while id < fields
        invariant
            id <= fields,
            row@.len() == id,
            prepend(row@, parse_row(cur.rest(), (fields - id) as nat)) == parse_row(
                p@,
                fields as nat,
            ),
        decreases fields - id,
    {
        let ghost before = cur.rest();
        let ghost prefix = row@;
        match decode_slot(&mut cur) {
            Ok(slot) => {
                row.push(slot);
                proof {
                    let n = parse_slot(before).1;
                    match parse_row(before.skip(n as int), (fields - id - 1) as nat) {
                        Ok(rest) => {
                            assert(prefix + (seq![slot] + rest) =~= prefix.push(slot) + rest);
                        },
                        Err(_) => {},
                    }
                }
            },
            Err(e) => {
                return Err(e);
            },
        }
        id = id + 1;
    }
    proof {
        assert(row@ + Seq::<SlotValue<'static>>::empty() =~= row@);
    }
    Ok(row)
}

/// The bytes of one slot: its tag, then the fixed-width bytes of its kind.
/// A string has no tagged form; it is given the bytes of a missing slot here and refused
/// by `write_slot`.
pub open spec fn slot_bytes(v: SlotValue<'_>) -> Seq<u8> {
    match v {
        SlotValue::Missing => seq![0u8],
        SlotValue::U64(x) => seq![1u8] + le_bytes(x as nat, 8),
        SlotValue::I64(x) => seq![2u8] + int_bytes(x as int, 8),
        SlotValue::F64(x) => seq![3u8] + le_bytes(x.bits as nat, 8),
        SlotValue::Bool(x) => seq![4u8] + bool_bytes(x),
        SlotValue::Str(_) => seq![0u8],
        SlotValue::IPv4(x) => seq![6u8] + le_bytes(x as nat, 4),
        SlotValue::IPv6(x) => seq![7u8] + le_bytes(x as nat, 16),
        SlotValue::DateTime64 { epoch, scale } => seq![8u8] + (int_bytes(epoch as int, 8)
            + le_bytes(scale as nat, 4)),
        SlotValue::Uuid(id) => seq![9u8] + id@,
    }
}

/// Appends one tagged slot. A string is refused with `TypeMismatch` and `out` left as it was.
pub fn write_slot(out: &mut Vec<u8>, slot: &SlotValue<'_>) -> (r: RowBinaryResult)
    ensures
        match r {
            Ok(()) => !(slot is Str) && final(out)@ == old(out)@ + slot_bytes(*slot),
            Err(e) => slot is Str && e == WireError::TypeMismatch && final(out)@ == old(out)@,
        },
{
    let ghost before = out@;
    match slot {
        SlotValue::Missing => {
            out.push(Tag::Missing.code());
        },
        SlotValue::U64(x) => {
            out.push(Tag::U64.code());
            write_u64(out, *x);
        },
        SlotValue::I64(x) => {
            out.push(Tag::I64.code());
            write_i64(out, *x);
        },
        SlotValue::F64(x) => {
            out.push(Tag::F64.code());
            write_f64(out, *x);
        },
        SlotValue::Bool(x) => {
            out.push(Tag::Bool.code());
            write_bool(out, *x);
        },
        SlotValue::Str(_) => {
            return Err(WireError::TypeMismatch);
        },
        SlotValue::IPv4(x) => {
            out.push(Tag::IPv4.code());
            write_u32(out, *x);
        },
        SlotValue::IPv6(x) => {
            out.push(Tag::IPv6.code());
            write_u128(out, *x);
        },
        SlotValue::DateTime64 { epoch, scale } => {
            out.push(Tag::DT64.code());
            write_datetime64(out, *epoch, *scale);
        },
        SlotValue::Uuid(id) => {
            out.push(Tag::Uuid.code());
            write_uuid(out, id);
        },
    }
    proof {
        assert(out@ =~= before + slot_bytes(*slot));
    }
    Ok(())
}

/// Decoding a slot from its bytes gives the slot back, whatever follows it.
pub proof fn lemma_slot_roundtrip(v: SlotValue<'static>, tail: Seq<u8>)
    requires
        !(v is Str),
    ensures
        parse_slot(slot_bytes(v) + tail) == (
            Ok::<SlotValue<'static>, WireError>(v),
            slot_bytes(v).len(),
        ),
{
    lemma_pow256_values();
    let s = slot_bytes(v) + tail;
    match v {
        SlotValue::Missing => {},
        SlotValue::U64(x) => {
            lemma_le_bytes_len(x as nat, 8);
            lemma_uint_roundtrip(x as nat, 8, tail);
            assert(s.skip(1) =~= le_bytes(x as nat, 8) + tail);
        },
        SlotValue::I64(x) => {
            lemma_le_bytes_len(crate::wire::bytes::unsigned_of(x as int, 8), 8);
            lemma_int_roundtrip(x as int, 8, tail);
            assert(s.skip(1) =~= int_bytes(x as int, 8) + tail);
        },
        SlotValue::F64(x) => {
            lemma_le_bytes_len(x.bits as nat, 8);
            lemma_uint_roundtrip(x.bits as nat, 8, tail);
            assert(s.skip(1) =~= le_bytes(x.bits as nat, 8) + tail);
        },
        SlotValue::Bool(x) => {
            lemma_bool_roundtrip(x, tail);
            assert(s.skip(1) =~= bool_bytes(x) + tail);
        },
        SlotValue::Str(_) => {},
        SlotValue::IPv4(x) => {
            lemma_le_bytes_len(x as nat, 4);
            lemma_uint_roundtrip(x as nat, 4, tail);
            assert(s.skip(1) =~= le_bytes(x as nat, 4) + tail);
        },
        SlotValue::IPv6(x) => {
            lemma_le_bytes_len(x as nat, 16);
            lemma_uint_roundtrip(x as nat, 16, tail);
            assert(s.skip(1) =~= le_bytes(x as nat, 16) + tail);
        },
        SlotValue::DateTime64 { epoch, scale } => {
            lemma_le_bytes_len(crate::wire::bytes::unsigned_of(epoch as int, 8), 8);
            lemma_le_bytes_len(scale as nat, 4);
            lemma_datetime64_roundtrip(epoch, scale, tail);
            assert(s.skip(1) =~= int_bytes(epoch as int, 8) + le_bytes(scale as nat, 4) + tail);
        },
        SlotValue::Uuid(id) => {
            lemma_bytes_roundtrip(id@, tail);
            assert(s.skip(1) =~= id@ + tail);
            let other = array_of(id@);
            assert(other@ == id@);
            assert(other =~= id);
        },
    }
}

/// The bytes of a row: those of its slots, one after the other.
pub open spec fn row_bytes(slots: Seq<SlotValue<'static>>) -> Seq<u8>
    decreases slots.len(),
{
    if slots.len() == 0 {
        Seq::empty()
    } else {
        slot_bytes(slots[0]) + row_bytes(slots.drop_first())
    }
}

/// Whether no slot of a row is a string.
pub open spec fn taggable(slots: Seq<SlotValue<'static>>) -> bool {
    forall|i: int| 0 <= i < slots.len() ==> !(#[trigger] slots[i] is Str)
}

/// Decoding a row from its bytes gives the row back, whatever follows it.
pub proof fn lemma_row_roundtrip(slots: Seq<SlotValue<'static>>, tail: Seq<u8>)
    requires
        taggable(slots),
    ensures
        parse_row(row_bytes(slots) + tail, slots.len()) == Ok::<
            Seq<SlotValue<'static>>,
            WireError,
        >(slots),
    decreases slots.len(),
{
    if slots.len() == 0 {
        assert(slots =~= Seq::<SlotValue<'static>>::empty());
    } else {
        let head = slot_bytes(slots[0]);
        let rest = slots.drop_first();
        let all = row_bytes(slots) + tail;
        assert(!(slots[0] is Str));
        assert(all =~= head + (row_bytes(rest) + tail));
        lemma_slot_roundtrip(slots[0], row_bytes(rest) + tail);
        assert(all.skip(head.len() as int) =~= row_bytes(rest) + tail);
        assert(taggable(rest)) by {
            assert forall|i: int| 0 <= i < rest.len() implies !(#[trigger] rest[i] is Str) by {
                assert(rest[i] == slots[i + 1]);
            }
        }
        lemma_row_roundtrip(rest, tail);
        assert(seq![slots[0]] + rest =~= slots);
    }
}

/// Appends a row of tagged slots. A row with a string in it is refused with
/// `TypeMismatch`, and `out` is left as it was.
pub fn encode_rowpack(out: &mut Vec<u8>, row: &[SlotValue<'static>]) -> (r: RowBinaryResult)
    ensures
        match r {
            Ok(()) => taggable(row@) && final(out)@ == old(out)@ + row_bytes(row@),
            Err(e) => e == WireError::TypeMismatch && !taggable(row@) && final(out)@ == old(out)@,
        },
{
    let mut k: usize = 0;
    while k < row.len()
        invariant
            k <= row@.len(),
            forall|i: int| 0 <= i < k ==> !(#[trigger] row@[i] is Str),
        decreases row@.len() - k,
    {
        if let SlotValue::Str(_) = row[k] {
            return Err(WireError::TypeMismatch);
        }
        k = k + 1;
    }
    let mut i: usize = 0;
    proof {
        assert(row@.skip(0) =~= row@);
    }
    while i < row.len()
        invariant
            i <= row@.len(),
            taggable(row@),
            out@ + row_bytes(row@.skip(i as int)) == old(out)@ + row_bytes(row@),
        decreases row@.len() - i,
    {
        let ghost before = out@;
        proof {
            assert(row@.skip(i as int)[0] == row@[i as int]);
            assert(row@.skip(i as int).drop_first() =~= row@.skip(i + 1));
            assert(!(row@[i as int] is Str));
        }
        let r = write_slot(out, &row[i]);
        proof {
            assert(before + slot_bytes(row@[i as int]) + row_bytes(row@.skip(i + 1)) =~= before
                + row_bytes(row@.skip(i as int)));
        }
        i = i + 1;
    }
    proof {
        assert(out@ + row_bytes(row@.skip(row@.len() as int)) =~= out@);
    }
    Ok(())
}

/// A type that can be sent as a full frame with a tagged row as its payload.
pub trait BenEncodeRowpack {
    /// The event hash of the type.
    const EVT_HASH: [u8; 32];

    /// The number of fields of the type.
    const FIELD_COUNT: u16;

    /// Whether `encode_rowpack_payload` appends what `payload` says. An implementation
    /// that defines `payload` answers `true` here.
    open spec fn obeys_payload_spec() -> bool {
        false
    }

    /// The tagged slots of `self`, as bytes.
    open spec fn payload(&self) -> Seq<u8> {
        Seq::empty()
    }

    /// Appends the tagged slots of `self` to `out`. What `out` held before stays in front.
    fn encode_rowpack_payload(&self, out: &mut Vec<u8>)
        ensures
            old(out)@.is_prefix_of(final(out)@),
            Self::obeys_payload_spec() ==> final(out)@ == old(out)@ + self.payload(),
    ;

    /// A full frame: the header of the type with the given epoch, then the payload.
    fn to_envelope_rowpack(&self, epoch: u64) -> (out: Vec<u8>)
        ensures
            header_bytes(Self::EVT_HASH@, epoch, Self::FIELD_COUNT).is_prefix_of(out@),
            Self::obeys_payload_spec() ==> out@ == header_bytes(
                Self::EVT_HASH@,
                epoch,
                Self::FIELD_COUNT,
            ) + self.payload(),
    {
        let mut out: Vec<u8> = Vec::with_capacity(64);
        Envelope::write_rowbinary_header(&mut out, Self::EVT_HASH, epoch, Self::FIELD_COUNT);
        proof {
            assert(out@ =~= header_bytes(Self::EVT_HASH@, epoch, Self::FIELD_COUNT));
        }
        self.encode_rowpack_payload(&mut out);
        out
    }
}

} // verus!

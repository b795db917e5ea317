//! Event schemas and whole rows: the fields of one event, encoded one after the other and
//! framed with the event's hash and field count.
use vstd::prelude::*;
use crate::wire::envelope::{
    frame_error, hash_eq, header_bytes, quic_frame_error, quic_header_bytes, quic_payload,
    write_quic_header, Envelope,
};
use crate::wire::error::WireError;
use crate::wire::rowbinary::{lemma_moved_rest, RowBinCursor};
use crate::wire::bytes::le_value;
use crate::wire::value::{
    check_field, decode_field, field_bytes, field_fits, join, lemma_field_roundtrip,
    lemma_join_push, lemma_parse_body_bound, parse_field, write_field, FieldKind, FieldModel,
    FieldValue,
};

verus! {

/// One field of an event: its name, its kind, whether it may be null, and its default.
#[derive(Debug)]
pub struct FieldDescriptor {
    pub name: String,
    pub kind: FieldKind,
    pub nullable: bool,
    pub default: Option<String>,
}

/// One event type and version: its table, its fingerprint, its ordered fields and the hash
/// that its frames carry.
#[derive(Debug)]
pub struct EventSchema {
    pub table: String,
    pub version: u32,
    pub fingerprint: String,
    pub fields: Vec<FieldDescriptor>,
    pub evt_hash: [u8; 32],
}

/// The models of a row of values.
pub open spec fn row_models(values: Seq<FieldValue>) -> Seq<FieldModel> {
    Seq::new(values.len(), |i: int| values[i]@)
}

/// Whether a row has one value for each field, and each value can stand in its field.
pub open spec fn row_fits(fields: Seq<FieldDescriptor>, values: Seq<FieldModel>) -> bool {
    &&& values.len() == fields.len()
    &&& forall|i: int|
        0 <= i < fields.len() ==> field_fits(
            &(#[trigger] fields[i]).kind,
            fields[i].nullable,
            values[i],
        )
}

/// The encodings of the fields from place `from` on, one after the other.
pub open spec fn row_bytes(fields: Seq<FieldDescriptor>, values: Seq<FieldModel>, from: int) -> Seq<
    u8,
>
    decreases fields.len() - from,
{
    if from < 0 || from >= fields.len() {
        Seq::empty()
    } else {
        field_bytes(&fields[from].kind, fields[from].nullable, values[from]) + row_bytes(
            fields,
            values,
            from + 1,
        )
    }
}

/// The values of the fields from place `from` on, at the start of `s`, with the number of
/// bytes that they take; or the first error met.
pub open spec fn parse_row(fields: Seq<FieldDescriptor>, s: Seq<u8>, from: int) -> Result<
    (Seq<FieldModel>, nat),
    WireError,
>
    decreases fields.len() - from,
{
    if from < 0 || from >= fields.len() {
        Ok((Seq::empty(), 0))
    } else {
        match parse_field(&fields[from].kind, fields[from].nullable, s) {
            Ok((v, n)) => match parse_row(fields, s.skip(n as int), from + 1) {
                Ok((rest, m)) => Ok((seq![v] + rest, n + m)),
                Err(e) => Err(e),
            },
            Err(e) => Err(e),
        }
    }
}

/// Decoding a row from its encoding gives the row back, whatever follows it.
pub proof fn lemma_row_roundtrip(
    fields: Seq<FieldDescriptor>,
    values: Seq<FieldModel>,
    from: int,
    tail: Seq<u8>,
)
    requires
        row_fits(fields, values),
        0 <= from <= fields.len(),
    ensures
        parse_row(fields, row_bytes(fields, values, from) + tail, from) == Ok::<
            (Seq<FieldModel>, nat),
            WireError,
        >((values.skip(from), row_bytes(fields, values, from).len())),
    decreases fields.len() - from,
{
    if from >= fields.len() {
        assert(values.skip(from) =~= Seq::<FieldModel>::empty());
    } else {
        let f = fields[from];
        let head = field_bytes(&f.kind, f.nullable, values[from]);
        let rest = row_bytes(fields, values, from + 1);
        let all = row_bytes(fields, values, from) + tail;
        assert(all =~= head + (rest + tail));
        lemma_field_roundtrip(&f.kind, f.nullable, values[from], rest + tail);
        assert(all.skip(head.len() as int) =~= rest + tail);
        lemma_row_roundtrip(fields, values, from + 1, tail);
        assert(seq![values[from]] + values.skip(from + 1) =~= values.skip(from));
    }
}

impl EventSchema {
    /// The field count that the frames of the event carry: the number of fields, and
    /// 65535 for more fields than that.
    pub fn field_count(&self) -> (n: u16)
        ensures
            n == if self.fields@.len() <= u16::MAX {
                self.fields@.len() as u16
            } else {
                u16::MAX
            },
    {
        let len: usize = self.fields.len();
        if len <= 0xFFFF {
            len as u16
        } else {
            0xFFFF
        }
    }

    /// Whether a row has one value for each field, and each value can stand in its field.
    pub fn check_row(&self, values: &[FieldValue]) -> (r: bool)
        ensures
            r == row_fits(self.fields@, row_models(values@)),
    {
        if values.len() != self.fields.len() {
            return false;
        }
        let mut i: usize = 0;
        while i < self.fields.len()
            invariant
                i <= self.fields@.len() == values@.len(),
                forall|j: int|
                    0 <= j < i ==> field_fits(
                        &(#[trigger] self.fields@[j]).kind,
                        self.fields@[j].nullable,
                        row_models(values@)[j],
                    ),
            decreases self.fields@.len() - i,
        {
            let f = &self.fields[i];
            if !check_field(&f.kind, f.nullable, &values[i]) {
                proof {
                    assert(!field_fits(
                        &self.fields@[i as int].kind,
                        self.fields@[i as int].nullable,
                        row_models(values@)[i as int],
                    ));
                }
                return false;
            }
            i = i + 1;
        }
        true
    }

    /// Appends the encoding of a row. A row that does not fit the schema is refused with
    /// `TypeMismatch`, and `out` is left as it was.
    pub fn encode_row(&self, out: &mut Vec<u8>, values: &[FieldValue]) -> (r: Result<(), WireError>)
        ensures
            match r {
                Ok(()) => row_fits(self.fields@, row_models(values@)) && final(out)@ == old(out)@
                    + row_bytes(self.fields@, row_models(values@), 0),
                Err(e) => e == WireError::TypeMismatch && !row_fits(
                    self.fields@,
                    row_models(values@),
                ) && final(out)@ == old(out)@,
            },
    {
        if !self.check_row(values) {
            return Err(WireError::TypeMismatch);
        }
        let ghost models = row_models(values@);
        let mut i: usize = 0;
        while i < self.fields.len()
            invariant
                i <= self.fields@.len() == values@.len(),
                models == row_models(values@),
                row_fits(self.fields@, models),
                out@ + row_bytes(self.fields@, models, i as int) == old(out)@ + row_bytes(
                    self.fields@,
                    models,
                    0,
                ),
            decreases self.fields@.len() - i,
        {
            let ghost before = out@;
            let f = &self.fields[i];
            proof {
                assert(field_fits(&self.fields@[i as int].kind, self.fields@[i as int].nullable, models[i as int]));
            }
            write_field(out, &f.kind, f.nullable, &values[i]);
            proof {
                assert(before + field_bytes(&f.kind, f.nullable, models[i as int]) + row_bytes(
                    self.fields@,
                    models,
                    i + 1,
                ) =~= before + row_bytes(self.fields@, models, i as int));
            }
            i = i + 1;
        }
        proof {
            assert(out@ + row_bytes(self.fields@, models, self.fields@.len() as int) =~= out@);
        }
        Ok(())
    }

    /// Decodes a row at the cursor: the value of each field, in order. Decoding stops at
    /// the first error, and no part of the row is returned then.
    #[verifier::rlimit(40)]
    pub fn decode_row(&self, cur: &mut RowBinCursor<'_>) -> (r: Result<Vec<FieldValue>, WireError>)
        ensures
            same_row(r, parse_row(self.fields@, old(cur).rest(), 0)),
            final(cur).buf == old(cur).buf,
            r is Ok ==> final(cur).pos == old(cur).pos + parse_row(
                self.fields@,
                old(cur).rest(),
                0,
            )->Ok_0.1,
    {
        let ghost start = cur.rest();
        let ghost used: nat = 0;
        let mut values: Vec<FieldValue> = Vec::new();
        let mut i: usize = 0;
        proof {
            assert(start.skip(0) =~= start);
            match parse_row(self.fields@, start, 0) {
                Ok((rest, n)) => {
                    assert(row_models(values@) + rest =~= rest);
                },
                Err(_) => {},
            }
        }
        while i < self.fields.len()
            invariant
                i <= self.fields@.len(),
                cur.buf == old(cur).buf,
                cur.pos == old(cur).pos + used,
                cur.rest() == start.skip(used as int),
                start == old(cur).rest(),
                join(row_models(values@), used, parse_row(self.fields@, cur.rest(), i as int))
                    == parse_row(self.fields@, start, 0),
            decreases self.fields@.len() - i,
        {
            let ghost before = *cur;
            let ghost prefix = row_models(values@);
            let f = &self.fields[i];
            match decode_field(cur, &f.kind, f.nullable) {
                Ok(v) => {
                    proof {
                        let n = parse_field(&f.kind, f.nullable, before.rest())->Ok_0.1;
                        lemma_parse_field_bound(&f.kind, f.nullable, before.rest());
                        lemma_moved_rest(&before, &*cur, n);
                        assert(start.skip(used as int).skip(n as int) =~= start.skip(
                            (used + n) as int,
                        ));
                        lemma_join_push(
                            prefix,
                            used,
                            v@,
                            n,
                            parse_row(self.fields@, before.rest().skip(n as int), i + 1),
                        );
                        used = used + n;
                    }
                    values.push(v);
                    proof {
                        assert(row_models(values@) =~= prefix.push(v@));
                    }
                },
                Err(e) => {
                    return Err(e);
                },
            }
            i = i + 1;
        }
        proof {
            assert(row_models(values@) + Seq::<FieldModel>::empty() =~= row_models(values@));
        }
        Ok(values)
    }

    /// Appends a short frame: the event's hash and field count, then the row. A row that
    /// does not fit the schema is refused with `TypeMismatch`, and `out` is left as it was.
    pub fn encode_quic(&self, out: &mut Vec<u8>, values: &[FieldValue]) -> (r: Result<
        (),
        WireError,
    >)
        ensures
            match r {
                Ok(()) => row_fits(self.fields@, row_models(values@)) && final(out)@ == old(out)@
                    + self.quic_frame(row_models(values@)),
                Err(e) => e == WireError::TypeMismatch && !row_fits(
                    self.fields@,
                    row_models(values@),
                ) && final(out)@ == old(out)@,
            },
    {
        if !self.check_row(values) {
            return Err(WireError::TypeMismatch);
        }
        let ghost before = out@;
        write_quic_header(out, self.evt_hash, self.field_count());
        let r = self.encode_row(out, values);
        proof {
            assert(out@ =~= before + self.quic_frame(row_models(values@)));
        }
        r
    }

    /// Decodes a short frame. The frame's hash and field count must be those of the
    /// event: a frame that is too short, or of another hash or count, is refused before
    /// anything of its payload is decoded.
    pub fn decode_quic(&self, buf: &[u8]) -> (r: Result<Vec<FieldValue>, WireError>)
        ensures
            match quic_frame_error(buf@, self.evt_hash@, self.spec_field_count()) {
                Some(e) => r == Err::<Vec<FieldValue>, WireError>(e),
                None => same_row(r, parse_row(self.fields@, buf@.skip(34), 0)),
            },
    {
        let payload = quic_payload(buf, &self.evt_hash, self.field_count())?;
        let mut cur = RowBinCursor::new(payload);
        self.decode_row(&mut cur)
    }

    /// Appends a full frame: the header with the event's hash, the epoch and the field
    /// count, then the row. A row that does not fit the schema is refused with
    /// `TypeMismatch`, and `out` is left as it was.
    pub fn encode_frame(&self, out: &mut Vec<u8>, epoch: u64, values: &[FieldValue]) -> (r: Result<
        (),
        WireError,
    >)
        ensures
            match r {
                Ok(()) => row_fits(self.fields@, row_models(values@)) && final(out)@ == old(out)@
                    + self.frame(epoch, row_models(values@)),
                Err(e) => e == WireError::TypeMismatch && !row_fits(
                    self.fields@,
                    row_models(values@),
                ) && final(out)@ == old(out)@,
            },
    {
        if !self.check_row(values) {
            return Err(WireError::TypeMismatch);
        }
        let ghost before = out@;
        Envelope::write_rowbinary_header(out, self.evt_hash, epoch, self.field_count());
        let r = self.encode_row(out, values);
        proof {
            assert(out@ =~= before + self.frame(epoch, row_models(values@)));
        }
        r
    }

    /// Decodes a full frame into its epoch and its row. The frame is parsed first; then
    /// its hash and its field count must be those of the event, the hash being compared
    /// first; only then is the payload decoded.
    pub fn decode_frame(&self, buf: &[u8]) -> (r: Result<(u64, Vec<FieldValue>), WireError>)
        ensures
            match self.frame_mismatch(buf@) {
                Some(e) => r == Err::<(u64, Vec<FieldValue>), WireError>(e),
                None => match (r, parse_row(self.fields@, buf@.skip(43), 0)) {
                    (Ok(a), Ok(b)) => a.0 == le_value(buf@.subrange(32, 40)) && row_models(a.1@)
                        == b.0,
                    (Err(a), Err(b)) => a == b,
                    _ => false,
                },
            },
    {
        let env = Envelope::parse(buf)?;
        if !hash_eq(&env.evt_hash, &self.evt_hash) {
            return Err(WireError::EvtHashMismatch);
        }
        if env.field_count != self.field_count() {
            return Err(WireError::FieldCountMismatch);
        }
        let mut cur = RowBinCursor::new(env.payload);
        let row = self.decode_row(&mut cur)?;
        Ok((env.epoch, row))
    }

    /// The field count that the frames of the event carry.
    pub open spec fn spec_field_count(&self) -> u16 {
        if self.fields@.len() <= u16::MAX {
            self.fields@.len() as u16
        } else {
            u16::MAX
        }
    }

    /// The bytes of a short frame of the event with the given row.
    pub open spec fn quic_frame(&self, values: Seq<FieldModel>) -> Seq<u8> {
        quic_header_bytes(self.evt_hash@, self.spec_field_count()) + row_bytes(
            self.fields@,
            values,
            0,
        )
    }

    /// The bytes of a full frame of the event with the given epoch and row.
    pub open spec fn frame(&self, epoch: u64, values: Seq<FieldModel>) -> Seq<u8> {
        header_bytes(self.evt_hash@, epoch, self.spec_field_count()) + row_bytes(
            self.fields@,
            values,
            0,
        )
    }

    /// Why a buffer is no full frame of the event, if it is none.
    pub open spec fn frame_mismatch(&self, buf: Seq<u8>) -> Option<WireError> {
        match frame_error(buf) {
            Some(e) => Some(e),
            None => if buf.take(32) != self.evt_hash@ {
                Some(WireError::EvtHashMismatch)
            } else if le_value(buf.subrange(41, 43)) != self.spec_field_count() {
                Some(WireError::FieldCountMismatch)
            } else {
                None
            },
        }
    }
}

/// Whether a decoded row is the one that the model gives, or the same error.
pub open spec fn same_row(
    r: Result<Vec<FieldValue>, WireError>,
    m: Result<(Seq<FieldModel>, nat), WireError>,
) -> bool {
    match (r, m) {
        (Ok(a), Ok(b)) => row_models(a@) == b.0,
        (Err(a), Err(b)) => a == b,
        _ => false,
    }
}

/// A field that was decoded takes no more bytes than there are.
pub proof fn lemma_parse_field_bound(kind: &FieldKind, nullable: bool, s: Seq<u8>)
    ensures
        parse_field(kind, nullable, s) matches Ok((_, n)) ==> n <= s.len(),
{
    if nullable {
        if s.len() >= 1 && s[0] == 0 {
            lemma_parse_body_bound(kind, s.skip(1));
        }
    } else {
        lemma_parse_body_bound(kind, s);
    }
}

/// A short frame that was encoded decodes to its row; a full frame, to its epoch and row.
pub proof fn lemma_frame_roundtrip(schema: &EventSchema, epoch: u64, values: Seq<FieldModel>)
    requires
        row_fits(schema.fields@, values),
    ensures
        quic_frame_error(schema.quic_frame(values), schema.evt_hash@, schema.spec_field_count())
            is None,
        parse_row(schema.fields@, schema.quic_frame(values).skip(34), 0) == Ok::<
            (Seq<FieldModel>, nat),
            WireError,
        >((values, row_bytes(schema.fields@, values, 0).len())),
        schema.frame_mismatch(schema.frame(epoch, values)) is None,
        le_value(schema.frame(epoch, values).subrange(32, 40)) == epoch,
        parse_row(schema.fields@, schema.frame(epoch, values).skip(43), 0) == Ok::<
            (Seq<FieldModel>, nat),
            WireError,
        >((values, row_bytes(schema.fields@, values, 0).len())),
{
    let row = row_bytes(schema.fields@, values, 0);
    crate::wire::envelope::lemma_quic_roundtrip(schema.evt_hash@, schema.spec_field_count(), row);
    crate::wire::envelope::lemma_frame_roundtrip(
        schema.evt_hash@,
        epoch,
        schema.spec_field_count(),
        row,
    );
    lemma_row_roundtrip(schema.fields@, values, 0, Seq::empty());
    assert(row + Seq::<u8>::empty() =~= row);
    assert(values.skip(0) =~= values);
}

} // verus!

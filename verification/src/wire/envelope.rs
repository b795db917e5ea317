//! Frame headers.
//!
//! A full frame is a 32-byte event hash, an 8-byte little-endian epoch, one byte that names the
//! encoding and a 2-byte little-endian field count, followed by the payload. A short frame has
//! the event hash and the field count only.
use vstd::prelude::*;
use vstd::slice::slice_subrange;
use crate::wire::bytes::{
    le_bytes, le_value, lemma_le_bytes_len, lemma_le_value_of_bytes, lemma_pow256_values, read_le,
};
use crate::wire::error::WireError;
use crate::wire::rowbinary::{write_bytes, write_u16, write_u64};

verus! {

/// The length of a full frame header.
pub const HEADER_LEN: usize = 43;

/// The length of a short frame header.
pub const QUIC_HEADER_LEN: usize = 34;

/// The byte that names the row-binary encoding.
pub const ROW_BINARY_TAG: u8 = 2;

/// How a payload is encoded.
#[derive(Copy, Clone, Debug, PartialEq, Eq, Structural)]
pub enum Encoding {
    RowBinary,
}

impl Encoding {
    /// The byte that names the encoding in a frame header.
    pub fn tag(&self) -> (t: u8)
        ensures
            t == ROW_BINARY_TAG,
    {
        ROW_BINARY_TAG
    }
}

/// A parsed frame: the header's fields and the payload that follows the header.
#[derive(Clone, Debug)]
pub struct Envelope<'a> {
    pub evt_hash: [u8; 32],
    pub epoch: u64,
    pub encoding: Encoding,
    pub field_count: u16,
    pub payload: &'a [u8],
}

/// The bytes of a full frame header.
pub open spec fn header_bytes(evt_hash: Seq<u8>, epoch: u64, field_count: u16) -> Seq<u8> {
    evt_hash + le_bytes(epoch as nat, 8) + seq![ROW_BINARY_TAG] + le_bytes(field_count as nat, 2)
}

/// The bytes of a short frame header.
pub open spec fn quic_header_bytes(evt_hash: Seq<u8>, field_count: u16) -> Seq<u8> {
    evt_hash + le_bytes(field_count as nat, 2)
}

/// Why a buffer is no full frame, if it is none.
pub open spec fn frame_error(buf: Seq<u8>) -> Option<WireError> {
    if buf.len() < HEADER_LEN {
        Some(WireError::ShortFrame)
    } else if buf[40] != ROW_BINARY_TAG {
        Some(WireError::UnknownEncoding)
    } else {
        None
    }
}

/// Why a buffer is no short frame of the expected event, if it is none.
/// The hash is checked before the field count.
pub open spec fn quic_frame_error(
    buf: Seq<u8>,
    evt_hash: Seq<u8>,
    field_count: u16,
) -> Option<WireError> {
    if buf.len() < QUIC_HEADER_LEN {
        Some(WireError::ShortFrame)
    } else if buf.take(32) != evt_hash {
        Some(WireError::EvtHashMismatch)
    } else if le_value(buf.subrange(32, 34)) != field_count {
        Some(WireError::FieldCountMismatch)
    } else {
        None
    }
}

/// Whether two arrays of 32 bytes hold the same bytes.
pub fn hash_eq(a: &[u8; 32], b: &[u8; 32]) -> (r: bool)
    ensures
        r == (a@ == b@),
{
    let mut i: usize = 0;
    while i < 32
        invariant
            i <= 32,
            forall|j: int| 0 <= j < i ==> a@[j] == b@[j],
        decreases 32 - i,
    {
        if a[i] != b[i] {
            return false;
        }
        i = i + 1;
    }
    proof {
        assert(a@ =~= b@);
    }
    true
}

/// The first 32 bytes of a buffer, as an array.
fn hash_of(buf: &[u8]) -> (h: [u8; 32])
    requires
        buf@.len() >= 32,
    ensures
        h@ == buf@.take(32),
{
    let mut h: [u8; 32] = [0u8; 32];
    let mut i: usize = 0;
    while i < 32
        invariant
            i <= 32,
            buf@.len() >= 32,
            forall|j: int| 0 <= j < i ==> h@[j] == buf@[j],
        decreases 32 - i,
    {
        h[i] = buf[i];
        i = i + 1;
    }
    proof {
        assert(h@ =~= buf@.take(32));
    }
    h
}

impl<'a> Envelope<'a> {
    /// Parses a full frame.
    ///
    /// A buffer of fewer than 43 bytes fails with `ShortFrame`, before anything is read. An
    /// encoding byte other than 2 fails with `UnknownEncoding`. The payload is the rest of the
    /// buffer, not copied.
    pub fn parse(buf: &'a [u8]) -> (r: Result<Envelope<'a>, WireError>)
        ensures
            match r {
                Ok(env) => {
                    &&& frame_error(buf@) is None
                    &&& env.evt_hash@ == buf@.take(32)
                    &&& env.epoch == le_value(buf@.subrange(32, 40))
                    &&& env.encoding == Encoding::RowBinary
                    &&& env.field_count == le_value(buf@.subrange(41, 43))
                    &&& env.payload@ == buf@.skip(43)
                },
                Err(e) => frame_error(buf@) == Some(e),
            },
    {
        if buf.len() < HEADER_LEN {
            return Err(WireError::ShortFrame);
        }
        let evt_hash = hash_of(buf);
        let epoch: u128 = read_le(buf, 32, 8);
        if buf[40] != ROW_BINARY_TAG {
            return Err(WireError::UnknownEncoding);
        }
        let field_count: u128 = read_le(buf, 41, 2);
        let payload = slice_subrange(buf, HEADER_LEN, buf.len());
        proof {
            lemma_pow256_values();
            assert(payload@ =~= buf@.skip(43));
        }
        Ok(
            Envelope {
                evt_hash,
                epoch: epoch as u64,
                encoding: Encoding::RowBinary,
                field_count: field_count as u16,
                payload,
            },
        )
    }

    /// Appends a full frame header for a row-binary payload.
    pub fn write_rowbinary_header(
        dst: &mut Vec<u8>,
        evt_hash: [u8; 32],
        epoch: u64,
        field_count: u16,
    )
        ensures
            final(dst)@ == old(dst)@ + header_bytes(evt_hash@, epoch, field_count),
    {
        let ghost before = dst@;
        write_bytes(dst, evt_hash.as_slice());
        write_u64(dst, epoch);
        dst.push(ROW_BINARY_TAG);
        write_u16(dst, field_count);
        proof {
            assert(dst@ =~= before + header_bytes(evt_hash@, epoch, field_count));
        }
    }
}

/// Appends a short frame header.
pub fn write_quic_header(dst: &mut Vec<u8>, evt_hash: [u8; 32], field_count: u16)
    ensures
        final(dst)@ == old(dst)@ + quic_header_bytes(evt_hash@, field_count),
{
    let ghost before = dst@;
    write_bytes(dst, evt_hash.as_slice());
    write_u16(dst, field_count);
    proof {
        assert(dst@ =~= before + quic_header_bytes(evt_hash@, field_count));
    }
}

/// Checks a short frame against the event hash and field count of the target type, and gives
/// its payload. Nothing of the payload is read.
pub fn quic_payload<'a>(buf: &'a [u8], evt_hash: &[u8; 32], field_count: u16) -> (r: Result<
    &'a [u8],
    WireError,
>)
    ensures
        match r {
            Ok(payload) => quic_frame_error(buf@, evt_hash@, field_count) is None && payload@
                == buf@.skip(34),
            Err(e) => quic_frame_error(buf@, evt_hash@, field_count) == Some(e),
        },
{
    if buf.len() < QUIC_HEADER_LEN {
        return Err(WireError::ShortFrame);
    }
    let got = hash_of(buf);
    if !hash_eq(&got, evt_hash) {
        return Err(WireError::EvtHashMismatch);
    }
    let count: u128 = read_le(buf, 32, 2);
    proof {
        lemma_pow256_values();
    }
    if count != field_count as u128 {
        return Err(WireError::FieldCountMismatch);
    }
    let payload = slice_subrange(buf, QUIC_HEADER_LEN, buf.len());
    proof {
        assert(payload@ =~= buf@.skip(34));
    }
    Ok(payload)
}

/// A buffer of fewer than 43 bytes is always refused as a short frame, and a buffer of at
/// least 43 bytes whose encoding byte is not 2 is always refused for its encoding.
pub proof fn lemma_frame_rejection(buf: Seq<u8>)
    ensures
        buf.len() < 43 ==> frame_error(buf) == Some(WireError::ShortFrame),
        buf.len() >= 43 && buf[40] != 2 ==> frame_error(buf) == Some(WireError::UnknownEncoding),
        buf.len() >= 43 && buf[40] == 2 ==> frame_error(buf) is None,
{
}

/// A header followed by a payload is a frame, and its fields are those that were written.
pub proof fn lemma_frame_roundtrip(evt_hash: Seq<u8>, epoch: u64, field_count: u16, payload: Seq<u8>)
    requires
        evt_hash.len() == 32,
    ensures
        ({
            let buf = header_bytes(evt_hash, epoch, field_count) + payload;
            &&& frame_error(buf) is None
            &&& buf.take(32) == evt_hash
            &&& le_value(buf.subrange(32, 40)) == epoch
            &&& le_value(buf.subrange(41, 43)) == field_count
            &&& buf.skip(43) == payload
        }),
{
    lemma_pow256_values();
    lemma_le_bytes_len(epoch as nat, 8);
    lemma_le_bytes_len(field_count as nat, 2);
    lemma_le_value_of_bytes(epoch as nat, 8);
    lemma_le_value_of_bytes(field_count as nat, 2);
    let buf = header_bytes(evt_hash, epoch, field_count) + payload;
    assert(buf.take(32) =~= evt_hash);
    assert(buf.subrange(32, 40) =~= le_bytes(epoch as nat, 8));
    assert(buf.subrange(41, 43) =~= le_bytes(field_count as nat, 2));
    assert(buf.skip(43) =~= payload);
}

/// A short header followed by a payload is a short frame of that event, and of no other
/// hash or field count.
pub proof fn lemma_quic_roundtrip(evt_hash: Seq<u8>, field_count: u16, payload: Seq<u8>)
    requires
        evt_hash.len() == 32,
    ensures
        ({
            let buf = quic_header_bytes(evt_hash, field_count) + payload;
            &&& quic_frame_error(buf, evt_hash, field_count) is None
            &&& buf.skip(34) == payload
            &&& forall|h: Seq<u8>, c: u16|
                h != evt_hash || c != field_count ==> #[trigger] quic_frame_error(buf, h, c)
                    is Some
        }),
{
    lemma_pow256_values();
    lemma_le_bytes_len(field_count as nat, 2);
    lemma_le_value_of_bytes(field_count as nat, 2);
    let buf = quic_header_bytes(evt_hash, field_count) + payload;
    assert(buf.take(32) =~= evt_hash);
    assert(buf.subrange(32, 34) =~= le_bytes(field_count as nat, 2));
    assert(buf.skip(34) =~= payload);
}

} // verus!

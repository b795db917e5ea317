//! Cursor-based decoding and appending encoders for the scalar wire encodings.
//!
//! Fixed-width integers are little-endian. A binary64 number travels as the little-endian bytes
//! of its bit pattern, a boolean as one byte, a string as a 4-byte length and its UTF-8 bytes.
use vstd::prelude::*;
use vstd::slice::slice_subrange;
use vstd::utf8::*;
use crate::num::Float64;
use crate::wire::bytes::{
    fits_signed, le_bytes, le_value, lemma_le_bytes_len, lemma_le_value_of_bytes, lemma_prefix,
    lemma_pow256_monotonic, lemma_pow256_values, lemma_signed_unsigned, pow256, read_le,
    signed_of, to_signed, to_unsigned, unsigned_of, write_le,
};
use crate::wire::envelope::{
    quic_frame_error, quic_header_bytes, quic_payload, write_quic_header,
};
use crate::wire::error::WireError;

verus! {

/// What an encoder returns.
pub type RowBinaryResult = Result<(), WireError>;

/// A reading position in a byte buffer.
pub struct RowBinCursor<'a> {
    pub buf: &'a [u8],
    pub pos: usize,
}

/// An unsigned little-endian integer of `n` bytes at the start of `s`: the value, and the
/// number of bytes that reading it takes.
pub open spec fn parse_uint(s: Seq<u8>, n: nat) -> (Result<nat, WireError>, nat) {
    if s.len() >= n {
        (Ok(le_value(s.take(n as int))), n)
    } else {
        (Err(WireError::Underflow), 0)
    }
}

/// A signed little-endian integer of `n` bytes at the start of `s`.
pub open spec fn parse_int(s: Seq<u8>, n: nat) -> (Result<int, WireError>, nat) {
    match parse_uint(s, n).0 {
        Ok(v) => (Ok(signed_of(v, n)), n),
        Err(e) => (Err(e), 0),
    }
}

/// A boolean at the start of `s`: one byte, true when it is not zero.
pub open spec fn parse_bool(s: Seq<u8>) -> (Result<bool, WireError>, nat) {
    if s.len() >= 1 {
        (Ok(s[0] != 0), 1)
    } else {
        (Err(WireError::Underflow), 0)
    }
}

/// `n` raw bytes at the start of `s`.
pub open spec fn parse_bytes(s: Seq<u8>, n: nat) -> (Result<Seq<u8>, WireError>, nat) {
    if s.len() >= n {
        (Ok(s.take(n as int)), n)
    } else {
        (Err(WireError::Underflow), 0)
    }
}

/// A timestamp at the start of `s`: a signed 8-byte epoch, then an unsigned 4-byte scale.
pub open spec fn parse_datetime64(s: Seq<u8>) -> (Result<(int, nat), WireError>, nat) {
    if s.len() < 8 {
        (Err(WireError::Underflow), 0)
    } else if s.len() < 12 {
        (Err(WireError::Underflow), 8)
    } else {
        (Ok((signed_of(le_value(s.take(8)), 8), le_value(s.subrange(8, 12)))), 12)
    }
}

/// A string at the start of `s`: a 4-byte length in bytes, then that many bytes of UTF-8.
pub open spec fn parse_string(s: Seq<u8>) -> (Result<Seq<char>, WireError>, nat) {
    if s.len() < 4 {
        (Err(WireError::Underflow), 0)
    } else {
        let len = le_value(s.take(4));
        if s.len() - 4 < len {
            (Err(WireError::Underflow), 4)
        } else if valid_utf8(s.subrange(4, 4 + len as int)) {
            (Ok(decode_utf8(s.subrange(4, 4 + len as int))), 4 + len)
        } else {
            (Err(WireError::Utf8Error), 4 + len)
        }
    }
}

/// The encoding of a string: its length in bytes as 4 bytes, then its UTF-8 bytes.
pub open spec fn string_bytes(s: Seq<char>) -> Seq<u8> {
    le_bytes(encode_utf8(s).len(), 4) + encode_utf8(s)
}

/// The encoding of a signed integer in `n` bytes.
pub open spec fn int_bytes(x: int, n: nat) -> Seq<u8> {
    le_bytes(unsigned_of(x, n), n)
}

/// The encoding of a boolean.
pub open spec fn bool_bytes(b: bool) -> Seq<u8> {
    seq![if b { 1u8 } else { 0u8 }]
}

/// Whether a decoded string is the one that the model gives, or the same error.
pub open spec fn same_text(r: Result<String, WireError>, m: Result<Seq<char>, WireError>) -> bool {
    match (r, m) {
        (Ok(a), Ok(b)) => a@ == b,
        (Err(a), Err(b)) => a == b,
        _ => false,
    }
}

/// The string that valid UTF-8 bytes hold, by `String::from_utf8`: `Some` exactly when the
/// bytes are valid UTF-8, and then the characters that they decode to.
#[verifier::external_body]
fn utf8_to_string(bytes: &[u8]) -> (r: Option<String>)
    ensures
        r is Some <==> valid_utf8(bytes@),
        r is Some ==> r->0@ == decode_utf8(bytes@),
{
    String::from_utf8(bytes.to_vec()).ok()
}

impl<'a> RowBinCursor<'a> {
    /// The bytes that have not been read yet.
    pub open spec fn rest(&self) -> Seq<u8> {
        if self.pos <= self.buf@.len() {
            self.buf@.skip(self.pos as int)
        } else {
            Seq::empty()
        }
    }

    /// Whether `self` is `before`, moved forward by `n` bytes.
    pub open spec fn moved(&self, before: &RowBinCursor<'a>, n: nat) -> bool {
        self.buf == before.buf && self.pos == before.pos + n
    }

    /// A cursor at the start of `buf`.
    pub fn new(buf: &'a [u8]) -> (c: Self)
        ensures
            c.buf == buf,
            c.pos == 0,
            c.rest() == buf@,
    {
        let c = RowBinCursor { buf, pos: 0 };
        proof {
            assert(buf@.skip(0) =~= buf@);
        }
        c
    }

    /// The number of bytes that have not been read yet.
    pub fn remaining(&self) -> (n: usize)
        ensures
            n == self.rest().len(),
    {
        let len: usize = self.buf.len();
        if self.pos <= len {
            len - self.pos
        } else {
            0
        }
    }

    /// Reads the next `n` bytes, or fails with `Underflow` and leaves the cursor where it is.
    pub fn take(&mut self, n: usize) -> (r: Result<&'a [u8], WireError>)
        ensures
            match r {
                Ok(s) => s@ == old(self).rest().take(n as int) && n <= old(self).rest().len()
                    && final(self).moved(old(self), n as nat),
                Err(e) => e == WireError::Underflow && n > old(self).rest().len() && *final(self)
                    == *old(self),
            },
            final(self).rest() == old(self).rest().skip(parse_bytes(old(self).rest(), n as nat).1 as int),
    {
        let len: usize = self.buf.len();
        if self.remaining() < n {
            proof {
                assert(self.rest().skip(0) =~= self.rest());
            }
            return Err(WireError::Underflow);
        }
        if self.pos > len {
            let s = slice_subrange(self.buf, len, len);
            proof {
                assert(s@ =~= self.rest().take(0));
                assert(self.rest().skip(0) =~= self.rest());
            }
            return Ok(s);
        }
        let start: usize = self.pos;
        let end: usize = start + n;
        let s = slice_subrange(self.buf, start, end);
        proof {
            assert(s@ =~= self.rest().take(n as int));
            assert(self.buf@.skip(end as int) =~= self.rest().skip(n as int));
        }
        self.pos = end;
        Ok(s)
    }

    /// Reads an unsigned integer of `n` little-endian bytes.
    pub(crate) fn read_uint(&mut self, n: usize) -> (r: Result<u64, WireError>)
        requires
            n == 1 || n == 2 || n == 4 || n == 8,
        ensures
            match (r, parse_uint(old(self).rest(), n as nat).0) {
                (Ok(a), Ok(b)) => a == b,
                (Err(a), Err(b)) => a == b,
                _ => false,
            },
            final(self).moved(old(self), parse_uint(old(self).rest(), n as nat).1),
            r is Ok ==> r->Ok_0 < pow256(n as nat),
    {
        let s = self.take(n)?;
        let v: u128 = read_le(s, 0, n);
        proof {
            assert(s@.subrange(0, n as int) =~= s@);
            lemma_pow256_values();
            lemma_pow256_monotonic(n as nat, 8);
        }
        Ok(v as u64)
    }

    /// Reads a signed integer of `n` little-endian bytes in two's complement.
    pub(crate) fn read_int(&mut self, n: usize) -> (r: Result<i64, WireError>)
        requires
            n == 1 || n == 2 || n == 4 || n == 8,
        ensures
            match (r, parse_int(old(self).rest(), n as nat).0) {
                (Ok(a), Ok(b)) => a == b,
                (Err(a), Err(b)) => a == b,
                _ => false,
            },
            final(self).moved(old(self), parse_int(old(self).rest(), n as nat).1),
            r is Ok ==> fits_signed(r->Ok_0 as int, n as nat),
    {
        let v: u64 = self.read_uint(n)?;
        Ok(to_signed(v, n))
    }

    /// Reads an unsigned 64-bit integer.
    pub fn read_u64(&mut self) -> (r: Result<u64, WireError>)
        ensures
            match (r, parse_uint(old(self).rest(), 8).0) {
                (Ok(a), Ok(b)) => a == b,
                (Err(a), Err(b)) => a == b,
                _ => false,
            },
            final(self).moved(old(self), parse_uint(old(self).rest(), 8).1),
    {
        self.read_uint(8)
    }

    /// Reads a signed 64-bit integer.
    pub fn read_i64(&mut self) -> (r: Result<i64, WireError>)
        ensures
            match (r, parse_int(old(self).rest(), 8).0) {
                (Ok(a), Ok(b)) => a == b,
                (Err(a), Err(b)) => a == b,
                _ => false,
            },
            final(self).moved(old(self), parse_int(old(self).rest(), 8).1),
    {
        self.read_int(8)
    }

    /// Reads a signed 16-bit integer, the wire form of a discriminant.
    pub fn read_i16(&mut self) -> (r: Result<i16, WireError>)
        ensures
            match (r, parse_int(old(self).rest(), 2).0) {
                (Ok(a), Ok(b)) => a == b,
                (Err(a), Err(b)) => a == b,
                _ => false,
            },
            final(self).moved(old(self), parse_int(old(self).rest(), 2).1),
    {
        let x: i64 = self.read_int(2)?;
        proof {
            lemma_pow256_values();
        }
        Ok(x as i16)
    }

    /// Reads an unsigned 32-bit integer.
    pub fn read_u32(&mut self) -> (r: Result<u32, WireError>)
        ensures
            match (r, parse_uint(old(self).rest(), 4).0) {
                (Ok(a), Ok(b)) => a == b,
                (Err(a), Err(b)) => a == b,
                _ => false,
            },
            final(self).moved(old(self), parse_uint(old(self).rest(), 4).1),
    {
        let v: u64 = self.read_uint(4)?;
        proof {
            lemma_pow256_values();
        }
        Ok(v as u32)
    }

    /// Reads a binary64 number: the 8 little-endian bytes of its bit pattern.
    pub fn read_f64(&mut self) -> (r: Result<Float64, WireError>)
        ensures
            match (r, parse_uint(old(self).rest(), 8).0) {
                (Ok(a), Ok(b)) => a.bits == b,
                (Err(a), Err(b)) => a == b,
                _ => false,
            },
            final(self).moved(old(self), parse_uint(old(self).rest(), 8).1),
    {
        let bits: u64 = self.read_uint(8)?;
        Ok(Float64 { bits })
    }

    /// Reads one byte.
    pub fn read_u8(&mut self) -> (r: Result<u8, WireError>)
        ensures
            match (r, parse_uint(old(self).rest(), 1).0) {
                (Ok(a), Ok(b)) => a == b,
                (Err(a), Err(b)) => a == b,
                _ => false,
            },
            r is Ok ==> r->Ok_0 == old(self).rest()[0],
            final(self).moved(old(self), parse_uint(old(self).rest(), 1).1),
    {
        let s = self.take(1)?;
        proof {
            let t = old(self).rest().take(1);
            assert(t.drop_first() =~= Seq::<u8>::empty());
            assert(le_value(t.drop_first()) == 0);
        }
        Ok(s[0])
    }

    /// Reads an IPv4 address: an unsigned 32-bit integer.
    pub fn read_ipv4(&mut self) -> (r: Result<u32, WireError>)
        ensures
            match (r, parse_uint(old(self).rest(), 4).0) {
                (Ok(a), Ok(b)) => a == b,
                (Err(a), Err(b)) => a == b,
                _ => false,
            },
            final(self).moved(old(self), parse_uint(old(self).rest(), 4).1),
    {
        self.read_u32()
    }

    /// Reads an IPv6 address: an unsigned 128-bit integer.
    pub fn read_ipv6(&mut self) -> (r: Result<u128, WireError>)
        ensures
            match (r, parse_uint(old(self).rest(), 16).0) {
                (Ok(a), Ok(b)) => a == b,
                (Err(a), Err(b)) => a == b,
                _ => false,
            },
            final(self).moved(old(self), parse_uint(old(self).rest(), 16).1),
    {
        let s = self.take(16)?;
        let v: u128 = read_le(s, 0, 16);
        proof {
            assert(s@.subrange(0, 16) =~= s@);
        }
        Ok(v)
    }

    /// Reads a timestamp: a signed 64-bit epoch, then an unsigned 32-bit scale.
    pub fn read_datetime64(&mut self) -> (r: Result<(i64, u32), WireError>)
        ensures
            match (r, parse_datetime64(old(self).rest()).0) {
                (Ok(a), Ok(b)) => a.0 == b.0 && a.1 == b.1,
                (Err(a), Err(b)) => a == b,
                _ => false,
            },
            final(self).moved(old(self), parse_datetime64(old(self).rest()).1),
    {
        let ghost whole = self.rest();
        let epoch: i64 = self.read_i64()?;
        proof {
            assert(self.rest() =~= whole.skip(8));
            if self.rest().len() >= 4 {
                assert(self.rest().take(4) =~= whole.subrange(8, 12));
            }
        }
        let scale: u32 = self.read_u32()?;
        Ok((epoch, scale))
    }

    /// Reads a UUID: 16 raw bytes.
    pub fn read_uuid(&mut self) -> (r: Result<[u8; 16], WireError>)
        ensures
            match (r, parse_bytes(old(self).rest(), 16).0) {
                (Ok(a), Ok(b)) => a@ == b,
                (Err(a), Err(b)) => a == b,
                _ => false,
            },
            final(self).moved(old(self), parse_bytes(old(self).rest(), 16).1),
    {
        let s = self.take(16)?;
        let mut id: [u8; 16] = [0u8; 16];
        let mut i: usize = 0;
        while i < 16
            invariant
                i <= 16,
                s@.len() == 16,
                forall|j: int| 0 <= j < i ==> id@[j] == s@[j],
            decreases 16 - i,
        {
            id[i] = s[i];
            i = i + 1;
        }
        proof {
            assert(id@ =~= s@);
        }
        Ok(id)
    }

    /// Reads a boolean: one byte, true when it is not zero.
    pub fn read_bool(&mut self) -> (r: Result<bool, WireError>)
        ensures
            match (r, parse_bool(old(self).rest()).0) {
                (Ok(a), Ok(b)) => a == b,
                (Err(a), Err(b)) => a == b,
                _ => false,
            },
            final(self).moved(old(self), parse_bool(old(self).rest()).1),
    {
        let s = self.take(1)?;
        Ok(s[0] != 0)
    }

    /// Reads a string: a 4-byte length in bytes, then that many bytes of UTF-8.
    pub fn read_string(&mut self) -> (r: Result<String, WireError>)
        ensures
            same_text(r, parse_string(old(self).rest()).0),
            final(self).moved(old(self), parse_string(old(self).rest()).1),
    {
        let ghost whole = self.rest();
        let len: u32 = self.read_u32()?;
        proof {
            assert(self.rest() =~= whole.skip(4));
        }
        let bytes = self.take(len as usize)?;
        proof {
            assert(bytes@ =~= whole.subrange(4, 4 + len));
        }
        match utf8_to_string(bytes) {
            Some(s) => Ok(s),
            None => Err(WireError::Utf8Error),
        }
    }
}

/// Appends raw bytes.
pub fn write_bytes(out: &mut Vec<u8>, bytes: &[u8])
    ensures
        final(out)@ == old(out)@ + bytes@,
{
    let mut i: usize = 0;
    while i < bytes.len()
        invariant
            i <= bytes@.len(),
            out@ == old(out)@ + bytes@.take(i as int),
        decreases bytes@.len() - i,
    {
        out.push(bytes[i]);
        proof {
            assert(bytes@.take(i + 1) =~= bytes@.take(i as int).push(bytes@[i as int]));
        }
        i = i + 1;
    }
    proof {
        assert(bytes@.take(bytes@.len() as int) =~= bytes@);
    }
}

/// Appends one byte.
pub fn write_u8(out: &mut Vec<u8>, v: u8)
    ensures
        final(out)@ == old(out)@ + le_bytes(v as nat, 1),
{
    write_le(out, v as u128, 1);
}

/// Appends an unsigned 16-bit integer.
pub fn write_u16(out: &mut Vec<u8>, v: u16)
    ensures
        final(out)@ == old(out)@ + le_bytes(v as nat, 2),
{
    write_le(out, v as u128, 2);
}

/// Appends an unsigned 32-bit integer.
pub fn write_u32(out: &mut Vec<u8>, v: u32)
    ensures
        final(out)@ == old(out)@ + le_bytes(v as nat, 4),
{
    write_le(out, v as u128, 4);
}

/// Appends an unsigned 64-bit integer.
pub fn write_u64(out: &mut Vec<u8>, v: u64)
    ensures
        final(out)@ == old(out)@ + le_bytes(v as nat, 8),
{
    write_le(out, v as u128, 8);
}

/// Appends an unsigned 128-bit integer.
pub fn write_u128(out: &mut Vec<u8>, v: u128)
    ensures
        final(out)@ == old(out)@ + le_bytes(v as nat, 16),
{
    write_le(out, v, 16);
}

/// Appends a signed 16-bit integer, the wire form of a discriminant.
pub fn write_i16(out: &mut Vec<u8>, v: i16)
    ensures
        final(out)@ == old(out)@ + int_bytes(v as int, 2),
{
    proof {
        lemma_pow256_values();
    }
    let u: u64 = to_unsigned(v as i64, 2);
    write_le(out, u as u128, 2);
}

/// Appends a signed 64-bit integer.
pub fn write_i64(out: &mut Vec<u8>, v: i64)
    ensures
        final(out)@ == old(out)@ + int_bytes(v as int, 8),
{
    proof {
        lemma_pow256_values();
    }
    let u: u64 = to_unsigned(v, 8);
    write_le(out, u as u128, 8);
}

/// Appends a binary64 number: the 8 little-endian bytes of its bit pattern.
pub fn write_f64(out: &mut Vec<u8>, v: Float64)
    ensures
        final(out)@ == old(out)@ + le_bytes(v.bits as nat, 8),
{
    write_le(out, v.bits as u128, 8);
}

/// Appends a boolean: the byte 1 for true, 0 for false.
pub fn write_bool(out: &mut Vec<u8>, v: bool)
    ensures
        final(out)@ == old(out)@ + bool_bytes(v),
{
    let ghost before = out@;
    out.push(if v { 1u8 } else { 0u8 });
    proof {
        assert(out@ =~= before + bool_bytes(v));
    }
}

/// Appends an IPv4 address.
pub fn write_ipv4(out: &mut Vec<u8>, v: u32)
    ensures
        final(out)@ == old(out)@ + le_bytes(v as nat, 4),
{
    write_u32(out, v);
}

/// Appends an IPv6 address.
pub fn write_ipv6(out: &mut Vec<u8>, v: u128)
    ensures
        final(out)@ == old(out)@ + le_bytes(v as nat, 16),
{
    write_u128(out, v);
}

/// Appends a timestamp: the epoch, then the scale.
pub fn write_datetime64(out: &mut Vec<u8>, epoch: i64, scale: u32)
    ensures
        final(out)@ == old(out)@ + (int_bytes(epoch as int, 8) + le_bytes(scale as nat, 4)),
{
    let ghost before = out@;
    write_i64(out, epoch);
    write_u32(out, scale);
    proof {
        assert(out@ =~= before + (int_bytes(epoch as int, 8) + le_bytes(scale as nat, 4)));
    }
}

/// Appends a UUID: its 16 bytes as they are.
pub fn write_uuid(out: &mut Vec<u8>, id: &[u8; 16])
    ensures
        final(out)@ == old(out)@ + id@,
{
    write_bytes(out, id.as_slice());
}

/// Appends a string: its length in bytes as 4 bytes, then its UTF-8 bytes.
/// A string of 4 GiB or more has no encoding and is refused with `TypeMismatch`;
/// `out` is then left as it was.
pub fn write_string(out: &mut Vec<u8>, s: &str) -> (r: RowBinaryResult)
    ensures
        match r {
            Ok(()) => encode_utf8(s@).len() <= u32::MAX && final(out)@ == old(out)@ + string_bytes(s@),
            Err(e) => e == WireError::TypeMismatch && encode_utf8(s@).len() > u32::MAX && final(out)@
                == old(out)@,
        },
{
    let ghost before = out@;
    let bytes = s.as_bytes();
    if bytes.len() > 0xFFFF_FFFF {
        return Err(WireError::TypeMismatch);
    }
    write_le(out, bytes.len() as u128, 4);
    write_bytes(out, bytes);
    proof {
        assert(out@ =~= before + string_bytes(s@));
    }
    Ok(())
}

/// Reading an unsigned integer back from its encoding gives the integer, whatever follows it.
pub proof fn lemma_uint_roundtrip(v: nat, n: nat, tail: Seq<u8>)
    requires
        v < pow256(n),
    ensures
        parse_uint(le_bytes(v, n) + tail, n) == (Ok::<nat, WireError>(v), n),
{
    lemma_le_bytes_len(v, n);
    lemma_le_value_of_bytes(v, n);
    assert((le_bytes(v, n) + tail).take(n as int) =~= le_bytes(v, n));
}

/// Reading a signed integer back from its encoding gives the integer, whatever follows it.
pub proof fn lemma_int_roundtrip(x: int, n: nat, tail: Seq<u8>)
    requires
        fits_signed(x, n),
    ensures
        parse_int(int_bytes(x, n) + tail, n) == (Ok::<int, WireError>(x), n),
{
    lemma_signed_unsigned(x, 0, n);
    lemma_uint_roundtrip(unsigned_of(x, n), n, tail);
}

/// Reading a boolean back from its encoding gives the boolean, whatever follows it.
pub proof fn lemma_bool_roundtrip(b: bool, tail: Seq<u8>)
    ensures
        parse_bool(bool_bytes(b) + tail) == (Ok::<bool, WireError>(b), 1nat),
{
}

/// Reading raw bytes back gives the bytes, whatever follows them.
pub proof fn lemma_bytes_roundtrip(b: Seq<u8>, tail: Seq<u8>)
    ensures
        parse_bytes(b + tail, b.len()) == (Ok::<Seq<u8>, WireError>(b), b.len()),
{
    assert((b + tail).take(b.len() as int) =~= b);
}

/// Reading a timestamp back from its encoding gives the timestamp, whatever follows it.
pub proof fn lemma_datetime64_roundtrip(epoch: i64, scale: u32, tail: Seq<u8>)
    ensures
        parse_datetime64(int_bytes(epoch as int, 8) + le_bytes(scale as nat, 4) + tail) == (
            Ok::<(int, nat), WireError>((epoch as int, scale as nat)),
            12nat,
        ),
{
    lemma_pow256_values();
    let e = int_bytes(epoch as int, 8);
    let c = le_bytes(scale as nat, 4);
    let s = e + c + tail;
    lemma_le_bytes_len(unsigned_of(epoch as int, 8), 8);
    lemma_le_bytes_len(scale as nat, 4);
    lemma_signed_unsigned(epoch as int, 0, 8);
    lemma_le_value_of_bytes(unsigned_of(epoch as int, 8), 8);
    lemma_le_value_of_bytes(scale as nat, 4);
    assert(s.take(8) =~= e);
    assert(s.subrange(8, 12) =~= c);
}

/// Reading a string back from its encoding gives the string, whatever follows it.
pub proof fn lemma_string_roundtrip(s: Seq<char>, tail: Seq<u8>)
    requires
        encode_utf8(s).len() <= u32::MAX,
    ensures
        parse_string(string_bytes(s) + tail) == (
            Ok::<Seq<char>, WireError>(s),
            4 + encode_utf8(s).len(),
        ),
{
    lemma_pow256_values();
    let body = encode_utf8(s);
    let all = string_bytes(s) + tail;
    lemma_le_bytes_len(body.len(), 4);
    lemma_le_value_of_bytes(body.len(), 4);
    assert(all.take(4) =~= le_bytes(body.len(), 4));
    assert(all.subrange(4, 4 + body.len() as int) =~= body);
    encode_utf8_valid_utf8(s);
    encode_utf8_decode_utf8(s);
}

/// A cursor that moved by `n` bytes has the rest of before, without its first `n` bytes.
pub proof fn lemma_moved_rest(before: &RowBinCursor<'_>, after: &RowBinCursor<'_>, n: nat)
    requires
        after.buf == before.buf,
        after.pos == before.pos + n,
        n <= before.rest().len(),
    ensures
        after.rest() == before.rest().skip(n as int),
{
    if before.pos <= before.buf@.len() {
        assert(after.rest() =~= before.rest().skip(n as int));
    } else {
        assert(after.rest() =~= before.rest().skip(n as int));
    }
}

/// Whether an encoder's result is the one that ends with `error`.
pub open spec fn ends_with(r: RowBinaryResult, error: Option<WireError>) -> bool {
    match r {
        Ok(_) => error is None,
        Err(e) => error == Some(e),
    }
}

/// A value that can append its row-binary encoding to a buffer.
pub trait RowBinaryEncode {
    /// Whether `encode_rowbinary` does what `encode_error` and `encoding` say. An
    /// implementation that defines the two answers `true` here.
    open spec fn obeys_encode_spec() -> bool {
        false
    }

    /// The error with which encoding `self` ends, where it fails.
    open spec fn encode_error(&self) -> Option<WireError> {
        None
    }

    /// The bytes that encoding `self` appends; where it fails, those appended until then.
    open spec fn encoding(&self) -> Seq<u8> {
        Seq::empty()
    }

    /// Appends the encoding of `self` to `out`. What `out` held before stays in front.
    fn encode_rowbinary(&self, out: &mut Vec<u8>) -> (r: RowBinaryResult)
        ensures
            old(out)@.is_prefix_of(final(out)@),
            Self::obeys_encode_spec() ==> ends_with(r, self.encode_error()) && final(out)@ == old(
                out,
            )@ + self.encoding(),
    ;
}

/// A value that can be read from a row-binary cursor.
pub trait RowBinaryDecode: Sized {
    /// The event hash of the type.
    const EVT_HASH: [u8; 32];

    /// The number of fields of the type.
    const FIELD_COUNT: u16;

    /// Whether `from_rowbinary` does what `decode_error`, `decoded_len` and `decodes_to`
    /// say. An implementation that defines the three answers `true` here.
    open spec fn obeys_decode_spec() -> bool {
        false
    }

    /// The error with which reading a value at the start of `s` ends, where it fails.
    open spec fn decode_error(s: Seq<u8>) -> Option<WireError> {
        None
    }

    /// The number of bytes that reading a value at the start of `s` takes; where it fails,
    /// those taken until then.
    open spec fn decoded_len(s: Seq<u8>) -> nat {
        0
    }

    /// Whether `v` is the value that stands at the start of `s`.
    open spec fn decodes_to(s: Seq<u8>, v: &Self) -> bool {
        true
    }

    /// Reads one value at the cursor.
    fn from_rowbinary(cur: &mut RowBinCursor<'_>) -> (r: Result<Self, WireError>)
        ensures
            Self::obeys_decode_spec() ==> {
                &&& match r {
                    Ok(v) => Self::decode_error(old(cur).rest()) is None && Self::decodes_to(
                        old(cur).rest(),
                        &v,
                    ),
                    Err(e) => Self::decode_error(old(cur).rest()) == Some(e),
                }
                &&& Self::decoded_len(old(cur).rest()) <= old(cur).rest().len()
                &&& final(cur).moved(old(cur), Self::decoded_len(old(cur).rest()))
            },
    ;
}

/// A value that can be sent as a short frame.
pub trait EncodeQuic: RowBinaryEncode {
    /// The event hash of the type.
    const EVT_HASH: [u8; 32];

    /// The number of fields of the type.
    const FIELD_COUNT: u16;

    /// Appends a short frame: the header of the type, then the encoding of `self`.
    /// Where the encoding fails, its error is returned and `out` holds the header
    /// and what the encoder wrote until then.
    fn encode_quic(&self, out: &mut Vec<u8>) -> (r: RowBinaryResult)
        ensures
            (old(out)@ + quic_header_bytes(Self::EVT_HASH@, Self::FIELD_COUNT)).is_prefix_of(
                final(out)@,
            ),
            Self::obeys_encode_spec() ==> ends_with(r, self.encode_error()) && final(out)@ == old(
                out,
            )@ + quic_header_bytes(Self::EVT_HASH@, Self::FIELD_COUNT) + self.encoding(),
    {
        write_quic_header(out, Self::EVT_HASH, Self::FIELD_COUNT);
        let ghost head = out@;
        let r = self.encode_rowbinary(out);
        proof {
            lemma_prefix(head, head, out@);
        }
        r
    }
}

/// A value that can be received as a short frame.
pub trait DecodeQuic: RowBinaryDecode {
    /// The event hash of the type.
    const EVT_HASH: [u8; 32];

    /// The number of fields of the type.
    const FIELD_COUNT: u16;

    /// Decodes a short frame. The header is checked first: a frame that is too short, or of
    /// another event hash or field count, is refused and nothing of its payload is decoded.
    /// Of any other frame the value is read at the start of what follows the header.
    fn decode_quic(buf: &[u8]) -> (r: Result<Self, WireError>)
        ensures
            quic_frame_error(buf@, <Self as DecodeQuic>::EVT_HASH@, <Self as DecodeQuic>::FIELD_COUNT)
                matches Some(e) ==> r == Err::<Self, WireError>(e),
            Self::obeys_decode_spec() && quic_frame_error(
                buf@,
                <Self as DecodeQuic>::EVT_HASH@,
                <Self as DecodeQuic>::FIELD_COUNT,
            ) is None ==> match r {
                Ok(v) => Self::decode_error(buf@.skip(34)) is None && Self::decodes_to(
                    buf@.skip(34),
                    &v,
                ),
                Err(e) => Self::decode_error(buf@.skip(34)) == Some(e),
            },
    {
        let hash: [u8; 32] = <Self as DecodeQuic>::EVT_HASH;
        let payload = quic_payload(buf, &hash, <Self as DecodeQuic>::FIELD_COUNT)?;
        let mut cur = RowBinCursor::new(payload);
        Self::from_rowbinary(&mut cur)
    }
}

impl<T: RowBinaryEncode> RowBinaryEncode for Option<T> {
    open spec fn obeys_encode_spec() -> bool {
        T::obeys_encode_spec()
    }

    open spec fn encode_error(&self) -> Option<WireError> {
        match self {
            None => None,
            Some(value) => value.encode_error(),
        }
    }

    open spec fn encoding(&self) -> Seq<u8> {
        match self {
            None => seq![1u8],
            Some(value) => seq![0u8] + value.encoding(),
        }
    }

    /// A presence byte, 0 for a value and 1 for none, then the value where there is one.
    fn encode_rowbinary(&self, out: &mut Vec<u8>) -> (r: RowBinaryResult)
        ensures
            match self {
                None => r is Ok && final(out)@ == old(out)@.push(1u8),
                Some(_) => old(out)@.push(0u8).is_prefix_of(final(out)@),
            },
    {
        match self {
            None => {
                out.push(1u8);
                proof {
                    assert(out@ =~= old(out)@ + seq![1u8]);
                    lemma_prefix(old(out)@, seq![1u8], out@);
                }
                Ok(())
            },
            Some(value) => {
                let ghost start = out@;
                out.push(0u8);
                let ghost head = out@;
                let r = value.encode_rowbinary(out);
                proof {
                    lemma_prefix(start, seq![0u8], head);
                    assert(start + seq![0u8] =~= head);
                    lemma_prefix(start, head, out@);
                    if T::obeys_encode_spec() {
                        assert(out@ =~= start + (seq![0u8] + value.encoding()));
                    }
                }
                r
            },
        }
    }
}

impl<T: RowBinaryDecode> RowBinaryDecode for Option<T> {
    const EVT_HASH: [u8; 32] = T::EVT_HASH;

    const FIELD_COUNT: u16 = T::FIELD_COUNT;

    open spec fn obeys_decode_spec() -> bool {
        T::obeys_decode_spec()
    }

    open spec fn decode_error(s: Seq<u8>) -> Option<WireError> {
        if s.len() == 0 {
            Some(WireError::Underflow)
        } else if s[0] != 0 {
            None
        } else {
            T::decode_error(s.skip(1))
        }
    }

    open spec fn decoded_len(s: Seq<u8>) -> nat {
        if s.len() == 0 {
            0
        } else if s[0] != 0 {
            1
        } else {
            1 + T::decoded_len(s.skip(1))
        }
    }

    open spec fn decodes_to(s: Seq<u8>, v: &Self) -> bool {
        s.len() > 0 && match v {
            None => s[0] != 0,
            Some(value) => s[0] == 0 && T::decodes_to(s.skip(1), value),
        }
    }

    /// A presence byte, then the value where the byte is 0. Any other byte says none.
    fn from_rowbinary(cur: &mut RowBinCursor<'_>) -> (r: Result<Self, WireError>)
        ensures
            old(cur).rest().len() == 0 ==> r == Err::<Self, WireError>(WireError::Underflow)
                && *final(cur) == *old(cur),
            old(cur).rest().len() > 0 && old(cur).rest()[0] != 0 ==> r == Ok::<Self, WireError>(
                None,
            ) && final(cur).moved(old(cur), 1),
            old(cur).rest().len() > 0 && old(cur).rest()[0] == 0 ==> !(r matches Ok(None)),
    {
        let is_null: bool = cur.read_u8()? != 0;
        if is_null {
            Ok(None)
        } else {
            let ghost middle = *cur;
            proof {
                lemma_moved_rest(&*old(cur), &middle, 1);
            }
            let value = T::from_rowbinary(cur)?;
            Ok(Some(value))
        }
    }
}

/// What encoding `items` one after another ends with and appends: the first item that
/// fails ends it.
pub open spec fn items_encoding<T: RowBinaryEncode>(items: Seq<T>) -> (Option<WireError>, Seq<u8>)
    decreases items.len(),
{
    if items.len() == 0 {
        (None, Seq::empty())
    } else {
        let (error, bytes) = items_encoding(items.drop_last());
        if error is Some {
            (error, bytes)
        } else {
            (items.last().encode_error(), bytes + items.last().encoding())
        }
    }
}

/// Once an item has failed, the items behind it change nothing.
pub proof fn lemma_items_encoding_ends<T: RowBinaryEncode>(items: Seq<T>, k: int)
    requires
        0 <= k <= items.len(),
        items_encoding(items.take(k)).0 is Some,
    ensures
        items_encoding(items) == items_encoding(items.take(k)),
    decreases items.len(),
{
    if k < items.len() {
        assert(items.drop_last().take(k) =~= items.take(k));
        lemma_items_encoding_ends(items.drop_last(), k);
    } else {
        assert(items.take(k) =~= items);
    }
}

impl<T: RowBinaryEncode> RowBinaryEncode for Vec<T> {
    open spec fn obeys_encode_spec() -> bool {
        T::obeys_encode_spec()
    }

    open spec fn encode_error(&self) -> Option<WireError> {
        items_encoding(self@).0
    }

    open spec fn encoding(&self) -> Seq<u8> {
        le_bytes(self@.len(), 8) + items_encoding(self@).1
    }

    /// The number of items as 8 bytes, then the items in order. The first item that fails
    /// ends the encoding with its error.
    #[verifier::loop_isolation(false)]
    fn encode_rowbinary(&self, out: &mut Vec<u8>) -> (r: RowBinaryResult)
        ensures
            (old(out)@ + le_bytes(self@.len(), 8)).is_prefix_of(final(out)@),
            self@.len() == 0 ==> r is Ok && final(out)@ == old(out)@ + le_bytes(0, 8),
    {
        let ghost start = out@;
        let ghost head = out@ + le_bytes(self@.len(), 8);
        write_u64(out, self.len() as u64);
        proof {
            lemma_prefix(start, le_bytes(self@.len(), 8), head);
            lemma_prefix(head, head, head);
            assert(self@.take(0) =~= Seq::<T>::empty());
            assert(head =~= head + items_encoding(self@.take(0)).1);
        }
        let mut i: usize = 0;
        while i < self.len()
            invariant
                i <= self@.len(),
                start.is_prefix_of(head),
                head.is_prefix_of(out@),
                i == 0 ==> out@ == head,
                T::obeys_encode_spec() ==> items_encoding(self@.take(i as int)).0 is None && out@
                    == head + items_encoding(self@.take(i as int)).1,
            decreases self@.len() - i,
        {
            let ghost before = out@;
            let r = self[i].encode_rowbinary(out);
            proof {
                lemma_prefix(head, before, out@);
                lemma_prefix(start, head, out@);
                let next = self@.take(i + 1);
                assert(next.drop_last() =~= self@.take(i as int));
                assert(next.last() == self@[i as int]);
                if T::obeys_encode_spec() {
                    assert(out@ =~= head + items_encoding(next).1);
                    if r is Err {
                        lemma_items_encoding_ends(self@, i + 1);
                        assert(out@ =~= start + self.encoding());
                    }
                }
            }
            if let Err(e) = r {
                return Err(e);
            }
            i = i + 1;
        }
        proof {
            lemma_prefix(start, head, out@);
            assert(self@.take(i as int) =~= self@);
            if T::obeys_encode_spec() {
                assert(out@ =~= start + self.encoding());
            }
        }
        Ok(())
    }
}

/// The outcome of reading `count` values one after another from the start of `s`: the
/// error of the first that fails, and the bytes taken.
pub open spec fn items_decoding<T: RowBinaryDecode>(s: Seq<u8>, count: nat) -> (
    Option<WireError>,
    nat,
)
    decreases count,
{
    if count == 0 {
        (None, 0)
    } else {
        let (error, used) = items_decoding::<T>(s, (count - 1) as nat);
        if error is Some {
            (error, used)
        } else {
            (T::decode_error(s.skip(used as int)), used + T::decoded_len(s.skip(used as int)))
        }
    }
}

/// Once a value has failed, nothing is read behind it.
pub proof fn lemma_items_decoding_ends<T: RowBinaryDecode>(s: Seq<u8>, k: nat, count: nat)
    requires
        k <= count,
        items_decoding::<T>(s, k).0 is Some,
    ensures
        items_decoding::<T>(s, count) == items_decoding::<T>(s, k),
    decreases count,
{
    if k < count {
        lemma_items_decoding_ends::<T>(s, k, (count - 1) as nat);
    }
}

impl<T: RowBinaryDecode> RowBinaryDecode for Vec<T> {
    const EVT_HASH: [u8; 32] = T::EVT_HASH;

    const FIELD_COUNT: u16 = T::FIELD_COUNT;

    open spec fn obeys_decode_spec() -> bool {
        T::obeys_decode_spec()
    }

    open spec fn decode_error(s: Seq<u8>) -> Option<WireError> {
        if s.len() < 8 {
            Some(WireError::Underflow)
        } else {
            items_decoding::<T>(s.skip(8), le_value(s.take(8))).0
        }
    }

    open spec fn decoded_len(s: Seq<u8>) -> nat {
        if s.len() < 8 {
            0
        } else {
            8 + items_decoding::<T>(s.skip(8), le_value(s.take(8))).1
        }
    }

    open spec fn decodes_to(s: Seq<u8>, v: &Self) -> bool {
        &&& s.len() >= 8
        &&& v@.len() == le_value(s.take(8))
        &&& forall|i: int|
            0 <= i < v@.len() ==> T::decodes_to(
                s.skip(8).skip(items_decoding::<T>(s.skip(8), i as nat).1 as int),
                &#[trigger] v@[i],
            )
    }

    /// The number of items as 8 bytes, then that many items. Nothing is allocated for
    /// items that the buffer does not hold.
    #[verifier::loop_isolation(false)]
    fn from_rowbinary(cur: &mut RowBinCursor<'_>) -> (r: Result<Self, WireError>)
        ensures
            old(cur).rest().len() < 8 ==> r == Err::<Self, WireError>(WireError::Underflow)
                && *final(cur) == *old(cur),
            r matches Ok(v) ==> v@.len() == le_value(old(cur).rest().take(8)),
            old(cur).rest().len() >= 8 && le_value(old(cur).rest().take(8)) == 0 ==> (r matches Ok(
                v,
            ) && v@.len() == 0 && final(cur).moved(old(cur), 8)),
    {
        let len: u64 = cur.read_u64()?;
        let ghost body = old(cur).rest().skip(8);
        proof {
            lemma_moved_rest(&*old(cur), &*cur, 8);
        }
        let mut items: Vec<T> = Vec::new();
        let mut i: u64 = 0;
        while i < len
            invariant
                i <= len,
                items@.len() == i,
                old(cur).rest().len() >= 8,
                len == le_value(old(cur).rest().take(8)),
                i == 0 ==> cur.moved(old(cur), 8),
                T::obeys_decode_spec() ==> {
                    &&& items_decoding::<T>(body, i as nat).0 is None
                    &&& items_decoding::<T>(body, i as nat).1 <= body.len()
                    &&& cur.moved(old(cur), 8 + items_decoding::<T>(body, i as nat).1)
                    &&& cur.rest() == body.skip(items_decoding::<T>(body, i as nat).1 as int)
                    &&& forall|j: int|
                        0 <= j < i ==> T::decodes_to(
                            body.skip(items_decoding::<T>(body, j as nat).1 as int),
                            &#[trigger] items@[j],
                        )
                },
            decreases len - i,
        {
            let ghost before = *cur;
            let ghost read = items@;
            let r = T::from_rowbinary(cur);
            proof {
                if T::obeys_decode_spec() {
                    let used = items_decoding::<T>(body, i as nat).1;
                    let n = T::decoded_len(before.rest());
                    lemma_moved_rest(&before, &*cur, n);
                    assert(body.skip(used as int).skip(n as int) =~= body.skip((used + n) as int));
                    if r is Err {
                        lemma_items_decoding_ends::<T>(body, (i + 1) as nat, len as nat);
                    }
                }
            }
            match r {
                Ok(value) => {
                    items.push(value);
                },
                Err(e) => {
                    return Err(e);
                },
            }
            proof {
                if T::obeys_decode_spec() {
                    assert forall|j: int| 0 <= j < i + 1 implies T::decodes_to(
                        body.skip(items_decoding::<T>(body, j as nat).1 as int),
                        &#[trigger] items@[j],
                    ) by {
                        if j < i {
                            assert(items@[j] == read[j]);
                        }
                    }
                }
            }
            i = i + 1;
        }
        Ok(items)
    }
}

impl RowBinaryEncode for u64 {
    open spec fn obeys_encode_spec() -> bool {
        true
    }

    open spec fn encode_error(&self) -> Option<WireError> {
        None
    }

    open spec fn encoding(&self) -> Seq<u8> {
        le_bytes(*self as nat, 8)
    }

    fn encode_rowbinary(&self, out: &mut Vec<u8>) -> (r: RowBinaryResult)
        ensures
            r is Ok,
            final(out)@ == old(out)@ + le_bytes(*self as nat, 8),
    {
        write_u64(out, *self);
        proof {
            lemma_prefix(old(out)@, le_bytes(*self as nat, 8), out@);
        }
        Ok(())
    }
}

impl RowBinaryDecode for u64 {
    const EVT_HASH: [u8; 32] = [
        0, 0, 0, 0, 0, 0, 0, 0, 0, 0, 0, 0, 0, 0, 0, 0, 0, 0, 0, 0, 0, 0, 0, 0, 0, 0, 0, 0, 0, 0, 0, 0,
    ];

    const FIELD_COUNT: u16 = 1;

    open spec fn obeys_decode_spec() -> bool {
        true
    }

    open spec fn decode_error(s: Seq<u8>) -> Option<WireError> {
        if s.len() < 8 {
            Some(WireError::Underflow)
        } else {
            None
        }
    }

    open spec fn decoded_len(s: Seq<u8>) -> nat {
        if s.len() < 8 {
            0
        } else {
            8
        }
    }

    open spec fn decodes_to(s: Seq<u8>, v: &Self) -> bool {
        s.len() >= 8 && *v == le_value(s.take(8))
    }

    fn from_rowbinary(cur: &mut RowBinCursor<'_>) -> (r: Result<Self, WireError>)
        ensures
            match (r, parse_uint(old(cur).rest(), 8).0) {
                (Ok(a), Ok(b)) => a == b,
                (Err(a), Err(b)) => a == b,
                _ => false,
            },
            final(cur).moved(old(cur), parse_uint(old(cur).rest(), 8).1),
    {
        cur.read_u64()
    }
}

/// What a `u64` writes reads back as the same number, whatever follows it, and as no
/// other.
pub proof fn lemma_u64_codec_roundtrip(v: u64, tail: Seq<u8>)
    ensures
        <u64 as RowBinaryDecode>::decode_error(v.encoding() + tail) is None,
        <u64 as RowBinaryDecode>::decoded_len(v.encoding() + tail) == v.encoding().len(),
        forall|w: u64| <u64 as RowBinaryDecode>::decodes_to(v.encoding() + tail, &w) <==> w == v,
{
    lemma_pow256_values();
    lemma_le_bytes_len(v as nat, 8);
    lemma_le_value_of_bytes(v as nat, 8);
    assert((v.encoding() + tail).take(8) =~= v.encoding());
}

/// What an optional `u64` writes is one byte for none, and a zero byte and the 8 bytes of
/// the number for a value; it reads back as the same value, whatever follows it, and as
/// no other.
pub proof fn lemma_option_codec_roundtrip(v: Option<u64>, tail: Seq<u8>)
    ensures
        v.encode_error() is None,
        v.encoding() == match v {
            None => seq![1u8],
            Some(x) => seq![0u8] + le_bytes(x as nat, 8),
        },
        <Option<u64> as RowBinaryDecode>::decode_error(v.encoding() + tail) is None,
        <Option<u64> as RowBinaryDecode>::decoded_len(v.encoding() + tail) == v.encoding().len(),
        forall|w: Option<u64>| <Option<u64> as RowBinaryDecode>::decodes_to(v.encoding() + tail, &w)
            <==> w == v,
{
    let s = v.encoding() + tail;
    match v {
        None => {},
        Some(x) => {
            lemma_u64_codec_roundtrip(x, tail);
            assert(s.skip(1) =~= x.encoding() + tail);
        },
    }
}

/// What a list of `u64` writes: no item fails, each takes 8 bytes, and they stand in
/// order.
pub proof fn lemma_u64_items_encoding(items: Seq<u64>)
    ensures
        items_encoding(items).0 is None,
        items_encoding(items).1.len() == 8 * items.len(),
        forall|j: int|
            0 <= j < items.len() ==> #[trigger] items_encoding(items).1.subrange(8 * j, 8 * j + 8)
                == le_bytes(items[j] as nat, 8),
    decreases items.len(),
{
    if items.len() > 0 {
        let front = items.drop_last();
        lemma_u64_items_encoding(front);
        lemma_le_bytes_len(items.last() as nat, 8);
        let before = items_encoding(front).1;
        let all = items_encoding(items).1;
        assert(all == before + le_bytes(items.last() as nat, 8));
        assert forall|j: int| 0 <= j < items.len() implies #[trigger] all.subrange(8 * j, 8 * j + 8)
            == le_bytes(items[j] as nat, 8) by {
            if j < front.len() {
                assert(all.subrange(8 * j, 8 * j + 8) =~= before.subrange(8 * j, 8 * j + 8));
                assert(front[j] == items[j]);
            } else {
                assert(all.subrange(8 * j, 8 * j + 8) =~= le_bytes(items.last() as nat, 8));
            }
        }
    }
}

/// Reading `count` numbers from bytes that hold at least as many takes 8 bytes each and
/// does not fail.
pub proof fn lemma_u64_items_decoding(s: Seq<u8>, count: nat)
    requires
        8 * count <= s.len(),
    ensures
        items_decoding::<u64>(s, count) == (None::<WireError>, 8 * count),
    decreases count,
{
    if count > 0 {
        lemma_u64_items_decoding(s, (count - 1) as nat);
    }
}

/// What a list of `u64` writes reads back as a list of the same numbers in the same order,
/// whatever follows it, and as no other.
pub proof fn lemma_vec_codec_roundtrip(v: Vec<u64>, tail: Seq<u8>)
    requires
        v@.len() <= u64::MAX,
    ensures
        v.encode_error() is None,
        <Vec<u64> as RowBinaryDecode>::decode_error(v.encoding() + tail) is None,
        <Vec<u64> as RowBinaryDecode>::decoded_len(v.encoding() + tail) == v.encoding().len(),
        forall|w: Vec<u64>| <Vec<u64> as RowBinaryDecode>::decodes_to(v.encoding() + tail, &w)
            <==> w@ == v@,
{
    let n = v@.len();
    let s = v.encoding() + tail;
    let items = items_encoding(v@).1;
    let body = items + tail;
    lemma_pow256_values();
    lemma_le_bytes_len(n, 8);
    lemma_le_value_of_bytes(n, 8);
    lemma_u64_items_encoding(v@);
    assert(s.take(8) =~= le_bytes(n, 8));
    assert(s.skip(8) =~= body);
    lemma_u64_items_decoding(body, n);
    assert forall|i: int| 0 <= i < n implies items_decoding::<u64>(body, i as nat).1 == 8 * i
        && le_value(body.skip(8 * i).take(8)) == #[trigger] v@[i] by {
        lemma_u64_items_decoding(body, i as nat);
        assert(body.skip(8 * i).take(8) =~= items.subrange(8 * i, 8 * i + 8));
        lemma_le_value_of_bytes(v@[i] as nat, 8);
    }
    assert forall|w: Vec<u64>| <Vec<u64> as RowBinaryDecode>::decodes_to(s, &w) implies w@
        == v@ by {
        assert forall|i: int| 0 <= i < n implies w@[i] == v@[i] by {
            assert(<u64 as RowBinaryDecode>::decodes_to(
                body.skip(items_decoding::<u64>(body, i as nat).1 as int),
                &w@[i],
            ));
        }
        assert(w@ =~= v@);
    }
    assert forall|w: Vec<u64>| w@ == v@ implies <Vec<u64> as RowBinaryDecode>::decodes_to(
        s,
        &w,
    ) by {
        assert forall|i: int| 0 <= i < w@.len() implies <u64 as RowBinaryDecode>::decodes_to(
            s.skip(8).skip(items_decoding::<u64>(s.skip(8), i as nat).1 as int),
            &#[trigger] w@[i],
        ) by {
            assert(le_value(body.skip(8 * i).take(8)) == v@[i]);
        }
    }
}

} // verus!

//! Typed field values and their row-binary encoding, driven by the kind of the field.
//!
//! An array is its number of items as 8 bytes, then the items. A map of strings is its
//! number of pairs as 8 bytes, then each key and value in the order in which they stand. A
//! nullable field starts with a presence byte: 0 where a value follows, 1 where none does.
//! A discriminant is a signed 16-bit integer that must be one of the field's declared values.
use vstd::prelude::*;
use vstd::string::StringSliceAdditionalSpecFns;
use vstd::utf8::encode_utf8;
use crate::num::Float64;
use crate::wire::bytes::{
    fits_signed, le_bytes, lemma_le_bytes_len, lemma_pow256_values, pow256, to_unsigned,
    unsigned_of, write_le,
};
use crate::wire::error::WireError;
use crate::wire::rowbinary::{
    bool_bytes, int_bytes, lemma_bool_roundtrip, lemma_bytes_roundtrip, lemma_int_roundtrip,
    lemma_moved_rest, lemma_string_roundtrip, lemma_uint_roundtrip, parse_bool, parse_bytes, parse_int,
    parse_string, parse_uint, string_bytes, write_bool, write_bytes, write_f64, write_string,
    write_u128, RowBinCursor, RowBinaryResult,
};

verus! {

/// The width of an integer on the wire.
#[derive(Debug, Clone, Copy, PartialEq, Eq, Structural)]
pub enum Width {
    W8,
    W16,
    W32,
    W64,
}

impl Width {
    /// The number of bytes of the width.
    pub open spec fn spec_bytes(self) -> nat {
        match self {
            Width::W8 => 1,
            Width::W16 => 2,
            Width::W32 => 4,
            Width::W64 => 8,
        }
    }

    /// The number of bytes of the width.
    pub fn bytes(&self) -> (n: usize)
        ensures
            n == self.spec_bytes(),
    {
        match self {
            Width::W8 => 1,
            Width::W16 => 2,
            Width::W32 => 4,
            Width::W64 => 8,
        }
    }
}

/// The kind of a value that is encoded by itself.
#[derive(Debug)]
pub enum ScalarKind {
    UInt(Width),
    Int(Width),
    UInt128,
    Float64,
    Bool,
    Str,
    Fixed16,
    Fixed32,
    /// A bounded enumeration, with the values that are declared for it.
    Discriminant(Vec<i16>),
}

/// The kind of a scalar value, with the declared values of an enumeration as a sequence.
pub enum ScalarKindModel {
    UInt(Width),
    Int(Width),
    UInt128,
    Float64,
    Bool,
    Str,
    Fixed16,
    Fixed32,
    Discriminant(Seq<i16>),
}

impl View for ScalarKind {
    type V = ScalarKindModel;

    open spec fn view(&self) -> ScalarKindModel {
        match self {
            ScalarKind::UInt(w) => ScalarKindModel::UInt(*w),
            ScalarKind::Int(w) => ScalarKindModel::Int(*w),
            ScalarKind::UInt128 => ScalarKindModel::UInt128,
            ScalarKind::Float64 => ScalarKindModel::Float64,
            ScalarKind::Bool => ScalarKindModel::Bool,
            ScalarKind::Str => ScalarKindModel::Str,
            ScalarKind::Fixed16 => ScalarKindModel::Fixed16,
            ScalarKind::Fixed32 => ScalarKindModel::Fixed32,
            ScalarKind::Discriminant(values) => ScalarKindModel::Discriminant(values@),
        }
    }
}

/// A value that is encoded by itself.
#[derive(Debug)]
pub enum ScalarValue {
    UInt(u64),
    Int(i64),
    UInt128(u128),
    Float64(Float64),
    Bool(bool),
    Str(String),
    Fixed16([u8; 16]),
    Fixed32([u8; 32]),
    Discriminant(i16),
}

/// A scalar value, with a string held by its characters and a fixed array by its bytes.
pub enum ScalarModel {
    UInt(u64),
    Int(i64),
    UInt128(u128),
    Float64(Float64),
    Bool(bool),
    Str(Seq<char>),
    Fixed(Seq<u8>),
    Discriminant(i16),
}

impl View for ScalarValue {
    type V = ScalarModel;

    open spec fn view(&self) -> ScalarModel {
        match self {
            ScalarValue::UInt(x) => ScalarModel::UInt(*x),
            ScalarValue::Int(x) => ScalarModel::Int(*x),
            ScalarValue::UInt128(x) => ScalarModel::UInt128(*x),
            ScalarValue::Float64(x) => ScalarModel::Float64(*x),
            ScalarValue::Bool(x) => ScalarModel::Bool(*x),
            ScalarValue::Str(s) => ScalarModel::Str(s@),
            ScalarValue::Fixed16(b) => ScalarModel::Fixed(b@),
            ScalarValue::Fixed32(b) => ScalarModel::Fixed(b@),
            ScalarValue::Discriminant(x) => ScalarModel::Discriminant(*x),
        }
    }
}

/// Whether a value is of a kind and has an encoding.
pub open spec fn scalar_fits(kind: &ScalarKind, v: ScalarModel) -> bool {
    match (kind, v) {
        (ScalarKind::UInt(w), ScalarModel::UInt(x)) => x < pow256(w.spec_bytes()),
        (ScalarKind::Int(w), ScalarModel::Int(x)) => fits_signed(x as int, w.spec_bytes()),
        (ScalarKind::UInt128, ScalarModel::UInt128(_)) => true,
        (ScalarKind::Float64, ScalarModel::Float64(_)) => true,
        (ScalarKind::Bool, ScalarModel::Bool(_)) => true,
        (ScalarKind::Str, ScalarModel::Str(s)) => encode_utf8(s).len() <= u32::MAX,
        (ScalarKind::Fixed16, ScalarModel::Fixed(b)) => b.len() == 16,
        (ScalarKind::Fixed32, ScalarModel::Fixed(b)) => b.len() == 32,
        (ScalarKind::Discriminant(values), ScalarModel::Discriminant(x)) => values@.contains(x),
        _ => false,
    }
}

/// The encoding of a value of a kind.
pub open spec fn scalar_bytes(kind: &ScalarKind, v: ScalarModel) -> Seq<u8> {
    match (kind, v) {
        (ScalarKind::UInt(w), ScalarModel::UInt(x)) => le_bytes(x as nat, w.spec_bytes()),
        (ScalarKind::Int(w), ScalarModel::Int(x)) => int_bytes(x as int, w.spec_bytes()),
        (_, ScalarModel::UInt128(x)) => le_bytes(x as nat, 16),
        (_, ScalarModel::Float64(x)) => le_bytes(x.bits as nat, 8),
        (_, ScalarModel::Bool(x)) => bool_bytes(x),
        (_, ScalarModel::Str(s)) => string_bytes(s),
        (_, ScalarModel::Fixed(b)) => b,
        (_, ScalarModel::Discriminant(x)) => int_bytes(x as int, 2),
        _ => Seq::empty(),
    }
}

/// A value of a kind at the start of `s`, with the number of bytes that it takes.
pub open spec fn parse_scalar(kind: &ScalarKind, s: Seq<u8>) -> Result<(ScalarModel, nat), WireError> {
    match kind {
        ScalarKind::UInt(w) => match parse_uint(s, w.spec_bytes()).0 {
            Ok(v) => Ok((ScalarModel::UInt(v as u64), w.spec_bytes())),
            Err(e) => Err(e),
        },
        ScalarKind::Int(w) => match parse_int(s, w.spec_bytes()).0 {
            Ok(v) => Ok((ScalarModel::Int(v as i64), w.spec_bytes())),
            Err(e) => Err(e),
        },
        ScalarKind::UInt128 => match parse_uint(s, 16).0 {
            Ok(v) => Ok((ScalarModel::UInt128(v as u128), 16)),
            Err(e) => Err(e),
        },
        ScalarKind::Float64 => match parse_uint(s, 8).0 {
            Ok(v) => Ok((ScalarModel::Float64(Float64 { bits: v as u64 }), 8)),
            Err(e) => Err(e),
        },
        ScalarKind::Bool => match parse_bool(s).0 {
            Ok(v) => Ok((ScalarModel::Bool(v), 1)),
            Err(e) => Err(e),
        },
        ScalarKind::Str => match parse_string(s) {
            (Ok(v), n) => Ok((ScalarModel::Str(v), n)),
            (Err(e), _) => Err(e),
        },
        ScalarKind::Fixed16 => match parse_bytes(s, 16).0 {
            Ok(v) => Ok((ScalarModel::Fixed(v), 16)),
            Err(e) => Err(e),
        },
        ScalarKind::Fixed32 => match parse_bytes(s, 32).0 {
            Ok(v) => Ok((ScalarModel::Fixed(v), 32)),
            Err(e) => Err(e),
        },
        ScalarKind::Discriminant(values) => match parse_int(s, 2).0 {
            Ok(v) => if values@.contains(v as i16) {
                Ok((ScalarModel::Discriminant(v as i16), 2))
            } else {
                Err(WireError::InvalidDiscriminant)
            },
            Err(e) => Err(e),
        },
    }
}

/// Decoding a value from its encoding gives the value back, whatever follows it.
pub proof fn lemma_scalar_roundtrip(kind: &ScalarKind, v: ScalarModel, tail: Seq<u8>)
    requires
        scalar_fits(kind, v),
    ensures
        parse_scalar(kind, scalar_bytes(kind, v) + tail) == Ok::<(ScalarModel, nat), WireError>(
            (v, scalar_bytes(kind, v).len()),
        ),
{
    lemma_pow256_values();
    match (kind, v) {
        (ScalarKind::UInt(w), ScalarModel::UInt(x)) => {
            lemma_le_bytes_len(x as nat, w.spec_bytes());
            lemma_uint_roundtrip(x as nat, w.spec_bytes(), tail);
        },
        (ScalarKind::Int(w), ScalarModel::Int(x)) => {
            lemma_le_bytes_len(unsigned_of(x as int, w.spec_bytes()), w.spec_bytes());
            lemma_int_roundtrip(x as int, w.spec_bytes(), tail);
        },
        (ScalarKind::UInt128, ScalarModel::UInt128(x)) => {
            lemma_le_bytes_len(x as nat, 16);
            lemma_uint_roundtrip(x as nat, 16, tail);
        },
        (ScalarKind::Float64, ScalarModel::Float64(x)) => {
            lemma_le_bytes_len(x.bits as nat, 8);
            lemma_uint_roundtrip(x.bits as nat, 8, tail);
        },
        (ScalarKind::Bool, ScalarModel::Bool(x)) => {
            lemma_bool_roundtrip(x, tail);
        },
        (ScalarKind::Str, ScalarModel::Str(s)) => {
            lemma_le_bytes_len(encode_utf8(s).len(), 4);
            lemma_string_roundtrip(s, tail);
        },
        (ScalarKind::Fixed16, ScalarModel::Fixed(b)) => {
            lemma_bytes_roundtrip(b, tail);
        },
        (ScalarKind::Fixed32, ScalarModel::Fixed(b)) => {
            lemma_bytes_roundtrip(b, tail);
        },
        (ScalarKind::Discriminant(values), ScalarModel::Discriminant(x)) => {
            lemma_le_bytes_len(unsigned_of(x as int, 2), 2);
            lemma_int_roundtrip(x as int, 2, tail);
        },
        _ => {},
    }
}

/// Whether a list of declared values holds a value.
pub fn declares(values: &[i16], v: i16) -> (r: bool)
    ensures
        r == values@.contains(v),
{
    let mut i: usize = 0;
    while i < values.len()
        invariant
            i <= values@.len(),
            forall|j: int| 0 <= j < i ==> values@[j] != v,
        decreases values@.len() - i,
    {
        if values[i] == v {
            return true;
        }
        i = i + 1;
    }
    false
}

/// Whether a value is of a kind and has an encoding.
pub fn check_scalar(kind: &ScalarKind, v: &ScalarValue) -> (r: bool)
    ensures
        r == scalar_fits(kind, v@),
{
    proof {
        lemma_pow256_values();
    }
    match (kind, v) {
        (ScalarKind::UInt(w), ScalarValue::UInt(x)) => match w {
            Width::W8 => *x < 0x100,
            Width::W16 => *x < 0x1_0000,
            Width::W32 => *x < 0x1_0000_0000,
            Width::W64 => true,
        },
        (ScalarKind::Int(w), ScalarValue::Int(x)) => match w {
            Width::W8 => -0x80 <= *x && *x < 0x80,
            Width::W16 => -0x8000 <= *x && *x < 0x8000,
            Width::W32 => -0x8000_0000 <= *x && *x < 0x8000_0000,
            Width::W64 => true,
        },
        (ScalarKind::UInt128, ScalarValue::UInt128(_)) => true,
        (ScalarKind::Float64, ScalarValue::Float64(_)) => true,
        (ScalarKind::Bool, ScalarValue::Bool(_)) => true,
        (ScalarKind::Str, ScalarValue::Str(s)) => s.as_str().as_bytes().len() <= 0xFFFF_FFFF,
        (ScalarKind::Fixed16, ScalarValue::Fixed16(_)) => true,
        (ScalarKind::Fixed32, ScalarValue::Fixed32(_)) => true,
        (ScalarKind::Discriminant(values), ScalarValue::Discriminant(x)) => declares(
            values.as_slice(),
            *x,
        ),
        _ => false,
    }
}

/// Appends the encoding of a value of a kind.
pub fn write_scalar(out: &mut Vec<u8>, kind: &ScalarKind, v: &ScalarValue)
    requires
        scalar_fits(kind, v@),
    ensures
        final(out)@ == old(out)@ + scalar_bytes(kind, v@),
{
    proof {
        lemma_pow256_values();
    }
    match (kind, v) {
        (ScalarKind::UInt(w), ScalarValue::UInt(x)) => {
            write_le(out, *x as u128, w.bytes());
        },
        (ScalarKind::Int(w), ScalarValue::Int(x)) => {
            let u: u64 = to_unsigned(*x, w.bytes());
            write_le(out, u as u128, w.bytes());
        },
        (ScalarKind::UInt128, ScalarValue::UInt128(x)) => {
            write_u128(out, *x);
        },
        (_, ScalarValue::Float64(x)) => {
            write_f64(out, *x);
        },
        (_, ScalarValue::Bool(x)) => {
            write_bool(out, *x);
        },
        (_, ScalarValue::Str(s)) => {
            let r = write_string(out, s.as_str());
            assert(r is Ok);
        },
        (_, ScalarValue::Fixed16(b)) => {
            write_bytes(out, b.as_slice());
        },
        (_, ScalarValue::Fixed32(b)) => {
            write_bytes(out, b.as_slice());
        },
        (_, ScalarValue::Discriminant(x)) => {
            let u: u64 = to_unsigned(*x as i64, 2);
            write_le(out, u as u128, 2);
        },
        _ => {},
    }
}

/// Whether a decoded value is the one that the model gives, or the same error.
pub open spec fn same_scalar(
    r: Result<ScalarValue, WireError>,
    m: Result<(ScalarModel, nat), WireError>,
) -> bool {
    match (r, m) {
        (Ok(a), Ok(b)) => a@ == b.0,
        (Err(a), Err(b)) => a == b,
        _ => false,
    }
}

/// Reads 32 raw bytes.
fn read_fixed32(cur: &mut RowBinCursor<'_>) -> (r: Result<[u8; 32], WireError>)
    ensures
        match (r, parse_bytes(old(cur).rest(), 32).0) {
            (Ok(a), Ok(b)) => a@ == b,
            (Err(a), Err(b)) => a == b,
            _ => false,
        },
        final(cur).moved(old(cur), parse_bytes(old(cur).rest(), 32).1),
{
    let s = cur.take(32)?;
    let mut id: [u8; 32] = [0u8; 32];
    let mut i: usize = 0;
    while i < 32
        invariant
            i <= 32,
            s@.len() == 32,
            forall|j: int| 0 <= j < i ==> id@[j] == s@[j],
        decreases 32 - i,
    {
        id[i] = s[i];
        i = i + 1;
    }
    proof {
        assert(id@ =~= s@);
    }
    Ok(id)
}

/// Decodes one value of a kind at the cursor. On success the cursor stands behind the value.
pub fn read_scalar(cur: &mut RowBinCursor<'_>, kind: &ScalarKind) -> (r: Result<
    ScalarValue,
    WireError,
>)
    ensures
        same_scalar(r, parse_scalar(kind, old(cur).rest())),
        final(cur).buf == old(cur).buf,
        r is Ok ==> final(cur).moved(old(cur), parse_scalar(kind, old(cur).rest())->Ok_0.1),
{
    proof {
        lemma_pow256_values();
    }
    match kind {
        ScalarKind::UInt(w) => Ok(ScalarValue::UInt(cur.read_uint(w.bytes())?)),
        ScalarKind::Int(w) => Ok(ScalarValue::Int(cur.read_int(w.bytes())?)),
        ScalarKind::UInt128 => Ok(ScalarValue::UInt128(cur.read_ipv6()?)),
        ScalarKind::Float64 => Ok(ScalarValue::Float64(cur.read_f64()?)),
        ScalarKind::Bool => Ok(ScalarValue::Bool(cur.read_bool()?)),
        ScalarKind::Str => Ok(ScalarValue::Str(cur.read_string()?)),
        ScalarKind::Fixed16 => Ok(ScalarValue::Fixed16(cur.read_uuid()?)),
        ScalarKind::Fixed32 => Ok(ScalarValue::Fixed32(read_fixed32(cur)?)),
        ScalarKind::Discriminant(values) => {
            let v: i16 = cur.read_i16()?;
            if declares(values.as_slice(), v) {
                Ok(ScalarValue::Discriminant(v))
            } else {
                Err(WireError::InvalidDiscriminant)
            }
        },
    }
}

/// The kind of a field.
#[derive(Debug)]
pub enum FieldKind {
    Scalar(ScalarKind),
    /// An array of values of one scalar kind.
    Array(ScalarKind),
    /// A map from strings to strings, in the order of its pairs.
    StrMap,
}

/// The kind of a field, with the declared values of an enumeration as a sequence.
pub enum FieldKindModel {
    Scalar(ScalarKindModel),
    Array(ScalarKindModel),
    StrMap,
}

impl View for FieldKind {
    type V = FieldKindModel;

    open spec fn view(&self) -> FieldKindModel {
        match self {
            FieldKind::Scalar(k) => FieldKindModel::Scalar(k@),
            FieldKind::Array(k) => FieldKindModel::Array(k@),
            FieldKind::StrMap => FieldKindModel::StrMap,
        }
    }
}

/// The value of a field. `Null` is the value of a nullable field that has none.
#[derive(Debug)]
pub enum FieldValue {
    Null,
    Scalar(ScalarValue),
    Array(Vec<ScalarValue>),
    StrMap(Vec<(String, String)>),
}

/// The value of a field, with strings held by their characters.
pub enum FieldModel {
    Null,
    Scalar(ScalarModel),
    Array(Seq<ScalarModel>),
    StrMap(Seq<(Seq<char>, Seq<char>)>),
}

/// The models of a list of scalar values.
pub open spec fn models(items: Seq<ScalarValue>) -> Seq<ScalarModel> {
    Seq::new(items.len(), |i: int| items[i]@)
}

/// The models of a list of pairs of strings.
pub open spec fn pair_models(pairs: Seq<(String, String)>) -> Seq<(Seq<char>, Seq<char>)> {
    Seq::new(pairs.len(), |i: int| (pairs[i].0@, pairs[i].1@))
}

impl View for FieldValue {
    type V = FieldModel;

    open spec fn view(&self) -> FieldModel {
        match self {
            FieldValue::Null => FieldModel::Null,
            FieldValue::Scalar(x) => FieldModel::Scalar(x@),
            FieldValue::Array(items) => FieldModel::Array(models(items@)),
            FieldValue::StrMap(pairs) => FieldModel::StrMap(pair_models(pairs@)),
        }
    }
}

/// Whether every item is of the kind and has an encoding.
pub open spec fn items_fit(kind: &ScalarKind, items: Seq<ScalarModel>) -> bool {
    forall|i: int| 0 <= i < items.len() ==> scalar_fits(kind, #[trigger] items[i])
}

/// The encodings of the items, one after the other.
pub open spec fn items_bytes(kind: &ScalarKind, items: Seq<ScalarModel>) -> Seq<u8>
    decreases items.len(),
{
    if items.len() == 0 {
        Seq::empty()
    } else {
        scalar_bytes(kind, items[0]) + items_bytes(kind, items.drop_first())
    }
}

/// `count` items of a kind at the start of `s`, with the number of bytes that they take.
pub open spec fn parse_items(kind: &ScalarKind, s: Seq<u8>, count: nat) -> Result<
    (Seq<ScalarModel>, nat),
    WireError,
>
    decreases count,
{
    if count == 0 {
        Ok((Seq::empty(), 0))
    } else {
        match parse_scalar(kind, s) {
            Ok((v, n)) => match parse_items(kind, s.skip(n as int), (count - 1) as nat) {
                Ok((rest, m)) => Ok((seq![v] + rest, n + m)),
                Err(e) => Err(e),
            },
            Err(e) => Err(e),
        }
    }
}

/// Whether a string has an encoding: its bytes can be counted in 4 bytes.
pub open spec fn text_fits(s: Seq<char>) -> bool {
    encode_utf8(s).len() <= u32::MAX
}

/// Whether every key and value has an encoding.
pub open spec fn pairs_fit(pairs: Seq<(Seq<char>, Seq<char>)>) -> bool {
    forall|i: int|
        0 <= i < pairs.len() ==> text_fits((#[trigger] pairs[i]).0) && text_fits(pairs[i].1)
}

/// The encodings of the pairs, one after the other: each key, then its value.
pub open spec fn pairs_bytes(pairs: Seq<(Seq<char>, Seq<char>)>) -> Seq<u8>
    decreases pairs.len(),
{
    if pairs.len() == 0 {
        Seq::empty()
    } else {
        string_bytes(pairs[0].0) + string_bytes(pairs[0].1) + pairs_bytes(pairs.drop_first())
    }
}

/// `count` pairs of strings at the start of `s`, with the number of bytes that they take.
pub open spec fn parse_pairs(s: Seq<u8>, count: nat) -> Result<
    (Seq<(Seq<char>, Seq<char>)>, nat),
    WireError,
>
    decreases count,
{
    if count == 0 {
        Ok((Seq::empty(), 0))
    } else {
        match parse_string(s) {
            (Ok(k), n) => match parse_string(s.skip(n as int)) {
                (Ok(v), m) => match parse_pairs(s.skip((n + m) as int), (count - 1) as nat) {
                    Ok((rest, used)) => Ok((seq![(k, v)] + rest, n + m + used)),
                    Err(e) => Err(e),
                },
                (Err(e), _) => Err(e),
            },
            (Err(e), _) => Err(e),
        }
    }
}

/// Whether a value that is not null is of a kind and has an encoding.
pub open spec fn body_fits(kind: &FieldKind, v: FieldModel) -> bool {
    match (kind, v) {
        (FieldKind::Scalar(k), FieldModel::Scalar(x)) => scalar_fits(k, x),
        (FieldKind::Array(k), FieldModel::Array(items)) => items_fit(k, items) && items.len()
            <= u64::MAX,
        (FieldKind::StrMap, FieldModel::StrMap(pairs)) => pairs_fit(pairs) && pairs.len()
            <= u64::MAX,
        _ => false,
    }
}

/// The encoding of a value that is not null.
pub open spec fn body_bytes(kind: &FieldKind, v: FieldModel) -> Seq<u8> {
    match (kind, v) {
        (FieldKind::Scalar(k), FieldModel::Scalar(x)) => scalar_bytes(k, x),
        (FieldKind::Array(k), FieldModel::Array(items)) => le_bytes(items.len(), 8) + items_bytes(
            k,
            items,
        ),
        (_, FieldModel::StrMap(pairs)) => le_bytes(pairs.len(), 8) + pairs_bytes(pairs),
        _ => Seq::empty(),
    }
}

/// A value of a kind at the start of `s`, with the number of bytes that it takes.
pub open spec fn parse_body(kind: &FieldKind, s: Seq<u8>) -> Result<(FieldModel, nat), WireError> {
    match kind {
        FieldKind::Scalar(k) => match parse_scalar(k, s) {
            Ok((v, n)) => Ok((FieldModel::Scalar(v), n)),
            Err(e) => Err(e),
        },
        FieldKind::Array(k) => match parse_uint(s, 8).0 {
            Ok(count) => match parse_items(k, s.skip(8), count) {
                Ok((items, n)) => Ok((FieldModel::Array(items), 8 + n)),
                Err(e) => Err(e),
            },
            Err(e) => Err(e),
        },
        FieldKind::StrMap => match parse_uint(s, 8).0 {
            Ok(count) => match parse_pairs(s.skip(8), count) {
                Ok((pairs, n)) => Ok((FieldModel::StrMap(pairs), 8 + n)),
                Err(e) => Err(e),
            },
            Err(e) => Err(e),
        },
    }
}

/// Whether a value can stand in a field: null only where the field is nullable, else a
/// value of the field's kind.
pub open spec fn field_fits(kind: &FieldKind, nullable: bool, v: FieldModel) -> bool {
    match v {
        FieldModel::Null => nullable,
        _ => body_fits(kind, v),
    }
}

/// The encoding of a field. A nullable field starts with its presence byte: 0 where the
/// value follows, 1 where the field is null.
pub open spec fn field_bytes(kind: &FieldKind, nullable: bool, v: FieldModel) -> Seq<u8> {
    if nullable {
        match v {
            FieldModel::Null => seq![1u8],
            _ => seq![0u8] + body_bytes(kind, v),
        }
    } else {
        body_bytes(kind, v)
    }
}

/// A field at the start of `s`, with the number of bytes that it takes. Any presence byte
/// other than 0 says that the field is null.
pub open spec fn parse_field(kind: &FieldKind, nullable: bool, s: Seq<u8>) -> Result<
    (FieldModel, nat),
    WireError,
> {
    if nullable {
        if s.len() < 1 {
            Err(WireError::Underflow)
        } else if s[0] != 0 {
            Ok((FieldModel::Null, 1))
        } else {
            match parse_body(kind, s.skip(1)) {
                Ok((v, n)) => Ok((v, n + 1)),
                Err(e) => Err(e),
            }
        }
    } else {
        parse_body(kind, s)
    }
}

/// Decoding items from their encodings gives the items back, whatever follows them.
pub proof fn lemma_items_roundtrip(kind: &ScalarKind, items: Seq<ScalarModel>, tail: Seq<u8>)
    requires
        items_fit(kind, items),
    ensures
        parse_items(kind, items_bytes(kind, items) + tail, items.len()) == Ok::<
            (Seq<ScalarModel>, nat),
            WireError,
        >((items, items_bytes(kind, items).len())),
    decreases items.len(),
{
    if items.len() == 0 {
        assert(items =~= Seq::<ScalarModel>::empty());
    } else {
        let head = scalar_bytes(kind, items[0]);
        let rest = items.drop_first();
        let rest_bytes = items_bytes(kind, rest);
        let all = items_bytes(kind, items) + tail;
        assert(scalar_fits(kind, items[0]));
        assert(all =~= head + (rest_bytes + tail));
        lemma_scalar_roundtrip(kind, items[0], rest_bytes + tail);
        assert(all.skip(head.len() as int) =~= rest_bytes + tail);
        assert(items_fit(kind, rest)) by {
            assert forall|i: int| 0 <= i < rest.len() implies scalar_fits(
                kind,
                #[trigger] rest[i],
            ) by {
                assert(rest[i] == items[i + 1]);
            }
        }
        lemma_items_roundtrip(kind, rest, tail);
        assert(seq![items[0]] + rest =~= items);
    }
}

/// Decoding a key and a value from their encodings gives both back, and what follows them
/// is left.
proof fn lemma_pair_roundtrip(k: Seq<char>, v: Seq<char>, tail: Seq<u8>)
    requires
        text_fits(k),
        text_fits(v),
    ensures
        ({
            let all = string_bytes(k) + string_bytes(v) + tail;
            let n = string_bytes(k).len();
            let m = string_bytes(v).len();
            &&& parse_string(all) == (Ok::<Seq<char>, WireError>(k), n)
            &&& parse_string(all.skip(n as int)) == (Ok::<Seq<char>, WireError>(v), m)
            &&& all.skip((n + m) as int) == tail
        }),
{
    let kb = string_bytes(k);
    let vb = string_bytes(v);
    let all = kb + vb + tail;
    lemma_le_bytes_len(encode_utf8(k).len(), 4);
    lemma_le_bytes_len(encode_utf8(v).len(), 4);
    assert(all =~= kb + (vb + tail));
    lemma_string_roundtrip(k, vb + tail);
    assert(all.skip(kb.len() as int) =~= vb + tail);
    lemma_string_roundtrip(v, tail);
    assert(all.skip((kb.len() + vb.len()) as int) =~= tail);
}

/// Decoding pairs from their encodings gives the pairs back, whatever follows them.
#[verifier::rlimit(40)]
pub proof fn lemma_pairs_roundtrip(pairs: Seq<(Seq<char>, Seq<char>)>, tail: Seq<u8>)
    requires
        pairs_fit(pairs),
    ensures
        parse_pairs(pairs_bytes(pairs) + tail, pairs.len()) == Ok::<
            (Seq<(Seq<char>, Seq<char>)>, nat),
            WireError,
        >((pairs, pairs_bytes(pairs).len())),
    decreases pairs.len(),
{
    if pairs.len() == 0 {
        assert(pairs =~= Seq::<(Seq<char>, Seq<char>)>::empty());
    } else {
        let k = pairs[0].0;
        let v = pairs[0].1;
        let rest = pairs.drop_first();
        let rest_bytes = pairs_bytes(rest);
        let all = pairs_bytes(pairs) + tail;
        assert(text_fits(pairs[0].0) && text_fits(pairs[0].1));
        assert(all =~= string_bytes(k) + string_bytes(v) + (rest_bytes + tail));
        lemma_pair_roundtrip(k, v, rest_bytes + tail);
        assert(pairs_fit(rest)) by {
            assert forall|i: int| 0 <= i < rest.len() implies text_fits((#[trigger] rest[i]).0)
                && text_fits(rest[i].1) by {
                assert(rest[i] == pairs[i + 1]);
            }
        }
        lemma_pairs_roundtrip(rest, tail);
        assert(seq![pairs[0]] + rest =~= pairs);
        assert(pairs_bytes(pairs).len() == string_bytes(k).len() + string_bytes(v).len()
            + rest_bytes.len());
    }
}

/// Decoding a value that is not null from its encoding gives the value back, whatever
/// follows it.
#[verifier::rlimit(40)]
pub proof fn lemma_body_roundtrip(kind: &FieldKind, v: FieldModel, tail: Seq<u8>)
    requires
        body_fits(kind, v),
    ensures
        parse_body(kind, body_bytes(kind, v) + tail) == Ok::<(FieldModel, nat), WireError>(
            (v, body_bytes(kind, v).len()),
        ),
{
    let body = body_bytes(kind, v);
    match (kind, v) {
        (FieldKind::Scalar(k), FieldModel::Scalar(x)) => {
            lemma_scalar_roundtrip(k, x, tail);
        },
        (FieldKind::Array(k), FieldModel::Array(items)) => {
            lemma_pow256_values();
            let count = le_bytes(items.len(), 8);
            let inner = items_bytes(k, items);
            lemma_le_bytes_len(items.len(), 8);
            assert(body + tail =~= count + (inner + tail));
            lemma_uint_roundtrip(items.len(), 8, inner + tail);
            assert((body + tail).skip(8) =~= inner + tail);
            lemma_items_roundtrip(k, items, tail);
        },
        (FieldKind::StrMap, FieldModel::StrMap(pairs)) => {
            lemma_pow256_values();
            let count = le_bytes(pairs.len(), 8);
            let inner = pairs_bytes(pairs);
            lemma_le_bytes_len(pairs.len(), 8);
            assert(body + tail =~= count + (inner + tail));
            lemma_uint_roundtrip(pairs.len(), 8, inner + tail);
            assert((body + tail).skip(8) =~= inner + tail);
            lemma_pairs_roundtrip(pairs, tail);
        },
        _ => {},
    }
}

/// Decoding a field from its encoding gives the field's value back, whatever follows it:
/// for every kind of field, nullable or not, and every value that can stand in it.
pub proof fn lemma_field_roundtrip(kind: &FieldKind, nullable: bool, v: FieldModel, tail: Seq<u8>)
    requires
        field_fits(kind, nullable, v),
    ensures
        parse_field(kind, nullable, field_bytes(kind, nullable, v) + tail) == Ok::<
            (FieldModel, nat),
            WireError,
        >((v, field_bytes(kind, nullable, v).len())),
{
    let all = field_bytes(kind, nullable, v) + tail;
    if !(v is Null) {
        let body = body_bytes(kind, v);
        lemma_body_roundtrip(kind, v, tail);
        if nullable {
            assert(all.skip(1) =~= body + tail);
            assert(all[0] == 0u8);
        } else {
            assert(all =~= body + tail);
        }
    } else {
        assert(all[0] == 1u8);
    }
}

/// A value that was decoded takes no more bytes than there are.
pub proof fn lemma_parse_scalar_bound(kind: &ScalarKind, s: Seq<u8>)
    ensures
        parse_scalar(kind, s) matches Ok((_, n)) ==> 0 < n <= s.len(),
{
}

/// The items `prefix` and the `used` bytes that they took, followed by what `r` holds.
pub open spec fn join<T>(prefix: Seq<T>, used: nat, r: Result<(Seq<T>, nat), WireError>) -> Result<
    (Seq<T>, nat),
    WireError,
> {
    match r {
        Ok((rest, n)) => Ok((prefix + rest, used + n)),
        Err(e) => Err(e),
    }
}

/// Joining to a list with one more item is joining to the list what starts with that item.
pub proof fn lemma_join_push<T>(
    prefix: Seq<T>,
    used: nat,
    v: T,
    n: nat,
    tail: Result<(Seq<T>, nat), WireError>,
)
    ensures
        join(prefix.push(v), used + n, tail) == join(
            prefix,
            used,
            match tail {
                Ok((rest, m)) => Ok((seq![v] + rest, n + m)),
                Err(e) => Err(e),
            },
        ),
{
    match tail {
        Ok((rest, m)) => {
            assert(prefix + (seq![v] + rest) =~= prefix.push(v) + rest);
        },
        Err(_) => {},
    }
}

/// Whether every item of a list is of a kind and has an encoding.
pub fn check_items(kind: &ScalarKind, items: &[ScalarValue]) -> (r: bool)
    ensures
        r == items_fit(kind, models(items@)),
{
    let mut i: usize = 0;
    while i < items.len()
        invariant
            i <= items@.len(),
            forall|j: int| 0 <= j < i ==> scalar_fits(kind, #[trigger] models(items@)[j]),
        decreases items@.len() - i,
    {
        if !check_scalar(kind, &items[i]) {
            proof {
                assert(!scalar_fits(kind, models(items@)[i as int]));
            }
            return false;
        }
        i = i + 1;
    }
    true
}

/// Whether every key and value of a list of pairs has an encoding.
pub fn check_pairs(pairs: &[(String, String)]) -> (r: bool)
    ensures
        r == pairs_fit(pair_models(pairs@)),
{
    let mut i: usize = 0;
    while i < pairs.len()
        invariant
            i <= pairs@.len(),
            forall|j: int|
                0 <= j < i ==> text_fits((#[trigger] pair_models(pairs@)[j]).0) && text_fits(
                    pair_models(pairs@)[j].1,
                ),
        decreases pairs@.len() - i,
    {
        let pair = &pairs[i];
        if pair.0.as_str().as_bytes().len() > 0xFFFF_FFFF || pair.1.as_str().as_bytes().len()
            > 0xFFFF_FFFF {
            proof {
                let m = pair_models(pairs@)[i as int];
                assert(!(text_fits(m.0) && text_fits(m.1)));
            }
            return false;
        }
        i = i + 1;
    }
    true
}

/// Whether a value can stand in a field of the given kind and nullability.
pub fn check_field(kind: &FieldKind, nullable: bool, v: &FieldValue) -> (r: bool)
    ensures
        r == field_fits(kind, nullable, v@),
{
    match v {
        FieldValue::Null => nullable,
        FieldValue::Scalar(x) => match kind {
            FieldKind::Scalar(k) => check_scalar(k, x),
            _ => false,
        },
        FieldValue::Array(items) => match kind {
            FieldKind::Array(k) => {
                let n: usize = items.len();
                assert(models(items@).len() == n);
                check_items(k, items.as_slice())
            },
            _ => false,
        },
        FieldValue::StrMap(pairs) => match kind {
            FieldKind::StrMap => {
                let n: usize = pairs.len();
                assert(pair_models(pairs@).len() == n);
                check_pairs(pairs.as_slice())
            },
            _ => false,
        },
    }
}

/// Appends the encodings of the items of an array.
fn write_items(out: &mut Vec<u8>, kind: &ScalarKind, items: &[ScalarValue])
    requires
        items_fit(kind, models(items@)),
    ensures
        final(out)@ == old(out)@ + items_bytes(kind, models(items@)),
{
    let ghost all = models(items@);
    let mut i: usize = 0;
    proof {
        assert(all.skip(0) =~= all);
    }
    while i < items.len()
        invariant
            i <= items@.len(),
            all == models(items@),
            items_fit(kind, all),
            out@ + items_bytes(kind, all.skip(i as int)) == old(out)@ + items_bytes(kind, all),
        decreases items@.len() - i,
    {
        let ghost before = out@;
        proof {
            assert(scalar_fits(kind, all[i as int]));
            assert(all.skip(i as int)[0] == all[i as int]);
            assert(all.skip(i as int).drop_first() =~= all.skip(i + 1));
        }
        write_scalar(out, kind, &items[i]);
        proof {
            assert(before + scalar_bytes(kind, all[i as int]) + items_bytes(kind, all.skip(i + 1))
                =~= before + items_bytes(kind, all.skip(i as int)));
        }
        i = i + 1;
    }
    proof {
        assert(out@ + items_bytes(kind, all.skip(items@.len() as int)) =~= out@);
    }
}

/// Appends the encodings of the pairs of a map.
fn write_pairs(out: &mut Vec<u8>, pairs: &[(String, String)])
    requires
        pairs_fit(pair_models(pairs@)),
    ensures
        final(out)@ == old(out)@ + pairs_bytes(pair_models(pairs@)),
{
    let ghost all = pair_models(pairs@);
    let mut i: usize = 0;
    proof {
        assert(all.skip(0) =~= all);
    }
    while i < pairs.len()
        invariant
            i <= pairs@.len(),
            all == pair_models(pairs@),
            pairs_fit(all),
            out@ + pairs_bytes(all.skip(i as int)) == old(out)@ + pairs_bytes(all),
        decreases pairs@.len() - i,
    {
        let ghost before = out@;
        proof {
            assert(text_fits(all[i as int].0) && text_fits(all[i as int].1));
            assert(all.skip(i as int)[0] == all[i as int]);
            assert(all.skip(i as int).drop_first() =~= all.skip(i + 1));
        }
        let pair = &pairs[i];
        let r1 = write_string(out, pair.0.as_str());
        let r2 = write_string(out, pair.1.as_str());
        proof {
            assert(r1 is Ok && r2 is Ok);
            assert(before + string_bytes(all[i as int].0) + string_bytes(all[i as int].1)
                + pairs_bytes(all.skip(i + 1)) =~= before + pairs_bytes(all.skip(i as int)));
        }
        i = i + 1;
    }
    proof {
        assert(out@ + pairs_bytes(all.skip(pairs@.len() as int)) =~= out@);
    }
}

/// Appends the encoding of a field's value.
pub fn write_field(out: &mut Vec<u8>, kind: &FieldKind, nullable: bool, v: &FieldValue)
    requires
        field_fits(kind, nullable, v@),
    ensures
        final(out)@ == old(out)@ + field_bytes(kind, nullable, v@),
{
    let ghost before = out@;
    if nullable {
        match v {
            FieldValue::Null => {
                out.push(1u8);
                proof {
                    assert(out@ =~= before + field_bytes(kind, nullable, v@));
                }
                return ;
            },
            _ => {
                out.push(0u8);
            },
        }
    }
    let ghost head = out@;
    match (kind, v) {
        (FieldKind::Scalar(k), FieldValue::Scalar(x)) => {
            write_scalar(out, k, x);
        },
        (FieldKind::Array(k), FieldValue::Array(items)) => {
            write_le(out, items.len() as u128, 8);
            write_items(out, k, items.as_slice());
            proof {
                assert(out@ =~= head + body_bytes(kind, v@));
            }
        },
        (FieldKind::StrMap, FieldValue::StrMap(pairs)) => {
            write_le(out, pairs.len() as u128, 8);
            write_pairs(out, pairs.as_slice());
            proof {
                assert(out@ =~= head + body_bytes(kind, v@));
            }
        },
        _ => {},
    }
    proof {
        assert(out@ =~= before + field_bytes(kind, nullable, v@));
    }
}

/// Appends the encoding of a field's value, where the value can stand in the field.
/// A value that cannot is refused with `TypeMismatch`, and `out` is left as it was.
pub fn encode_field(out: &mut Vec<u8>, kind: &FieldKind, nullable: bool, v: &FieldValue) -> (r:
    RowBinaryResult)
    ensures
        match r {
            Ok(()) => field_fits(kind, nullable, v@) && final(out)@ == old(out)@ + field_bytes(
                kind,
                nullable,
                v@,
            ),
            Err(e) => e == WireError::TypeMismatch && !field_fits(kind, nullable, v@)
                && final(out)@ == old(out)@,
        },
{
    if !check_field(kind, nullable, v) {
        return Err(WireError::TypeMismatch);
    }
    write_field(out, kind, nullable, v);
    Ok(())
}

/// Whether a decoded list is the one that the model gives, or the same error.
pub open spec fn same_items(
    r: Result<Vec<ScalarValue>, WireError>,
    m: Result<(Seq<ScalarModel>, nat), WireError>,
) -> bool {
    match (r, m) {
        (Ok(a), Ok(b)) => models(a@) == b.0,
        (Err(a), Err(b)) => a == b,
        _ => false,
    }
}

/// Decodes `count` items of a kind. Nothing is set aside for items that the buffer does
/// not hold.
#[verifier::rlimit(40)]
fn read_items(cur: &mut RowBinCursor<'_>, kind: &ScalarKind, count: u64) -> (r: Result<
    Vec<ScalarValue>,
    WireError,
>)
    ensures
        same_items(r, parse_items(kind, old(cur).rest(), count as nat)),
        final(cur).buf == old(cur).buf,
        r is Ok ==> final(cur).pos == old(cur).pos + parse_items(
            kind,
            old(cur).rest(),
            count as nat,
        )->Ok_0.1 && final(cur).rest() == old(cur).rest().skip(
            parse_items(kind, old(cur).rest(), count as nat)->Ok_0.1 as int,
        ),
{
    let ghost start = cur.rest();
    let ghost used: nat = 0;
    let mut items: Vec<ScalarValue> = Vec::new();
    let mut i: u64 = 0;
    proof {
        assert(start.skip(0) =~= start);
        match parse_items(kind, start, count as nat) {
            Ok((rest, n)) => {
                assert(models(items@) + rest =~= rest);
            },
            Err(_) => {},
        }
    }
    while i < count
        invariant
            i <= count,
            cur.buf == old(cur).buf,
            cur.pos == old(cur).pos + used,
            cur.rest() == start.skip(used as int),
            start == old(cur).rest(),
            join(models(items@), used, parse_items(kind, cur.rest(), (count - i) as nat))
                == parse_items(kind, start, count as nat),
        decreases count - i,
    {
        let ghost before = *cur;
        let ghost prefix = models(items@);
        let r = read_scalar(cur, kind);
        match r {
            Ok(v) => {
                proof {
                    let n = parse_scalar(kind, before.rest())->Ok_0.1;
                    lemma_parse_scalar_bound(kind, before.rest());
                    lemma_moved_rest(&before, &*cur, n);
                    assert(start.skip(used as int).skip(n as int) =~= start.skip((used + n) as int));
                    lemma_join_push(
                        prefix,
                        used,
                        v@,
                        n,
                        parse_items(kind, before.rest().skip(n as int), (count - i - 1) as nat),
                    );
                    used = used + n;
                }
                items.push(v);
                proof {
                    assert(models(items@) =~= prefix.push(v@));
                }
            },
            Err(e) => {
                return Err(e);
            },
        }
        i = i + 1;
    }
    proof {
        assert(models(items@) + Seq::<ScalarModel>::empty() =~= models(items@));
    }
    Ok(items)
}

/// A string that was decoded takes no more bytes than there are.
pub proof fn lemma_parse_string_bound(s: Seq<u8>)
    ensures
        parse_string(s).0 is Ok ==> 4 <= parse_string(s).1 <= s.len(),
{
}

/// Whether a decoded list of pairs is the one that the model gives, or the same error.
pub open spec fn same_pairs(
    r: Result<Vec<(String, String)>, WireError>,
    m: Result<(Seq<(Seq<char>, Seq<char>)>, nat), WireError>,
) -> bool {
    match (r, m) {
        (Ok(a), Ok(b)) => pair_models(a@) == b.0,
        (Err(a), Err(b)) => a == b,
        _ => false,
    }
}

/// Decodes `count` pairs of strings.
#[verifier::rlimit(40)]
fn read_pairs(cur: &mut RowBinCursor<'_>, count: u64) -> (r: Result<
    Vec<(String, String)>,
    WireError,
>)
    ensures
        same_pairs(r, parse_pairs(old(cur).rest(), count as nat)),
        final(cur).buf == old(cur).buf,
        r is Ok ==> final(cur).pos == old(cur).pos + parse_pairs(
            old(cur).rest(),
            count as nat,
        )->Ok_0.1 && final(cur).rest() == old(cur).rest().skip(
            parse_pairs(old(cur).rest(), count as nat)->Ok_0.1 as int,
        ),
{
    let ghost start = cur.rest();
    let ghost used: nat = 0;
    let mut pairs: Vec<(String, String)> = Vec::new();
    let mut i: u64 = 0;
    proof {
        assert(start.skip(0) =~= start);
        match parse_pairs(start, count as nat) {
            Ok((rest, n)) => {
                assert(pair_models(pairs@) + rest =~= rest);
            },
            Err(_) => {},
        }
    }
    while i < count
        invariant
            i <= count,
            cur.buf == old(cur).buf,
            cur.pos == old(cur).pos + used,
            cur.rest() == start.skip(used as int),
            start == old(cur).rest(),
            join(pair_models(pairs@), used, parse_pairs(cur.rest(), (count - i) as nat))
                == parse_pairs(start, count as nat),
        decreases count - i,
    {
        let ghost before = *cur;
        let ghost prefix = pair_models(pairs@);
        let ghost n = parse_string(before.rest()).1;
        let key = match cur.read_string() {
            Ok(k) => k,
            Err(e) => {
                return Err(e);
            },
        };
        proof {
            lemma_parse_string_bound(before.rest());
            lemma_moved_rest(&before, &*cur, n);
        }
        let ghost middle = *cur;
        let ghost m = parse_string(middle.rest()).1;
        let value = match cur.read_string() {
            Ok(v) => v,
            Err(e) => {
                return Err(e);
            },
        };
        proof {
            lemma_parse_string_bound(middle.rest());
            lemma_moved_rest(&middle, &*cur, m);
            assert(before.rest().skip(n as int).skip(m as int) =~= before.rest().skip(
                (n + m) as int,
            ));
            assert(start.skip(used as int).skip((n + m) as int) =~= start.skip(
                (used + n + m) as int,
            ));
            lemma_join_push(
                prefix,
                used,
                (key@, value@),
                n + m,
                parse_pairs(before.rest().skip((n + m) as int), (count - i - 1) as nat),
            );
            used = used + n + m;
        }
        pairs.push((key, value));
        proof {
            assert(pair_models(pairs@) =~= prefix.push((key@, value@)));
        }
        i = i + 1;
    }
    proof {
        assert(pair_models(pairs@) + Seq::<(Seq<char>, Seq<char>)>::empty() =~= pair_models(
            pairs@,
        ));
    }
    Ok(pairs)
}

/// Whether a decoded field is the one that the model gives, or the same error.
pub open spec fn same_field(
    r: Result<FieldValue, WireError>,
    m: Result<(FieldModel, nat), WireError>,
) -> bool {
    match (r, m) {
        (Ok(a), Ok(b)) => a@ == b.0,
        (Err(a), Err(b)) => a == b,
        _ => false,
    }
}

/// Decodes a value that is not null.
fn read_body(cur: &mut RowBinCursor<'_>, kind: &FieldKind) -> (r: Result<FieldValue, WireError>)
    ensures
        same_field(r, parse_body(kind, old(cur).rest())),
        final(cur).buf == old(cur).buf,
        r is Ok ==> final(cur).pos == old(cur).pos + parse_body(kind, old(cur).rest())->Ok_0.1,
{
    match kind {
        FieldKind::Scalar(k) => {
            let v = read_scalar(cur, k)?;
            Ok(FieldValue::Scalar(v))
        },
        FieldKind::Array(k) => {
            let ghost before = *cur;
            let count: u64 = cur.read_u64()?;
            proof {
                lemma_moved_rest(&before, &*cur, 8);
            }
            let items = read_items(cur, k, count)?;
            Ok(FieldValue::Array(items))
        },
        FieldKind::StrMap => {
            let ghost before = *cur;
            let count: u64 = cur.read_u64()?;
            proof {
                lemma_moved_rest(&before, &*cur, 8);
            }
            let pairs = read_pairs(cur, count)?;
            Ok(FieldValue::StrMap(pairs))
        },
    }
}

/// Decodes the value of a field at the cursor. On success the cursor stands behind the
/// field. Decoding stops at the first error, and nothing of the field is returned then.
pub fn decode_field(cur: &mut RowBinCursor<'_>, kind: &FieldKind, nullable: bool) -> (r: Result<
    FieldValue,
    WireError,
>)
    ensures
        same_field(r, parse_field(kind, nullable, old(cur).rest())),
        final(cur).buf == old(cur).buf,
        r is Ok ==> final(cur).pos == old(cur).pos + parse_field(
            kind,
            nullable,
            old(cur).rest(),
        )->Ok_0.1,
{
    if nullable {
        let ghost before = *cur;
        let presence: u8 = cur.read_u8()?;
        if presence != 0 {
            return Ok(FieldValue::Null);
        }
        proof {
            lemma_moved_rest(&before, &*cur, 1);
        }
        read_body(cur, kind)
    } else {
        read_body(cur, kind)
    }
}

/// Items that were decoded take no more bytes than there are.
pub proof fn lemma_parse_items_bound(kind: &ScalarKind, s: Seq<u8>, count: nat)
    ensures
        parse_items(kind, s, count) matches Ok((_, n)) ==> n <= s.len(),
    decreases count,
{
    if count > 0 {
        lemma_parse_scalar_bound(kind, s);
        if let Ok((_, n)) = parse_scalar(kind, s) {
            lemma_parse_items_bound(kind, s.skip(n as int), (count - 1) as nat);
        }
    }
}

/// Pairs that were decoded take no more bytes than there are.
pub proof fn lemma_parse_pairs_bound(s: Seq<u8>, count: nat)
    ensures
        parse_pairs(s, count) matches Ok((_, n)) ==> n <= s.len(),
    decreases count,
{
    if count > 0 {
        lemma_parse_string_bound(s);
        if parse_string(s).0 is Ok {
            let n = parse_string(s).1;
            lemma_parse_string_bound(s.skip(n as int));
            if parse_string(s.skip(n as int)).0 is Ok {
                let m = parse_string(s.skip(n as int)).1;
                lemma_parse_pairs_bound(s.skip((n + m) as int), (count - 1) as nat);
            }
        }
    }
}

/// A value that was decoded takes no more bytes than there are.
pub proof fn lemma_parse_body_bound(kind: &FieldKind, s: Seq<u8>)
    ensures
        parse_body(kind, s) matches Ok((_, n)) ==> n <= s.len(),
{
    match kind {
        FieldKind::Scalar(k) => {
            lemma_parse_scalar_bound(k, s);
        },
        FieldKind::Array(k) => {
            if let Ok(count) = parse_uint(s, 8).0 {
                lemma_parse_items_bound(k, s.skip(8), count);
            }
        },
        FieldKind::StrMap => {
            if let Ok(count) = parse_uint(s, 8).0 {
                lemma_parse_pairs_bound(s.skip(8), count);
            }
        },
    }
}

} // verus!

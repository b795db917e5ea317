//! The errors of the wire codec and of schema reconciliation.
use vstd::prelude::*;
use vstd::string::StringExecFns;
use crate::wire::schema::Schema;

verus! {

/// Why a buffer could not be decoded or a value not be encoded.
#[derive(Clone, Copy, Debug, PartialEq, Eq, Structural)]
pub enum WireError {
    /// The buffer is shorter than the frame header.
    ShortFrame,
    /// The buffer ends before the declared structure does.
    Underflow,
    /// The frame names an encoding that is not known.
    UnknownEncoding,
    /// The bytes of a string are not UTF-8.
    Utf8Error,
    /// The integer is none of the field's declared variants.
    InvalidDiscriminant,
    /// The frame carries another event hash than the target type.
    EvtHashMismatch,
    /// The frame carries another field count than the target type.
    FieldCountMismatch,
    /// The value is not of the field's declared type.
    TypeMismatch,
}

impl WireError {
    /// The text of the error.
    pub open spec fn text(self) -> Seq<char> {
        match self {
            WireError::ShortFrame => "short envelope"@,
            WireError::Underflow => "buffer underflow"@,
            WireError::UnknownEncoding => "unknown encoding"@,
            WireError::Utf8Error => "invalid utf-8 sequence"@,
            WireError::InvalidDiscriminant => "invalid enum value"@,
            WireError::EvtHashMismatch => "wrong event hash"@,
            WireError::FieldCountMismatch => "field count mismatch"@,
            WireError::TypeMismatch => "value has incompatible type"@,
        }
    }

    /// The text of the error, as a string.
    pub fn to_string(&self) -> (s: String)
        ensures
            s@ == self.text(),
    {
        match self {
            WireError::ShortFrame => String::from_str("short envelope"),
            WireError::Underflow => String::from_str("buffer underflow"),
            WireError::UnknownEncoding => String::from_str("unknown encoding"),
            WireError::Utf8Error => String::from_str("invalid utf-8 sequence"),
            WireError::InvalidDiscriminant => String::from_str("invalid enum value"),
            WireError::EvtHashMismatch => String::from_str("wrong event hash"),
            WireError::FieldCountMismatch => String::from_str("field count mismatch"),
            WireError::TypeMismatch => String::from_str("value has incompatible type"),
        }
    }
}

/// Why a row could not be read as a typed view.
#[derive(Debug)]
#[allow(inconsistent_fields)]
pub enum ViewError {
    /// The schema is of another event than the target type.
    EvtHashMismatch { expected: [u8; 32], got: [u8; 32] },
    /// The schema or the row has another number of fields than the target type.
    FieldCountMismatch { expected: usize, got: usize },
    /// The schema names a field otherwise than the target type.
    FieldNameMismatch { index: usize, expected: &'static str, got: String },
    /// A slot is of another kind than the field of the target type.
    TypeMismatch { field: &'static str },
    /// A slot is missing and the field is not nullable.
    MissingNotAllowed { field: &'static str },
    /// Any other failure, in words.
    Custom { msg: String },
}

impl ViewError {
    /// An error with a message of the caller's.
    pub fn custom(msg: &str) -> (e: ViewError)
        ensures
            e matches ViewError::Custom { msg: m } && m@ == msg@,
    {
        ViewError::Custom { msg: String::from_str(msg) }
    }

    /// The error itself: the schema adds nothing to it.
    pub fn with_schema(self, _schema: &Schema) -> (e: ViewError)
        ensures
            e == self,
    {
        self
    }
}

} // verus!

//! Why a declaration cannot be turned into a descriptor.
use vstd::prelude::*;

verus! {

/// An error in a declaration. `index` is the place of the field or variant at fault.
#[derive(Debug, Clone, Copy, PartialEq, Eq, Structural)]
pub enum DescriptorError {
    /// The variant carries data.
    NonUnitVariant { index: usize },
    /// The value after the preceding one does not fit 16 bits.
    ValueOverflow { index: usize },
    /// The enumeration has no variants.
    NoVariants,
    /// The label was used by an earlier variant.
    DuplicateLabel { index: usize },
    /// The value was used by an earlier variant.
    DuplicateValue { index: usize },
    /// The field is annotated but names no operation.
    MissingOp { index: usize },
    /// The operation is not known.
    UnknownOperation { index: usize },
    /// The operation takes an argument and has none.
    MissingArgument { index: usize },
    /// The operation is neither a name nor a call.
    InvalidExpression { index: usize },
    /// The level is not known.
    UnknownLevel { index: usize },
    /// More bits are needed than a mask has.
    TooManyBits,
    /// The predicate is not known.
    UnknownPredicate,
    /// The predicate is not written as a call.
    ExpectedCall,
    /// The argument is no number.
    ExpectedNumber,
    /// The argument is no unsigned integer.
    ExpectedUnsigned,
    /// The argument is no string.
    ExpectedString,
    /// The entry is not of the form that its list asks for.
    MalformedEntry { index: usize },
    /// The schema names no table.
    MissingTable,
    /// The table's name is not in snake case, or not of 3 to 48 bytes.
    BadTableName,
    /// No field is a key.
    MissingKey,
    /// The field is a key and a map of tags or of metadata.
    KeyOnMap { index: usize },
    /// The field holds tags or metadata and is no map from strings to strings.
    MapTypeRequired { index: usize },
    /// The entry of the ordering names no field.
    UnknownOrderField { index: usize },
    /// The field's enumeration is backed by a type that is not known.
    UnknownEnumType { index: usize },
    /// The field's type has no column type.
    UnsupportedType { index: usize },
}

} // verus!

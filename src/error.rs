//! Errors of the codec.
use vstd::prelude::*;
use crate::native::AtomKind;

verus! {

/// What a conversion expected to find in a native value.
#[derive(Clone, Copy, PartialEq, Eq, Structural, Debug)]
pub enum Expected {
    /// An atom of this kind.
    Atom(AtomKind),
    /// A simple list of this kind.
    List(AtomKind),
    /// A string.
    Chars,
    /// A byte list.
    Bytes,
    /// A table.
    Table,
    /// A dictionary.
    Dictionary,
    /// A list of values (simple or compound).
    AnyList,
}

/// Why an encode or a decode failed.
#[derive(Clone, Copy, PartialEq, Eq, Structural, Debug)]
pub enum CodecError {
    /// No message type of the pool has the requested name.
    UnknownMessageType,
    /// The bytes are not a valid encoding of the requested message type.
    DecodeFailure,
    /// A native value's type disagrees with the declared kind of its field.
    TypeMismatch(Expected),
    /// An integer lies outside the range of the enum's declared values.
    NotAReservedEnumValue,
    /// A map field's key kind is none of bool, int32, int64 and string.
    UnsupportedKeyType,
    /// A field kind for which no conversion exists.
    UnsupportedFieldKind,
}

} // verus!

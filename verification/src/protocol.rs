//! The backend protocol as the proxy sees it: the kinds of operation, where
//! the proxy sends each, and the errors of the proxy's own.

use vstd::prelude::*;

verus! {

/// The kinds of operation of the backend protocol.
#[derive(Clone, Copy, Debug, PartialEq, Eq, Structural)]
pub enum Operation {
    /// A boolean.
    Bool,
    /// A signed integer of 8 bits.
    I8,
    /// A signed integer of 16 bits.
    I16,
    /// A signed integer of 32 bits.
    I32,
    /// A signed integer of 64 bits.
    I64,
    /// A signed integer of 128 bits.
    I128,
    /// An unsigned integer of 8 bits.
    U8,
    /// An unsigned integer of 16 bits.
    U16,
    /// An unsigned integer of 32 bits.
    U32,
    /// An unsigned integer of 64 bits.
    U64,
    /// An unsigned integer of 128 bits.
    U128,
    /// A floating-point number of 32 bits.
    F32,
    /// A floating-point number of 64 bits.
    F64,
    /// A single character.
    Char,
    /// A character string.
    Str,
    /// A raw byte string.
    Bytes,
    /// The marker of an absent value.
    Absent,
    /// The marker of a present value, with the value.
    Present,
    /// The unit value.
    Unit,
    /// A named unit struct.
    UnitStruct,
    /// A named unit variant.
    UnitVariant,
    /// A newtype wrapper.
    NewtypeStruct,
    /// A newtype variant.
    NewtypeVariant,
    /// A homogeneous sequence.
    Sequence,
    /// A tuple of fixed arity.
    Tuple,
    /// A named tuple struct.
    TupleStruct,
    /// A tuple variant.
    TupleVariant,
    /// A keyed map.
    KeyedMap,
    /// A struct of named fields.
    Struct,
    /// A struct variant of named fields.
    StructVariant,
}

/// Where the proxy sends an operation.
#[derive(Clone, Copy, Debug, PartialEq, Eq, Structural)]
pub enum Route {
    /// To the backend, unchanged.
    Forward,
    /// To the backend's struct construction, which is begun and ended as
    /// the value says, with each field past the filter.
    FilterFields,
    /// To the backend's map construction, which is begun and ended as the
    /// value says, with each entry past the filter.
    FilterEntries,
}

impl Operation {
    /// Where the proxy sends this kind of operation: structs of named
    /// fields and keyed maps past the filter, all else to the backend as
    /// it is.
    pub open spec fn route(self) -> Route {
        match self {
            Operation::Struct => Route::FilterFields,
            Operation::KeyedMap => Route::FilterEntries,
            _ => Route::Forward,
        }
    }
}

/// The errors that the proxy raises by itself. All others are the backend's
/// and pass through the proxy as they are.
#[derive(Clone, Copy, Debug, PartialEq, Eq, Structural)]
pub enum Error {
    /// A map key was submitted without its value.
    LoneKey,
    /// A map value was submitted without its key.
    LoneValue,
    /// A map key did not serialize as a character string.
    KeyNotString,
}

impl Error {
    /// The text of the error.
    pub open spec fn spec_message(self) -> Seq<char> {
        match self {
            Error::LoneKey | Error::LoneValue =>
                "cannot perform partial serialization of lone keys/values; use whole-entry emission"@,
            Error::KeyNotString => "key should serialize to a string"@,
        }
    }

    /// The text of the error, as the backend's error is to carry it.
    pub fn message(self) -> (text: &'static str)
        ensures
            text@ == self.spec_message(),
    {
        match self {
            Error::LoneKey | Error::LoneValue =>
                "cannot perform partial serialization of lone keys/values; use whole-entry emission",
            Error::KeyNotString => "key should serialize to a string",
        }
    }
}

} // verus!

//! Partial serialization of values: a filter decides, field by field and
//! entry by entry, what a serializer proxy lets through to its backend.
//!
//! A [`Partial`] pairs a value with a [`SerializeFilter`]. Serialized, the
//! value goes through the proxy of [`proxy`], which hands every operation
//! to the backend unchanged but for two: the fields of a struct and the
//! entries of a map, which it hands on or holds back as the filter says.
//! The proxy here is the proxy without its backend: it says, for each
//! thing that the value submits, what the backend is to receive.

pub mod field;
pub mod fields;
pub mod filter;
pub mod flags;
pub mod keyed;
pub mod laws;
pub mod partial;
pub mod protocol;
pub mod proxy;
pub mod selection;
pub mod seqs;

pub use field::{same_name, Field};
pub use fields::FieldSet;
pub use filter::{InverseFilter, SerializeFilter};
pub use flags::FlagFilter;
pub use keyed::MapKeys;
pub use partial::{Partial, SerializePartial};
pub use protocol::{Error, Operation, Route};
pub use proxy::{
    EntryCall, FieldCall, KeyForm, KeySerializer, PartialSerializeMap, PartialSerializeStruct,
    PartialSerializer,
};
pub use selection::Selection;

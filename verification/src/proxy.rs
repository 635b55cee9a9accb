//! The filtering serializer proxy, without its backend: for each thing that
//! a value submits, what the proxy hands to the backend.

use crate::field::Field;
use crate::fields::names_of;
use crate::filter::{passed, passes, SerializeFilter};
use crate::protocol::{Error, Operation, Route};
use core::marker::PhantomData;
use vstd::prelude::*;

verus! {

/// One step of a struct's construction, by the name of its field: what a
/// value submits to the proxy, and what the proxy submits to the backend.
#[derive(Clone, Copy, Debug, PartialEq, Eq)]
pub enum FieldCall<'k> {
    /// The field, with its value.
    Field(&'k str),
    /// The field, marked as skipped.
    Skip(&'k str),
}

/// A step of a struct's construction as contracts speak of it: by the
/// characters of the name of its field.
pub enum Call {
    /// The field of this name, with its value.
    Field(Seq<char>),
    /// The field of this name, marked as skipped.
    Skip(Seq<char>),
}

impl Call {
    /// The name of the field that the step is about.
    pub open spec fn name(self) -> Seq<char> {
        match self {
            Call::Field(name) => name,
            Call::Skip(name) => name,
        }
    }
}

impl<'k> View for FieldCall<'k> {
    type V = Call;

    open spec fn view(&self) -> Call {
        match self {
            FieldCall::Field(key) => Call::Field(key@),
            FieldCall::Skip(key) => Call::Skip(key@),
        }
    }
}

/// What the proxy hands to the backend for one step: a field that the
/// filter skips goes on marked as skipped, every other step goes on as it
/// is.
pub open spec fn proxied<T: ?Sized, F: SerializeFilter<T>>(filter: &F, call: Call) -> Call {
    match call {
        Call::Field(name) => if filter.skips(name) {
            Call::Skip(name)
        } else {
            Call::Field(name)
        },
        Call::Skip(name) => Call::Skip(name),
    }
}

/// What the proxy hands to the backend for the steps `calls`, step by step.
pub open spec fn proxied_all<T: ?Sized, F: SerializeFilter<T>>(
    filter: &F,
    calls: Seq<Call>,
) -> Seq<Call> {
    calls.map_values(|call: Call| proxied::<T, F>(filter, call))
}

/// The steps of a value that submits each of the fields `names` with its
/// value, in this order.
pub open spec fn submitted(names: Seq<Seq<char>>) -> Seq<Call> {
    names.map_values(|name: Seq<char>| Call::Field(name))
}

/// The names of the fields that go out with their values, in order.
pub open spec fn emitted(calls: Seq<Call>) -> Seq<Seq<char>> {
    calls.filter(|call: Call| call is Field).map_values(|call: Call| call.name())
}

/// The steps that a list of calls stands for.
pub open spec fn calls_of(calls: Seq<FieldCall<'_>>) -> Seq<Call> {
    calls.map_values(|call: FieldCall<'_>| call@)
}

/// What a map key serialized as.
#[derive(Clone, Copy, Debug, PartialEq, Eq)]
pub enum KeyForm<'k> {
    /// A character string: the key can be filtered.
    Str(&'k str),
    /// Anything else, by the kind of operation that the key went through.
    Other(Operation),
}

/// The view of what a key serialized as is its characters, where it is a
/// string.
impl<'k> View for KeyForm<'k> {
    type V = Option<Seq<char>>;

    open spec fn view(&self) -> Option<Seq<char>> {
        match self {
            KeyForm::Str(text) => Some(text@),
            KeyForm::Other(_) => None,
        }
    }
}

/// What the proxy does with a map entry.
#[derive(Clone, Copy, Debug, PartialEq, Eq, Structural)]
pub enum EntryCall {
    /// It hands key and value to the backend, as one entry.
    Entry,
    /// It hands nothing to the backend.
    Nothing,
}

/// What the proxy does with a map entry whose key serialized as `key`: an
/// entry under a string that the filter does not skip goes on, one under a
/// string that it skips is dropped, and a key that is no string is an error.
pub open spec fn entry_outcome<T: ?Sized, F: SerializeFilter<T>>(
    filter: &F,
    key: Option<Seq<char>>,
) -> Result<EntryCall, Error> {
    match key {
        Some(name) => Ok(
            if filter.skips(name) {
                EntryCall::Nothing
            } else {
                EntryCall::Entry
            },
        ),
        None => Err(Error::KeyNotString),
    }
}

/// What the keys of a list of entries serialized as, in order.
pub open spec fn key_texts(keys: Seq<KeyForm<'_>>) -> Seq<Option<Seq<char>>> {
    keys.map_values(|key: KeyForm<'_>| key@)
}

/// The keys of the entries that the proxy hands to the backend, of entries
/// submitted whole in the order of `keys`: those under strings that the
/// filter does not skip, in the order of submission. Where a key is no
/// string, the serialization fails.
pub open spec fn entries_outcome<T: ?Sized, F: SerializeFilter<T>>(
    filter: &F,
    keys: Seq<Option<Seq<char>>>,
) -> Result<Seq<Seq<char>>, Error> {
    if forall|i: int| 0 <= i < keys.len() ==> (#[trigger] keys[i]) is Some {
        Ok(passed::<T, F>(filter, keys.map_values(|key: Option<Seq<char>>| key->0)))
    } else {
        Err(Error::KeyNotString)
    }
}

/// The proxy before a value is submitted to it.
pub struct PartialSerializer<'a, T: ?Sized, F> {
    filter: &'a F,
    _ty: PhantomData<T>,
}

/// The proxy during the construction of a struct of named fields.
pub struct PartialSerializeStruct<'a, T: ?Sized, F> {
    filter: &'a F,
    _ty: PhantomData<T>,
}

/// The proxy during the construction of a keyed map.
pub struct PartialSerializeMap<'a, T: ?Sized, F> {
    filter: &'a F,
    _ty: PhantomData<T>,
}

/// The serializer through which the proxy sends a map key, to learn
/// whether the entry is skipped.
pub struct KeySerializer<'a, T: ?Sized, F> {
    filter: &'a F,
    _ty: PhantomData<T>,
}

impl<'a, T: ?Sized, F: SerializeFilter<T>> PartialSerializer<'a, T, F> {
    /// The filter that the proxy consults.
    pub closed spec fn filter(&self) -> &'a F {
        self.filter
    }

    /// The proxy that consults `filter`.
    pub fn new(filter: &'a F) -> (proxy: Self)
        ensures
            proxy.filter() == filter,
    {
        PartialSerializer { filter, _ty: PhantomData }
    }

    /// Where the proxy sends an operation of the kind `operation`: a
    /// struct of named fields and a keyed map past the filter, everything
    /// else to the backend as it is.
    pub fn route(&self, operation: Operation) -> (route: Route)
        ensures
            route == operation.route(),
    {
        match operation {
            Operation::Struct => Route::FilterFields,
            Operation::KeyedMap => Route::FilterEntries,
            _ => Route::Forward,
        }
    }

    /// Begins a struct of named fields of the declared length `len`: the
    /// proxy for its fields, with the same filter, and the length that the
    /// backend's struct is begun with, which is the declared one.
    pub fn serialize_struct(self, len: usize) -> (begun: (PartialSerializeStruct<'a, T, F>, usize))
        ensures
            begun.0.filter() == self.filter(),
            begun.1 == len,
    {
        (PartialSerializeStruct { filter: self.filter, _ty: PhantomData }, len)
    }

    /// Begins a keyed map with the length hint `len`: the proxy for its
    /// entries, with the same filter, and the hint that the backend's map
    /// is begun with, which is the one given.
    pub fn serialize_map(self, len: Option<usize>) -> (begun: (
        PartialSerializeMap<'a, T, F>,
        Option<usize>,
    ))
        ensures
            begun.0.filter() == self.filter(),
            begun.1 == len,
    {
        (PartialSerializeMap { filter: self.filter, _ty: PhantomData }, len)
    }
}

impl<'a, T: ?Sized, F: SerializeFilter<T>> PartialSerializeStruct<'a, T, F> {
    /// The filter that the proxy consults.
    pub closed spec fn filter(&self) -> &'a F {
        self.filter
    }

    /// Whether the filter can decide on the field `key`: the proxy must
    /// not be handed any other with a value.
    pub fn recognizes(&self, key: &str) -> (known: bool)
        ensures
            known == self.filter().knows(key@),
    {
        self.filter.recognizes(Field::new(key))
    }

    /// A field submitted with its value: it goes to the backend marked as
    /// skipped where the filter skips it, and with its value where not.
    pub fn serialize_field<'k>(&self, key: &'k str) -> (call: FieldCall<'k>)
        requires
            self.filter().knows(key@),
        ensures
            call@ == proxied::<T, F>(self.filter(), Call::Field(key@)),
    {
        if self.filter.skip(Field::new(key)) {
            self.skip_field(key)
        } else {
            FieldCall::Field(key)
        }
    }

    /// A field submitted as skipped: it goes to the backend as it is.
    pub fn skip_field<'k>(&self, key: &'k str) -> (call: FieldCall<'k>)
        ensures
            call@ == Call::Skip(key@),
    {
        FieldCall::Skip(key)
    }

    /// The steps `calls`, submitted in turn: what goes to the backend, step
    /// by step.
    pub fn serialize_all<'k>(&self, calls: &Vec<FieldCall<'k>>) -> (out: Vec<FieldCall<'k>>)
        requires
            forall|i: int| 0 <= i < calls.len() ==> self.filter().knows(#[trigger] calls[i]@.name()),
        ensures
            calls_of(out@) == proxied_all::<T, F>(self.filter(), calls_of(calls@)),
    {
        let mut out: Vec<FieldCall<'k>> = Vec::new();
        let mut i: usize = 0;
        while i < calls.len()
            invariant
                i <= calls.len(),
                out.len() == i,
                forall|j: int|
                    0 <= j < calls.len() ==> self.filter().knows(#[trigger] calls[j]@.name()),
                forall|j: int|
                    0 <= j < i ==> out[j]@ == proxied::<T, F>(self.filter(), calls[j]@),
            decreases calls.len() - i,
        {
            let call = match calls[i] {
                FieldCall::Field(key) => {
                    assert(calls[i as int]@.name() == key@);
                    self.serialize_field(key)
                },
                FieldCall::Skip(key) => self.skip_field(key),
            };
            out.push(call);
            i += 1;
        }
        proof {
            assert(calls_of(out@) =~= proxied_all::<T, F>(self.filter(), calls_of(calls@)));
        }
        out
    }
}

impl<'a, T: ?Sized, F: SerializeFilter<T>> KeySerializer<'a, T, F> {
    /// The filter that the proxy consults.
    pub closed spec fn filter(&self) -> &'a F {
        self.filter
    }

    /// Whether the filter can decide on an entry under the key `v`: the
    /// proxy must not be handed an entry under any other string.
    pub fn recognizes(&self, v: &str) -> (known: bool)
        ensures
            known == self.filter().knows(v@),
    {
        self.filter.recognizes(Field::new(v))
    }

    /// A key that serializes as the string `v`: whether the filter skips
    /// the entry under it.
    pub fn serialize_str(&self, v: &str) -> (skip: Result<bool, Error>)
        requires
            self.filter().knows(v@),
        ensures
            skip == Ok::<bool, Error>(self.filter().skips(v@)),
    {
        Ok(self.filter.skip(Field::new(v)))
    }

    /// A key that serializes as `key`: whether the filter skips the entry
    /// under it, where the key is a string, and an error where it is not.
    pub fn serialize(&self, key: KeyForm<'_>) -> (skip: Result<bool, Error>)
        requires
            key@ matches Some(name) ==> self.filter().knows(name),
        ensures
            skip == match key@ {
                Some(name) => Ok::<bool, Error>(self.filter().skips(name)),
                None => Err(Error::KeyNotString),
            },
    {
        match key {
            KeyForm::Str(v) => self.serialize_str(v),
            KeyForm::Other(_) => Err(Error::KeyNotString),
        }
    }
}

impl<'a, T: ?Sized, F: SerializeFilter<T>> PartialSerializeMap<'a, T, F> {
    /// The filter that the proxy consults.
    pub closed spec fn filter(&self) -> &'a F {
        self.filter
    }

    /// A key submitted without its value: an error, as the proxy cannot
    /// tell whether to skip an entry before it has seen the whole of it.
    pub fn serialize_key(&self) -> (done: Result<EntryCall, Error>)
        ensures
            done == Err::<EntryCall, Error>(Error::LoneKey),
    {
        Err(Error::LoneKey)
    }

    /// A value submitted without its key: an error.
    pub fn serialize_value(&self) -> (done: Result<EntryCall, Error>)
        ensures
            done == Err::<EntryCall, Error>(Error::LoneValue),
    {
        Err(Error::LoneValue)
    }

    /// The serializer for the key of the next entry.
    pub fn key_serializer(&self) -> (keys: KeySerializer<'a, T, F>)
        ensures
            keys.filter() == self.filter(),
    {
        KeySerializer { filter: self.filter, _ty: PhantomData }
    }

    /// An entry submitted whole, under a key that serialized as `key`.
    pub fn serialize_entry(&self, key: KeyForm<'_>) -> (done: Result<EntryCall, Error>)
        requires
            key@ matches Some(name) ==> self.filter().knows(name),
        ensures
            done == entry_outcome::<T, F>(self.filter(), key@),
    {
        let skip = self.key_serializer().serialize(key)?;
        if skip {
            Ok(EntryCall::Nothing)
        } else {
            Ok(EntryCall::Entry)
        }
    }
}

impl<'a, T: ?Sized, F: SerializeFilter<T>> PartialSerializeMap<'a, T, F> {
    /// The entries of a map, submitted whole and in turn under keys that
    /// serialized as `keys`: the keys of the entries that go to the
    /// backend, or the error at which the serialization stops.
    pub fn serialize_entries<'k>(&self, keys: &Vec<KeyForm<'k>>) -> (done: Result<
        Vec<&'k str>,
        Error,
    >)
        requires
            forall|i: int|
                0 <= i < keys.len() ==> ((#[trigger] keys[i])@ matches Some(name)
                    ==> self.filter().knows(name)),
        ensures
            match done {
                Ok(out) => entries_outcome::<T, F>(self.filter(), key_texts(keys@)) == Ok::<
                    Seq<Seq<char>>,
                    Error,
                >(names_of(out@)),
                Err(error) => entries_outcome::<T, F>(self.filter(), key_texts(keys@)) == Err::<
                    Seq<Seq<char>>,
                    Error,
                >(error),
            },
    {
        let ghost texts = key_texts(keys@);
        let ghost names = texts.map_values(|key: Option<Seq<char>>| key->0);
        let mut out: Vec<&'k str> = Vec::new();
        let mut i: usize = 0;
        while i < keys.len()
            invariant
                i <= keys.len(),
                texts == key_texts(keys@),
                names == texts.map_values(|key: Option<Seq<char>>| key->0),
                forall|j: int|
                    0 <= j < keys.len() ==> ((#[trigger] keys[j])@ matches Some(name)
                        ==> self.filter().knows(name)),
                forall|j: int| 0 <= j < i ==> (#[trigger] texts[j]) is Some,
                names_of(out@) == passed::<T, F>(self.filter(), names.take(i as int)),
            decreases keys.len() - i,
        {
            let ghost before = names_of(out@);
            proof {
                assert(texts[i as int] == keys[i as int]@);
                assert(names.take(i + 1) =~= names.take(i as int).push(names[i as int]));
                names.take(i as int).lemma_filter_push(
                    names[i as int],
                    passes::<T, F>(self.filter()),
                );
            }
            match self.serialize_entry(keys[i]) {
                Ok(EntryCall::Entry) => {
                    match keys[i] {
                        KeyForm::Str(key) => {
                            out.push(key);
                            proof {
                                assert(names_of(out@) =~= before.push(key@));
                            }
                        },
                        KeyForm::Other(_) => {},
                    }
                },
                Ok(EntryCall::Nothing) => {},
                Err(error) => {
                    proof {
                        assert(!(texts[i as int] is Some));
                    }
                    return Err(error);
                },
            }
            i += 1;
        }
        proof {
            assert(names.take(i as int) =~= names);
        }
        Ok(out)
    }
}

} // verus!

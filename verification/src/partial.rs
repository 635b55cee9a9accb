//! Partial views: a value paired with the filter that decides which of its
//! fields are serialized.

use crate::field::Field;
use crate::fields::{descriptor_names, FieldSet};
use crate::filter::{drawn_from, lets_through, InverseFilter, SerializeFilter};
use crate::proxy::PartialSerializer;
use vstd::prelude::*;

verus! {

/// A value together with a filter: serialized, it is the value without
/// the fields that the filter skips.
#[derive(Debug)]
pub struct Partial<'a, T: ?Sized, F> {
    /// The value to serialize.
    pub value: &'a T,
    /// The field filter to use.
    pub filter: F,
}

impl<'a, T: ?Sized, F: Clone> Clone for Partial<'a, T, F> {
    fn clone(&self) -> (copy: Self)
        ensures
            copy.value == self.value,
            cloned::<F>(self.filter, copy.filter),
    {
        Partial { value: self.value, filter: self.filter.clone() }
    }
}

impl<'a, T: ?Sized, F: Copy> Copy for Partial<'a, T, F> {

}

impl<'a, T: ?Sized, F: SerializeFilter<T>> Partial<'a, T, F> {
    /// The proxy through which the value is serialized: the one that
    /// consults the filter of this view.
    pub fn serializer(&self) -> (proxy: PartialSerializer<'_, T, F>)
        ensures
            proxy.filter() == &self.filter,
    {
        PartialSerializer::new(&self.filter)
    }
}

/// Trait implemented by types which can be partially serialized.
pub trait SerializePartial<'a> {
    /// Type which can be used to check whether a serializable field should
    /// be skipped.
    type Filter: SerializeFilter<Self>;

    /// The list of the serializable fields of this value: the fields that
    /// it serializes, under their serialized names and in the order in
    /// which it serializes them.
    fn fields(&'a self) -> (fields: FieldSet<'a, Self>)
        ensures
            fields.wf(),
    ;

    /// The filter for a value with the fields `fields` that lets through
    /// the fields `selected` and no others.
    fn filter_of(fields: &FieldSet<'a, Self>, selected: Vec<Field<'a, Self>>) -> (filter:
        Self::Filter)
        requires
            fields.wf(),
            drawn_from(descriptor_names(selected@), fields.names()),
        ensures
            lets_through::<Self, Self::Filter>(
                &filter,
                fields.names(),
                descriptor_names(selected@),
            ),
    ;

    /// Returns a value which serializes as this one, but only with the
    /// selected fields.
    ///
    /// The `select` closure receives the list of the fields of this value
    /// and returns those that are to be serialized, each of them a field
    /// of the list.
    fn with_fields<S>(&'a self, select: S) -> (partial: Partial<'a, Self, Self::Filter>) where
        S: FnOnce(&FieldSet<'a, Self>) -> Vec<Field<'a, Self>>,

        requires
            forall|fields: FieldSet<'a, Self>|
                call_ensures(Self::fields, (self,), fields) ==> call_requires(select, (&fields,)),
            forall|fields: FieldSet<'a, Self>, selected: Vec<Field<'a, Self>>|
                call_ensures(Self::fields, (self,), fields) && call_ensures(
                    select,
                    (&fields,),
                    selected,
                ) ==> drawn_from(descriptor_names(selected@), fields.names()),
        ensures
            partial.value == self,
            exists|fields: FieldSet<'a, Self>, selected: Vec<Field<'a, Self>>|
                #![trigger call_ensures(select, (&fields,), selected)]
                call_ensures(Self::fields, (self,), fields) && call_ensures(
                    select,
                    (&fields,),
                    selected,
                ) && lets_through::<Self, Self::Filter>(
                    &partial.filter,
                    fields.names(),
                    descriptor_names(selected@),
                ),
    {
        let list = Self::fields;
        let fields = list(self);
        let selected = select(&fields);
        Partial { value: self, filter: Self::filter_of(&fields, selected) }
    }

    /// Same as [`with_fields`](SerializePartial::with_fields) but fields
    /// are opt-out instead of opt-in.
    fn without_fields<S>(&'a self, select: S) -> (partial: Partial<
        'a,
        Self,
        InverseFilter<Self, Self::Filter>,
    >) where S: FnOnce(&FieldSet<'a, Self>) -> Vec<Field<'a, Self>>
        requires
            forall|fields: FieldSet<'a, Self>|
                call_ensures(Self::fields, (self,), fields) ==> call_requires(select, (&fields,)),
            forall|fields: FieldSet<'a, Self>, selected: Vec<Field<'a, Self>>|
                call_ensures(Self::fields, (self,), fields) && call_ensures(
                    select,
                    (&fields,),
                    selected,
                ) ==> drawn_from(descriptor_names(selected@), fields.names()),
        ensures
            partial.value == self,
            exists|fields: FieldSet<'a, Self>, selected: Vec<Field<'a, Self>>|
                #![trigger call_ensures(select, (&fields,), selected)]
                call_ensures(Self::fields, (self,), fields) && call_ensures(
                    select,
                    (&fields,),
                    selected,
                ) && lets_through::<Self, Self::Filter>(
                    &partial.filter.inner(),
                    fields.names(),
                    descriptor_names(selected@),
                ),
    {
        let Partial { value, filter } = self.with_fields(select);
        Partial { value, filter: InverseFilter::new(filter) }
    }
}

} // verus!

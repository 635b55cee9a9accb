//! Field filtering.

use crate::field::Field;
use crate::seqs::lemma_filter_splits;
use core::marker::PhantomData;
use vstd::prelude::*;

verus! {

/// Trait implemented by types which can be used to filter the serializable
/// fields of another type.
///
/// A filter is described by the names it can decide on, the names it
/// leaves out, and the number of fields it reports as passing. What it
/// decides depends on the name it is asked about and on nothing else.
pub trait SerializeFilter<T: ?Sized> {
    /// Whether `name` is a field this filter can decide on.
    spec fn knows(&self, name: Seq<char>) -> bool;

    /// Whether the field named `name` stays out of the output.
    spec fn skips(&self, name: Seq<char>) -> bool;

    /// The number of fields that pass, of `total` fields, where the filter
    /// can tell without a counting pass.
    spec fn passing(&self, total: Option<usize>) -> Option<usize>;

    /// Whether `total` is a field count that [`filtered_len`](Self::filtered_len)
    /// can be asked about.
    spec fn admits(&self, total: Option<usize>) -> bool;

    /// Whether the filter was made for a container whose fields are exactly
    /// `names`, in this order.
    spec fn made_for(&self, names: Seq<Seq<char>>) -> bool;

    /// Returns whether the filter can decide on the specified field: a
    /// filter must not be asked about any other.
    fn recognizes(&self, field: Field<'_, T>) -> (known: bool)
        ensures
            known == self.knows(field@),
    ;

    /// Returns whether the specified field should be skipped.
    fn skip(&self, field: Field<'_, T>) -> (skipped: bool)
        requires
            self.knows(field@),
        ensures
            skipped == self.skips(field@),
    ;

    /// Returns the number of fields which will be serialized given the total
    /// field count.
    fn filtered_len(&self, len: Option<usize>) -> (passing: Option<usize>)
        requires
            self.admits(len),
        ensures
            passing == self.passing(len),
    ;

    /// A filter made for a container knows each of its fields, and the count
    /// it reports, where it reports one, is the number of fields that pass.
    proof fn count_is_exact(&self, names: Seq<Seq<char>>, total: Option<usize>)
        requires
            self.made_for(names),
            total matches Some(n) ==> n == names.len(),
        ensures
            forall|i: int| 0 <= i < names.len() ==> self.knows(#[trigger] names[i]),
            self.admits(total),
            self.passing(total) matches Some(n) ==> n == names.filter(
                |name: Seq<char>| !self.skips(name),
            ).len(),
    ;
}

/// The test that `filter` applies to a name: whether it lets the name through.
pub open spec fn passes<T: ?Sized, F: SerializeFilter<T> + ?Sized>(filter: &F) -> spec_fn(
    Seq<char>,
) -> bool {
    |name: Seq<char>| !filter.skips(name)
}

/// The names among `names` that `filter` lets through, in their order.
pub open spec fn passed<T: ?Sized, F: SerializeFilter<T> + ?Sized>(
    filter: &F,
    names: Seq<Seq<char>>,
) -> Seq<Seq<char>> {
    names.filter(passes::<T, F>(filter))
}

/// Whether each of the descriptors `selected` names one of the fields
/// `names`.
pub open spec fn drawn_from(selected: Seq<Seq<char>>, names: Seq<Seq<char>>) -> bool {
    forall|i: int| 0 <= i < selected.len() ==> names.contains(#[trigger] selected[i])
}

/// Whether `filter` is the filter of a container with the fields `names`
/// that lets through the fields `selected` and no others.
pub open spec fn lets_through<T: ?Sized, F: SerializeFilter<T>>(
    filter: &F,
    names: Seq<Seq<char>>,
    selected: Seq<Seq<char>>,
) -> bool {
    &&& filter.made_for(names)
    &&& forall|i: int|
        0 <= i < names.len() ==> filter.skips(#[trigger] names[i]) == !selected.contains(names[i])
}

/// A [`SerializeFilter`] which inverts the behavior of the filter it wraps.
#[derive(Debug)]
pub struct InverseFilter<T: ?Sized, F> {
    filter: F,
    _ty: PhantomData<T>,
}

impl<T: ?Sized, F> InverseFilter<T, F> {
    /// The filter that this one inverts.
    pub closed spec fn inner(&self) -> F {
        self.filter
    }
}

impl<T: ?Sized, F: Clone> Clone for InverseFilter<T, F> {
    fn clone(&self) -> (copy: Self)
        ensures
            cloned::<F>(self.inner(), copy.inner()),
    {
        InverseFilter { filter: self.filter.clone(), _ty: PhantomData }
    }
}

impl<T: ?Sized, F: Copy> Copy for InverseFilter<T, F> {

}

impl<T: ?Sized, F: SerializeFilter<T>> InverseFilter<T, F> {
    /// Creates a filter which inverts the behavior of the provided one.
    pub fn new(filter: F) -> (inverse: Self)
        ensures
            inverse.inner() == filter,
    {
        InverseFilter { filter, _ty: PhantomData }
    }

    /// Returns the filter that this one inverts.
    pub fn filter(&self) -> (filter: &F)
        ensures
            *filter == self.inner(),
    {
        &self.filter
    }
}

impl<T: ?Sized, F: SerializeFilter<T>> SerializeFilter<T> for InverseFilter<T, F> {
    open spec fn knows(&self, name: Seq<char>) -> bool {
        self.inner().knows(name)
    }

    open spec fn skips(&self, name: Seq<char>) -> bool {
        !self.inner().skips(name)
    }

    open spec fn passing(&self, total: Option<usize>) -> Option<usize> {
        match (total, self.inner().passing(total)) {
            (Some(len), Some(filtered_len)) => Some((len - filtered_len) as usize),
            _ => None,
        }
    }

    open spec fn admits(&self, total: Option<usize>) -> bool {
        &&& self.inner().admits(total)
        &&& (total matches Some(len) ==> (self.inner().passing(total) matches Some(filtered_len)
            ==> filtered_len <= len))
    }

    open spec fn made_for(&self, names: Seq<Seq<char>>) -> bool {
        self.inner().made_for(names)
    }

    fn recognizes(&self, field: Field<'_, T>) -> (known: bool) {
        self.filter.recognizes(field)
    }

    fn skip(&self, field: Field<'_, T>) -> (skipped: bool) {
        !self.filter.skip(field)
    }

    fn filtered_len(&self, len: Option<usize>) -> (passing: Option<usize>) {
        match (len, self.filter.filtered_len(len)) {
            (Some(len), Some(filtered_len)) => Some(len - filtered_len),
            _ => None,
        }
    }

    proof fn count_is_exact(&self, names: Seq<Seq<char>>, total: Option<usize>) {
        self.inner().count_is_exact(names, total);
        lemma_filter_splits(
            names,
            |name: Seq<char>| !self.inner().skips(name),
            |name: Seq<char>| !self.skips(name),
        );
    }
}

} // verus!

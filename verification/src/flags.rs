//! The opt-in filter of a container with declared fields: one flag per field.

use crate::field::Field;
use crate::fields::{descriptor_names, names_of, position, FieldSet};
use crate::filter::{lets_through, SerializeFilter};
use core::marker::PhantomData;
use vstd::prelude::*;

verus! {

/// The number of flags that are set.
pub open spec fn flags_set(flags: Seq<bool>) -> nat {
    flags.filter(|flag: bool| flag).len()
}

/// A filter with one flag for each field of the container type `T`, in
/// declared order. A field passes where its flag is set; a new filter has
/// none set, and so lets nothing through.
#[derive(Debug)]
pub struct FlagFilter<'a, T: ?Sized> {
    names: Vec<&'a str>,
    flags: Vec<bool>,
    _ty: PhantomData<&'a T>,
}

impl<'a, T: ?Sized> Clone for FlagFilter<'a, T> {
    fn clone(&self) -> (copy: Self)
        ensures
            copy.names() == self.names(),
            copy.flags() == self.flags(),
            copy.wf(),
    {
        proof {
            use_type_invariant(self);
        }
        let names = self.names.clone();
        let flags = self.flags.clone();
        proof {
            assert(names@ =~= self.names@);
            assert(flags@ =~= self.flags@);
        }
        FlagFilter { names, flags, _ty: PhantomData }
    }
}

impl<'a, T: ?Sized> FlagFilter<'a, T> {
    /// The serialized names of the fields, in declared order.
    pub closed spec fn names(&self) -> Seq<Seq<char>> {
        names_of(self.names@)
    }

    /// The flags, in the order of the names.
    pub closed spec fn flags(&self) -> Seq<bool> {
        self.flags@
    }

    /// There is one flag for each name, and no name occurs twice.
    #[verifier::type_invariant]
    pub closed spec fn wf(&self) -> bool {
        &&& self.names().len() == self.flags().len()
        &&& self.names().no_duplicates()
    }

    /// Whether the flag of the field `name` is set.
    pub open spec fn includes(&self, name: Seq<char>) -> bool {
        exists|i: int|
            0 <= i < self.names().len() && #[trigger] self.names()[i] == name && self.flags()[i]
    }

    /// In a well-formed filter, the flag at a place is the flag of the name
    /// at that place.
    pub proof fn lemma_flag_at(&self, i: int)
        requires
            self.wf(),
            0 <= i < self.names().len(),
        ensures
            self.flags().len() == self.names().len(),
            self.includes(self.names()[i]) == self.flags()[i],
    {
        if self.includes(self.names()[i]) {
            let j = choose|j: int|
                0 <= j < self.names().len() && #[trigger] self.names()[j] == self.names()[i]
                    && self.flags()[j];
            assert(j == i);
        }
    }

    /// The filter for the fields of `fields` that lets nothing through.
    pub fn new(fields: &FieldSet<'a, T>) -> (filter: Self)
        ensures
            filter.wf(),
            filter.names() == fields.names(),
            forall|name: Seq<char>| !filter.includes(name),
    {
        let list = fields.name_list();
        proof {
            fields.lemma_wf();
        }
        let mut names: Vec<&'a str> = Vec::new();
        let mut flags: Vec<bool> = Vec::new();
        let mut i: usize = 0;
        while i < list.len()
            invariant
                i <= list.len(),
                names.len() == i,
                flags.len() == i,
                forall|j: int| 0 <= j < i ==> names[j] == list[j],
                forall|j: int| 0 <= j < i ==> !flags[j],
            decreases list.len() - i,
        {
            names.push(list[i]);
            flags.push(false);
            i += 1;
        }
        proof {
            assert(names@ =~= list@);
        }
        FlagFilter { names, flags, _ty: PhantomData }
    }

    /// Sets or clears the flag of `field`.
    pub fn set(&mut self, field: Field<'_, T>, on: bool)
        requires
            old(self).names().contains(field@),
        ensures
            final(self).wf(),
            final(self).names() == old(self).names(),
            forall|name: Seq<char>|
                final(self).includes(name) == if name == field@ {
                    on
                } else {
                    old(self).includes(name)
                },
    {
        proof {
            use_type_invariant(&*self);
        }
        let found = position(&self.names, field.name());
        let at = found.unwrap();
        let mut taken = FlagFilter { names: Vec::new(), flags: Vec::new(), _ty: PhantomData };
        core::mem::swap(self, &mut taken);
        let FlagFilter { names, mut flags, _ty } = taken;
        flags.set(at, on);
        *self = FlagFilter { names, flags, _ty };
        proof {
            assert forall|name: Seq<char>|
                final(self).includes(name) == if name == field@ {
                    on
                } else {
                    old(self).includes(name)
                } by {
                if name == field@ {
                    self.lemma_flag_at(at as int);
                } else {
                    if old(self).includes(name) {
                        let j = choose|j: int|
                            0 <= j < old(self).names().len() && #[trigger] old(self).names()[j]
                                == name && old(self).flags()[j];
                        assert(self.names()[j] == name && self.flags()[j]);
                    }
                    if self.includes(name) {
                        let j = choose|j: int|
                            0 <= j < self.names().len() && #[trigger] self.names()[j] == name
                                && self.flags()[j];
                        assert(old(self).names()[j] == name && old(self).flags()[j]);
                    }
                }
            }
        }
    }
}

impl<'a, T: ?Sized> FlagFilter<'a, T> {
    /// The filter for the fields of `fields` that lets through the fields
    /// of `selected` and no others.
    pub fn select(fields: &FieldSet<'a, T>, selected: &Vec<Field<'a, T>>) -> (filter: Self)
        requires
            forall|i: int|
                0 <= i < selected.len() ==> fields.names().contains(#[trigger] selected[i]@),
        ensures
            filter.wf(),
            filter.names() == fields.names(),
            forall|name: Seq<char>|
                filter.includes(name) == descriptor_names(selected@).contains(name),
            lets_through::<T, Self>(&filter, fields.names(), descriptor_names(selected@)),
    {
        let mut filter = Self::new(fields);
        let mut i: usize = 0;
        while i < selected.len()
            invariant
                i <= selected.len(),
                filter.wf(),
                filter.names() == fields.names(),
                forall|j: int|
                    0 <= j < selected.len() ==> fields.names().contains(#[trigger] selected[j]@),
                forall|name: Seq<char>|
                    filter.includes(name) == descriptor_names(selected@).take(i as int).contains(name),
            decreases selected.len() - i,
        {
            let ghost before = filter;
            filter.set(selected[i], true);
            proof {
                let done = descriptor_names(selected@).take(i as int);
                let next = descriptor_names(selected@).take(i + 1);
                assert(next =~= done.push(selected[i as int]@));
                assert forall|name: Seq<char>|
                    filter.includes(name) == next.contains(name) by {
                    if name == selected[i as int]@ {
                        assert(next[i as int] == name);
                    } else {
                        assert(before.includes(name) == done.contains(name));
                        if done.contains(name) {
                            let j = choose|j: int| 0 <= j < done.len() && done[j] == name;
                            assert(next[j] == name);
                        }
                        if next.contains(name) {
                            let j = choose|j: int| 0 <= j < next.len() && next[j] == name;
                            assert(done[j] == name);
                        }
                    }
                }
            }
            i += 1;
        }
        proof {
            assert(descriptor_names(selected@).take(i as int) =~= descriptor_names(selected@));
        }
        filter
    }

    /// Whether the flag of `field` is set.
    pub fn is_set(&self, field: Field<'_, T>) -> (on: bool)
        ensures
            on == self.includes(field@),
    {
        proof {
            use_type_invariant(self);
        }
        match position(&self.names, field.name()) {
            Some(at) => {
                proof {
                    self.lemma_flag_at(at as int);
                }
                self.flags[at]
            },
            None => {
                proof {
                    if self.includes(field@) {
                        let j = choose|j: int|
                            0 <= j < self.names().len() && #[trigger] self.names()[j] == field@
                                && self.flags()[j];
                        assert(self.names().contains(field@));
                    }
                }
                false
            },
        }
    }
}

/// Where a test holds of the names at exactly the places at which a flag is
/// set, as many names meet the test as flags are set.
pub proof fn lemma_flags_count(
    names: Seq<Seq<char>>,
    flags: Seq<bool>,
    test: spec_fn(Seq<char>) -> bool,
)
    requires
        names.len() == flags.len(),
        forall|i: int| 0 <= i < names.len() ==> test(#[trigger] names[i]) == flags[i],
    ensures
        names.filter(test).len() == flags_set(flags),
    decreases names.len(),
{
    reveal(Seq::filter);
    if names.len() > 0 {
        lemma_flags_count(names.drop_last(), flags.drop_last(), test);
    }
}

impl<'a, T: ?Sized> SerializeFilter<T> for FlagFilter<'a, T> {
    open spec fn knows(&self, name: Seq<char>) -> bool {
        self.names().contains(name)
    }

    open spec fn skips(&self, name: Seq<char>) -> bool {
        !self.includes(name)
    }

    open spec fn passing(&self, total: Option<usize>) -> Option<usize> {
        Some(flags_set(self.flags()) as usize)
    }

    open spec fn admits(&self, total: Option<usize>) -> bool {
        true
    }

    open spec fn made_for(&self, names: Seq<Seq<char>>) -> bool {
        self.wf() && names == self.names()
    }

    fn recognizes(&self, field: Field<'_, T>) -> (known: bool) {
        match position(&self.names, field.name()) {
            Some(at) => {
                proof {
                    assert(self.names()[at as int] == field@);
                }
                true
            },
            None => false,
        }
    }

    fn skip(&self, field: Field<'_, T>) -> (skipped: bool) {
        !self.is_set(field)
    }

    fn filtered_len(&self, len: Option<usize>) -> (passing: Option<usize>) {
        let mut count: usize = 0;
        let mut i: usize = 0;
        while i < self.flags.len()
            invariant
                i <= self.flags.len(),
                count == flags_set(self.flags@.take(i as int)),
                count <= i,
            decreases self.flags.len() - i,
        {
            proof {
                let done = self.flags@.take(i as int);
                assert(self.flags@.take(i + 1) =~= done.push(self.flags[i as int]));
                done.lemma_filter_len_push(|flag: bool| flag, self.flags[i as int]);
            }
            if self.flags[i] {
                count += 1;
            }
            i += 1;
        }
        proof {
            assert(self.flags@.take(i as int) =~= self.flags@);
        }
        Some(count)
    }

    proof fn count_is_exact(&self, names: Seq<Seq<char>>, total: Option<usize>) {
        let test = |name: Seq<char>| !self.skips(name);
        assert(names.len() == self.flags().len());
        assert forall|i: int| 0 <= i < names.len() implies test(#[trigger] names[i])
            == self.flags()[i] by {
            self.lemma_flag_at(i);
        }
        lemma_flags_count(names, self.flags(), test);
        self.flags().lemma_filter_len(|flag: bool| flag);
        assert(self.flags@.len() == self.flags.len());
    }
}

} // verus!

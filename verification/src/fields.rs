//! Field sets: the ordered list of the fields that a container serializes.

use crate::field::{same_name, Field};
use crate::filter::{passed, passes, SerializeFilter};
use crate::seqs::lemma_fresh_keeps_distinct;
use core::marker::PhantomData;
use vstd::prelude::*;

verus! {

/// The character sequences that a list of strings holds, in order.
pub open spec fn names_of(list: Seq<&str>) -> Seq<Seq<char>> {
    list.map_values(|s: &str| s@)
}

/// The names of a list of field descriptors, in order.
pub open spec fn descriptor_names<'a, T: ?Sized>(fields: Seq<Field<'a, T>>) -> Seq<Seq<char>> {
    fields.map_values(|f: Field<'a, T>| f@)
}

/// The first place at which `list` holds `name`, if it holds it at all.
pub fn position(list: &Vec<&str>, name: &str) -> (found: Option<usize>)
    ensures
        match found {
            Some(at) => at < list.len() && list[at as int]@ == name@ && forall|j: int|
                0 <= j < at ==> list[j]@ != name@,
            None => !names_of(list@).contains(name@),
        },
{
    let mut i: usize = 0;
    while i < list.len()
        invariant
            i <= list.len(),
            forall|j: int| 0 <= j < i ==> list[j]@ != name@,
        decreases list.len() - i,
    {
        if same_name(list[i], name) {
            return Some(i);
        }
        i += 1;
    }
    assert forall|j: int| 0 <= j < names_of(list@).len() implies names_of(list@)[j] != name@ by {
        assert(names_of(list@)[j] == list[j]@);
    }
    None
}

/// The serializable fields of the container type `T`: for each field the
/// identifier it is declared under and the name it is serialized under, in
/// the order in which the container serializes them.
///
/// No identifier and no serialized name occurs twice. For a container whose
/// fields are runtime keys, the identifier of a field is its name.
#[derive(Debug)]
pub struct FieldSet<'a, T: ?Sized> {
    idents: Vec<&'a str>,
    names: Vec<&'a str>,
    _ty: PhantomData<&'a T>,
}

impl<'a, T: ?Sized> Clone for FieldSet<'a, T> {
    fn clone(&self) -> (copy: Self)
        ensures
            copy.idents() == self.idents(),
            copy.names() == self.names(),
            copy.wf(),
    {
        proof {
            use_type_invariant(self);
        }
        let idents = self.idents.clone();
        let names = self.names.clone();
        proof {
            assert(idents@ =~= self.idents@);
            assert(names@ =~= self.names@);
        }
        FieldSet { idents, names, _ty: PhantomData }
    }
}

impl<'a, T: ?Sized> FieldSet<'a, T> {
    /// The identifiers of the fields, in declared order.
    pub closed spec fn idents(&self) -> Seq<Seq<char>> {
        names_of(self.idents@)
    }

    /// The serialized names of the fields, in declared order.
    pub closed spec fn names(&self) -> Seq<Seq<char>> {
        names_of(self.names@)
    }

    /// Each field has one identifier and one name, and none occurs twice.
    #[verifier::type_invariant]
    pub closed spec fn wf(&self) -> bool {
        &&& self.idents@.len() == self.names@.len()
        &&& self.idents().no_duplicates()
        &&& self.names().no_duplicates()
    }

    /// What [`wf`](Self::wf) says, over the two lists.
    pub proof fn lemma_wf(&self)
        requires
            self.wf(),
        ensures
            self.idents().len() == self.names().len(),
            self.idents().no_duplicates(),
            self.names().no_duplicates(),
    {
    }

    /// The field set of the declarations `decls`, each an identifier and the
    /// name it is serialized under: the fields that are left after rename
    /// rules are applied and fields that are never serialized are removed.
    ///
    /// There is none where two declarations share an identifier or a name.
    pub fn declared(decls: Vec<(&'a str, &'a str)>) -> (set: Option<Self>)
        ensures
            match set {
                Some(fields) => {
                    &&& fields.wf()
                    &&& fields.idents() == decls@.map_values(|d: (&str, &str)| d.0@)
                    &&& fields.names() == decls@.map_values(|d: (&str, &str)| d.1@)
                },
                None => !(decls@.map_values(|d: (&str, &str)| d.0@).no_duplicates()
                    && decls@.map_values(|d: (&str, &str)| d.1@).no_duplicates()),
            },
    {
        let ghost all_idents = decls@.map_values(|d: (&str, &str)| d.0@);
        let ghost all_names = decls@.map_values(|d: (&str, &str)| d.1@);
        let mut idents: Vec<&'a str> = Vec::new();
        let mut names: Vec<&'a str> = Vec::new();
        let mut i: usize = 0;
        while i < decls.len()
            invariant
                i <= decls.len(),
                idents.len() == i,
                names.len() == i,
                all_idents.len() == decls.len(),
                all_names.len() == decls.len(),
                all_idents == decls@.map_values(|d: (&str, &str)| d.0@),
                all_names == decls@.map_values(|d: (&str, &str)| d.1@),
                names_of(idents@) == all_idents.take(i as int),
                names_of(names@) == all_names.take(i as int),
                all_idents.take(i as int).no_duplicates(),
                all_names.take(i as int).no_duplicates(),
            decreases decls.len() - i,
        {
            let (ident, name) = decls[i];
            let seen_ident = position(&idents, ident);
            let seen_name = position(&names, name);
            proof {
                assert(all_idents[i as int] == ident@);
                assert(all_names[i as int] == name@);
            }
            if seen_ident.is_some() || seen_name.is_some() {
                proof {
                    if seen_ident is Some {
                        let at = seen_ident->0 as int;
                        assert(names_of(idents@)[at] == ident@);
                        assert(all_idents[at] == all_idents.take(i as int)[at]);
                        assert(all_idents[at] == all_idents[i as int]);
                    } else {
                        let at = seen_name->0 as int;
                        assert(names_of(names@)[at] == name@);
                        assert(all_names[at] == all_names.take(i as int)[at]);
                        assert(all_names[at] == all_names[i as int]);
                    }
                }
                return None;
            }
            idents.push(ident);
            names.push(name);
            proof {
                assert(names_of(idents@) =~= all_idents.take(i + 1));
                assert(names_of(names@) =~= all_names.take(i + 1));
                lemma_fresh_keeps_distinct(all_idents.take(i as int), ident@);
                lemma_fresh_keeps_distinct(all_names.take(i as int), name@);
                assert(all_idents.take(i + 1) =~= all_idents.take(i as int).push(ident@));
                assert(all_names.take(i + 1) =~= all_names.take(i as int).push(name@));
            }
            i += 1;
        }
        proof {
            assert(all_idents.take(i as int) =~= all_idents);
            assert(all_names.take(i as int) =~= all_names);
        }
        Some(FieldSet { idents, names, _ty: PhantomData })
    }

    /// The field set of a container whose fields are declared under the
    /// names they are serialized under, such as the keys of a map.
    ///
    /// There is none where a name occurs twice.
    pub fn of_names(names: Vec<&'a str>) -> (set: Option<Self>)
        ensures
            match set {
                Some(fields) => {
                    &&& fields.wf()
                    &&& fields.idents() == names_of(names@)
                    &&& fields.names() == names_of(names@)
                },
                None => !names_of(names@).no_duplicates(),
            },
    {
        let mut decls: Vec<(&'a str, &'a str)> = Vec::new();
        let mut i: usize = 0;
        while i < names.len()
            invariant
                i <= names.len(),
                decls.len() == i,
                forall|j: int| 0 <= j < i ==> decls[j] == (names[j], names[j]),
            decreases names.len() - i,
        {
            decls.push((names[i], names[i]));
            i += 1;
        }
        proof {
            assert(decls@.map_values(|d: (&str, &str)| d.0@) =~= names_of(names@));
            assert(decls@.map_values(|d: (&str, &str)| d.1@) =~= names_of(names@));
        }
        Self::declared(decls)
    }

    /// The serialized names, as the list that holds them.
    pub(crate) fn name_list(&self) -> (list: &Vec<&'a str>)
        ensures
            names_of(list@) == self.names(),
            self.wf(),
    {
        proof {
            use_type_invariant(self);
        }
        &self.names
    }

    /// The number of fields.
    pub fn len(&self) -> (len: usize)
        ensures
            len == self.names().len(),
    {
        self.names.len()
    }

    /// The descriptor of the field at `index` in declared order, if there
    /// are that many fields.
    pub fn get(&self, index: usize) -> (field: Option<Field<'a, T>>)
        ensures
            match field {
                Some(f) => index < self.names().len() && f@ == self.names()[index as int],
                None => index >= self.names().len(),
            },
    {
        if index < self.names.len() {
            Some(Field::new(self.names[index]))
        } else {
            None
        }
    }

    /// The descriptor of the field declared under the identifier `ident`,
    /// if there is one. It carries the serialized name of that field.
    pub fn field(&self, ident: &str) -> (field: Option<Field<'a, T>>)
        ensures
            match field {
                Some(f) => exists|i: int|
                    0 <= i < self.idents().len() && self.idents()[i] == ident@ && #[trigger] self.names()[i]
                        == f@,
                None => !self.idents().contains(ident@),
            },
    {
        proof {
            use_type_invariant(self);
        }
        match position(&self.idents, ident) {
            Some(at) => {
                proof {
                    assert(self.idents()[at as int] == ident@);
                    assert(self.names()[at as int] == self.names[at as int]@);
                }
                Some(Field::new(self.names[at]))
            },
            None => None,
        }
    }

    /// Whether `field` is one of the fields of this set.
    pub fn contains(&self, field: Field<'_, T>) -> (known: bool)
        ensures
            known == self.names().contains(field@),
    {
        match position(&self.names, field.name()) {
            Some(at) => {
                proof {
                    assert(self.names()[at as int] == field@);
                }
                true
            },
            None => false,
        }
    }

    /// The descriptors of all fields, in declared order.
    pub fn to_vec(&self) -> (fields: Vec<Field<'a, T>>)
        ensures
            descriptor_names(fields@) == self.names(),
    {
        let mut fields: Vec<Field<'a, T>> = Vec::new();
        let mut i: usize = 0;
        while i < self.names.len()
            invariant
                i <= self.names.len(),
                fields.len() == i,
                forall|j: int| 0 <= j < i ==> fields[j]@ == self.names[j]@,
            decreases self.names.len() - i,
        {
            fields.push(Field::new(self.names[i]));
            i += 1;
        }
        proof {
            assert(descriptor_names(fields@) =~= self.names());
        }
        fields
    }
}

impl<'a, T: ?Sized> FieldSet<'a, T> {
    /// The fields of this set that `filter` lets through, in declared
    /// order: the fields of a value that are still visible through it.
    pub fn passed_by<F: SerializeFilter<T>>(&self, filter: &F) -> (fields: Vec<Field<'a, T>>)
        requires
            forall|i: int| 0 <= i < self.names().len() ==> filter.knows(#[trigger] self.names()[i]),
        ensures
            descriptor_names(fields@) == passed::<T, F>(filter, self.names()),
    {
        let mut fields: Vec<Field<'a, T>> = Vec::new();
        let mut i: usize = 0;
        while i < self.names.len()
            invariant
                i <= self.names.len(),
                forall|j: int|
                    0 <= j < self.names().len() ==> filter.knows(#[trigger] self.names()[j]),
                descriptor_names(fields@) == passed::<T, F>(filter, self.names().take(i as int)),
            decreases self.names.len() - i,
        {
            let field = Field::new(self.names[i]);
            let ghost before = descriptor_names(fields@);
            proof {
                assert(self.names()[i as int] == field@);
                assert(self.names().take(i + 1) =~= self.names().take(i as int).push(field@));
                self.names().take(i as int).lemma_filter_push(field@, passes::<T, F>(filter));
            }
            if !filter.skip(field) {
                fields.push(field);
                proof {
                    assert(descriptor_names(fields@) =~= before.push(field@));
                }
            }
            i += 1;
        }
        proof {
            assert(self.names().take(i as int) =~= self.names());
        }
        fields
    }
}

} // verus!

//! The membership filter: a set of field descriptors.

use crate::field::Field;
use crate::fields::{descriptor_names, names_of, position};
use crate::filter::{drawn_from, lets_through, SerializeFilter};
use crate::seqs::{lemma_filter_distinct, lemma_filter_member, lemma_fresh_keeps_distinct};
use core::marker::PhantomData;
use vstd::prelude::*;

verus! {

/// A set of field descriptors of the container type `T`. As a filter it
/// lets through the fields it holds and no others, whatever their names:
/// it is the filter of containers whose fields are runtime keys.
///
/// The view of a selection is the set of the names it holds.
#[derive(Debug)]
pub struct Selection<'a, T: ?Sized> {
    chosen: Vec<&'a str>,
    _ty: PhantomData<&'a T>,
}

impl<'a, T: ?Sized> View for Selection<'a, T> {
    type V = Set<Seq<char>>;

    closed spec fn view(&self) -> Set<Seq<char>> {
        names_of(self.chosen@).to_set()
    }
}

impl<'a, T: ?Sized> Clone for Selection<'a, T> {
    fn clone(&self) -> (copy: Self)
        ensures
            copy@ == self@,
    {
        proof {
            use_type_invariant(self);
        }
        let chosen = self.chosen.clone();
        proof {
            assert(chosen@ =~= self.chosen@);
        }
        Selection { chosen, _ty: PhantomData }
    }
}

impl<'a, T: ?Sized> Selection<'a, T> {
    /// Each name is held once.
    #[verifier::type_invariant]
    closed spec fn wf(&self) -> bool {
        names_of(self.chosen@).no_duplicates()
    }

    /// A selection holds finitely many names.
    pub proof fn lemma_finite(&self)
        ensures
            self@.finite(),
            self@.len() <= usize::MAX,
    {
        vstd::seq_lib::seq_to_set_is_finite(names_of(self.chosen@));
        names_of(self.chosen@).lemma_cardinality_of_set();
        assert(self.chosen@.len() == self.chosen.len());
    }

    /// The set of the descriptors in `selected`.
    pub fn collect(selected: &Vec<Field<'a, T>>) -> (set: Self)
        ensures
            set@ == descriptor_names(selected@).to_set(),
            forall|names: Seq<Seq<char>>|
                names.no_duplicates() && drawn_from(descriptor_names(selected@), names)
                    ==> #[trigger] lets_through::<T, Self>(
                    &set,
                    names,
                    descriptor_names(selected@),
                ),
    {
        let mut chosen: Vec<&'a str> = Vec::new();
        let mut i: usize = 0;
        while i < selected.len()
            invariant
                i <= selected.len(),
                names_of(chosen@).no_duplicates(),
                names_of(chosen@).to_set() == descriptor_names(selected@).take(i as int).to_set(),
            decreases selected.len() - i,
        {
            let name = selected[i].name();
            let ghost before = names_of(chosen@);
            let ghost done = descriptor_names(selected@).take(i as int);
            let ghost next = descriptor_names(selected@).take(i + 1);
            proof {
                assert(next =~= done.push(name@));
                done.lemma_push_to_set_commute(name@);
            }
            match position(&chosen, name) {
                Some(at) => {
                    proof {
                        assert(before[at as int] == name@);
                        assert(before.to_set().contains(name@));
                        assert(before.to_set().insert(name@) =~= before.to_set());
                    }
                },
                None => {
                    chosen.push(name);
                    proof {
                        assert(names_of(chosen@) =~= before.push(name@));
                        lemma_fresh_keeps_distinct(before, name@);
                        before.lemma_push_to_set_commute(name@);
                    }
                },
            }
            i += 1;
        }
        proof {
            assert(descriptor_names(selected@).take(i as int) =~= descriptor_names(selected@));
        }
        let set = Selection { chosen, _ty: PhantomData };
        proof {
            let picked = descriptor_names(selected@);
            assert forall|names: Seq<Seq<char>>|
                names.no_duplicates() && drawn_from(picked, names) implies #[trigger] lets_through::<
                T,
                Self,
            >(&set, names, picked) by {
                assert forall|name: Seq<char>| set@.contains(name) implies names.to_set().contains(
                    name,
                ) by {
                    assert(picked.contains(name));
                    let j = choose|j: int| 0 <= j < picked.len() && picked[j] == name;
                    assert(names.contains(picked[j]));
                }
            }
        }
        set
    }

    /// Whether the set holds `field`.
    pub fn contains(&self, field: Field<'_, T>) -> (held: bool)
        ensures
            held == self@.contains(field@),
    {
        match position(&self.chosen, field.name()) {
            Some(at) => {
                proof {
                    assert(names_of(self.chosen@)[at as int] == field@);
                }
                true
            },
            None => false,
        }
    }

    /// The number of descriptors in the set.
    pub fn len(&self) -> (len: usize)
        ensures
            len == self@.len(),
    {
        proof {
            use_type_invariant(self);
            names_of(self.chosen@).unique_seq_to_set();
        }
        self.chosen.len()
    }
}

impl<'a, T: ?Sized> SerializeFilter<T> for Selection<'a, T> {
    open spec fn knows(&self, name: Seq<char>) -> bool {
        true
    }

    open spec fn skips(&self, name: Seq<char>) -> bool {
        !self@.contains(name)
    }

    open spec fn passing(&self, total: Option<usize>) -> Option<usize> {
        Some(self@.len() as usize)
    }

    open spec fn admits(&self, total: Option<usize>) -> bool {
        true
    }

    open spec fn made_for(&self, names: Seq<Seq<char>>) -> bool {
        names.no_duplicates() && self@.subset_of(names.to_set())
    }

    fn recognizes(&self, field: Field<'_, T>) -> (known: bool) {
        true
    }

    fn skip(&self, field: Field<'_, T>) -> (skipped: bool) {
        !self.contains(field)
    }

    fn filtered_len(&self, len: Option<usize>) -> (passing: Option<usize>) {
        Some(self.len())
    }

    proof fn count_is_exact(&self, names: Seq<Seq<char>>, total: Option<usize>) {
        let test = |name: Seq<char>| !self.skips(name);
        let through = names.filter(test);
        lemma_filter_distinct(names, test);
        assert forall|name: Seq<char>| through.to_set().contains(name) <==> self@.contains(
            name,
        ) by {
            lemma_filter_member(names, test, name);
            if self@.contains(name) {
                assert(names.to_set().contains(name));
            }
        }
        assert(through.to_set() =~= self@);
        through.unique_seq_to_set();
        self.lemma_finite();
    }
}

} // verus!

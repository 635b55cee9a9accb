//! Containers whose fields are runtime keys.

use crate::field::{same_name, Field};
use crate::fields::{names_of, FieldSet};
use crate::partial::SerializePartial;
use crate::selection::Selection;
use crate::seqs::lemma_fresh_keeps_distinct;
use vstd::prelude::*;

verus! {

/// The keys of an associative container, as the strings that they
/// serialize as, in the order in which the container serializes its
/// entries. No key occurs twice.
///
/// This is what partial serialization reads of a map: its field set is
/// its current key set, and its filter is a set of descriptors.
#[derive(Debug)]
pub struct MapKeys<'a> {
    keys: Vec<&'a str>,
}

impl<'a> MapKeys<'a> {
    /// The keys, in the order of the entries.
    pub closed spec fn keys(&self) -> Seq<Seq<char>> {
        names_of(self.keys@)
    }

    /// No key occurs twice.
    #[verifier::type_invariant]
    pub closed spec fn wf(&self) -> bool {
        self.keys().no_duplicates()
    }

    /// The key set that holds `keys`, if no key occurs twice in them.
    pub fn new(keys: Vec<&'a str>) -> (set: Option<Self>)
        ensures
            match set {
                Some(held) => held.wf() && held.keys() == names_of(keys@),
                None => !names_of(keys@).no_duplicates(),
            },
    {
        let mut i: usize = 0;
        while i < keys.len()
            invariant
                i <= keys.len(),
                names_of(keys@).take(i as int).no_duplicates(),
            decreases keys.len() - i,
        {
            let mut j: usize = 0;
            while j < i
                invariant
                    j <= i,
                    i < keys.len(),
                    forall|k: int| 0 <= k < j ==> keys[k]@ != keys[i as int]@,
                decreases i - j,
            {
                if same_name(keys[j], keys[i]) {
                    proof {
                        assert(names_of(keys@)[j as int] == names_of(keys@)[i as int]);
                    }
                    return None;
                }
                j += 1;
            }
            proof {
                let done = names_of(keys@).take(i as int);
                assert forall|k: int| 0 <= k < done.len() implies done[k] != keys[i as int]@ by {
                    assert(done[k] == keys[k]@);
                }
                lemma_fresh_keeps_distinct(done, keys[i as int]@);
                assert(names_of(keys@).take(i + 1) =~= done.push(keys[i as int]@));
            }
            i += 1;
        }
        proof {
            assert(names_of(keys@).take(i as int) =~= names_of(keys@));
        }
        Some(MapKeys { keys })
    }

    /// The number of keys.
    pub fn len(&self) -> (len: usize)
        ensures
            len == self.keys().len(),
    {
        self.keys.len()
    }
}

impl<'a> SerializePartial<'a> for MapKeys<'a> {
    type Filter = Selection<'a, MapKeys<'a>>;

    /// The field set of a map is its key set.
    fn fields(&'a self) -> (fields: FieldSet<'a, Self>)
        ensures
            fields.names() == self.keys(),
    {
        proof {
            use_type_invariant(self);
        }
        let names = self.keys.clone();
        proof {
            assert(names@ =~= self.keys@);
        }
        FieldSet::of_names(names).unwrap()
    }

    fn filter_of(fields: &FieldSet<'a, Self>, selected: Vec<Field<'a, Self>>) -> (filter:
        Self::Filter) {
        proof {
            fields.lemma_wf();
        }
        Selection::collect(&selected)
    }
}

} // verus!

//! What holds of every filter, every container and every value: the laws
//! of partial serialization, over what the proxy hands to the backend.

use crate::fields::FieldSet;
use crate::filter::{drawn_from, lets_through, passed, passes, InverseFilter, SerializeFilter};
use crate::flags::FlagFilter;
use crate::protocol::Error;
use crate::proxy::{emitted, entries_outcome, proxied, proxied_all, submitted, Call};
use crate::seqs::{
    lemma_filter_agrees, lemma_filter_all, lemma_filter_distinct, lemma_filter_keeps_order,
    lemma_filter_member, lemma_filter_splits, lemma_filter_twice,
};
use vstd::prelude::*;

verus! {

/// The keys of entries that are all submitted under strings.
pub open spec fn string_keys(keys: Seq<Seq<char>>) -> Seq<Option<Seq<char>>> {
    keys.map_values(|key: Seq<char>| Some(key))
}

/// The names that are in both of two selections, in the order of the first.
pub open spec fn in_both(first: Seq<Seq<char>>, second: Seq<Seq<char>>) -> Seq<Seq<char>> {
    first.filter(|name: Seq<char>| second.contains(name))
}

/// The proxy never changes a name: each step reaches the backend under the
/// name it was submitted under.
pub proof fn law_names_unchanged<T: ?Sized, F: SerializeFilter<T>>(filter: &F, calls: Seq<Call>)
    ensures
        proxied_all::<T, F>(filter, calls).len() == calls.len(),
        forall|i: int|
            0 <= i < calls.len() ==> (#[trigger] proxied_all::<T, F>(filter, calls)[i]).name()
                == calls[i].name(),
{
}

/// Of the fields that a value submits with their values, those reach the
/// backend with their values that the filter lets through, in the order
/// of submission.
pub proof fn law_emitted_fields<T: ?Sized, F: SerializeFilter<T>>(
    filter: &F,
    names: Seq<Seq<char>>,
)
    ensures
        emitted(proxied_all::<T, F>(filter, submitted(names))) == passed::<T, F>(filter, names),
    decreases names.len(),
{
    reveal(Seq::filter);
    let is_field = |call: Call| call is Field;
    if names.len() == 0 {
        assert(proxied_all::<T, F>(filter, submitted(names)) =~= Seq::<Call>::empty());
        assert(emitted(Seq::<Call>::empty()) =~= Seq::<Seq<char>>::empty());
    } else {
        let rest = names.drop_last();
        let last = names.last();
        law_emitted_fields::<T, F>(filter, rest);
        let out_rest = proxied_all::<T, F>(filter, submitted(rest));
        let out = proxied_all::<T, F>(filter, submitted(names));
        let step = proxied::<T, F>(filter, Call::Field(last));
        assert(out =~= out_rest.push(step));
        out_rest.lemma_filter_push(step, is_field);
        assert(names =~= rest.push(last));
        rest.lemma_filter_push(last, passes::<T, F>(filter));
        if filter.skips(last) {
        } else {
            assert(emitted(out) =~= emitted(out_rest).push(last));
        }
    }
}

/// Of the entries of a map that are submitted whole under string keys,
/// those reach the backend that the filter lets through, in the order of
/// submission.
pub proof fn law_forwarded_entries<T: ?Sized, F: SerializeFilter<T>>(
    filter: &F,
    keys: Seq<Seq<char>>,
)
    ensures
        entries_outcome::<T, F>(filter, string_keys(keys)) == Ok::<Seq<Seq<char>>, Error>(
            passed::<T, F>(filter, keys),
        ),
{
    let texts = string_keys(keys);
    assert(texts.map_values(|key: Option<Seq<char>>| key->0) =~= keys);
}

/// A full selection changes nothing. Through a filter that lets every field of a
/// container through, the backend receives what the value submits: each
/// step of a struct as it is, and each entry of a map. Every other kind of
/// operation goes to the backend unchanged under any filter, so the output
/// is that of the value itself.
pub proof fn law_full_selection<T: ?Sized, F: SerializeFilter<T>>(
    filter: &F,
    names: Seq<Seq<char>>,
    selected: Seq<Seq<char>>,
    calls: Seq<Call>,
)
    requires
        lets_through::<T, F>(filter, names, selected),
        drawn_from(names, selected),
        forall|i: int| 0 <= i < calls.len() ==> names.contains((#[trigger] calls[i]).name()),
    ensures
        proxied_all::<T, F>(filter, calls) == calls,
        entries_outcome::<T, F>(filter, string_keys(names)) == Ok::<Seq<Seq<char>>, Error>(names),
{
    assert forall|i: int| 0 <= i < calls.len() implies proxied::<T, F>(filter, calls[i])
        == calls[i] by {
        let name = calls[i].name();
        assert(names.contains(name));
        let at = choose|at: int| 0 <= at < names.len() && names[at] == name;
        assert(!filter.skips(names[at]));
    }
    assert(proxied_all::<T, F>(filter, calls) =~= calls);
    law_forwarded_entries::<T, F>(filter, names);
    lemma_filter_agrees(names, passes::<T, F>(filter), |name: Seq<char>| true);
    lemma_filter_all(names);
}

/// Opt-in and opt-out are dual. Of the fields of a container, a filter
/// and its inverse let complementary ones through: each field passes
/// exactly one of the two, so the fields that go out when a selection is
/// excluded are those that stay in when it is included, and the other way
/// round.
pub proof fn law_duality<T: ?Sized, F: SerializeFilter<T>>(
    opt_in: &F,
    opt_out: &InverseFilter<T, F>,
    names: Seq<Seq<char>>,
    selected: Seq<Seq<char>>,
)
    requires
        opt_out.inner() == *opt_in,
        lets_through::<T, F>(opt_in, names, selected),
    ensures
        forall|name: Seq<char>| opt_out.skips(name) == !opt_in.skips(name),
        forall|i: int|
            0 <= i < names.len() ==> (proxied::<T, F>(opt_in, Call::Field(#[trigger] names[i]))
                is Field) == (proxied::<T, InverseFilter<T, F>>(opt_out, Call::Field(names[i]))
                is Skip),
        forall|name: Seq<char>|
            names.contains(name) ==> (passed::<T, F>(opt_in, names).contains(name)
                == selected.contains(name)),
        forall|name: Seq<char>|
            names.contains(name) ==> (passed::<T, InverseFilter<T, F>>(opt_out, names).contains(
                name,
            ) == !selected.contains(name)),
        passed::<T, F>(opt_in, names).len() + passed::<T, InverseFilter<T, F>>(
            opt_out,
            names,
        ).len() == names.len(),
{
    assert forall|name: Seq<char>| names.contains(name) implies (passed::<T, F>(
        opt_in,
        names,
    ).contains(name) == selected.contains(name)) && (passed::<T, InverseFilter<T, F>>(
        opt_out,
        names,
    ).contains(name) == !selected.contains(name)) by {
        let at = choose|at: int| 0 <= at < names.len() && names[at] == name;
        assert(opt_in.skips(names[at]) == !selected.contains(names[at]));
        lemma_filter_member(names, passes::<T, F>(opt_in), name);
        lemma_filter_member(names, passes::<T, InverseFilter<T, F>>(opt_out), name);
    }
    lemma_filter_splits(
        names,
        passes::<T, F>(opt_in),
        passes::<T, InverseFilter<T, F>>(opt_out),
    );
}

/// The count that a filter reports is exact. Where a filter made for a
/// container reports a
/// count, for the number of the container's fields or for none, it
/// reports the number of fields that reach the backend with their values
/// when a value submits them all, and the number of entries that reach it
/// when a map submits them all.
pub proof fn law_count_consistency<T: ?Sized, F: SerializeFilter<T>>(
    filter: &F,
    names: Seq<Seq<char>>,
    total: Option<usize>,
)
    requires
        filter.made_for(names),
        total matches Some(n) ==> n == names.len(),
    ensures
        filter.admits(total),
        filter.passing(total) matches Some(count) ==> {
            &&& count == emitted(proxied_all::<T, F>(filter, submitted(names))).len()
            &&& entries_outcome::<T, F>(filter, string_keys(names)) matches Ok(out)
            &&& count == out.len()
        },
{
    filter.count_is_exact(names, total);
    lemma_filter_agrees(names, passes::<T, F>(filter), |name: Seq<char>| !filter.skips(name));
    law_emitted_fields::<T, F>(filter, names);
    law_forwarded_entries::<T, F>(filter, names);
}

/// A map is filtered by its key set. Of the entries of a map with the
/// distinct keys
/// `keys`, a filter that lets a selection of the keys through hands to
/// the backend the entries under the selected keys and none other, each
/// once, and in the order in which the map submits them.
pub proof fn law_map_key_set<T: ?Sized, F: SerializeFilter<T>>(
    filter: &F,
    keys: Seq<Seq<char>>,
    selected: Seq<Seq<char>>,
)
    requires
        keys.no_duplicates(),
        lets_through::<T, F>(filter, keys, selected),
        drawn_from(selected, keys),
    ensures
        entries_outcome::<T, F>(filter, string_keys(keys)) matches Ok(out) && {
            &&& forall|name: Seq<char>| out.contains(name) == selected.contains(name)
            &&& out.no_duplicates()
            &&& forall|i: int, j: int|
                0 <= i < j < out.len() ==> keys.index_of(#[trigger] out[i]) < keys.index_of(
                    #[trigger] out[j],
                )
        },
{
    law_forwarded_entries::<T, F>(filter, keys);
    let out = passed::<T, F>(filter, keys);
    assert forall|name: Seq<char>| out.contains(name) == selected.contains(name) by {
        lemma_filter_member(keys, passes::<T, F>(filter), name);
        if selected.contains(name) {
            let at = choose|at: int| 0 <= at < selected.len() && selected[at] == name;
            assert(keys.contains(selected[at]));
        }
        if keys.contains(name) {
            let at = choose|at: int| 0 <= at < keys.len() && keys[at] == name;
            assert(filter.skips(keys[at]) == !selected.contains(keys[at]));
        }
    }
    lemma_filter_distinct(keys, passes::<T, F>(filter));
    assert forall|i: int, j: int| 0 <= i < j < out.len() implies keys.index_of(#[trigger] out[i])
        < keys.index_of(#[trigger] out[j]) by {
        lemma_filter_keeps_order(keys, passes::<T, F>(filter), i, j);
    }
}

/// Wrapping twice is wrapping once. A view of a value that is wrapped
/// again, with
/// a selection among the fields that the first view leaves visible, hands
/// to the backend what one view of the value hands to it whose selection
/// is what the two selections share: step by step for a struct, and entry
/// by entry for a map.
pub proof fn law_rewrapping<
    T: ?Sized,
    U: ?Sized,
    F: SerializeFilter<T>,
    G: SerializeFilter<U>,
    H: SerializeFilter<T>,
>(
    first: &F,
    second: &G,
    once: &H,
    names: Seq<Seq<char>>,
    selected: Seq<Seq<char>>,
    again: Seq<Seq<char>>,
    calls: Seq<Call>,
)
    requires
        lets_through::<T, F>(first, names, selected),
        lets_through::<U, G>(second, passed::<T, F>(first, names), again),
        drawn_from(again, passed::<T, F>(first, names)),
        lets_through::<T, H>(once, names, in_both(selected, again)),
        forall|i: int| 0 <= i < calls.len() ==> names.contains((#[trigger] calls[i]).name()),
    ensures
        proxied_all::<U, G>(second, proxied_all::<T, F>(first, calls)) == proxied_all::<T, H>(
            once,
            calls,
        ),
        passed::<U, G>(second, passed::<T, F>(first, names)) == passed::<T, H>(once, names),
{
    let visible = passed::<T, F>(first, names);
    assert forall|i: int| 0 <= i < names.len() implies once.skips(#[trigger] names[i]) == (
    first.skips(names[i]) || second.skips(names[i])) by {
        let name = names[i];
        lemma_filter_member(selected, |name: Seq<char>| again.contains(name), name);
        lemma_filter_member(names, passes::<T, F>(first), name);
        if first.skips(name) {
        } else {
            let at = choose|at: int| 0 <= at < visible.len() && visible[at] == name;
            assert(second.skips(visible[at]) == !again.contains(visible[at]));
        }
    }
    assert forall|i: int| 0 <= i < calls.len() implies proxied::<U, G>(
        second,
        proxied::<T, F>(first, calls[i]),
    ) == proxied::<T, H>(once, calls[i]) by {
        let name = calls[i].name();
        let at = choose|at: int| 0 <= at < names.len() && names[at] == name;
        assert(once.skips(names[at]) == (first.skips(names[at]) || second.skips(names[at])));
    }
    assert(proxied_all::<U, G>(second, proxied_all::<T, F>(first, calls)) =~= proxied_all::<T, H>(
        once,
        calls,
    ));
    lemma_filter_twice(names, passes::<T, F>(first), passes::<U, G>(second));
    lemma_filter_agrees(
        names,
        |name: Seq<char>| passes::<T, F>(first)(name) && passes::<U, G>(second)(name),
        passes::<T, H>(once),
    );
}

/// Fields go by their serialized names. A field that is declared under
/// one identifier and
/// serialized under another name is filtered under its serialized name:
/// the filter of the container knows that name and lets it through where
/// it is selected. Where the identifier is not the serialized name of any
/// field, the filter does not know it, and nothing reaches the backend
/// under it.
pub proof fn law_rename<'a, T: ?Sized>(
    fields: &FieldSet<'a, T>,
    filter: &FlagFilter<'a, T>,
    selected: Seq<Seq<char>>,
    calls: Seq<Call>,
    at: int,
)
    requires
        fields.wf(),
        lets_through::<T, FlagFilter<'a, T>>(filter, fields.names(), selected),
        forall|i: int|
            0 <= i < calls.len() ==> fields.names().contains((#[trigger] calls[i]).name()),
        0 <= at < fields.names().len(),
    ensures
        at < fields.idents().len(),
        filter.knows(fields.names()[at]),
        filter.skips(fields.names()[at]) == !selected.contains(fields.names()[at]),
        !fields.names().contains(fields.idents()[at]) ==> {
            &&& !filter.knows(fields.idents()[at])
            &&& forall|i: int|
                0 <= i < calls.len() ==> (#[trigger] proxied_all::<T, FlagFilter<'a, T>>(
                    filter,
                    calls,
                )[i]).name() != fields.idents()[at]
        },
{
    fields.lemma_wf();
    assert(fields.names().contains(fields.names()[at]));
    law_names_unchanged::<T, FlagFilter<'a, T>>(filter, calls);
}

} // verus!

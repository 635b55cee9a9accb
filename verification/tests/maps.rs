use std::collections::{BTreeMap, HashMap};

use serde_json::Value;
use serde_partial::{
    EntryCall, Error, Field, InverseFilter, KeyForm, MapKeys, Operation, Partial, Selection,
    SerializeFilter, SerializePartial,
};

/// The object that a backend builds of the entries that the view lets through.
fn output<'m, F, I>(view: &Partial<'_, MapKeys<'m>, F>, entries: I) -> Value
where
    F: SerializeFilter<MapKeys<'m>>,
    I: IntoIterator<Item = (&'m str, &'m str)>,
{
    let proxy = view.serializer().serialize_map(None).0;
    let mut object = serde_json::Map::new();
    for (key, value) in entries {
        assert!(proxy.key_serializer().recognizes(key));
        match proxy.serialize_entry(KeyForm::Str(key)) {
            Ok(EntryCall::Entry) => {
                object.insert(key.to_string(), Value::from(value));
            }
            Ok(EntryCall::Nothing) => {}
            Err(error) => panic!("{}", error.message()),
        }
    }
    Value::Object(object)
}

fn object(entries: Vec<(&str, &str)>) -> Value {
    let mut object = serde_json::Map::new();
    for (key, value) in entries {
        object.insert(key.to_string(), Value::from(value));
    }
    Value::Object(object)
}

#[test]
fn b_tree_map() {
    let map = BTreeMap::from([("a", "b"), ("c", "d")]);
    let keys = MapKeys::new(map.keys().copied().collect()).unwrap();
    let filtered = keys.with_fields(|_| vec![Field::new("a")]);
    assert_eq!(
        output(&filtered, map.iter().map(|(k, v)| (*k, *v))),
        object(vec![("a", "b")])
    )
}

#[test]
fn hash_map() {
    let map = HashMap::from([("a", "b"), ("c", "d")]);
    let keys = MapKeys::new(map.keys().copied().collect()).unwrap();
    let filtered = keys.with_fields(|_| vec![Field::new("a")]);
    assert_eq!(
        output(&filtered, map.iter().map(|(k, v)| (*k, *v))),
        object(vec![("a", "b")])
    )
}

#[test]
fn map_keys_are_the_fields_of_a_map() {
    let keys = MapKeys::new(vec!["a", "c"]).unwrap();
    assert_eq!(keys.len(), 2);
    let fields = keys.fields();
    assert_eq!(fields.len(), 2);
    assert_eq!(fields.get(0).unwrap().name(), "a");
    assert_eq!(fields.get(1).unwrap().name(), "c");
    assert_eq!(fields.field("c").unwrap().name(), "c");
}

#[test]
fn map_keys_refuse_a_repeated_key() {
    assert!(MapKeys::new(vec!["a", "c", "a"]).is_none());
    assert!(MapKeys::new(vec!["a", "a"]).is_none());
    assert!(MapKeys::new(Vec::new()).is_some());
    assert!(MapKeys::new(vec!["a"]).is_some());
}

#[test]
fn without_fields_drops_the_selected_entries() {
    let map = BTreeMap::from([("a", "b"), ("c", "d"), ("e", "f")]);
    let keys = MapKeys::new(map.keys().copied().collect()).unwrap();
    let filtered = keys.without_fields(|_| vec![Field::new("c")]);
    assert_eq!(
        output(&filtered, map.iter().map(|(k, v)| (*k, *v))),
        object(vec![("a", "b"), ("e", "f")])
    );
    assert_eq!(filtered.filter.filtered_len(Some(3)), Some(2));
    assert_eq!(filtered.filter.filtered_len(None), None);
}

#[test]
fn selected_entries_go_out_in_the_order_of_the_map() {
    let list = vec!["delta", "alpha", "charlie", "bravo"];
    let keys = MapKeys::new(list.clone()).unwrap();
    let filtered = keys.with_fields(|_| {
        vec![Field::new("bravo"), Field::new("delta"), Field::new("alpha")]
    });
    let forms: Vec<KeyForm<'_>> = list.iter().map(|key| KeyForm::Str(key)).collect();
    let out = filtered
        .serializer()
        .serialize_map(None)
        .0
        .serialize_entries(&forms);
    assert_eq!(out, Ok(vec!["delta", "alpha", "bravo"]));
    assert_eq!(filtered.filter.filtered_len(Some(4)), Some(3));

    let sorted = BTreeMap::from([("delta", 4), ("alpha", 1), ("charlie", 3), ("bravo", 2)]);
    let list: Vec<&str> = sorted.keys().copied().collect();
    let keys = MapKeys::new(list.clone()).unwrap();
    let filtered = keys.with_fields(|_| vec![Field::new("delta"), Field::new("alpha")]);
    let forms: Vec<KeyForm<'_>> = list.iter().map(|key| KeyForm::Str(key)).collect();
    let out = filtered
        .serializer()
        .serialize_map(None)
        .0
        .serialize_entries(&forms);
    assert_eq!(out, Ok(vec!["alpha", "delta"]));
}

#[test]
fn selecting_every_key_lets_every_entry_through() {
    let list = vec!["a", "c"];
    let keys = MapKeys::new(list.clone()).unwrap();
    let filtered = keys.with_fields(|fields| fields.to_vec());
    let forms: Vec<KeyForm<'_>> = list.iter().map(|key| KeyForm::Str(key)).collect();
    let out = filtered
        .serializer()
        .serialize_map(None)
        .0
        .serialize_entries(&forms);
    assert_eq!(out, Ok(list));
    assert_eq!(filtered.filter.filtered_len(Some(2)), Some(2));
}

#[test]
fn a_key_selected_twice_counts_once() {
    let keys = MapKeys::new(vec!["a", "c"]).unwrap();
    let filtered = keys.with_fields(|_| vec![Field::new("a"), Field::new("a")]);
    assert_eq!(filtered.filter.filtered_len(Some(2)), Some(1));
    assert_eq!(filtered.filter.len(), 1);
}

#[test]
fn a_map_is_begun_with_the_hint_it_was_given() {
    let keys = MapKeys::new(vec!["a", "c"]).unwrap();
    let filtered = keys.with_fields(|_| vec![Field::new("a")]);
    assert_eq!(filtered.serializer().serialize_map(Some(2)).1, Some(2));
    assert_eq!(filtered.serializer().serialize_map(None).1, None);
}

#[test]
fn a_lone_key_is_an_error() {
    let keys = MapKeys::new(vec!["a"]).unwrap();
    let filtered = keys.with_fields(|fields| fields.to_vec());
    let proxy = filtered.serializer().serialize_map(None).0;
    let error = proxy.serialize_key().unwrap_err();
    assert_eq!(error, Error::LoneKey);
    assert_eq!(
        error.message(),
        "cannot perform partial serialization of lone keys/values; use whole-entry emission"
    );
}

#[test]
fn a_lone_value_is_an_error() {
    let keys = MapKeys::new(vec!["a"]).unwrap();
    let filtered = keys.with_fields(|fields| fields.to_vec());
    let proxy = filtered.serializer().serialize_map(None).0;
    let error = proxy.serialize_value().unwrap_err();
    assert_eq!(error, Error::LoneValue);
    assert_eq!(
        error.message(),
        "cannot perform partial serialization of lone keys/values; use whole-entry emission"
    );
}

#[test]
fn a_key_that_is_no_string_is_an_error() {
    let keys = MapKeys::new(vec!["a"]).unwrap();
    let filtered = keys.with_fields(|fields| fields.to_vec());
    let proxy = filtered.serializer().serialize_map(None).0;
    for operation in [
        Operation::Bool,
        Operation::U64,
        Operation::I32,
        Operation::F64,
        Operation::Char,
        Operation::Bytes,
        Operation::Absent,
        Operation::Unit,
        Operation::Sequence,
        Operation::KeyedMap,
        Operation::Struct,
    ] {
        let error = proxy
            .serialize_entry(KeyForm::Other(operation))
            .unwrap_err();
        assert_eq!(error, Error::KeyNotString);
        assert_eq!(error.message(), "key should serialize to a string");
        assert_eq!(
            proxy.key_serializer().serialize(KeyForm::Other(operation)),
            Err(Error::KeyNotString)
        );
    }
}

#[test]
fn the_key_serializer_says_whether_the_entry_is_skipped() {
    let keys = MapKeys::new(vec!["a", "c"]).unwrap();
    let filtered = keys.with_fields(|_| vec![Field::new("a")]);
    let serializer = filtered.serializer().serialize_map(None).0.key_serializer();
    assert_eq!(serializer.serialize_str("a"), Ok(false));
    assert_eq!(serializer.serialize_str("c"), Ok(true));
    assert_eq!(serializer.serialize(KeyForm::Str("a")), Ok(false));
    assert_eq!(serializer.serialize(KeyForm::Str("c")), Ok(true));
    assert!(serializer.recognizes("a"));
    assert!(serializer.recognizes("never seen"));
}

#[test]
fn entries_stop_at_the_first_key_that_is_no_string() {
    let keys = MapKeys::new(vec!["a", "c"]).unwrap();
    let filtered = keys.with_fields(|fields| fields.to_vec());
    let out = filtered
        .serializer()
        .serialize_map(None)
        .0
        .serialize_entries(&vec![
            KeyForm::Str("a"),
            KeyForm::Other(Operation::U8),
            KeyForm::Str("c"),
        ]);
    assert_eq!(out, Err(Error::KeyNotString));
}

#[test]
fn no_entries_give_no_entries() {
    let keys = MapKeys::new(Vec::new()).unwrap();
    let filtered = keys.with_fields(|_| Vec::new());
    let out = filtered
        .serializer()
        .serialize_map(None)
        .0
        .serialize_entries(&Vec::new());
    assert_eq!(out, Ok(Vec::new()));
    assert_eq!(filtered.filter.filtered_len(Some(0)), Some(0));
}

#[test]
fn wrapping_a_map_view_again_is_selecting_what_both_select() {
    let list = vec!["a", "b", "c", "d"];
    let forms: Vec<KeyForm<'_>> = list.iter().map(|key| KeyForm::Str(key)).collect();
    let first: Selection<'_, ()> =
        Selection::collect(&vec![Field::new("a"), Field::new("c"), Field::new("d")]);
    let second: Selection<'_, ()> = Selection::collect(&vec![Field::new("d"), Field::new("a")]);
    let once: Selection<'_, ()> = Selection::collect(&vec![Field::new("a"), Field::new("d")]);

    let unit = ();
    let inner = Partial {
        value: &unit,
        filter: first,
    };
    let visible = inner
        .serializer()
        .serialize_map(None)
        .0
        .serialize_entries(&forms)
        .unwrap();
    assert_eq!(visible, ["a", "c", "d"]);
    let outer = Partial {
        value: &unit,
        filter: second,
    };
    let again: Vec<KeyForm<'_>> = visible.iter().map(|key| KeyForm::Str(key)).collect();
    let twice = outer
        .serializer()
        .serialize_map(None)
        .0
        .serialize_entries(&again);
    let single = Partial {
        value: &unit,
        filter: once,
    };
    assert_eq!(
        twice,
        single.serializer().serialize_map(None).0.serialize_entries(&forms)
    );
    assert_eq!(twice, Ok(vec!["a", "d"]));
}

#[test]
fn an_inverse_selection_recognizes_every_key() {
    let inverse: InverseFilter<(), Selection<'_, ()>> =
        InverseFilter::new(Selection::collect(&vec![Field::new("a")]));
    assert!(inverse.recognizes(Field::new("a")));
    assert!(inverse.recognizes(Field::new("z")));
    assert!(inverse.skip(Field::new("a")));
    assert!(!inverse.skip(Field::new("z")));
}

use serde_partial::{Field, FieldSet, FlagFilter, InverseFilter, Selection, SerializeFilter};

#[derive(Debug)]
struct User;

fn user_fields() -> FieldSet<'static, User> {
    FieldSet::declared(vec![
        ("full_name", "fullName"),
        ("age", "age"),
        ("email", "contact"),
    ])
    .unwrap()
}

fn field(name: &'static str) -> Field<'static, User> {
    Field::new(name)
}

#[test]
fn new_flag_filter_skips_every_field() {
    let filter = FlagFilter::new(&user_fields());
    assert!(filter.skip(field("fullName")));
    assert!(filter.skip(field("age")));
    assert!(filter.skip(field("contact")));
    assert!(!filter.is_set(field("age")));
    assert_eq!(filter.filtered_len(Some(3)), Some(0));
    assert_eq!(filter.filtered_len(None), Some(0));
}

#[test]
fn flag_filter_is_settable_per_field() {
    let mut filter = FlagFilter::new(&user_fields());
    filter.set(field("age"), true);
    assert!(filter.is_set(field("age")));
    assert!(!filter.skip(field("age")));
    assert!(filter.skip(field("fullName")));
    assert!(filter.skip(field("contact")));
    assert_eq!(filter.filtered_len(Some(3)), Some(1));
    filter.set(field("contact"), true);
    assert_eq!(filter.filtered_len(Some(3)), Some(2));
    filter.set(field("age"), false);
    assert!(filter.skip(field("age")));
    assert!(!filter.skip(field("contact")));
    assert_eq!(filter.filtered_len(Some(3)), Some(1));
    filter.set(field("contact"), true);
    assert_eq!(filter.filtered_len(Some(3)), Some(1));
}

#[test]
fn flag_filter_recognizes_the_fields_of_its_set_only() {
    let filter = FlagFilter::new(&user_fields());
    assert!(filter.recognizes(field("fullName")));
    assert!(filter.recognizes(field("age")));
    assert!(filter.recognizes(field("contact")));
    assert!(!filter.recognizes(field("email")));
    assert!(!filter.recognizes(field("full_name")));
    assert!(!filter.recognizes(field("")));
    assert!(!filter.is_set(field("email")));
}

#[test]
fn select_sets_the_flags_of_the_selected_fields() {
    let fields = user_fields();
    let filter = FlagFilter::select(&fields, &vec![field("contact"), field("fullName")]);
    assert!(!filter.skip(field("fullName")));
    assert!(filter.skip(field("age")));
    assert!(!filter.skip(field("contact")));
    assert_eq!(filter.filtered_len(Some(3)), Some(2));
}

#[test]
fn select_takes_a_field_twice_as_once() {
    let fields = user_fields();
    let filter = FlagFilter::select(&fields, &vec![field("age"), field("age")]);
    assert!(!filter.skip(field("age")));
    assert_eq!(filter.filtered_len(Some(3)), Some(1));
}

#[test]
fn select_of_nothing_skips_everything() {
    let fields = user_fields();
    let filter = FlagFilter::select(&fields, &Vec::new());
    assert!(filter.skip(field("fullName")));
    assert!(filter.skip(field("age")));
    assert!(filter.skip(field("contact")));
    assert_eq!(filter.filtered_len(Some(3)), Some(0));
}

#[test]
fn flag_filter_clone_keeps_the_flags() {
    let fields = user_fields();
    let filter = FlagFilter::select(&fields, &vec![field("age")]);
    let copy = filter.clone();
    assert!(!copy.skip(field("age")));
    assert!(copy.skip(field("contact")));
    assert_eq!(copy.filtered_len(Some(3)), Some(1));
}

#[test]
fn selection_holds_each_descriptor_once() {
    let set: Selection<'_, User> =
        Selection::collect(&vec![field("a"), field("b"), field("a")]);
    assert_eq!(set.len(), 2);
    assert!(set.contains(field("a")));
    assert!(set.contains(field("b")));
    assert!(!set.contains(field("c")));
}

#[test]
fn selection_lets_through_what_it_holds() {
    let set: Selection<'_, User> = Selection::collect(&vec![field("a")]);
    assert!(!set.skip(field("a")));
    assert!(set.skip(field("c")));
    assert!(set.skip(field("")));
    assert!(set.recognizes(field("a")));
    assert!(set.recognizes(field("anything")));
    assert_eq!(set.filtered_len(Some(2)), Some(1));
    assert_eq!(set.filtered_len(None), Some(1));
}

#[test]
fn empty_selection_skips_everything() {
    let set: Selection<'_, User> = Selection::collect(&Vec::new());
    assert_eq!(set.len(), 0);
    assert!(set.skip(field("a")));
    assert_eq!(set.filtered_len(Some(5)), Some(0));
}

#[test]
fn selection_clone_holds_the_same() {
    let set: Selection<'_, User> = Selection::collect(&vec![field("a"), field("b")]);
    let copy = set.clone();
    assert_eq!(copy.len(), 2);
    assert!(copy.contains(field("a")));
    assert!(copy.contains(field("b")));
    assert!(!copy.contains(field("c")));
}

#[test]
fn inverse_filter_flips_every_decision() {
    let fields = user_fields();
    let inner = FlagFilter::select(&fields, &vec![field("contact")]);
    let inverse = InverseFilter::new(inner.clone());
    for name in ["fullName", "age", "contact"] {
        assert_eq!(inverse.skip(field(name)), !inner.skip(field(name)));
    }
    assert!(!inverse.skip(field("fullName")));
    assert!(!inverse.skip(field("age")));
    assert!(inverse.skip(field("contact")));
    assert!(inverse.recognizes(field("age")));
    assert!(!inverse.recognizes(field("email")));
}

#[test]
fn inverse_filter_counts_what_is_left() {
    let fields = user_fields();
    let inverse = InverseFilter::new(FlagFilter::select(&fields, &vec![field("contact")]));
    assert_eq!(inverse.filtered_len(Some(3)), Some(2));
    let all = InverseFilter::new(FlagFilter::new(&fields));
    assert_eq!(all.filtered_len(Some(3)), Some(3));
    let none = InverseFilter::new(FlagFilter::select(&fields, &fields.to_vec()));
    assert_eq!(none.filtered_len(Some(3)), Some(0));
}

#[test]
fn inverse_filter_hands_out_the_filter_it_inverts() {
    let fields = user_fields();
    let inverse = InverseFilter::new(FlagFilter::select(&fields, &vec![field("contact")]));
    assert!(!inverse.filter().skip(field("contact")));
    assert!(inverse.filter().skip(field("age")));
    assert_eq!(inverse.filter().filtered_len(Some(3)), Some(1));
}

#[test]
fn inverse_filter_count_is_unknown_without_a_total() {
    let fields = user_fields();
    let inverse = InverseFilter::new(FlagFilter::select(&fields, &vec![field("contact")]));
    assert_eq!(inverse.filtered_len(None), None);
}

#[test]
fn inverse_of_an_inverse_decides_as_the_filter() {
    let fields = user_fields();
    let inner = FlagFilter::select(&fields, &vec![field("age")]);
    let twice = InverseFilter::new(InverseFilter::new(inner.clone()));
    for name in ["fullName", "age", "contact"] {
        assert_eq!(twice.skip(field(name)), inner.skip(field(name)));
    }
    assert_eq!(twice.filtered_len(Some(3)), Some(1));
    assert_eq!(twice.filtered_len(None), None);
}

#[test]
fn inverse_filter_clone_decides_the_same() {
    let inverse: InverseFilter<User, Selection<'_, User>> =
        InverseFilter::new(Selection::collect(&vec![field("a")]));
    let copy = inverse.clone();
    assert!(copy.skip(field("a")));
    assert!(!copy.skip(field("c")));
    assert_eq!(copy.filtered_len(Some(2)), Some(1));
}

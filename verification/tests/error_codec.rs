use distilled::Error;
use distilled::ErrorEntry;
use distilled::ErrorMap;
use distilled::Value;

fn entry(code: &str) -> Error {
    Error::Entry(ErrorEntry::new(code))
}

fn nested_tree() -> Error {
    Error::Struct(vec![
        ("name".to_owned(), entry("missing_field")),
        (
            "pair".to_owned(),
            Error::List(vec![
                (0, entry("wrong_type")),
                (
                    7,
                    Error::Struct(vec![("inner".to_owned(), entry("length"))]),
                ),
            ]),
        ),
        (
            "mail".to_owned(),
            Error::Entry(ErrorEntry {
                code: "email".to_owned(),
                params: vec![("seen".to_owned(), Value::Str("a@".to_owned()))],
            }),
        ),
    ])
}

#[test]
fn entry_serializes_to_code_and_params() {
    let e = entry("length");
    let v = e.to_value();
    assert_eq!(
        v,
        Value::Obj(vec![
            ("code".to_owned(), Value::Str("length".to_owned())),
            ("params".to_owned(), Value::Obj(vec![])),
        ])
    );
}

#[test]
fn round_trip_nested_tree() {
    let tree = nested_tree();
    let doc = tree.to_value();
    let back = Error::from_value(&doc).expect("an encoding must parse back");
    assert_eq!(back, nested_tree());
}

#[test]
fn round_trip_single_entry_and_empty_struct() {
    let e = entry("wrong_type");
    assert_eq!(Error::from_value(&e.to_value()), Some(entry("wrong_type")));
    let s = Error::Struct(vec![]);
    assert_eq!(Error::from_value(&s.to_value()), Some(Error::Struct(vec![])));
    let l = Error::List(vec![]);
    assert_eq!(Error::from_value(&l.to_value()), Some(Error::List(vec![])));
}

#[test]
fn struct_with_code_named_field_stays_a_struct() {
    // A struct whose field happens to be called "code" must not be
    // mistaken for a leaf entry when parsed back.
    let tricky = Error::Struct(vec![
        ("code".to_owned(), entry("length")),
        ("params".to_owned(), Error::Struct(vec![])),
    ]);
    let doc = tricky.to_value();
    assert_eq!(Error::from_value(&doc), Some(tricky));
}

#[test]
fn parse_rejects_non_encodings() {
    assert_eq!(Error::from_value(&Value::Null), None);
    assert_eq!(Error::from_value(&Value::Int(3)), None);
    assert_eq!(Error::from_value(&Value::Str("x".to_owned())), None);
    // An array item that is not a position/subtree pair.
    let bad = Value::Arr(vec![Value::Int(0)]);
    assert_eq!(Error::from_value(&bad), None);
    // A pair whose position is negative.
    let bad2 = Value::Arr(vec![Value::Arr(vec![
        Value::Int(-1),
        entry("length").to_value(),
    ])]);
    assert_eq!(Error::from_value(&bad2), None);
    // An object whose value is no subtree.
    let bad3 = Value::Obj(vec![("a".to_owned(), Value::Int(1))]);
    assert_eq!(Error::from_value(&bad3), None);
}

#[test]
fn oversized_position_is_refused_by_checked_serialization() {
    let tree = Error::List(vec![(usize::MAX, entry("length"))]);
    if usize::MAX as u128 > i64::MAX as u128 {
        assert_eq!(tree.to_value_checked(), None);
    }
    let small = Error::List(vec![(3, entry("length"))]);
    assert!(small.to_value_checked().is_some());
}

#[test]
fn deep_clone_is_structural() {
    let v = Value::Obj(vec![
        ("a".to_owned(), Value::Arr(vec![Value::Int(1), Value::Null])),
        ("b".to_owned(), Value::Str("s".to_owned())),
    ]);
    assert_eq!(v.deep_clone(), v);
}

#[test]
fn error_map_default_is_empty() {
    let m = ErrorMap::default();
    assert!(m.0.is_empty());
}

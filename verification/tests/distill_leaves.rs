use distilled::Distilled;
use distilled::Error;
use distilled::ErrorEntry;
use distilled::Value;

fn entry(code: &str) -> Error {
    Error::Entry(ErrorEntry::new(code))
}

#[test]
fn unit_accepts_absent_and_null() {
    assert_eq!(<() as Distilled>::distill(None), Ok(()));
    assert_eq!(<() as Distilled>::distill(Some(&Value::Null)), Ok(()));
    assert_eq!(
        <() as Distilled>::distill(Some(&Value::Bool(true))),
        Err(entry("wrong_type"))
    );
}

#[test]
fn string_copies_value() {
    let v = Value::Str("hello".to_owned());
    assert_eq!(String::distill(Some(&v)), Ok("hello".to_owned()));
    assert_eq!(String::distill(None), Err(entry("missing_field")));
    assert_eq!(
        String::distill(Some(&Value::Int(3))),
        Err(entry("wrong_type"))
    );
    assert_eq!(
        String::distill(Some(&Value::Null)),
        Err(entry("wrong_type"))
    );
}

#[test]
fn unsigned_int_range() {
    assert_eq!(u32::distill(Some(&Value::Int(-1))), Err(entry("wrong_type")));
    assert_eq!(
        u32::distill(Some(&Value::Int(4294967296))),
        Err(entry("wrong_type"))
    );
    assert_eq!(u32::distill(Some(&Value::Int(42))), Ok(42));
    assert_eq!(u32::distill(Some(&Value::Int(0))), Ok(0));
    assert_eq!(u32::distill(Some(&Value::Int(4294967295))), Ok(4294967295));
    assert_eq!(u32::distill(None), Err(entry("missing_field")));
    assert_eq!(
        u32::distill(Some(&Value::Str("7".to_owned()))),
        Err(entry("wrong_type"))
    );
}

#[test]
fn optional_absent_is_none_but_null_is_not() {
    // Key absent: success with no value.
    assert_eq!(<Option<String> as Distilled>::distill(None), Ok(None));
    // Key present with an explicit null: handed to the inner distiller,
    // which rejects it. Explicit null is not treated as absence.
    assert_eq!(
        <Option<String> as Distilled>::distill(Some(&Value::Null)),
        Err(entry("wrong_type"))
    );
    let v = Value::Str("x".to_owned());
    assert_eq!(
        <Option<String> as Distilled>::distill(Some(&v)),
        Ok(Some("x".to_owned()))
    );
}

#[test]
fn optional_unit_accepts_null_through_inner() {
    // Unit itself accepts null, so Optional<()> on an explicit null
    // succeeds through delegation.
    assert_eq!(
        <Option<()> as Distilled>::distill(Some(&Value::Null)),
        Ok(Some(()))
    );
    assert_eq!(<Option<()> as Distilled>::distill(None), Ok(None));
}

#[test]
fn lookup_key_first_match_and_non_object() {
    let obj = Value::Obj(vec![
        ("a".to_owned(), Value::Int(1)),
        ("a".to_owned(), Value::Int(2)),
        ("b".to_owned(), Value::Null),
    ]);
    assert_eq!(obj.lookup_key(&"a".to_owned()), Some(&Value::Int(1)));
    assert_eq!(obj.lookup_key(&"b".to_owned()), Some(&Value::Null));
    assert_eq!(obj.lookup_key(&"c".to_owned()), None);
    assert_eq!(Value::Int(3).lookup_key(&"a".to_owned()), None);
}

#[test]
fn lookup_index_bounds_and_non_array() {
    let arr = Value::Arr(vec![Value::Int(5), Value::Null]);
    assert_eq!(arr.lookup_index(0), Some(&Value::Int(5)));
    assert_eq!(arr.lookup_index(1), Some(&Value::Null));
    assert_eq!(arr.lookup_index(2), None);
    assert_eq!(Value::Bool(false).lookup_index(0), None);
}

#[test]
fn error_entry_constructors() {
    let e = ErrorEntry::new("length");
    assert_eq!(e.code, "length".to_owned());
    assert!(e.params.is_empty());
    assert_eq!(Error::entry("email"), Error::Entry(ErrorEntry::new("email")));
}

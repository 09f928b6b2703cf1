use distilled::check_rules;
use distilled::distill_value;
use distilled::trim_string;
use distilled::Distillate;
use distilled::Error;
use distilled::ErrorEntry;
use distilled::LengthArgs;
use distilled::Rule;
use distilled::TypeDesc;
use distilled::Value;
use distilled::Xform;

fn entry(code: &str) -> Error {
    Error::Entry(ErrorEntry::new(code))
}

fn newtype(inner: TypeDesc, xforms: Vec<Xform>, rules: Vec<Rule>) -> TypeDesc {
    TypeDesc::Newtype(Box::new(inner), xforms, rules)
}

fn str_input(s: &str) -> Value {
    Value::Str(s.to_owned())
}

#[test]
fn trim_strips_leading_and_trailing_whitespace() {
    assert_eq!(trim_string(&"  ab  ".to_owned()), "ab".to_owned());
    assert_eq!(trim_string(&"\t a b \n".to_owned()), "a b".to_owned());
    assert_eq!(trim_string(&"   ".to_owned()), "".to_owned());
    assert_eq!(trim_string(&"abc".to_owned()), "abc".to_owned());
}

#[test]
fn trim_then_length_rule() {
    let ty = newtype(
        TypeDesc::Str,
        vec![Xform::Trim],
        vec![Rule::Length(LengthArgs { min: Some(3), max: None })],
    );
    // "  ab  " trims to "ab", length 2 < 3: the length rule fails.
    let bad = str_input("  ab  ");
    assert_eq!(distill_value(&ty, Some(&bad)), Err(entry("length")));
    // " abcd " trims to "abcd", length 4: success with the trimmed value.
    let good = str_input(" abcd ");
    assert_eq!(
        distill_value(&ty, Some(&good)),
        Ok(Distillate::Str("abcd".to_owned()))
    );
}

#[test]
fn first_failing_rule_wins() {
    // Email declared before Length{max:3}; "a@" is no email but is short
    // enough, so only the email failure is reported.
    let ty = newtype(
        TypeDesc::Str,
        vec![],
        vec![
            Rule::Email,
            Rule::Length(LengthArgs { min: None, max: Some(3) }),
        ],
    );
    assert_eq!(distill_value(&ty, Some(&str_input("a@"))), Err(entry("email")));
    // With the order reversed on an input violating both, length wins.
    let ty2 = newtype(
        TypeDesc::Str,
        vec![],
        vec![
            Rule::Length(LengthArgs { min: None, max: Some(3) }),
            Rule::Email,
        ],
    );
    assert_eq!(
        distill_value(&ty2, Some(&str_input("not an email"))),
        Err(entry("length"))
    );
}

#[test]
fn email_rule_accepts_valid_address() {
    let ty = newtype(TypeDesc::Str, vec![], vec![Rule::Email]);
    assert_eq!(
        distill_value(&ty, Some(&str_input("a@b.com"))),
        Ok(Distillate::Str("a@b.com".to_owned()))
    );
    assert_eq!(
        distill_value(&ty, Some(&str_input("not an email"))),
        Err(entry("email"))
    );
}

#[test]
fn length_bounds_are_bytes() {
    let ty = newtype(
        TypeDesc::Str,
        vec![],
        vec![Rule::Length(LengthArgs { min: None, max: Some(1) })],
    );
    // One character, two UTF-8 bytes: over the byte bound.
    assert_eq!(distill_value(&ty, Some(&str_input("é"))), Err(entry("length")));
    assert_eq!(
        distill_value(&ty, Some(&str_input("x"))),
        Ok(Distillate::Str("x".to_owned()))
    );
}

#[test]
fn newtype_propagates_inner_failure_verbatim() {
    let ty = newtype(
        TypeDesc::Str,
        vec![Xform::Trim],
        vec![Rule::Length(LengthArgs { min: Some(1), max: None })],
    );
    // The inner coercion fails before any transform or rule runs.
    assert_eq!(distill_value(&ty, None), Err(entry("missing_field")));
    assert_eq!(
        distill_value(&ty, Some(&Value::Int(3))),
        Err(entry("wrong_type"))
    );
}

#[test]
fn record_missing_field_is_the_only_entry() {
    let ty = TypeDesc::Record(vec![
        ("name".to_owned(), TypeDesc::Str),
        ("age".to_owned(), TypeDesc::U32),
    ]);
    let input = Value::Obj(vec![("age".to_owned(), Value::Int(7))]);
    assert_eq!(
        distill_value(&ty, Some(&input)),
        Err(Error::Struct(vec![(
            "name".to_owned(),
            entry("missing_field")
        )]))
    );
}

#[test]
fn record_reports_every_invalid_field() {
    let ty = TypeDesc::Record(vec![
        ("name".to_owned(), TypeDesc::Str),
        ("age".to_owned(), TypeDesc::U32),
        ("note".to_owned(), TypeDesc::Str),
    ]);
    let input = Value::Obj(vec![
        ("age".to_owned(), Value::Str("old".to_owned())),
        ("note".to_owned(), Value::Str("fine".to_owned())),
    ]);
    // Exactly the two invalid fields appear; the valid one does not.
    assert_eq!(
        distill_value(&ty, Some(&input)),
        Err(Error::Struct(vec![
            ("name".to_owned(), entry("missing_field")),
            ("age".to_owned(), entry("wrong_type")),
        ]))
    );
}

#[test]
fn record_success_builds_values_in_order() {
    let ty = TypeDesc::Record(vec![
        ("name".to_owned(), TypeDesc::Str),
        ("age".to_owned(), TypeDesc::U32),
        ("nickname".to_owned(), TypeDesc::Optional(Box::new(TypeDesc::Str))),
    ]);
    let input = Value::Obj(vec![
        ("age".to_owned(), Value::Int(30)),
        ("name".to_owned(), str_input("ada")),
    ]);
    assert_eq!(
        distill_value(&ty, Some(&input)),
        Ok(Distillate::Record(vec![
            Distillate::Str("ada".to_owned()),
            Distillate::U32(30),
            Distillate::Absent,
        ]))
    );
}

#[test]
fn record_on_absent_input_is_missing_field() {
    let ty = TypeDesc::Record(vec![("name".to_owned(), TypeDesc::Str)]);
    assert_eq!(distill_value(&ty, None), Err(entry("missing_field")));
}

#[test]
fn record_on_non_object_sees_every_key_absent() {
    // Lookup by key on a non-object finds nothing, so required fields
    // are missing and optional fields are absent.
    let ty = TypeDesc::Record(vec![
        ("opt".to_owned(), TypeDesc::Optional(Box::new(TypeDesc::Str))),
    ]);
    assert_eq!(
        distill_value(&ty, Some(&Value::Int(1))),
        Ok(Distillate::Record(vec![Distillate::Absent]))
    );
    let ty2 = TypeDesc::Record(vec![("name".to_owned(), TypeDesc::Str)]);
    assert_eq!(
        distill_value(&ty2, Some(&Value::Int(1))),
        Err(Error::Struct(vec![(
            "name".to_owned(),
            entry("missing_field")
        )]))
    );
}

#[test]
fn tuple_reports_only_failing_positions() {
    let ty = TypeDesc::Tuple(vec![TypeDesc::U32, TypeDesc::Str]);
    let input = Value::Arr(vec![str_input("x"), str_input("ok")]);
    // Position 0 invalid, position 1 valid: the list holds position 0 only.
    assert_eq!(
        distill_value(&ty, Some(&input)),
        Err(Error::List(vec![(0, entry("wrong_type"))]))
    );
}

#[test]
fn tuple_success_and_short_input() {
    let ty = TypeDesc::Tuple(vec![TypeDesc::U32, TypeDesc::Str]);
    let input = Value::Arr(vec![Value::Int(1), str_input("two")]);
    assert_eq!(
        distill_value(&ty, Some(&input)),
        Ok(Distillate::Tuple(vec![
            Distillate::U32(1),
            Distillate::Str("two".to_owned()),
        ]))
    );
    let short = Value::Arr(vec![Value::Int(1)]);
    assert_eq!(
        distill_value(&ty, Some(&short)),
        Err(Error::List(vec![(1, entry("missing_field"))]))
    );
}

#[test]
fn optional_and_unit_in_descriptors() {
    let ty = TypeDesc::Optional(Box::new(TypeDesc::Str));
    assert_eq!(distill_value(&ty, None), Ok(Distillate::Absent));
    assert_eq!(
        distill_value(&ty, Some(&str_input("x"))),
        Ok(Distillate::Present(Box::new(Distillate::Str("x".to_owned()))))
    );
    // An explicit null reaches the inner string distiller and fails.
    assert_eq!(
        distill_value(&ty, Some(&Value::Null)),
        Err(entry("wrong_type"))
    );
    assert_eq!(distill_value(&TypeDesc::Unit, None), Ok(Distillate::Unit));
    assert_eq!(
        distill_value(&TypeDesc::Unit, Some(&Value::Null)),
        Ok(Distillate::Unit)
    );
}

#[test]
fn check_rules_stops_at_first_failure() {
    let rules = vec![
        Rule::Length(LengthArgs { min: Some(1), max: None }),
        Rule::Email,
    ];
    assert_eq!(check_rules(&rules, &"".to_owned()), Err(entry("length")));
    assert_eq!(check_rules(&rules, &"x".to_owned()), Err(entry("email")));
    assert_eq!(check_rules(&rules, &"a@b.com".to_owned()), Ok(()));
    assert_eq!(check_rules(&Vec::new(), &"".to_owned()), Ok(()));
}

#[test]
fn nested_record_failure_nests_the_tree() {
    let inner = TypeDesc::Record(vec![("street".to_owned(), TypeDesc::Str)]);
    let ty = TypeDesc::Record(vec![
        ("name".to_owned(), TypeDesc::Str),
        ("address".to_owned(), inner),
    ]);
    let input = Value::Obj(vec![
        ("name".to_owned(), str_input("ada")),
        ("address".to_owned(), Value::Obj(vec![])),
    ]);
    assert_eq!(
        distill_value(&ty, Some(&input)),
        Err(Error::Struct(vec![(
            "address".to_owned(),
            Error::Struct(vec![("street".to_owned(), entry("missing_field"))]),
        )]))
    );
}

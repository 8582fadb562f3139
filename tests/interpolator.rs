use drill::interpolator::{
    Context, ContextValue, InterpolationError, Interpolator, ResponseStore, Scalar,
};
use drill::store::VarMap;

fn response_fields(body: &str) -> VarMap<String> {
    let value: serde_json::Value = serde_json::from_str(body).unwrap();
    let mut fields: VarMap<String> = VarMap::new();
    if let Some(object) = value.as_object() {
        for (k, v) in object {
            fields.insert(k.clone(), v.to_string());
        }
    }
    fields
}

#[test]
fn interpolates_variables() {
    let mut context: Context = VarMap::new();
    let responses: ResponseStore = VarMap::new();

    context.insert(String::from("user_Id"), ContextValue::Text(String::from("12")));

    let interpolator = Interpolator::new(&context, &responses);
    let url = String::from("http://example.com/users/{{ user_Id }}/view/{{ user_Id }}");
    let interpolated = interpolator.resolve(&url).unwrap();

    assert_eq!(interpolated, "http://example.com/users/12/view/12");
}

#[test]
fn interpolates_responses() {
    let context: Context = VarMap::new();
    let mut responses: ResponseStore = VarMap::new();

    let data = String::from("{ \"bar\": 12 }");
    responses.insert(String::from("foo"), response_fields(&data));

    let interpolator = Interpolator::new(&context, &responses);
    let url = String::from("http://example.com/users/{{ foo.bar }}");
    let interpolated = interpolator.resolve(&url).unwrap();

    assert_eq!(interpolated, "http://example.com/users/12");
}

#[test]
fn interpolates_missing_variable() {
    let context: Context = VarMap::new();
    let responses: ResponseStore = VarMap::new();

    let interpolator = Interpolator::new(&context, &responses);
    let url = String::from("/users/{{ userId }}");
    let r = interpolator.resolve(&url);
    assert!(matches!(r, Err(InterpolationError::UnknownVariable)));
}

#[test]
fn interpolates_numnamed_variables() {
    let mut context: Context = VarMap::new();
    let responses: ResponseStore = VarMap::new();

    context.insert(String::from("zip5"), ContextValue::Text(String::from("90210")));

    let interpolator = Interpolator::new(&context, &responses);
    let url = String::from("http://example.com/postalcode/{{ zip5 }}/view/{{ zip5 }}");
    let interpolated = interpolator.resolve(&url).unwrap();

    assert_eq!(interpolated, "http://example.com/postalcode/90210/view/90210");
}

#[test]
fn interpolates_bad_numnamed_variable_names() {
    let mut context: Context = VarMap::new();
    let responses: ResponseStore = VarMap::new();

    context.insert(String::from("5digitzip"), ContextValue::Text(String::from("90210")));

    let interpolator = Interpolator::new(&context, &responses);
    let url = String::from("http://example.com/postalcode/{{ 5digitzip }}/view/{{ 5digitzip }}");
    let interpolated = interpolator.resolve(&url).unwrap();

    assert_eq!(
        interpolated,
        "http://example.com/postalcode/{{ 5digitzip }}/view/{{ 5digitzip }}"
    );
}

#[test]
fn text_without_markers_is_unchanged() {
    let mut context: Context = VarMap::new();
    let responses: ResponseStore = VarMap::new();
    context.insert(String::from("x"), ContextValue::Text(String::from("1")));
    let interpolator = Interpolator::new(&context, &responses);
    for text in ["", "plain text", "x }} y", "{ {x} }", "{{ }}", "héllo {x}"] {
        let t = String::from(text);
        assert_eq!(interpolator.resolve(&t).unwrap(), text);
    }
    assert!(!Interpolator::has_interpolations(&String::from("a {{ b")));
    assert!(Interpolator::has_interpolations(&String::from("a }} b")));
}

#[test]
fn short_variable_names_resolve() {
    let mut context: Context = VarMap::new();
    let responses: ResponseStore = VarMap::new();
    context.insert(String::from("user_Id"), ContextValue::Text(String::from("12")));
    let interpolator = Interpolator::new(&context, &responses);
    let url = String::from("http://x/{{ user_Id }}/y/{{ user_Id }}");
    assert_eq!(interpolator.resolve(&url).unwrap(), "http://x/12/y/12");
}

#[test]
fn missing_root_with_field_is_unknown() {
    let context: Context = VarMap::new();
    let responses: ResponseStore = VarMap::new();
    let interpolator = Interpolator::new(&context, &responses);
    let r = interpolator.resolve(&String::from("{{ foo.bar }}"));
    assert!(matches!(r, Err(InterpolationError::UnknownVariable)));
}

#[test]
fn response_field_resolves() {
    let context: Context = VarMap::new();
    let mut responses: ResponseStore = VarMap::new();
    responses.insert(String::from("foo"), response_fields("{\"bar\": 12, \"name\": \"ann\"}"));
    let interpolator = Interpolator::new(&context, &responses);
    assert_eq!(interpolator.resolve(&String::from("{{ foo.bar }}")).unwrap(), "12");
    assert_eq!(interpolator.resolve(&String::from("{{foo.name}}")).unwrap(), "\"ann\"");
    assert_eq!(interpolator.resolve(&String::from("{{ foo.nope }}")).unwrap(), "null");
    let r = interpolator.resolve(&String::from("{{ foo }}"));
    assert!(matches!(r, Err(InterpolationError::UnsupportedValueType)));
}

#[test]
fn spaces_inside_delimiters_do_not_matter() {
    let mut context: Context = VarMap::new();
    let responses: ResponseStore = VarMap::new();
    context.insert(String::from("x"), ContextValue::Text(String::from("v")));
    let interpolator = Interpolator::new(&context, &responses);
    let a = interpolator.resolve(&String::from("{{x}}")).unwrap();
    let b = interpolator.resolve(&String::from("{{ x }}")).unwrap();
    let c = interpolator.resolve(&String::from("{{   x}}")).unwrap();
    assert_eq!(a, "v");
    assert_eq!(a, b);
    assert_eq!(a, c);
}

#[test]
fn digit_root_is_left_alone() {
    let mut context: Context = VarMap::new();
    let responses: ResponseStore = VarMap::new();
    context.insert(String::from("5digitzip"), ContextValue::Text(String::from("90210")));
    let interpolator = Interpolator::new(&context, &responses);
    let t = String::from("{{ 5digitzip }}");
    assert_eq!(interpolator.resolve(&t).unwrap(), "{{ 5digitzip }}");
}

#[test]
fn two_fields_below_root_fail() {
    let mut context: Context = VarMap::new();
    let mut responses: ResponseStore = VarMap::new();
    let mut inner: VarMap<Scalar> = VarMap::new();
    inner.insert(String::from("b"), Scalar::Text(String::from("x")));
    context.insert(String::from("a"), ContextValue::Mapping(inner));
    responses.insert(String::from("r"), response_fields("{\"b\": {\"c\": 1}}"));
    let interpolator = Interpolator::new(&context, &responses);
    for t in ["{{ a.b.c }}", "{{ r.b.c }}", "{{ z.b.c }}"] {
        let r = interpolator.resolve(&String::from(t));
        assert!(matches!(r, Err(InterpolationError::UnsupportedValueType)));
    }
    assert_eq!(interpolator.resolve(&String::from("{{ a.b }}")).unwrap(), "x");
}

#[test]
fn integers_and_mappings_resolve() {
    let mut context: Context = VarMap::new();
    let responses: ResponseStore = VarMap::new();
    let mut inner: VarMap<Scalar> = VarMap::new();
    inner.insert(String::from("id"), Scalar::Integer(7));
    inner.insert(String::from("tags"), Scalar::Other);
    context.insert(String::from("n"), ContextValue::Integer(-42));
    context.insert(String::from("big"), ContextValue::Integer(i64::MIN));
    context.insert(String::from("user"), ContextValue::Mapping(inner));
    context.insert(String::from("flag"), ContextValue::Other);
    let interpolator = Interpolator::new(&context, &responses);
    assert_eq!(interpolator.resolve(&String::from("n={{ n }}")).unwrap(), "n=-42");
    assert_eq!(
        interpolator.resolve(&String::from("{{ big }}")).unwrap(),
        "-9223372036854775808"
    );
    assert_eq!(interpolator.resolve(&String::from("/u/{{ user.id }}")).unwrap(), "/u/7");
    let missing = interpolator.resolve(&String::from("{{ user.name }}"));
    assert!(matches!(missing, Err(InterpolationError::UnknownVariable)));
    let other = interpolator.resolve(&String::from("{{ user.tags }}"));
    assert!(matches!(other, Err(InterpolationError::UnsupportedValueType)));
    let whole = interpolator.resolve(&String::from("{{ user }}"));
    assert!(matches!(whole, Err(InterpolationError::UnsupportedValueType)));
    let flag = interpolator.resolve(&String::from("{{ flag }}"));
    assert!(matches!(flag, Err(InterpolationError::UnsupportedValueType)));
    let scalar_field = interpolator.resolve(&String::from("{{ n.x }}"));
    assert!(matches!(scalar_field, Err(InterpolationError::UnsupportedValueType)));
}

#[test]
fn first_failing_marker_stops_resolution() {
    let mut context: Context = VarMap::new();
    let responses: ResponseStore = VarMap::new();
    context.insert(String::from("a"), ContextValue::Text(String::from("1")));
    let interpolator = Interpolator::new(&context, &responses);
    let r = interpolator.resolve(&String::from("{{ a }}/{{ nope }}/{{ a.b.c }}"));
    assert!(matches!(r, Err(InterpolationError::UnknownVariable)));
}

#[test]
fn last_write_wins_in_var_map() {
    let mut m: VarMap<String> = VarMap::new();
    m.insert(String::from("k"), String::from("1"));
    m.insert(String::from("j"), String::from("3"));
    m.insert(String::from("k"), String::from("2"));
    assert_eq!(m.get(&String::from("k")).unwrap(), "2");
    assert_eq!(m.get(&String::from("j")).unwrap(), "3");
    assert!(m.get(&String::from("z")).is_none());
}

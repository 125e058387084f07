use async_graphql_parser::scalars::Any;
use async_graphql_parser::value::name_before;
use async_graphql_parser::value::object_insert;
use async_graphql_parser::value::Value;

#[test]
fn any_test_conversion_ok() {
    let value = Value::List(vec![Value::Int(1.into()), Value::Float("2.0".to_string()), Value::Null]);
    let expected = Any(value.clone());
    let output: Any = value.into();
    assert_eq!(output, expected);

    let value = Value::List(vec![Value::Int(1.into()), Value::Boolean(true), Value::Null]);
    let expected = Any(value.clone());
    let output: Any = value.into();
    assert_eq!(output, expected);
}

#[test]
fn any_passes_every_value_through() {
    let value = Value::Object(vec![("k".to_string(), Value::Enum("E".to_string()))]);
    assert!(Any::is_valid(&value));
    let any = Any::parse(value.clone()).unwrap();
    assert_eq!(any.to_value(), value);
    assert_eq!(Any::default(), Any(Value::Null));
}

#[test]
fn clone_copies_nested_values() {
    let value = Value::List(vec![
        Value::Object(vec![
            ("a".to_string(), Value::List(vec![Value::String("s".to_string())])),
            ("b".to_string(), Value::Variable("v".to_string())),
        ]),
        Value::Float("1.5".to_string()),
    ]);
    assert_eq!(value.clone(), value);
}

#[test]
fn object_insert_keeps_the_names_in_order() {
    let mut fields = Vec::new();
    for (name, n) in [("m", 1), ("a", 2), ("z", 3), ("m", 4), ("ab", 5), ("", 6), ("é", 7)] {
        object_insert(&mut fields, name.to_string(), Value::Int(n));
    }
    let names: Vec<&str> = fields.iter().map(|field| field.0.as_str()).collect();
    assert_eq!(names, vec!["", "a", "ab", "m", "z", "é"]);
    assert_eq!(fields[3].1, Value::Int(4));
    let mut sorted = names.clone();
    sorted.sort();
    assert_eq!(names, sorted);
    assert!(name_before("a", "ab"));
    assert!(name_before("Z", "a"));
    assert!(!name_before("a", "a"));
    assert!(!name_before("b", "a"));
    assert!(name_before("", "a"));
    assert!(!name_before("", ""));
    assert!(name_before("z", "é"));
}

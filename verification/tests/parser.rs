use async_graphql_parser::document::Document;
use async_graphql_parser::parse_query;
use async_graphql_parser::parse_value;
use async_graphql_parser::pos::Pos;
use async_graphql_parser::query::Definition;
use async_graphql_parser::query::Field;
use async_graphql_parser::query::OperationDefinition;
use async_graphql_parser::query::OperationType;
use async_graphql_parser::query::Selection;
use async_graphql_parser::query::SelectionSet;
use async_graphql_parser::query::Type;
use async_graphql_parser::query::TypeCondition;
use async_graphql_parser::value::Value;

fn field_of(selection: &Selection) -> &Field {
    match selection {
        Selection::Field(field) => &field.node,
        _ => panic!("expected a field"),
    }
}

fn first_field(set: &SelectionSet) -> &Field {
    field_of(&set.items[0].node)
}

fn resolved(text: &str, name: Option<&str>) -> Document {
    let mut doc = parse_query(text).unwrap();
    assert!(doc.retain_operation(name));
    doc
}

#[test]
fn anonymous_operation_with_nested_fields() {
    let mut doc = parse_query("{ hero { name } }").unwrap();
    assert_eq!(doc.definitions().len(), 1);
    let set = match &doc.definitions()[0].node {
        Definition::Operation(operation) => match &operation.node {
            OperationDefinition::SelectionSet(set) => set,
            _ => panic!("expected a bare selection set"),
        },
        _ => panic!("expected an operation"),
    };
    assert_eq!(set.node.items.len(), 1);
    let hero = first_field(&set.node);
    assert_eq!(hero.name.node, "hero");
    assert!(hero.alias.is_none());
    assert_eq!(hero.selection_set.node.items.len(), 1);
    let name = first_field(&hero.selection_set.node);
    assert_eq!(name.name.node, "name");
    assert!(name.selection_set.node.items.is_empty());
    assert_eq!(name.selection_set.pos, Pos { line: 0, column: 0 });

    assert!(doc.retain_operation(None));
    assert_eq!(doc.current_operation().ty, OperationType::Query);
    assert!(doc.current_operation().variable_definitions.is_empty());
    assert!(doc.definitions().is_empty());
}

#[test]
fn named_query_with_variable_and_argument() {
    let doc = parse_query("query Greeting($name: String = \"hi\") { greet(who: $name) }").unwrap();
    assert_eq!(doc.definitions().len(), 1);
    let query = match &doc.definitions()[0].node {
        Definition::Operation(operation) => match &operation.node {
            OperationDefinition::Query(query) => query,
            _ => panic!("expected a query"),
        },
        _ => panic!("expected an operation"),
    };
    assert_eq!(query.node.name.as_ref().unwrap().node, "Greeting");
    assert_eq!(query.node.name.as_ref().unwrap().pos, Pos { line: 1, column: 7 });
    assert_eq!(query.node.variable_definitions.len(), 1);
    let variable = &query.node.variable_definitions[0];
    assert_eq!(variable.pos, Pos { line: 1, column: 16 });
    assert_eq!(variable.node.name.node, "name");
    assert_eq!(variable.node.name.pos, Pos { line: 1, column: 17 });
    assert_eq!(variable.node.var_type.node, Type::Named("String".to_string()));
    assert_eq!(variable.node.var_type.pos, Pos { line: 1, column: 23 });
    let default = variable.node.default_value.as_ref().unwrap();
    assert_eq!(default.node, Value::String("hi".to_string()));
    assert_eq!(default.pos, Pos { line: 1, column: 30 });
    assert_eq!(query.node.selection_set.node.items.len(), 1);
    let greet = first_field(&query.node.selection_set.node);
    assert_eq!(greet.name.node, "greet");
    assert_eq!(greet.arguments.len(), 1);
    assert_eq!(greet.arguments[0].0.node, "who");
    assert_eq!(greet.arguments[0].1.node, Value::Variable("name".to_string()));
    assert_eq!(greet.get_argument("who").unwrap().node, Value::Variable("name".to_string()));
    assert!(greet.get_argument("whom").is_none());
}

#[test]
fn requested_name_selects_the_operation() {
    let text = "query A { a } query B { b }";
    let doc = resolved(text, Some("B"));
    assert_eq!(first_field(&doc.current_operation().selection_set.node).name.node, "b");
    let doc = resolved(text, Some("A"));
    assert_eq!(first_field(&doc.current_operation().selection_set.node).name.node, "a");
}

#[test]
fn no_requested_name_selects_the_first_operation() {
    let doc = resolved("query A { a } query B { b }", None);
    assert_eq!(first_field(&doc.current_operation().selection_set.node).name.node, "a");
    let doc = resolved("mutation B { b } query A { a }", None);
    assert_eq!(doc.current_operation().ty, OperationType::Mutation);
    assert_eq!(first_field(&doc.current_operation().selection_set.node).name.node, "b");
}

#[test]
fn unknown_requested_name_selects_nothing() {
    let mut doc = parse_query("query A { a } query B { b }").unwrap();
    assert!(!doc.retain_operation(Some("C")));
    assert!(!doc.has_operation());
    assert!(doc.definitions().is_empty());
}

#[test]
fn operation_without_a_name_serves_every_request() {
    let doc = resolved("query A { a } subscription { s } { x }", Some("Z"));
    assert_eq!(doc.current_operation().ty, OperationType::Subscription);
    let doc = resolved("query A { a } { x } subscription { s }", Some("Z"));
    assert_eq!(doc.current_operation().ty, OperationType::Query);
    assert_eq!(first_field(&doc.current_operation().selection_set.node).name.node, "x");
}

#[test]
fn first_of_two_matching_operations_is_kept() {
    let doc = resolved("{ first } { second }", None);
    assert_eq!(first_field(&doc.current_operation().selection_set.node).name.node, "first");
    let doc = resolved("query A { first } query A { second }", Some("A"));
    assert_eq!(first_field(&doc.current_operation().selection_set.node).name.node, "first");
}

#[test]
fn operation_stays_fixed_once_chosen() {
    let mut doc = parse_query("query A($v: Int) { a }").unwrap();
    assert!(doc.retain_operation(None));
    assert!(doc.retain_operation(Some("Other")));
    assert_eq!(doc.current_operation().variable_definitions.len(), 1);
    assert_eq!(first_field(&doc.current_operation().selection_set.node).name.node, "a");
    assert!(doc.fragments().is_empty());
}

#[test]
fn fragment_goes_into_the_table() {
    let doc = resolved("{ ...F } fragment F on T { a }", None);
    assert_eq!(doc.fragments().len(), 1);
    assert!(doc.fragments().contains_key("F"));
    assert!(!doc.fragments().contains_key("G"));
    let fragment = doc.fragments().get("F").unwrap();
    assert_eq!(fragment.node.name.node, "F");
    match &fragment.node.type_condition.node {
        TypeCondition::On(name) => assert_eq!(name.node, "T"),
    }
    assert_eq!(first_field(&fragment.node.selection_set.node).name.node, "a");
    let set = &doc.current_operation().selection_set.node;
    assert_eq!(set.items.len(), 1);
    match &set.items[0].node {
        Selection::FragmentSpread(spread) => {
            assert_eq!(spread.node.fragment_name.node, "F");
            assert!(spread.node.directives.is_empty());
        },
        _ => panic!("expected a fragment spread"),
    }
}

#[test]
fn later_fragment_of_a_name_wins() {
    let doc = resolved("{ x } fragment F on T { first } fragment G on T { g } fragment F on U { second }", None);
    assert_eq!(doc.fragments().len(), 2);
    let fragment = doc.fragments().get("F").unwrap();
    assert_eq!(first_field(&fragment.node.selection_set.node).name.node, "second");
    match &fragment.node.type_condition.node {
        TypeCondition::On(name) => assert_eq!(name.node, "U"),
    }
    assert_eq!(doc.fragments().entry(0).node.name.node, "F");
    assert_eq!(doc.fragments().entry(1).node.name.node, "G");
}

#[test]
fn fragments_alone_give_no_operation() {
    let mut doc = parse_query("fragment F on T { a }").unwrap();
    assert!(!doc.retain_operation(None));
    assert!(doc.fragments().contains_key("F"));
}

#[test]
fn parsing_twice_gives_the_same_tree() {
    let text = "query Q($a: [Int!]! = [1, 2], $b: T = {k: 1.5e3, k: $a}) @d(x: true) {\n  a: b(c: \"d\\n\", e: null, f: ENUM) @skip(if: false) { ...F ... on T @x { g } ... { h } }\n}\nfragment F on T { i }\n";
    let one = parse_query(text).unwrap();
    let two = parse_query(text).unwrap();
    assert_eq!(format!("{:?}", one), format!("{:?}", two));
}

#[test]
fn missing_braces_fail() {
    let error = parse_query("{ hero { name ").unwrap_err();
    assert_eq!(error.pos, Pos { line: 1, column: 15 });
    assert_eq!(error.message, "expected a selection");
    assert_eq!(error.to_string(), "expected a selection");
}

#[test]
fn empty_document_fails() {
    let error = parse_query("  # nothing here\n").unwrap_err();
    assert_eq!(error.pos, Pos { line: 2, column: 1 });
    assert_eq!(error.message, "expected a definition");
}

#[test]
fn empty_selection_set_fails() {
    let error = parse_query("query A { }").unwrap_err();
    assert_eq!(error.pos, Pos { line: 1, column: 11 });
    assert_eq!(error.message, "expected a selection");
}

#[test]
fn syntax_errors_name_what_is_missing() {
    let cases = [
        ("query", 1, 6, "expected '{'"),
        ("type T { a }", 1, 1, "expected a definition"),
        ("{ a(b c) }", 1, 7, "expected ':'"),
        ("{ a(: c) }", 1, 5, "expected a name"),
        ("{ a(b: ) }", 1, 8, "expected a value"),
        ("{ a @ }", 1, 7, "expected a name"),
        ("{ a: }", 1, 6, "expected a name"),
        ("query ($a Int) { a }", 1, 11, "expected ':'"),
        ("query (a: Int) { a }", 1, 8, "expected '$'"),
        ("query ($a: ) { a }", 1, 12, "expected a type"),
        ("query ($a: [Int) { a }", 1, 16, "expected ']'"),
        ("fragment F T { a }", 1, 12, "expected 'on'"),
        ("fragment on T { a }", 1, 13, "expected 'on'"),
        ("{ ... on { a } }", 1, 10, "expected a name"),
        ("{ ... @d }", 1, 10, "expected '{'"),
        ("{ a(b: \"c) }", 1, 13, "unterminated string"),
        ("{ a(b: \"c\nd\") }", 1, 10, "unterminated string"),
        ("{ a(b: 1.) }", 1, 10, "expected a digit"),
        ("{ a(b: -) }", 1, 9, "expected a digit"),
        ("{ a(b: 1e+) }", 1, 11, "expected a digit"),
        ("{ a(b: 9223372036854775808) }", 1, 8, "integer out of range"),
        ("{ a(b: -9223372036854775809) }", 1, 8, "integer out of range"),
        ("{ a } }", 1, 7, "expected a definition"),
    ];
    for (text, line, column, message) in cases {
        let error = parse_query(text).unwrap_err();
        assert_eq!(error.message, message, "{}", text);
        assert_eq!(error.pos, Pos { line, column }, "{}", text);
    }
}

#[test]
fn ignored_text_separates_tokens() {
    let doc = parse_query("\u{feff}# a comment, with commas\r\n,,{ a,b # more\n\tc },\n").unwrap();
    let set = match &doc.definitions()[0].node {
        Definition::Operation(operation) => match &operation.node {
            OperationDefinition::SelectionSet(set) => set,
            _ => panic!("expected a bare selection set"),
        },
        _ => panic!("expected an operation"),
    };
    assert_eq!(set.pos, Pos { line: 2, column: 3 });
    assert_eq!(set.node.items.len(), 3);
    assert_eq!(field_of(&set.node.items[2].node).name.node, "c");
    assert_eq!(set.node.items[2].pos, Pos { line: 3, column: 2 });
}

#[test]
fn alias_arguments_and_directives_of_a_field() {
    let doc = resolved("{ small: picture(size: 64, kind: THUMB) @when(if: $show) @cached { url } }", None);
    let field = first_field(&doc.current_operation().selection_set.node);
    assert_eq!(field.alias.as_ref().unwrap().node, "small");
    assert_eq!(field.alias.as_ref().unwrap().pos, Pos { line: 1, column: 3 });
    assert_eq!(field.name.node, "picture");
    assert_eq!(field.name.pos, Pos { line: 1, column: 10 });
    assert_eq!(field.arguments.len(), 2);
    assert_eq!(field.arguments[0].1.node, Value::Int(64));
    assert_eq!(field.arguments[0].1.pos, Pos { line: 1, column: 24 });
    assert_eq!(field.get_argument("kind").unwrap().node, Value::Enum("THUMB".to_string()));
    assert_eq!(field.directives.len(), 2);
    let first = &field.directives[0];
    assert_eq!(first.pos, Pos { line: 1, column: 41 });
    assert_eq!(first.node.name.node, "when");
    assert_eq!(first.node.name.pos, Pos { line: 1, column: 42 });
    assert_eq!(first.node.get_argument("if").unwrap().node, Value::Variable("show".to_string()));
    assert!(first.node.get_argument("unless").is_none());
    assert_eq!(field.directives[1].node.name.node, "cached");
    assert!(field.directives[1].node.arguments.is_empty());
    assert_eq!(first_field(&field.selection_set.node).name.node, "url");
}

#[test]
fn get_argument_finds_the_first_of_a_name() {
    let doc = resolved("{ a(x: 1, y: 2, x: 3) }", None);
    let field = first_field(&doc.current_operation().selection_set.node);
    assert_eq!(field.arguments.len(), 3);
    assert_eq!(field.get_argument("x").unwrap().node, Value::Int(1));
    assert_eq!(field.get_argument("y").unwrap().node, Value::Int(2));
}

#[test]
fn inline_fragments_with_and_without_a_type() {
    let doc = resolved("{ ... on Human @d { a } ... { b } }", None);
    let items = &doc.current_operation().selection_set.node.items;
    assert_eq!(items.len(), 2);
    match &items[0].node {
        Selection::InlineFragment(fragment) => {
            assert_eq!(fragment.pos, Pos { line: 1, column: 3 });
            let condition = fragment.node.type_condition.as_ref().unwrap();
            assert_eq!(condition.pos, Pos { line: 1, column: 10 });
            match &condition.node {
                TypeCondition::On(name) => {
                    assert_eq!(name.node, "Human");
                    assert_eq!(name.pos, Pos { line: 1, column: 10 });
                },
            }
            assert_eq!(fragment.node.directives.len(), 1);
            assert_eq!(first_field(&fragment.node.selection_set.node).name.node, "a");
        },
        _ => panic!("expected an inline fragment"),
    }
    match &items[1].node {
        Selection::InlineFragment(fragment) => {
            assert!(fragment.node.type_condition.is_none());
            assert!(fragment.node.directives.is_empty());
            assert_eq!(first_field(&fragment.node.selection_set.node).name.node, "b");
        },
        _ => panic!("expected an inline fragment"),
    }
}

#[test]
fn on_names_no_fragment() {
    let error = parse_query("{ ...on }").unwrap_err();
    assert_eq!(error.message, "expected a name");
    assert_eq!(error.pos, Pos { line: 1, column: 9 });
    let doc = resolved("{ ...once ...on_ }", None);
    let items = &doc.current_operation().selection_set.node.items;
    match &items[0].node {
        Selection::FragmentSpread(spread) => assert_eq!(spread.node.fragment_name.node, "once"),
        _ => panic!("expected a fragment spread"),
    }
    match &items[1].node {
        Selection::FragmentSpread(spread) => assert_eq!(spread.node.fragment_name.node, "on_"),
        _ => panic!("expected a fragment spread"),
    }
}

#[test]
fn type_references_nest() {
    let doc = resolved("query Q($a: T, $b: [T], $c: T!, $d: [T]!, $e: [T!]!, $f: [[T]]) { x }", None);
    let variables = &doc.current_operation().variable_definitions;
    let named = || Box::new(Type::Named("T".to_string()));
    assert_eq!(variables[0].node.var_type.node, Type::Named("T".to_string()));
    assert_eq!(variables[1].node.var_type.node, Type::List(named()));
    assert_eq!(variables[2].node.var_type.node, Type::NonNull(named()));
    assert_eq!(variables[3].node.var_type.node, Type::NonNull(Box::new(Type::List(named()))));
    assert_eq!(
        variables[4].node.var_type.node,
        Type::NonNull(Box::new(Type::List(Box::new(Type::NonNull(named())))))
    );
    assert_eq!(variables[5].node.var_type.node, Type::List(Box::new(Type::List(named()))));
    assert_eq!(variables[0].node.var_type.node.to_string(), "T");
    assert_eq!(variables[3].node.var_type.node.to_string(), "[T]!");
    assert_eq!(variables[4].node.var_type.node.to_string(), "[T!]!");
    assert_eq!(variables[5].node.var_type.node.to_string(), "[[T]]");
    assert!(variables[0].node.default_value.is_none());
}

#[test]
fn mutation_and_subscription_keep_their_kind() {
    let doc = resolved("mutation M @d { m }", None);
    assert_eq!(doc.current_operation().ty, OperationType::Mutation);
    let doc = resolved("subscription { s }", None);
    assert_eq!(doc.current_operation().ty, OperationType::Subscription);
    let doc = parse_query("subscription S($a: Int) { s }").unwrap();
    match &doc.definitions()[0].node {
        Definition::Operation(operation) => match &operation.node {
            OperationDefinition::Subscription(subscription) => {
                assert_eq!(subscription.node.name.as_ref().unwrap().node, "S");
                assert_eq!(subscription.node.variable_definitions.len(), 1);
            },
            _ => panic!("expected a subscription"),
        },
        _ => panic!("expected an operation"),
    }
}

#[test]
fn scalar_values() {
    assert_eq!(*parse_value("12").unwrap().value(), Value::Int(12));
    assert_eq!(*parse_value("-0").unwrap().value(), Value::Int(0));
    assert_eq!(*parse_value("9223372036854775807").unwrap().value(), Value::Int(i64::MAX));
    assert_eq!(*parse_value("-9223372036854775808").unwrap().value(), Value::Int(i64::MIN));
    assert_eq!(*parse_value("1.25").unwrap().value(), Value::Float("1.25".to_string()));
    assert_eq!(*parse_value("-1e10").unwrap().value(), Value::Float("-1e10".to_string()));
    assert_eq!(*parse_value("6.0E-3").unwrap().value(), Value::Float("6.0E-3".to_string()));
    assert_eq!(*parse_value("true").unwrap().value(), Value::Boolean(true));
    assert_eq!(*parse_value("false").unwrap().value(), Value::Boolean(false));
    assert_eq!(*parse_value("null").unwrap().value(), Value::Null);
    assert_eq!(*parse_value("RED").unwrap().value(), Value::Enum("RED".to_string()));
    assert_eq!(*parse_value("truest").unwrap().value(), Value::Enum("truest".to_string()));
    assert_eq!(*parse_value("$var").unwrap().value(), Value::Variable("var".to_string()));
    assert_eq!(*parse_value("\"text\"").unwrap().value(), Value::String("text".to_string()));
    assert_eq!(*parse_value("\"\"").unwrap().value(), Value::String(String::new()));
    assert_eq!(*parse_value("\"日本語 ü\"").unwrap().value(), Value::String("日本語 ü".to_string()));
}

#[test]
fn composite_values() {
    let parsed = parse_value(" [1, [2, \"x\"], {a: null}] ").unwrap();
    assert_eq!(parsed.source(), " [1, [2, \"x\"], {a: null}] ");
    assert_eq!(
        parsed.into_value(),
        Value::List(vec![
            Value::Int(1),
            Value::List(vec![Value::Int(2), Value::String("x".to_string())]),
            Value::Object(vec![("a".to_string(), Value::Null)]),
        ])
    );
    assert_eq!(*parse_value("[]").unwrap().value(), Value::List(vec![]));
    assert_eq!(*parse_value("{}").unwrap().value(), Value::Object(vec![]));
}

#[test]
fn later_object_key_overwrites_the_earlier() {
    assert_eq!(
        *parse_value("{a: 1, b: 2, a: 3}").unwrap().value(),
        Value::Object(vec![("a".to_string(), Value::Int(3)), ("b".to_string(), Value::Int(2))])
    );
}

#[test]
fn objects_with_the_same_fields_are_equal() {
    let one = parse_value("{b: 1, a: [2], ab: {y: 1, x: 2}, B: 3, _z: 4, a1: 5}").unwrap();
    let two = parse_value("{a1: 5, ab: {x: 2, y: 1}, _z: 4, B: 3, a: [2], b: 1}").unwrap();
    assert_eq!(*one.value(), *two.value());
    assert_eq!(
        *one.value(),
        Value::Object(vec![
            ("B".to_string(), Value::Int(3)),
            ("_z".to_string(), Value::Int(4)),
            ("a".to_string(), Value::List(vec![Value::Int(2)])),
            ("a1".to_string(), Value::Int(5)),
            (
                "ab".to_string(),
                Value::Object(vec![("x".to_string(), Value::Int(2)), ("y".to_string(), Value::Int(1))])
            ),
            ("b".to_string(), Value::Int(1)),
        ])
    );
    let other = parse_value("{a: [2], b: 2}").unwrap();
    assert!(*one.value() != *other.value());
}

#[test]
fn value_must_be_the_whole_text() {
    let error = parse_value("1 2").err().unwrap();
    assert_eq!(error.message, "expected end of input");
    assert_eq!(error.pos, Pos { line: 1, column: 3 });
    let error = parse_value("").err().unwrap();
    assert_eq!(error.message, "expected a value");
    assert_eq!(error.pos, Pos { line: 1, column: 1 });
    let error = parse_value("[1").err().unwrap();
    assert_eq!(error.message, "expected a value");
    assert_eq!(error.pos, Pos { line: 1, column: 3 });
    let error = parse_value("{a 1}").err().unwrap();
    assert_eq!(error.message, "expected ':'");
    let error = parse_value("$").err().unwrap();
    assert_eq!(error.message, "expected a name");
}

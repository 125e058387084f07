use async_graphql_parser::parse_query;
use async_graphql_parser::query::Definition;
use async_graphql_parser::query::OperationDefinition;
use async_graphql_parser::query::OperationType;
use async_graphql_parser::query::Selection;
use async_graphql_parser::value::Value;

const KITCHEN_SINK: &str = r#"
query queryName($foo: ComplexType, $site: Site = MOBILE) {
  whoever123is: node(id: [123, 456]) {
    id ,
    ... on User @defer {
      field2 {
        id ,
        alias: field1(first:10, after:$foo,) @skip(if: $foo) {
          id,
          ...frag
        }
      }
    }
    ... @skip(unless: $foo) {
      id
    }
    ... {
      id
    }
  }
}

mutation likeStory {
  like(story: 123) @defer {
    story {
      id
    }
  }
}

subscription StoryLikeSubscription($input: StoryLikeSubscribeInput) {
  storyLikeSubscribe(input: $input) {
    story {
      likers {
        count
      }
      likeSentence {
        text
      }
    }
  }
}

fragment frag on Friend {
  foo(size: $size, bar: $b, obj: {key: "value", pi: 3.14, list: [1, -2, 3e0]})
}

{
  unnamed(truthy: true, falsey: false, nullish: null),
  query
}
"#;

#[test]
fn kitchen_sink_parses() {
    let doc = parse_query(KITCHEN_SINK).unwrap();
    assert_eq!(doc.definitions().len(), 5);
    let kinds: Vec<&str> = doc
        .definitions()
        .iter()
        .map(|definition| match &definition.node {
            Definition::Operation(operation) => match &operation.node {
                OperationDefinition::SelectionSet(_) => "bare",
                OperationDefinition::Query(_) => "query",
                OperationDefinition::Mutation(_) => "mutation",
                OperationDefinition::Subscription(_) => "subscription",
            },
            Definition::Fragment(_) => "fragment",
        })
        .collect();
    assert_eq!(kinds, vec!["query", "mutation", "subscription", "fragment", "bare"]);
    let lines: Vec<usize> = doc.definitions().iter().map(|definition| definition.pos.line).collect();
    assert_eq!(lines, vec![2, 23, 31, 44, 48]);
}

#[test]
fn kitchen_sink_resolves_by_name() {
    let mut doc = parse_query(KITCHEN_SINK).unwrap();
    assert!(doc.retain_operation(Some("likeStory")));
    let operation = doc.current_operation();
    assert_eq!(operation.ty, OperationType::Mutation);
    match &operation.selection_set.node.items[0].node {
        Selection::Field(field) => {
            assert_eq!(field.node.name.node, "like");
            assert_eq!(field.node.get_argument("story").unwrap().node, Value::Int(123));
            assert_eq!(field.node.directives[0].node.name.node, "defer");
        },
        _ => panic!("expected a field"),
    }
    assert_eq!(doc.fragments().len(), 1);
    let fragment = doc.fragments().get("frag").unwrap();
    match &fragment.node.selection_set.node.items[0].node {
        Selection::Field(field) => {
            assert_eq!(
                field.node.get_argument("obj").unwrap().node,
                Value::Object(vec![
                    ("key".to_string(), Value::String("value".to_string())),
                    (
                        "list".to_string(),
                        Value::List(vec![
                            Value::Int(1),
                            Value::Int(-2),
                            Value::Float("3e0".to_string())
                        ])
                    ),
                    ("pi".to_string(), Value::Float("3.14".to_string())),
                ])
            );
        },
        _ => panic!("expected a field"),
    }
}

#[test]
fn field_named_like_a_keyword_is_a_field() {
    let mut doc = parse_query("{ query mutation: subscription fragment on true null }").unwrap();
    assert!(doc.retain_operation(None));
    let names: Vec<String> = doc
        .current_operation()
        .selection_set
        .node
        .items
        .iter()
        .map(|item| match &item.node {
            Selection::Field(field) => field.node.name.node.clone(),
            _ => panic!("expected a field"),
        })
        .collect();
    assert_eq!(names, vec!["query", "subscription", "fragment", "on", "true", "null"]);
}

#[test]
fn deeply_nested_selection_sets() {
    let depth = 200;
    let mut text = String::new();
    for _ in 0..depth {
        text.push_str("{ a ");
    }
    for _ in 0..depth {
        text.push_str("} ");
    }
    let doc = parse_query(&text).unwrap();
    assert_eq!(doc.definitions().len(), 1);
}

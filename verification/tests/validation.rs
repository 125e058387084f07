use async_graphql_parser::parse_query;
use async_graphql_parser::pos::Pos;
use async_graphql_parser::validation::check_known_fragment_names;
use async_graphql_parser::validation::KnownFragmentNames;
use async_graphql_parser::validation::RuleError;
use async_graphql_parser::validation::VisitorContext;

pub fn factory() -> KnownFragmentNames {
    KnownFragmentNames::default()
}

fn validate(query: &str) -> Vec<RuleError> {
    let mut doc = parse_query(query).unwrap();
    assert!(doc.retain_operation(None));
    let mut rule = factory();
    let mut ctx = VisitorContext::new(&doc);
    rule.visit_selection_set(&mut ctx, &doc.current_operation().selection_set.node);
    for i in 0..doc.fragments().len() {
        rule.visit_selection_set(&mut ctx, &doc.fragments().entry(i).node.selection_set.node);
    }
    let errors = ctx.into_errors();
    assert_eq!(errors, check_known_fragment_names(&doc));
    errors
}

fn expect_passes_rule(query: &str) {
    let errors = validate(query);
    assert!(errors.is_empty(), "{:?}", errors);
}

fn expect_fails_rule(query: &str) -> Vec<RuleError> {
    let errors = validate(query);
    assert!(!errors.is_empty());
    errors
}

#[test]
fn known() {
    expect_passes_rule(
        r#"
          {
            human(id: 4) {
              ...HumanFields1
              ... on Human {
                ...HumanFields2
              }
              ... {
                name
              }
            }
          }
          fragment HumanFields1 on Human {
            name
            ...HumanFields3
          }
          fragment HumanFields2 on Human {
            name
          }
          fragment HumanFields3 on Human {
            name
          }
        "#,
    );
}

#[test]
fn unknown() {
    let errors = expect_fails_rule(
        r#"
          {
            human(id: 4) {
              ...UnknownFragment1
              ... on Human {
                ...UnknownFragment2
              }
            }
          }
          fragment HumanFields on Human {
            name
            ...UnknownFragment3
          }
        "#,
    );
    assert_eq!(errors.len(), 3);
    assert_eq!(errors[0].message, "Unknown fragment: \"UnknownFragment1\"");
    assert_eq!(errors[0].locations, vec![Pos { line: 4, column: 15 }]);
    assert_eq!(errors[1].message, "Unknown fragment: \"UnknownFragment2\"");
    assert_eq!(errors[1].locations, vec![Pos { line: 6, column: 17 }]);
    assert_eq!(errors[2].message, "Unknown fragment: \"UnknownFragment3\"");
    assert_eq!(errors[2].locations, vec![Pos { line: 12, column: 13 }]);
}

#[test]
fn document_without_operation_is_checked_by_its_fragments() {
    let mut doc = parse_query("fragment A on T { ...B ...A }").unwrap();
    assert!(!doc.retain_operation(None));
    let errors = check_known_fragment_names(&doc);
    assert_eq!(errors.len(), 1);
    assert_eq!(errors[0].message, "Unknown fragment: \"B\"");
}

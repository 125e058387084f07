use async_graphql_parser::document::Document;
use async_graphql_parser::document::FragmentsMap;
use async_graphql_parser::pos::Pos;
use async_graphql_parser::pos::Positioned;
use async_graphql_parser::query::Definition;
use async_graphql_parser::query::FragmentDefinition;
use async_graphql_parser::query::OperationDefinition;
use async_graphql_parser::query::OperationType;
use async_graphql_parser::query::SelectionSet;
use async_graphql_parser::query::TypeCondition;

fn at(line: usize) -> Pos {
    Pos { line, column: 1 }
}

fn fragment(name: &str, on: &str, line: usize) -> Positioned<FragmentDefinition> {
    Positioned::new(
        FragmentDefinition {
            name: Positioned::new(name.to_string(), at(line)),
            type_condition: Positioned::new(
                TypeCondition::On(Positioned::new(on.to_string(), at(line))),
                at(line),
            ),
            directives: Vec::new(),
            selection_set: Positioned::new(SelectionSet::default(), at(line)),
        },
        at(line),
    )
}

fn condition_of(fragment: &Positioned<FragmentDefinition>) -> &str {
    match &fragment.node.type_condition.node {
        TypeCondition::On(name) => &name.node,
    }
}

#[test]
fn table_holds_each_name_once() {
    let mut table = FragmentsMap::new();
    assert!(table.is_empty());
    assert!(table.get("A").is_none());
    table.insert(fragment("A", "T", 1));
    table.insert(fragment("B", "T", 2));
    table.insert(fragment("A", "U", 3));
    assert_eq!(table.len(), 2);
    assert!(table.contains_key("A"));
    assert!(table.contains_key("B"));
    assert!(!table.contains_key("C"));
    assert_eq!(condition_of(table.get("A").unwrap()), "U");
    assert_eq!(table.get("A").unwrap().pos, at(3));
    assert_eq!(condition_of(table.get("B").unwrap()), "T");
    assert_eq!(table.entry(0).node.name.node, "A");
    assert_eq!(table.entry(1).node.name.node, "B");
}

#[test]
fn document_of_given_definitions_resolves() {
    let set = Positioned::new(SelectionSet::default(), at(1));
    let definitions = vec![
        Positioned::new(Definition::Fragment(fragment("F", "T", 1)), at(1)),
        Positioned::new(
            Definition::Operation(Positioned::new(OperationDefinition::SelectionSet(set), at(2))),
            at(2),
        ),
        Positioned::new(Definition::Fragment(fragment("F", "U", 3)), at(3)),
    ];
    let mut doc = Document::new("text".to_string(), definitions);
    assert_eq!(doc.definitions().len(), 3);
    assert!(!doc.has_operation());
    assert!(doc.fragments().is_empty());
    assert!(doc.retain_operation(Some("Any")));
    assert_eq!(doc.current_operation().ty, OperationType::Query);
    assert_eq!(doc.current_operation().selection_set.pos, at(1));
    assert_eq!(doc.fragments().len(), 1);
    assert_eq!(condition_of(doc.fragments().get("F").unwrap()), "U");
    assert!(doc.definitions().is_empty());
}

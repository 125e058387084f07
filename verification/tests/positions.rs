use async_graphql_parser::parse_query;
use async_graphql_parser::pos::Pos;
use async_graphql_parser::position::PositionCalculator;
use async_graphql_parser::query::Definition;
use async_graphql_parser::query::OperationDefinition;
use async_graphql_parser::query::Selection;

fn manual_count(text: &str, offset: usize) -> Pos {
    let mut line = 1;
    let mut column = 1;
    for (at, c) in text.char_indices() {
        if at >= offset {
            break;
        }
        if c == '\n' {
            line += 1;
            column = 1;
        } else {
            column += 1;
        }
    }
    Pos { line, column }
}

#[test]
fn step_counts_lines_and_columns() {
    let text = "ab\ncd";
    let mut pc = PositionCalculator::new(text);
    assert_eq!(pc.step(0), Pos { line: 1, column: 1 });
    assert_eq!(pc.step(1), Pos { line: 1, column: 2 });
    assert_eq!(pc.step(3), Pos { line: 2, column: 1 });
    assert_eq!(pc.step(4), Pos { line: 2, column: 2 });
}

#[test]
fn step_may_stay_where_it_is() {
    let mut pc = PositionCalculator::new("abc");
    assert_eq!(pc.step(2), Pos { line: 1, column: 3 });
    assert_eq!(pc.step(2), Pos { line: 1, column: 3 });
}

#[test]
fn step_past_the_end_stops_at_the_end() {
    let mut pc = PositionCalculator::new("a\nb");
    assert_eq!(pc.step(100), Pos { line: 2, column: 2 });
}

#[test]
fn carriage_return_and_line_feed_end_one_line() {
    let text = "a\r\nbc\r\n\r\nd";
    let mut pc = PositionCalculator::new(text);
    assert_eq!(pc.step(3), Pos { line: 2, column: 1 });
    assert_eq!(pc.step(4), Pos { line: 2, column: 2 });
    assert_eq!(pc.step(9), Pos { line: 4, column: 1 });
}

#[test]
fn carriage_return_alone_ends_no_line() {
    let mut pc = PositionCalculator::new("a\rb");
    assert_eq!(pc.step(2), Pos { line: 1, column: 3 });
}

#[test]
fn columns_count_characters_not_bytes() {
    let text = "\"héé\" x";
    let offset = text.find('x').unwrap();
    assert_eq!(offset, 8);
    let mut pc = PositionCalculator::new(text);
    assert_eq!(pc.step(offset), Pos { line: 1, column: 7 });
}

#[test]
fn positions_match_a_manual_count() {
    let text = "# héllo\r\n{\n  a\r\n  bb(x: \"ü\") @d\n\n ... on T { c }\n}\n";
    let mut offsets = Vec::new();
    for (at, _) in text.char_indices() {
        offsets.push(at);
    }
    offsets.push(text.len());
    let mut pc = PositionCalculator::new(text);
    for offset in offsets {
        assert_eq!(pc.step(offset), manual_count(text, offset));
    }
}

#[test]
fn nodes_carry_the_position_of_their_first_token() {
    let text = "{\r\n  hero {\r\n    name\r\n  }\r\n}";
    let doc = parse_query(text).unwrap();
    let definition = &doc.definitions()[0];
    assert_eq!(definition.pos, Pos { line: 1, column: 1 });
    let set = match &definition.node {
        Definition::Operation(operation) => match &operation.node {
            OperationDefinition::SelectionSet(set) => set,
            _ => panic!("expected a bare selection set"),
        },
        _ => panic!("expected an operation"),
    };
    assert_eq!(set.pos, manual_count(text, 0));
    let hero = match &set.node.items[0].node {
        Selection::Field(field) => field,
        _ => panic!("expected a field"),
    };
    assert_eq!(hero.pos, manual_count(text, text.find("hero").unwrap()));
    assert_eq!(hero.pos, Pos { line: 2, column: 3 });
    assert_eq!(hero.node.selection_set.pos, Pos { line: 2, column: 8 });
    let name = match &hero.node.selection_set.node.items[0].node {
        Selection::Field(field) => field,
        _ => panic!("expected a field"),
    };
    assert_eq!(name.pos, manual_count(text, text.find("name").unwrap()));
    assert_eq!(name.pos, Pos { line: 3, column: 5 });
    assert_eq!(name.node.name.pos, Pos { line: 3, column: 5 });
}

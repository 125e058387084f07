use async_graphql_parser::grammar::Source;
use async_graphql_parser::pos::Pos;
use async_graphql_parser::position::PositionCalculator;
use async_graphql_parser::query::Type;
use async_graphql_parser::query_parser::parse_alias;
use async_graphql_parser::query_parser::parse_arguments;
use async_graphql_parser::query_parser::parse_default_value;
use async_graphql_parser::query_parser::parse_directive;
use async_graphql_parser::query_parser::parse_directives;
use async_graphql_parser::query_parser::parse_field;
use async_graphql_parser::query_parser::parse_fragment_spread;
use async_graphql_parser::query_parser::parse_inline_fragment;
use async_graphql_parser::query_parser::parse_selection_set;
use async_graphql_parser::query_parser::parse_type;
use async_graphql_parser::query_parser::parse_type_condition;
use async_graphql_parser::query_parser::parse_value2;
use async_graphql_parser::query_parser::parse_variable;
use async_graphql_parser::query_parser::parse_variable_definition;
use async_graphql_parser::query_parser::parse_variable_definitions;
use async_graphql_parser::value::Value;

#[test]
fn source_skips_ignored_text() {
    let src = Source::new("  ,\t# c\n x").unwrap();
    assert_eq!(src.len(), 10);
    assert_eq!(src.skip(0), 9);
    assert_eq!(src.skip(9), 9);
    assert_eq!(src.skip(10), 10);
    let src = Source::new("# only a comment").unwrap();
    assert_eq!(src.skip(0), 16);
    let src = Source::new("#a\r#b\n\u{feff}x").unwrap();
    assert_eq!(src.skip(0), 9);
    assert!(src.is(9, b'x'));
    assert!(!src.is(10, b'x'));
}

#[test]
fn source_finds_names_and_numbers() {
    let src = Source::new("_a1b-2 12.5e-3x 007 1. -").unwrap();
    assert!(src.name_starts(0));
    assert!(!src.name_starts(4));
    assert_eq!(src.name_end(1), 4);
    assert_eq!(src.ascii(0, 4), "_a1b");
    assert_eq!(src.number(4), Ok((6, false)));
    assert_eq!(src.integer(4, 6), Some(-2));
    assert_eq!(src.number(7), Ok((14, true)));
    assert_eq!(src.number(16), Ok((17, false)));
    assert_eq!(src.integer(16, 17), Some(0));
    assert_eq!(src.number(20), Err(22));
    assert_eq!(src.number(23), Err(24));
    assert_eq!(src.digits_end(16), 19);
    assert!(src.digit_starts(16));
    assert!(!src.digit_starts(0));
}

#[test]
fn source_finds_the_end_of_a_string() {
    let src = Source::new("\"a\\\"b\" \"open \"x\\").unwrap();
    assert_eq!(src.string_end(1), Ok(6));
    assert_eq!(src.slice(0, 6), "\"a\\\"b\"");
    assert_eq!(src.string_end(8), Ok(14));
    assert_eq!(src.string_end(14), Err(16));
    let src = Source::new("\"a\nb\"").unwrap();
    assert_eq!(src.string_end(1), Err(2));
}

#[test]
fn productions_say_what_they_expect() {
    let text = "x";
    let src = Source::new(text).unwrap();
    let expect = |message: String, wanted: &str| assert_eq!(message, wanted);
    expect(parse_variable(&src, 0, &mut PositionCalculator::new(text)).unwrap_err().message, "expected '$'");
    expect(parse_directive(&src, 0, &mut PositionCalculator::new(text)).unwrap_err().message, "expected '@'");
    expect(
        parse_default_value(&src, 0, &mut PositionCalculator::new(text)).unwrap_err().message,
        "expected '='",
    );
    expect(
        parse_fragment_spread(&src, 0, &mut PositionCalculator::new(text)).unwrap_err().message,
        "expected '...'",
    );
    expect(
        parse_inline_fragment(&src, 0, &mut PositionCalculator::new(text)).unwrap_err().message,
        "expected '...'",
    );
    expect(
        parse_selection_set(&src, 0, &mut PositionCalculator::new(text)).unwrap_err().message,
        "expected '{'",
    );
    expect(
        parse_type_condition(&src, 0, &mut PositionCalculator::new(text)).unwrap_err().message,
        "expected 'on'",
    );
    expect(
        parse_variable_definition(&src, 0, &mut PositionCalculator::new(text)).unwrap_err().message,
        "expected '$'",
    );
    let error = parse_field(&src, 1, &mut PositionCalculator::new(text)).unwrap_err();
    assert_eq!(error.message, "expected a name");
    assert_eq!(error.pos, Pos { line: 1, column: 2 });
}

#[test]
fn optional_parts_may_be_missing() {
    let text = "x";
    let src = Source::new(text).unwrap();
    let (arguments, end) = parse_arguments(&src, 0, &mut PositionCalculator::new(text)).unwrap();
    assert!(arguments.is_empty());
    assert_eq!(end, 0);
    let (directives, end) = parse_directives(&src, 0, &mut PositionCalculator::new(text)).unwrap();
    assert!(directives.is_empty());
    assert_eq!(end, 0);
    let (variables, end) =
        parse_variable_definitions(&src, 0, &mut PositionCalculator::new(text)).unwrap();
    assert!(variables.is_empty());
    assert_eq!(end, 0);
    let (alias, name_start) = parse_alias(&src, 0, &mut PositionCalculator::new(text));
    assert!(alias.is_none());
    assert_eq!(name_start, 0);
}

#[test]
fn productions_end_where_the_next_token_begins() {
    let text = "  [Int!]!  = [1 2]  next";
    let src = Source::new(text).unwrap();
    let mut pc = PositionCalculator::new(text);
    let (ty, end) = parse_type(&src, 2, &mut pc).unwrap();
    assert_eq!(
        ty,
        Type::NonNull(Box::new(Type::List(Box::new(Type::NonNull(Box::new(Type::Named(
            "Int".to_string()
        )))))))
    );
    assert_eq!(end, 11);
    let (value, end) = parse_default_value(&src, end, &mut pc).unwrap();
    assert_eq!(value, Value::List(vec![Value::Int(1), Value::Int(2)]));
    assert_eq!(end, 20);
    let (word, end) = parse_value2(&src, end, &mut pc).unwrap();
    assert_eq!(word, Value::Enum("next".to_string()));
    assert_eq!(end, text.len());
    assert_eq!(pc.step(text.len()), Pos { line: 1, column: 25 });
}

#[test]
fn alias_is_told_by_its_colon() {
    let text = "a : b";
    let src = Source::new(text).unwrap();
    let mut pc = PositionCalculator::new(text);
    let (alias, name_start) = parse_alias(&src, 0, &mut pc);
    let alias = alias.unwrap();
    assert_eq!(alias.node, "a");
    assert_eq!(alias.pos, Pos { line: 1, column: 1 });
    assert_eq!(name_start, 4);
}

use async_graphql_parser::escape::unescape;
use async_graphql_parser::escape::unquote_string;
use async_graphql_parser::parse_query;
use async_graphql_parser::parse_value;
use async_graphql_parser::pos::Pos;
use async_graphql_parser::value::Value;

fn at() -> Pos {
    Pos { line: 3, column: 7 }
}

#[test]
fn escaped_line_feed_decodes() {
    assert_eq!(unquote_string("\"a\\nb\"", at()).unwrap(), "a\nb");
    assert_eq!(*parse_value("\"a\\nb\"").unwrap().value(), Value::String("a\nb".to_string()));
}

#[test]
fn unicode_escape_decodes() {
    assert_eq!(unquote_string("\"\\u0041\"", at()).unwrap(), "A");
    assert_eq!(unquote_string("\"\\u00e9\\u00E9\"", at()).unwrap(), "éé");
    assert_eq!(unquote_string("\"x\\uFFFDy\"", at()).unwrap(), "x\u{fffd}y");
    assert_eq!(*parse_value("\"\\u0041\"").unwrap().value(), Value::String("A".to_string()));
}

#[test]
fn malformed_unicode_escape_fails_at_the_opening_quote() {
    let error = parse_query("{\n  a(b: \"\\uZZZZ\")\n}").unwrap_err();
    assert_eq!(error.pos, Pos { line: 2, column: 8 });
    assert_eq!(error.message, "Z is not a valid unicode code point");
    let error = unquote_string("\"\\uZZZZ\"", at()).unwrap_err();
    assert_eq!(error.pos, at());
    assert_eq!(error.message, "Z is not a valid unicode code point");
    let error = unquote_string("\"\\u12G4\"", at()).unwrap_err();
    assert_eq!(error.message, "G is not a valid unicode code point");
}

#[test]
fn short_unicode_escape_fails() {
    let error = unquote_string("\"\\u12\"", at()).unwrap_err();
    assert_eq!(error.pos, at());
    assert_eq!(error.message, "12 must have 4 characters after it");
    let error = unquote_string("\"\\u\"", at()).unwrap_err();
    assert_eq!(error.message, " must have 4 characters after it");
    let error = parse_value("\"ab\\u00e\"").err().unwrap();
    assert_eq!(error.pos, Pos { line: 1, column: 1 });
    assert_eq!(error.message, "00e must have 4 characters after it");
}

#[test]
fn surrogate_is_no_code_point() {
    let error = unquote_string("\"\\uD800\"", at()).unwrap_err();
    assert_eq!(error.pos, at());
    assert_eq!(error.message, "D800 is not a valid unicode code point");
    let error = unquote_string("\"\\udfff\"", at()).unwrap_err();
    assert_eq!(error.message, "dfff is not a valid unicode code point");
    assert_eq!(unquote_string("\"\\uD7FF\\uE000\"", at()).unwrap(), "\u{d7ff}\u{e000}");
}

#[test]
fn simple_escapes_decode() {
    assert_eq!(
        unquote_string("\"\\\" \\\\ \\/ \\b \\f \\n \\r \\t\"", at()).unwrap(),
        "\" \\ / \u{8} \u{c} \n \r \t"
    );
}

#[test]
fn bad_escape_fails() {
    let error = unquote_string("\"a\\xb\"", at()).unwrap_err();
    assert_eq!(error.pos, at());
    assert_eq!(error.message, "bad escaped char 'x'");
    let error = unquote_string("\"\\é\"", at()).unwrap_err();
    assert_eq!(error.message, "bad escaped char 'é'");
    let error = unquote_string("\"\\'\"", at()).unwrap_err();
    assert_eq!(error.message, "bad escaped char '\\''");
    let error = parse_value("[1, \"\\q\"]").err().unwrap();
    assert_eq!(error.pos, Pos { line: 1, column: 5 });
    assert_eq!(error.message, "bad escaped char 'q'");
}

#[test]
fn text_without_backslash_is_unchanged() {
    assert_eq!(unquote_string("\"plain text\"", at()).unwrap(), "plain text");
    assert_eq!(unquote_string("\"\"", at()).unwrap(), "");
    assert_eq!(unquote_string("\"größe\"", at()).unwrap(), "größe");
}

#[test]
fn first_malformed_escape_decides() {
    let error = unquote_string("\"\\q \\uZZZZ\"", at()).unwrap_err();
    assert_eq!(error.message, "bad escaped char 'q'");
    let error = unquote_string("\"\\u00 \\q\"", at()).unwrap_err();
    assert_eq!(error.message, "  is not a valid unicode code point");
}

#[test]
fn backslash_at_the_end_fails() {
    let body: Vec<char> = "ab\\".chars().collect();
    let error = unescape(&body, at()).unwrap_err();
    assert_eq!(error.pos, at());
    assert_eq!(error.message, "slash cant be at the end");
}

#[test]
fn escapes_in_a_document() {
    let mut doc = parse_query("{ a(b: \"line\\nbreak \\u0041\\\"\") }").unwrap();
    assert!(doc.retain_operation(None));
    let set = &doc.current_operation().selection_set.node;
    match &set.items[0].node {
        async_graphql_parser::query::Selection::Field(field) => {
            assert_eq!(
                field.node.arguments[0].1.node,
                Value::String("line\nbreak A\"".to_string())
            );
        },
        _ => panic!("expected a field"),
    }
}

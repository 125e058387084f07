use async_graphql_parser::parse_query;
use async_graphql_parser::parse_value;
use async_graphql_parser::pos::Pos;
use async_graphql_parser::position::PositionCalculator;

struct Lcg(u64);

impl Lcg {
    fn next(&mut self, bound: usize) -> usize {
        self.0 = self.0.wrapping_mul(6364136223846793005).wrapping_add(1442695040888963407);
        ((self.0 >> 33) as usize) % bound
    }
}

const PIECES: [&str; 40] = [
    "{", "}", "(", ")", "[", "]", ":", "=", "!", "@", "$", "...", "\"", "\\", "\\u", "\\n", "#",
    "\n", "\r\n", " ", ",", "query", "mutation", "fragment", "on", "true", "null", "a", "B_1", "0",
    "-1", "2.5", "1e9", "é", "日本", "\u{feff}", "\u{1F600}", "0041", "\t", "x",
];

fn random_text(rng: &mut Lcg, pieces: usize) -> String {
    let mut text = String::new();
    for _ in 0..pieces {
        text.push_str(PIECES[rng.next(PIECES.len())]);
    }
    text
}

fn manual_count(text: &str, offset: usize) -> Pos {
    let mut line = 1;
    let mut column = 1;
    for (at, c) in text.char_indices() {
        if at >= offset {
            break;
        }
        if c == '\n' {
            line += 1;
            column = 1;
        } else {
            column += 1;
        }
    }
    Pos { line, column }
}

#[test]
fn any_text_parses_or_fails_with_a_position_inside_it() {
    let mut rng = Lcg(7);
    for round in 0..4000 {
        let text = random_text(&mut rng, 1 + round % 24);
        let lines = text.matches('\n').count() + 1;
        if let Err(error) = parse_query(&text) {
            assert!(!error.message.is_empty());
            assert!(error.pos.line >= 1 && error.pos.line <= lines, "{:?}", text);
            assert!(error.pos.column >= 1, "{:?}", text);
        }
        if let Err(error) = parse_value(&text) {
            assert!(!error.message.is_empty());
            assert!(error.pos.line >= 1 && error.pos.line <= lines, "{:?}", text);
            assert!(error.pos.column >= 1, "{:?}", text);
        }
    }
}

#[test]
fn parsing_is_repeatable_on_any_text() {
    let mut rng = Lcg(11);
    for round in 0..1000 {
        let text = random_text(&mut rng, 1 + round % 16);
        let one = format!("{:?}", parse_query(&text));
        let two = format!("{:?}", parse_query(&text));
        assert_eq!(one, two);
    }
}

#[test]
fn positions_match_a_manual_count_on_any_text() {
    let mut rng = Lcg(13);
    for round in 0..500 {
        let text = random_text(&mut rng, 1 + round % 40);
        let mut pc = PositionCalculator::new(&text);
        for (offset, _) in text.char_indices() {
            if rng.next(3) == 0 {
                assert_eq!(pc.step(offset), manual_count(&text, offset), "{:?}", text);
            }
        }
        assert_eq!(pc.step(text.len()), manual_count(&text, text.len()), "{:?}", text);
    }
}

#[test]
fn strings_of_any_characters_come_back_as_written() {
    let mut rng = Lcg(17);
    for round in 0..1000 {
        let mut body = String::new();
        for _ in 0..(round % 12) {
            let piece = PIECES[rng.next(PIECES.len())];
            if !piece.contains('"') && !piece.contains('\\') && !piece.contains('\n') {
                body.push_str(piece);
            }
        }
        let literal = format!("\"{}\"", body);
        let parsed = parse_value(&literal).unwrap();
        assert_eq!(
            *parsed.value(),
            async_graphql_parser::value::Value::String(body.clone()),
            "{:?}",
            literal
        );
    }
}

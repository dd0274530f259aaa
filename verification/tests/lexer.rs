use curly::errors::CurlyErrorKind;
use curly::grid::PositionGrid;
use curly::lexer::{lex, lex_text, Lexeme, Separator, Token};
use curly::text::Position;

fn token(lexeme: Lexeme, row: usize, col: usize) -> Token {
    Token { lexeme, position: Position { row, col } }
}

fn literal(text: &str) -> Lexeme {
    Lexeme::Literal(String::from(text))
}

#[test]
fn lexes_the_documented_example() {
    let grid = PositionGrid::build("String\n {{abc:spec/post}}");
    let tokens = lex(&grid, 0, 0).unwrap();
    assert_eq!(
        tokens,
        vec![
            token(literal("String\n "), 0, 0),
            token(Lexeme::OpenBrace, 1, 1),
            token(Lexeme::OpenBrace, 1, 2),
            token(literal("abc"), 1, 3),
            token(Lexeme::Separator(Separator::EndPrefixes), 1, 6),
            token(literal("spec"), 1, 7),
            token(Lexeme::Separator(Separator::BeginPostfixes), 1, 11),
            token(literal("post"), 1, 12),
            token(Lexeme::CloseBrace, 1, 16),
            token(Lexeme::CloseBrace, 1, 17),
        ]
    );
}

#[test]
fn base_position_does_not_move_tokens() {
    let grid = PositionGrid::build("a{");
    let tokens = lex(&grid, 7, 9).unwrap();
    assert_eq!(tokens, vec![token(literal("a"), 0, 0), token(Lexeme::OpenBrace, 0, 1)]);
}

#[test]
fn backslash_escapes_the_next_character() {
    let grid = PositionGrid::build("a\\{b\\n\\\\");
    let tokens = lex(&grid, 0, 0).unwrap();
    assert_eq!(
        tokens,
        vec![
            token(literal("a"), 0, 0),
            token(Lexeme::EscapedChar('{'), 0, 1),
            token(literal("b"), 0, 3),
            token(Lexeme::EscapedChar('n'), 0, 4),
            token(Lexeme::EscapedChar('\\'), 0, 6),
        ]
    );
}

#[test]
fn backslash_at_row_end_escapes_the_newline() {
    let grid = PositionGrid::build("a\\\nb");
    let tokens = lex(&grid, 0, 0).unwrap();
    assert_eq!(
        tokens,
        vec![
            token(literal("a"), 0, 0),
            token(Lexeme::EscapedChar('\n'), 0, 1),
            token(literal("b"), 1, 0),
        ]
    );
}

#[test]
fn empty_rows_are_newlines_in_literals() {
    let grid = PositionGrid::build("a\n\n\nb:");
    let tokens = lex(&grid, 0, 0).unwrap();
    assert_eq!(
        tokens,
        vec![
            token(literal("a\n\n\nb"), 0, 0),
            token(Lexeme::Separator(Separator::EndPrefixes), 3, 1),
        ]
    );
}

#[test]
fn empty_grid_has_no_tokens() {
    assert_eq!(lex(&PositionGrid::build(""), 0, 0).unwrap(), vec![]);
}

#[test]
fn lone_backslash_at_end_is_a_syntax_error() {
    let grid = PositionGrid::build("abc\\");
    let error = lex(&grid, 0, 0).unwrap_err();
    assert!(matches!(error, CurlyErrorKind::Syntax(_)));
    assert_eq!(
        error.message(),
        "Expected an escaped character, found end of input at 0:4 \
         (error is within segment 'abc\\' at 0:4)"
    );
    assert_eq!(
        error.to_string(),
        "Syntax Error: Expected an escaped character, found end of input at 0:4 \
         (error is within segment 'abc\\' at 0:4)"
    );
}

#[test]
fn lexer_error_is_placed_in_the_document() {
    let error = lex(&PositionGrid::build("abc\\"), 2, 5).unwrap_err();
    assert_eq!(
        error.message(),
        "Expected an escaped character, found end of input at 2:9 \
         (error is within segment 'abc\\' at 0:4)"
    );
    let error = lex(&PositionGrid::build("a\nbc\\"), 2, 5).unwrap_err();
    assert_eq!(
        error.message(),
        "Expected an escaped character, found end of input at 3:3 \
         (error is within segment 'a\nbc\\' at 1:3)"
    );
}

#[test]
fn escaped_backslash_at_end_is_no_error() {
    let tokens = lex(&PositionGrid::build("a\\\\"), 0, 0).unwrap();
    assert_eq!(tokens, vec![token(literal("a"), 0, 0), token(Lexeme::EscapedChar('\\'), 0, 1)]);
    assert!(lex(&PositionGrid::build("a\\\\\\"), 0, 0).is_err());
}

#[test]
fn lexes_characters_directly() {
    let text: Vec<char> = "x/y".chars().collect();
    assert_eq!(
        lex_text(&text, 0, 0).unwrap(),
        vec![
            token(literal("x"), 0, 0),
            token(Lexeme::Separator(Separator::BeginPostfixes), 0, 1),
            token(literal("y"), 0, 2),
        ]
    );
}

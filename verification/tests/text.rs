use curly::errors::{unknown_key_error, CurlyErrorKind};
use curly::formatting::{alignment_or, pad, Alignment};
use curly::grid::PositionGrid;
use curly::lexer::special;
use curly::parser::escapable;
use curly::specifier::{compile, digit};
use curly::text::{chars_of, position_at, text_of, Position};

#[test]
fn characters_and_text_are_each_other() {
    assert_eq!(chars_of("héllo"), vec!['h', 'é', 'l', 'l', 'o']);
    assert_eq!(chars_of(""), Vec::<char>::new());
    assert_eq!(text_of(&vec!['a', '✓', 'b']), "a✓b");
    assert_eq!(text_of(&chars_of("rönd trip")), "rönd trip");
}

#[test]
fn positions_count_rows_and_columns() {
    let text = chars_of("ab\nc\n\nd");
    assert_eq!(position_at(&text, 0), Position { row: 0, col: 0 });
    assert_eq!(position_at(&text, 2), Position { row: 0, col: 2 });
    assert_eq!(position_at(&text, 3), Position { row: 1, col: 0 });
    assert_eq!(position_at(&text, 5), Position { row: 2, col: 0 });
    assert_eq!(position_at(&text, 6), Position { row: 3, col: 0 });
    assert_eq!(position_at(&text, 7), Position { row: 3, col: 1 });
}

#[test]
fn positions_are_where_the_grid_holds_the_character() {
    let source = "ab\ncd\n\nef";
    let grid = PositionGrid::build(source);
    let text = chars_of(source);
    for (offset, c) in text.iter().enumerate() {
        if *c != '\n' {
            let at = position_at(&text, offset);
            assert_eq!(grid.get_char(at.row, at.col), Some(*c));
        }
    }
}

#[test]
fn padding_counts_characters() {
    assert_eq!(pad("é", 3, Alignment::Left, '.'), "é..");
    assert_eq!(pad("é", 3, Alignment::Right, '.'), "..é");
    assert_eq!(pad("é", 4, Alignment::Center, '.'), ".é..");
    assert_eq!(pad("é", 1, Alignment::Center, '.'), "é");
    assert_eq!(pad("é", 0, Alignment::Left, '.'), "é");
    assert_eq!(pad("", 2, Alignment::Right, '✓'), "✓✓");
    assert_eq!(alignment_or(None, Alignment::Right), Alignment::Right);
    assert_eq!(alignment_or(Some(Alignment::Center), Alignment::Right), Alignment::Center);
}

#[test]
fn character_classes() {
    for c in ['\\', '{', '}', ':', '/'] {
        assert!(special(c));
    }
    assert!(!special('a') && !special('\n') && !special(' '));
    assert!(escapable('\\') && escapable('{') && escapable('}'));
    assert!(!escapable(':') && !escapable('/') && !escapable('n'));
    assert!(digit('0') && digit('9'));
    assert!(!digit('a') && !digit('٣'));
}

#[test]
fn grids_of_the_same_rows_are_equal() {
    assert_eq!(PositionGrid::build("a\r\nb\n"), PositionGrid::build("a\nb"));
    assert_ne!(PositionGrid::build("a\n\nb"), PositionGrid::build("a\nb"));
}

#[test]
fn formatter_finishes_what_the_provider_returned() {
    let formatter = compile(None, "key", Some("!>5")).unwrap();
    assert_eq!(formatter.finish(Ok(String::from("ab"))).unwrap(), "   AB");
    let error = formatter.finish(Err(unknown_key_error("key"))).unwrap_err();
    assert!(matches!(error, CurlyErrorKind::Generic(_)));
    assert_eq!(error.message(), "Invalid format specifier `key`.");
}

use curly::errors::{
    describe, found_error, syntax_error, unknown_key_error, unreachable_error, CurlyError,
    CurlyErrorKind, CurlyResult, Expected,
};
use curly::text::Position;
use curly::util::StringParser;

#[test]
fn error_carries_its_message() {
    let error = CurlyError::from(String::from("something went wrong"));
    assert_eq!(error.message(), "something went wrong");
    assert_eq!(error.to_string(), "something went wrong");
    let boxed: Box<CurlyError> = CurlyError::from_boxed(String::from("boxed"));
    assert_eq!(boxed.message(), "boxed");
    assert_eq!(*boxed, CurlyError::from(String::from("boxed")));
    assert_eq!(CurlyError::default().message(), "");
    let converted: CurlyError = String::from("converted").into();
    assert_eq!(converted.message(), "converted");
}

#[test]
fn error_kinds_are_shown_with_their_heading() {
    let generic = CurlyErrorKind::Generic(CurlyError::from_boxed(String::from("a")));
    let syntax = CurlyErrorKind::Syntax(CurlyError::from_boxed(String::from("b")));
    let internal = CurlyErrorKind::Internal(CurlyError::from_boxed(String::from("c")));
    assert_eq!(generic.to_string(), "Error: a");
    assert_eq!(syntax.to_string(), "Syntax Error: b");
    assert_eq!(internal.to_string(), "Internal Error: c");
    assert_eq!(generic.message(), "a");
    assert_eq!(syntax.message(), "b");
    assert_eq!(internal.message(), "c");
    assert_ne!(generic, CurlyErrorKind::Syntax(CurlyError::from_boxed(String::from("a"))));
}

#[test]
fn syntax_error_holds_both_positions() {
    let error = syntax_error("this", 3, 4, "the segment", Position { row: 0, col: 7 });
    assert_eq!(
        error.to_string(),
        "Syntax Error: Expected this at 3:11 (error is within segment 'the segment' at 0:7)"
    );
    let error = syntax_error("this", 3, 4, "the\nsegment", Position { row: 1, col: 7 });
    assert_eq!(
        error.message(),
        "Expected this at 4:7 (error is within segment 'the\nsegment' at 1:7)"
    );
    let error = syntax_error("x", usize::MAX, usize::MAX, "", Position { row: usize::MAX, col: 0 });
    let twice = 2 * (usize::MAX as u128);
    assert_eq!(
        error.message(),
        format!("Expected x at {}:0 (error is within segment '' at {}:0)", twice, usize::MAX)
    );
    let error = syntax_error("x", 0, usize::MAX, "", Position { row: 0, col: usize::MAX });
    assert_eq!(
        error.message(),
        format!("Expected x at 0:{} (error is within segment '' at 0:{})", twice, usize::MAX)
    );
}

#[test]
fn found_error_names_the_character() {
    let segment: Vec<char> = "ab\ncd".chars().collect();
    let error = found_error(Expected::PostfixFlag, 1, 1, &segment, 4);
    assert_eq!(
        error.message(),
        "Expected one of `<`, `^`, `>`, `!`, `_`, `-` or a digit, found `d` at 2:1 \
         (error is within segment 'ab\ncd' at 1:1)"
    );
}

#[test]
fn every_expectation_has_its_words() {
    assert_eq!(describe(Expected::EscapedCharacter), "an escaped character");
    assert_eq!(describe(Expected::EscapableCharacter), "one of `\\`, `{` or `}` after `\\`");
    assert_eq!(describe(Expected::DirectiveOpening), "`{{` (a single brace must be escaped)");
    assert_eq!(describe(Expected::Specifier), "a specifier");
    assert_eq!(describe(Expected::PrefixEnd), "`:`, `/` or `}}`");
    assert_eq!(describe(Expected::SpecifierEnd), "`/` or `}}`");
    assert_eq!(describe(Expected::DirectiveEnd), "`}}`");
    assert_eq!(describe(Expected::SingleDirective), "a single directive");
    assert_eq!(describe(Expected::PrecisionDigit), "a digit after `.`");
    assert_eq!(describe(Expected::SmallerNumber), "a number that fits a machine word");
    assert_eq!(
        describe(Expected::PostfixFlag),
        "one of `<`, `^`, `>`, `!`, `_`, `-` or a digit"
    );
    assert_eq!(describe(Expected::BooleanFlag), "one of `q`, `Q` or `!`");
}

#[test]
fn unknown_key_and_unreachable_errors() {
    let error = unknown_key_error("value2");
    assert!(matches!(error, CurlyErrorKind::Generic(_)));
    assert_eq!(error.message(), "Invalid format specifier `value2`.");
    let error = unreachable_error();
    assert!(matches!(error, CurlyErrorKind::Internal(_)));
    assert_eq!(error.message(), "Unreachable!");
}

#[test]
fn results_carry_error_kinds() {
    let failed: CurlyResult<u8> = Err(unreachable_error());
    assert!(failed.is_err());
    let fine: CurlyResult<u8> = Ok(1);
    assert_eq!(fine.unwrap(), 1);
}

#[test]
fn string_parser_is_one_value() {
    assert_eq!(StringParser::new(), StringParser::default());
    assert_eq!(StringParser::new(), StringParser {});
}

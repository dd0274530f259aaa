use curly::errors::CurlyErrorKind;
use curly::grid::PositionGrid;
use curly::lexer::{lex, Lexeme, Token};
use curly::parser::{parse, source_of, AstNode, Directive};
use curly::template::parse_template;
use curly::text::Position;

fn nodes(template: &str) -> Vec<AstNode> {
    parse_template(template).unwrap()
}

fn failure(template: &str) -> String {
    let error = parse_template(template).unwrap_err();
    assert!(matches!(error, CurlyErrorKind::Syntax(_)));
    String::from(error.message())
}

fn text(t: &str) -> AstNode {
    AstNode::Text(String::from(t))
}

fn directive(prefix: Option<&str>, specifier: &str, postfix: Option<&str>, row: usize, col: usize) -> AstNode {
    AstNode::Directive(Directive {
        prefix_text: prefix.map(String::from),
        specifier_text: String::from(specifier),
        postfix_text: postfix.map(String::from),
        position: Position { row, col },
    })
}

#[test]
fn parses_a_bare_directive() {
    assert_eq!(nodes("{{key}}"), vec![directive(None, "key", None, 0, 0)]);
}

#[test]
fn parses_all_three_parts() {
    assert_eq!(
        nodes("a{{!q:flag/!}}b"),
        vec![text("a"), directive(Some("!q"), "flag", Some("!"), 0, 1), text("b")]
    );
    assert_eq!(nodes("{{key/<10}}"), vec![directive(None, "key", Some("<10"), 0, 0)]);
    assert_eq!(nodes("{{x:key}}"), vec![directive(Some("x"), "key", None, 0, 0)]);
}

#[test]
fn empty_prefix_and_postfix_are_kept_apart_from_missing_ones() {
    assert_eq!(nodes("{{:key/}}"), vec![directive(Some(""), "key", Some(""), 0, 0)]);
}

#[test]
fn directives_on_later_rows_know_their_place() {
    assert_eq!(
        nodes("one\ntwo {{key}}"),
        vec![text("one\ntwo "), directive(None, "key", None, 1, 4)]
    );
}

#[test]
fn separators_outside_directives_are_text() {
    assert_eq!(nodes("a:b/c"), vec![text("a"), text(":"), text("b"), text("/"), text("c")]);
}

#[test]
fn escapes_of_braces_and_backslash_are_nodes() {
    assert_eq!(
        nodes("\\{\\}\\\\"),
        vec![AstNode::Escaped('{'), AstNode::Escaped('}'), AstNode::Escaped('\\')]
    );
}

#[test]
fn empty_template_has_no_nodes() {
    assert_eq!(nodes(""), vec![]);
}

#[test]
fn escape_of_another_character_is_an_error() {
    assert_eq!(
        failure("ab\\n"),
        "Expected one of `\\`, `{` or `}` after `\\` at 0:2 (error is within segment 'ab\\n' at 0:2)"
    );
}

#[test]
fn single_braces_are_errors() {
    assert_eq!(
        failure("a{b"),
        "Expected `{{` (a single brace must be escaped) at 0:1 (error is within segment 'a{b' at 0:1)"
    );
    assert_eq!(
        failure("a}b"),
        "Expected `{{` (a single brace must be escaped) at 0:1 (error is within segment 'a}b' at 0:1)"
    );
    assert_eq!(
        failure("{"),
        "Expected `{{` (a single brace must be escaped) at 0:0 (error is within segment '{' at 0:0)"
    );
    assert_eq!(
        failure("}}"),
        "Expected `{{` (a single brace must be escaped) at 0:0 (error is within segment '}}' at 0:0)"
    );
}

#[test]
fn empty_specifier_is_an_error() {
    assert_eq!(
        failure("{{}}"),
        "Expected a specifier at 0:2 (error is within segment '{{}}' at 0:2)"
    );
    assert_eq!(
        failure("{{x:}}"),
        "Expected a specifier at 0:4 (error is within segment '{{x:}}' at 0:4)"
    );
    assert_eq!(
        failure("{{/x}}"),
        "Expected a specifier at 0:2 (error is within segment '{{/x}}' at 0:2)"
    );
    assert_eq!(
        failure("{{::}}"),
        "Expected a specifier at 0:3 (error is within segment '{{::}}' at 0:3)"
    );
}

#[test]
fn unterminated_directive_is_reported_at_its_opening() {
    assert_eq!(failure("ab{{key"), "Expected `}}` at 0:2 (error is within segment 'ab{{key' at 0:2)");
    assert_eq!(failure("ab{{key}"), "Expected `}}` at 0:2 (error is within segment 'ab{{key}' at 0:2)");
    assert_eq!(failure("{{"), "Expected `}}` at 0:0 (error is within segment '{{' at 0:0)");
    assert_eq!(failure("{{a:"), "Expected `}}` at 0:0 (error is within segment '{{a:' at 0:0)");
    assert_eq!(failure("{{a/b"), "Expected `}}` at 0:0 (error is within segment '{{a/b' at 0:0)");
}

#[test]
fn unexpected_tokens_inside_a_directive_are_errors() {
    assert_eq!(
        failure("{{a{b}}"),
        "Expected `:`, `/` or `}}` at 0:3 (error is within segment '{{a{b}}' at 0:3)"
    );
    assert_eq!(
        failure("{{a:b:c}}"),
        "Expected `/` or `}}` at 0:5 (error is within segment '{{a:b:c}}' at 0:5)"
    );
    assert_eq!(
        failure("{{a/b:c}}"),
        "Expected `}}` at 0:5 (error is within segment '{{a/b:c}}' at 0:5)"
    );
    assert_eq!(
        failure("{{a}b}"),
        "Expected `}}` at 0:4 (error is within segment '{{a}b}' at 0:4)"
    );
    assert_eq!(
        failure("{{a\\{}}"),
        "Expected `:`, `/` or `}}` at 0:3 (error is within segment '{{a\\{}}' at 0:3)"
    );
}

#[test]
fn parser_error_is_placed_in_the_document() {
    let tokens = lex(&PositionGrid::build("ab\nc}"), 4, 2).unwrap();
    let error = parse(&tokens, 4, 2).unwrap_err();
    assert_eq!(
        error.message(),
        "Expected `{{` (a single brace must be escaped) at 5:1 (error is within segment 'ab\nc}' at 1:1)"
    );
    let tokens = lex(&PositionGrid::build("ab}"), 4, 2).unwrap();
    let error = parse(&tokens, 4, 2).unwrap_err();
    assert_eq!(
        error.message(),
        "Expected `{{` (a single brace must be escaped) at 4:4 (error is within segment 'ab}' at 0:2)"
    );
}

#[test]
fn bare_backslash_lexeme_is_an_error() {
    let tokens = vec![
        Token { lexeme: Lexeme::Literal(String::from("a")), position: Position { row: 0, col: 0 } },
        Token { lexeme: Lexeme::Backslash, position: Position { row: 0, col: 1 } },
    ];
    let error = parse(&tokens, 0, 0).unwrap_err();
    assert_eq!(
        error.message(),
        "Expected an escaped character at 0:1 (error is within segment 'a\\' at 0:1)"
    );
}

#[test]
fn neighbouring_literals_make_one_run() {
    let at = Position { row: 0, col: 0 };
    let tokens = vec![
        Token { lexeme: Lexeme::OpenBrace, position: at },
        Token { lexeme: Lexeme::OpenBrace, position: at },
        Token { lexeme: Lexeme::Literal(String::from("ke")), position: at },
        Token { lexeme: Lexeme::Literal(String::from("y")), position: at },
        Token { lexeme: Lexeme::CloseBrace, position: at },
        Token { lexeme: Lexeme::CloseBrace, position: at },
    ];
    assert_eq!(parse(&tokens, 0, 0).unwrap(), vec![directive(None, "key", None, 0, 0)]);
}

#[test]
fn tokens_stand_for_their_source() {
    let source = "a\\{b {{x:y/z}}\nc";
    let tokens = lex(&PositionGrid::build(source), 0, 0).unwrap();
    assert_eq!(source_of(&tokens), source);
}

//! The lexer: from the rows of a template to its lexemes, each with the
//! place where it starts.

use crate::errors::{syntax_error, syntax_message, CurlyResult, ErrorView};
use crate::grid::{joined, PositionGrid};
use crate::text::{absolute, lemma_pos_of_bounds, pos_of, text_of, text_of_range, Position};
use vstd::prelude::*;

verus! {

/// The two markers that divide a directive.
#[derive(Debug, Clone, Copy, PartialEq, Eq, Hash, Structural)]
pub enum Separator {
    /// `:`, which ends the prefixes.
    EndPrefixes,
    /// `/`, which begins the postfixes.
    BeginPostfixes,
}

/// A minimal unit of template text.
#[derive(Debug, Clone, PartialEq, Eq, Hash)]
pub enum Lexeme {
    /// A run of ordinary characters.
    Literal(String),
    /// A backslash on its own. The lexer never yields it, since a backslash
    /// either escapes the character after it or ends the text, which is an
    /// error; the parser takes it for a fault.
    Backslash,
    /// The character that followed a backslash.
    EscapedChar(char),
    /// `{`
    OpenBrace,
    /// `}`
    CloseBrace,
    /// `:` or `/`
    Separator(Separator),
}

/// The mathematical content of a `Lexeme`.
pub enum LexemeView {
    Literal(Seq<char>),
    Backslash,
    EscapedChar(char),
    OpenBrace,
    CloseBrace,
    Separator(Separator),
}

impl View for Lexeme {
    type V = LexemeView;

    open spec fn view(&self) -> LexemeView {
        match self {
            Lexeme::Literal(t) => LexemeView::Literal(t@),
            Lexeme::Backslash => LexemeView::Backslash,
            Lexeme::EscapedChar(c) => LexemeView::EscapedChar(*c),
            Lexeme::OpenBrace => LexemeView::OpenBrace,
            Lexeme::CloseBrace => LexemeView::CloseBrace,
            Lexeme::Separator(s) => LexemeView::Separator(*s),
        }
    }
}

/// A lexeme and the position of its first character, relative to the text
/// that was lexed.
#[derive(Debug, Clone, PartialEq, Eq, Hash)]
pub struct Token {
    pub lexeme: Lexeme,
    pub position: Position,
}

/// The mathematical content of a `Token`.
pub struct TokenView {
    pub lexeme: LexemeView,
    pub row: int,
    pub col: int,
}

impl View for Token {
    type V = TokenView;

    open spec fn view(&self) -> TokenView {
        TokenView {
            lexeme: self.lexeme@,
            row: self.position.row as int,
            col: self.position.col as int,
        }
    }
}

/// The mathematical content of a sequence of tokens.
pub open spec fn tokens_view(tokens: Seq<Token>) -> Seq<TokenView> {
    Seq::new(tokens.len(), |i: int| tokens[i]@)
}

/// The content of one more token is one more item of the content.
pub proof fn lemma_tokens_view_push(tokens: Seq<Token>, token: Token)
    ensures
        tokens_view(tokens.push(token)) == tokens_view(tokens).push(token@),
{
    assert(tokens_view(tokens.push(token)) =~= tokens_view(tokens).push(token@));
}

/// The characters that never belong to a literal run.
pub open spec fn is_special(c: char) -> bool {
    c == '\\' || c == '{' || c == '}' || c == ':' || c == '/'
}

/// The lexeme of a brace or separator character.
pub open spec fn marker(c: char) -> LexemeView {
    if c == '{' {
        LexemeView::OpenBrace
    } else if c == '}' {
        LexemeView::CloseBrace
    } else if c == ':' {
        LexemeView::Separator(Separator::EndPrefixes)
    } else {
        LexemeView::Separator(Separator::BeginPostfixes)
    }
}

/// Where the literal run that starts at `from` ends: the offset of the next
/// special character, or the end of the text.
pub open spec fn literal_end(text: Seq<char>, from: int) -> int
    decreases text.len() - from,
{
    if from < 0 || from >= text.len() || is_special(text[from]) {
        from
    } else {
        literal_end(text, from + 1)
    }
}

/// A literal run ends at or after its start, at a special character or
/// at the end of the text, and holds no special character.
pub proof fn lemma_literal_end_bounds(text: Seq<char>, from: int)
    requires
        0 <= from <= text.len(),
    ensures
        from <= literal_end(text, from) <= text.len(),
        literal_end(text, from) < text.len() ==> is_special(text[literal_end(text, from)]),
        forall|k: int| from <= k < literal_end(text, from) ==> !is_special(text[k]),
        from < text.len() && !is_special(text[from]) ==> from < literal_end(text, from),
    decreases text.len() - from,
{
    if from < text.len() && !is_special(text[from]) {
        lemma_literal_end_bounds(text, from + 1);
    }
}

/// The lexeme of an escape sequence that escapes `c`.
pub open spec fn escaped_char(c: char) -> LexemeView {
    LexemeView::EscapedChar(c)
}

/// The token for `lexeme` found at offset `from` of `text`.
pub open spec fn token_at(text: Seq<char>, from: int, lexeme: LexemeView) -> TokenView {
    TokenView { lexeme, row: pos_of(text, from).0, col: pos_of(text, from).1 }
}

/// The tokens of `text[from..]`. A backslash and the character after it
/// make one `EscapedChar`; a brace or a separator stands alone; every
/// maximal run of other characters is one `Literal`. A backslash that ends
/// the text yields nothing: see `ends_in_escape`.
pub open spec fn lex_from(text: Seq<char>, from: int) -> Seq<TokenView>
    decreases text.len() - from,
{
    if from < 0 || from >= text.len() {
        Seq::empty()
    } else if text[from] == '\\' {
        if from + 1 >= text.len() {
            Seq::empty()
        } else {
            seq![token_at(text, from, escaped_char(text[from + 1]))] + lex_from(text, from + 2)
        }
    } else if is_special(text[from]) {
        seq![token_at(text, from, marker(text[from]))] + lex_from(text, from + 1)
    } else {
        proof {
            lemma_literal_end_bounds(text, from);
        }
        let end = literal_end(text, from);
        seq![token_at(text, from, LexemeView::Literal(text.subrange(from, end)))] + lex_from(
            text,
            end,
        )
    }
}

/// Whether reading `text[from..]` stops at a backslash with nothing after it.
pub open spec fn ends_in_escape(text: Seq<char>, from: int) -> bool
    decreases text.len() - from,
{
    if from < 0 || from >= text.len() {
        false
    } else if text[from] == '\\' {
        if from + 1 >= text.len() {
            true
        } else {
            ends_in_escape(text, from + 2)
        }
    } else {
        ends_in_escape(text, from + 1)
    }
}

/// What the lexer expected when the text ended right after a backslash.
pub open spec fn expected_escaped() -> Seq<char> {
    "an escaped character, found end of input"@
}

/// The outcome of lexing `text` that starts at `base_row`:`base_col` of a
/// document.
pub open spec fn lex_spec(text: Seq<char>, base_row: int, base_col: int) -> Result<
    Seq<TokenView>,
    ErrorView,
> {
    if ends_in_escape(text, 0) {
        Err(
            ErrorView::Syntax(
                syntax_message(
                    expected_escaped(),
                    absolute(base_row, base_col, pos_of(text, text.len() as int)),
                    text,
                    pos_of(text, text.len() as int),
                ),
            ),
        )
    } else {
        Ok(lex_from(text, 0))
    }
}

/// The mathematical content of a lexing result.
pub open spec fn lex_result_view(r: CurlyResult<Vec<Token>>) -> Result<Seq<TokenView>, ErrorView> {
    match r {
        Ok(tokens) => Ok(tokens_view(tokens@)),
        Err(e) => Err(e@),
    }
}

/// Whether `c` is one of the characters that never belong to a literal run.
pub fn special(c: char) -> (b: bool)
    ensures
        b == is_special(c),
{
    c == '\\' || c == '{' || c == '}' || c == ':' || c == '/'
}

/// The lexeme of the brace or separator `c`.
fn marker_of(c: char) -> (l: Lexeme)
    requires
        is_special(c),
        c != '\\',
    ensures
        l@ == marker(c),
{
    if c == '{' {
        Lexeme::OpenBrace
    } else if c == '}' {
        Lexeme::CloseBrace
    } else if c == ':' {
        Lexeme::Separator(Separator::EndPrefixes)
    } else {
        Lexeme::Separator(Separator::BeginPostfixes)
    }
}

/// The position after reading `c` at position `p`.
fn step(p: Position, c: char) -> (q: Position)
    requires
        p.row < usize::MAX,
        p.col < usize::MAX,
    ensures
        c == '\n' ==> q.row == p.row + 1 && q.col == 0,
        c != '\n' ==> q.row == p.row && q.col == p.col + 1,
{
    if c == '\n' {
        Position { row: p.row + 1, col: 0 }
    } else {
        Position { row: p.row, col: p.col + 1 }
    }
}

/// Lexes a sequence of characters. Token positions are relative to the
/// text; `base_row` and `base_col` say where the text starts in its
/// document and only shift the position that an error reports.
pub fn lex_text(text: &Vec<char>, base_row: usize, base_col: usize) -> (r: CurlyResult<
    Vec<Token>,
>)
    ensures
        lex_result_view(r) == lex_spec(text@, base_row as int, base_col as int),
{
    let n = text.len();
    let mut tokens: Vec<Token> = Vec::new();
    let mut i: usize = 0;
    let mut here = Position { row: 0, col: 0 };
    while i < n
        invariant
            n == text.len(),
            i <= n,
            (here.row as int, here.col as int) == pos_of(text@, i as int),
            tokens_view(tokens@) + lex_from(text@, i as int) == lex_from(text@, 0),
            ends_in_escape(text@, i as int) == ends_in_escape(text@, 0),
        decreases n - i,
    {
        let c = text[i];
        let ghost before = tokens_view(tokens@);
        proof {
            lemma_pos_of_bounds(text@, i as int);
        }
        if c == '\\' {
            if i + 1 >= n {
                let end = step(here, c);
                let segment = text_of(text);
                return Err(
                    syntax_error(
                        "an escaped character, found end of input",
                        base_row,
                        base_col,
                        segment.as_str(),
                        end,
                    ),
                );
            }
            let escaped = text[i + 1];
            let token = Token { lexeme: Lexeme::EscapedChar(escaped), position: here };
            proof {
                lemma_tokens_view_push(tokens@, token);
                lemma_pos_of_bounds(text@, i + 1);
                assert(token@ == token_at(text@, i as int, escaped_char(escaped)));
            }
            tokens.push(token);
            here = step(step(here, c), escaped);
            i += 2;
            assert(before + lex_from(text@, i - 2) =~= before.push(token@) + lex_from(
                text@,
                i as int,
            ));
        } else if special(c) {
            let token = Token { lexeme: marker_of(c), position: here };
            proof {
                lemma_tokens_view_push(tokens@, token);
                assert(token@ == token_at(text@, i as int, marker(c)));
            }
            tokens.push(token);
            here = step(here, c);
            i += 1;
            assert(before + lex_from(text@, i - 1) =~= before.push(token@) + lex_from(
                text@,
                i as int,
            ));
        } else {
            let start = i;
            let start_pos = here;
            while i < n && !special(text[i])
                invariant
                    n == text.len(),
                    start <= i <= n,
                    (here.row as int, here.col as int) == pos_of(text@, i as int),
                    literal_end(text@, start as int) == literal_end(text@, i as int),
                    ends_in_escape(text@, i as int) == ends_in_escape(text@, start as int),
                decreases n - i,
            {
                proof {
                    lemma_pos_of_bounds(text@, i as int);
                }
                here = step(here, text[i]);
                i += 1;
            }
            let literal = text_of_range(text, start, i);
            let token = Token { lexeme: Lexeme::Literal(literal), position: start_pos };
            proof {
                lemma_tokens_view_push(tokens@, token);
                lemma_literal_end_bounds(text@, i as int);
                assert(token@ == token_at(
                    text@,
                    start as int,
                    LexemeView::Literal(text@.subrange(start as int, i as int)),
                ));
            }
            tokens.push(token);
            assert(before + lex_from(text@, start as int) =~= before.push(token@) + lex_from(
                text@,
                i as int,
            ));
        }
    }
    Ok(tokens)
}

/// Lexes the text of a grid, rows in ascending order and columns from left
/// to right, with a newline between neighbouring rows.
pub fn lex(grid: &PositionGrid, base_row: usize, base_col: usize) -> (r: CurlyResult<Vec<Token>>)
    ensures
        lex_result_view(r) == lex_spec(joined(grid@), base_row as int, base_col as int),
{
    let text = grid.text();
    lex_text(&text, base_row, base_col)
}

} // verus!

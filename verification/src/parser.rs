//! The parser: from tokens to the nodes of a template.

use crate::errors::{
    describe, description, syntax_error, syntax_message, CurlyResult, ErrorView, Expected, Fault,
    FaultView,
};
use crate::lexer::{Lexeme, LexemeView, Separator, Token, TokenView, tokens_view};
use crate::errors::fault;
use crate::text::{absolute, option_view, push_char, Position};
use vstd::prelude::*;
use vstd::string::StringExecFns;

verus! {

/// A directive as written: the raw text of its three parts and the
/// position of its opening brace.
#[derive(Debug, Clone, PartialEq, Eq, Hash)]
pub struct Directive {
    /// The text before `:`, if the directive has a `:`.
    pub prefix_text: Option<String>,
    /// The key to look up.
    pub specifier_text: String,
    /// The text after `/`, if the directive has a `/`.
    pub postfix_text: Option<String>,
    /// Where the directive starts, relative to the text that was lexed.
    pub position: Position,
}

/// The mathematical content of a `Directive`.
pub struct DirectiveView {
    pub prefix: Option<Seq<char>>,
    pub specifier: Seq<char>,
    pub postfix: Option<Seq<char>>,
    pub row: int,
    pub col: int,
}

impl View for Directive {
    type V = DirectiveView;

    open spec fn view(&self) -> DirectiveView {
        DirectiveView {
            prefix: option_view(self.prefix_text),
            specifier: self.specifier_text@,
            postfix: option_view(self.postfix_text),
            row: self.position.row as int,
            col: self.position.col as int,
        }
    }
}

/// A node of a parsed template.
#[derive(Debug, Clone, PartialEq, Eq, Hash)]
pub enum AstNode {
    /// Text to copy.
    Text(String),
    /// An escaped character, to copy without its backslash.
    Escaped(char),
    /// A value to insert.
    Directive(Directive),
}

/// The mathematical content of an `AstNode`.
pub enum NodeView {
    Text(Seq<char>),
    Escaped(char),
    Directive(DirectiveView),
}

impl View for AstNode {
    type V = NodeView;

    open spec fn view(&self) -> NodeView {
        match self {
            AstNode::Text(t) => NodeView::Text(t@),
            AstNode::Escaped(c) => NodeView::Escaped(*c),
            AstNode::Directive(d) => NodeView::Directive(d@),
        }
    }
}

/// The mathematical content of a sequence of nodes.
pub open spec fn nodes_view(nodes: Seq<AstNode>) -> Seq<NodeView> {
    Seq::new(nodes.len(), |i: int| nodes[i]@)
}

/// The content of one more node is one more item of the content.
pub proof fn lemma_nodes_view_push(nodes: Seq<AstNode>, node: AstNode)
    ensures
        nodes_view(nodes.push(node)) == nodes_view(nodes).push(node@),
{
    assert(nodes_view(nodes.push(node)) =~= nodes_view(nodes).push(node@));
}

/// The source text that a lexeme stands for.
pub open spec fn lexeme_source(lexeme: LexemeView) -> Seq<char> {
    match lexeme {
        LexemeView::Literal(t) => t,
        LexemeView::Backslash => seq!['\\'],
        LexemeView::EscapedChar(c) => seq!['\\', c],
        LexemeView::OpenBrace => seq!['{'],
        LexemeView::CloseBrace => seq!['}'],
        LexemeView::Separator(Separator::EndPrefixes) => seq![':'],
        LexemeView::Separator(Separator::BeginPostfixes) => seq!['/'],
    }
}

/// The source text of a sequence of tokens.
pub open spec fn source_text(tokens: Seq<TokenView>) -> Seq<char>
    decreases tokens.len(),
{
    if tokens.len() == 0 {
        Seq::empty()
    } else {
        source_text(tokens.drop_last()) + lexeme_source(tokens.last().lexeme)
    }
}

/// The characters that a backslash may escape.
pub open spec fn is_escapable(c: char) -> bool {
    c == '\\' || c == '{' || c == '}'
}

/// Whether a token is a literal.
pub open spec fn is_literal(token: TokenView) -> bool {
    token.lexeme is Literal
}

/// Whether a token is an opening brace.
pub open spec fn is_open(token: TokenView) -> bool {
    token.lexeme is OpenBrace
}

/// Whether a token is a closing brace.
pub open spec fn is_close(token: TokenView) -> bool {
    token.lexeme is CloseBrace
}

/// The text of a literal token.
pub open spec fn literal_text(token: TokenView) -> Seq<char> {
    match token.lexeme {
        LexemeView::Literal(t) => t,
        _ => Seq::empty(),
    }
}

/// The index of the first token at or after `from` that is no literal.
pub open spec fn run_end(tokens: Seq<TokenView>, from: int) -> int
    decreases tokens.len() - from,
{
    if from < 0 || from >= tokens.len() || !is_literal(tokens[from]) {
        from
    } else {
        run_end(tokens, from + 1)
    }
}

/// The text of the literal tokens `tokens[from..to]`, put together.
pub open spec fn run_text(tokens: Seq<TokenView>, from: int, to: int) -> Seq<char>
    decreases to - from,
{
    if from >= to {
        Seq::empty()
    } else {
        run_text(tokens, from, to - 1) + literal_text(tokens[to - 1])
    }
}

/// A run of literals ends at or after its start, at a token that is no
/// literal or at the end of the tokens, and holds literals only.
pub proof fn lemma_run_end_bounds(tokens: Seq<TokenView>, from: int)
    requires
        0 <= from <= tokens.len(),
    ensures
        from <= run_end(tokens, from) <= tokens.len(),
        run_end(tokens, from) < tokens.len() ==> !is_literal(tokens[run_end(tokens, from)]),
        forall|k: int| from <= k < run_end(tokens, from) ==> is_literal(tokens[k]),
    decreases tokens.len() - from,
{
    if from < tokens.len() && is_literal(tokens[from]) {
        lemma_run_end_bounds(tokens, from + 1);
    }
}

/// The directive whose parts were found, with the index of the token after
/// it, if the two tokens at `close` are the closing braces.
pub open spec fn close_at(
    tokens: Seq<TokenView>,
    open: int,
    close: int,
    prefix: Option<Seq<char>>,
    specifier: Seq<char>,
    postfix: Option<Seq<char>>,
) -> Result<(DirectiveView, int), FaultView> {
    if close >= tokens.len() {
        Err(fault(Expected::DirectiveEnd, open))
    } else if !is_close(tokens[close]) {
        Err(fault(Expected::DirectiveEnd, close))
    } else if close + 1 >= tokens.len() {
        Err(fault(Expected::DirectiveEnd, open))
    } else if !is_close(tokens[close + 1]) {
        Err(fault(Expected::DirectiveEnd, close + 1))
    } else {
        Ok(
            (
                DirectiveView {
                    prefix,
                    specifier,
                    postfix,
                    row: tokens[open].row,
                    col: tokens[open].col,
                },
                close + 2,
            ),
        )
    }
}

/// The part of a directive that follows its specifier `tokens[from..to]`:
/// either the closing braces, or `/`, a run of postfixes and the closing
/// braces.
pub open spec fn after_specifier(
    tokens: Seq<TokenView>,
    open: int,
    prefix: Option<Seq<char>>,
    from: int,
    to: int,
    end_expected: Expected,
) -> Result<(DirectiveView, int), FaultView> {
    if to >= tokens.len() {
        Err(fault(Expected::DirectiveEnd, open))
    } else if to == from {
        Err(fault(Expected::Specifier, to))
    } else {
        match tokens[to].lexeme {
            LexemeView::Separator(Separator::BeginPostfixes) => {
                let end = run_end(tokens, to + 1);
                close_at(
                    tokens,
                    open,
                    end,
                    prefix,
                    run_text(tokens, from, to),
                    Some(run_text(tokens, to + 1, end)),
                )
            },
            LexemeView::CloseBrace => close_at(
                tokens,
                open,
                to,
                prefix,
                run_text(tokens, from, to),
                None,
            ),
            _ => Err(fault(end_expected, to)),
        }
    }
}

/// The directive that opens with the two braces at `open` and `open + 1`,
/// with the index of the token after it. Between the braces stand a run of
/// literals; then either `:` and a second run, which make the first run
/// the prefixes and the second the specifier; or nothing more, which makes
/// the first run the specifier; then, if `/` follows, a run of postfixes.
/// The specifier may not be empty.
pub open spec fn directive_at(tokens: Seq<TokenView>, open: int) -> Result<
    (DirectiveView, int),
    FaultView,
> {
    let first = open + 2;
    let first_end = run_end(tokens, first);
    if first_end >= tokens.len() {
        Err(fault(Expected::DirectiveEnd, open))
    } else if tokens[first_end].lexeme == LexemeView::Separator(Separator::EndPrefixes) {
        let second = first_end + 1;
        after_specifier(
            tokens,
            open,
            Some(run_text(tokens, first, first_end)),
            second,
            run_end(tokens, second),
            Expected::SpecifierEnd,
        )
    } else {
        after_specifier(tokens, open, None, first, first_end, Expected::PrefixEnd)
    }
}

/// A directive ends after its opening braces and within the tokens; a
/// fault lies at or after them, at a token that exists.
pub proof fn lemma_directive_at_next(tokens: Seq<TokenView>, open: int)
    requires
        0 <= open,
    ensures
        directive_at(tokens, open) matches Ok(found) ==> open + 2 < found.1 <= tokens.len(),
        directive_at(tokens, open) matches Err(f) ==> open <= f.at && (f.at < tokens.len()
            || f.at == open),
{
    let first = open + 2;
    if first <= tokens.len() {
        lemma_run_end_bounds(tokens, first);
        let first_end = run_end(tokens, first);
        if first_end < tokens.len() {
            lemma_run_end_bounds(tokens, first_end + 1);
            let second_end = run_end(tokens, first_end + 1);
            if second_end < tokens.len() {
                lemma_run_end_bounds(tokens, second_end + 1);
            }
        }
    }
}

/// The text of a separator that stands outside any directive.
pub open spec fn separator_text(s: Separator) -> Seq<char> {
    match s {
        Separator::EndPrefixes => seq![':'],
        Separator::BeginPostfixes => seq!['/'],
    }
}

/// The node for a text.
pub open spec fn text_node(t: Seq<char>) -> NodeView {
    NodeView::Text(t)
}

/// The node for an escaped character.
pub open spec fn escaped_node(c: char) -> NodeView {
    NodeView::Escaped(c)
}

/// `nodes` followed by what the rest of the input gave, unless that failed.
pub open spec fn prepend_all(nodes: Seq<NodeView>, rest: Result<Seq<NodeView>, FaultView>)
    -> Result<Seq<NodeView>, FaultView> {
    match rest {
        Ok(more) => Ok(nodes + more),
        Err(f) => Err(f),
    }
}

/// The nodes of `tokens[from..]`. Outside a directive a literal is text, a
/// separator is the text of its character and an escape of `\`, `{` or `}`
/// is that character; two opening braces start a directive. Anything else
/// is a fault: an escape of another character, a bare backslash, a brace
/// that stands alone.
pub open spec fn parse_from(tokens: Seq<TokenView>, from: int) -> Result<Seq<NodeView>, FaultView>
    decreases tokens.len() - from,
{
    if from < 0 || from >= tokens.len() {
        Ok(Seq::empty())
    } else {
        match tokens[from].lexeme {
            LexemeView::Literal(t) => prepend_all(seq![text_node(t)], parse_from(tokens, from + 1)),
            LexemeView::Separator(s) => prepend_all(
                seq![text_node(separator_text(s))],
                parse_from(tokens, from + 1),
            ),
            LexemeView::EscapedChar(c) => if is_escapable(c) {
                prepend_all(seq![escaped_node(c)], parse_from(tokens, from + 1))
            } else {
                Err(fault(Expected::EscapableCharacter, from))
            },
            LexemeView::Backslash => Err(fault(Expected::EscapedCharacter, from)),
            LexemeView::CloseBrace => Err(fault(Expected::DirectiveOpening, from)),
            LexemeView::OpenBrace => if from + 1 < tokens.len() && is_open(tokens[from + 1]) {
                match directive_at(tokens, from) {
                    Ok(found) => {
                        proof {
                            lemma_directive_at_next(tokens, from);
                        }
                        prepend_all(
                            seq![NodeView::Directive(found.0)],
                            parse_from(tokens, found.1),
                        )
                    },
                    Err(f) => Err(f),
                }
            } else {
                Err(fault(Expected::DirectiveOpening, from))
            },
        }
    }
}

/// The outcome of parsing `tokens`, which came from a segment that starts
/// at `base_row`:`base_col` of a document: the nodes, or a syntax error
/// that names what was expected, where in the document, the text of the
/// segment and where in the segment.
pub open spec fn parse_spec(tokens: Seq<TokenView>, base_row: int, base_col: int) -> Result<
    Seq<NodeView>,
    ErrorView,
> {
    match parse_from(tokens, 0) {
        Ok(nodes) => Ok(nodes),
        Err(f) => Err(
            ErrorView::Syntax(
                syntax_message(
                    description(f.expected),
                    absolute(base_row, base_col, (tokens[f.at].row, tokens[f.at].col)),
                    source_text(tokens),
                    (tokens[f.at].row, tokens[f.at].col),
                ),
            ),
        ),
    }
}

/// The mathematical content of a parsing result.
pub open spec fn parse_result_view(r: CurlyResult<Vec<AstNode>>) -> Result<
    Seq<NodeView>,
    ErrorView,
> {
    match r {
        Ok(nodes) => Ok(nodes_view(nodes@)),
        Err(e) => Err(e@),
    }
}

spec fn found_view(r: Result<(Directive, usize), Fault>) -> Result<(DirectiveView, int), FaultView> {
    match r {
        Ok(found) => Ok((found.0@, found.1 as int)),
        Err(f) => Err(f@),
    }
}

/// Appends the source text of a lexeme to a string.
fn push_source(out: &mut String, lexeme: &Lexeme)
    ensures
        final(out)@ == old(out)@ + lexeme_source(lexeme@),
{
    match lexeme {
        Lexeme::Literal(t) => {
            out.append(t.as_str());
        },
        Lexeme::Backslash => {
            push_char(out, '\\');
        },
        Lexeme::EscapedChar(c) => {
            push_char(out, '\\');
            push_char(out, *c);
            assert(old(out)@.push('\\').push(*c) == old(out)@ + seq!['\\', *c]);
        },
        Lexeme::OpenBrace => {
            push_char(out, '{');
        },
        Lexeme::CloseBrace => {
            push_char(out, '}');
        },
        Lexeme::Separator(Separator::EndPrefixes) => {
            push_char(out, ':');
        },
        Lexeme::Separator(Separator::BeginPostfixes) => {
            push_char(out, '/');
        },
    }
}

/// The source text that a sequence of tokens stands for.
pub fn source_of(tokens: &Vec<Token>) -> (text: String)
    ensures
        text@ == source_text(tokens_view(tokens@)),
{
    let mut text = String::new();
    let mut i: usize = 0;
    let ghost all = tokens_view(tokens@);
    while i < tokens.len()
        invariant
            i <= tokens.len(),
            all == tokens_view(tokens@),
            text@ == source_text(all.take(i as int)),
        decreases tokens.len() - i,
    {
        push_source(&mut text, &tokens[i].lexeme);
        proof {
            assert(all.take(i + 1).drop_last() == all.take(i as int));
            assert(all.take(i + 1).last() == tokens@[i as int]@);
        }
        i += 1;
    }
    assert(all.take(tokens.len() as int) == all);
    text
}

/// The run of literal tokens that starts at `from`: its text and the index
/// of the token after it.
fn literal_run(tokens: &Vec<Token>, from: usize) -> (run: (String, usize))
    requires
        from <= tokens.len(),
    ensures
        from <= run.1 <= tokens.len(),
        run.1 == run_end(tokens_view(tokens@), from as int),
        run.0@ == run_text(tokens_view(tokens@), from as int, run.1 as int),
{
    let ghost all = tokens_view(tokens@);
    let mut text = String::new();
    let mut i: usize = from;
    let mut done = false;
    while !done && i < tokens.len()
        invariant
            from <= i <= tokens.len(),
            all == tokens_view(tokens@),
            run_end(all, from as int) == run_end(all, i as int),
            text@ == run_text(all, from as int, i as int),
            done ==> i < tokens.len() && !is_literal(all[i as int]),
        decreases tokens.len() - i, if done { 0int } else { 1int },
    {
        match &tokens[i].lexeme {
            Lexeme::Literal(t) => {
                text.append(t.as_str());
                i += 1;
            },
            _ => {
                done = true;
            },
        }
    }
    (text, i)
}

/// Checks the two closing braces at `close` and puts the directive
/// together.
fn close_directive(
    tokens: &Vec<Token>,
    open: usize,
    close: usize,
    prefix: Option<String>,
    specifier: String,
    postfix: Option<String>,
) -> (r: Result<(Directive, usize), Fault>)
    requires
        open < tokens.len(),
        close <= tokens.len(),
    ensures
        found_view(r) == close_at(
            tokens_view(tokens@),
            open as int,
            close as int,
            option_view(prefix),
            specifier@,
            option_view(postfix),
        ),
{
    if close >= tokens.len() {
        return Err(Fault { expected: Expected::DirectiveEnd, at: open });
    }
    match &tokens[close].lexeme {
        Lexeme::CloseBrace => {},
        _ => {
            return Err(Fault { expected: Expected::DirectiveEnd, at: close });
        },
    }
    if close + 1 >= tokens.len() {
        return Err(Fault { expected: Expected::DirectiveEnd, at: open });
    }
    match &tokens[close + 1].lexeme {
        Lexeme::CloseBrace => {},
        _ => {
            return Err(Fault { expected: Expected::DirectiveEnd, at: close + 1 });
        },
    }
    Ok(
        (
            Directive {
                prefix_text: prefix,
                specifier_text: specifier,
                postfix_text: postfix,
                position: tokens[open].position,
            },
            close + 2,
        ),
    )
}

/// Reads what follows the specifier `tokens[from..to]`, whose text is
/// `specifier`.
fn finish_directive(
    tokens: &Vec<Token>,
    open: usize,
    prefix: Option<String>,
    from: usize,
    to: usize,
    specifier: String,
    end_expected: Expected,
) -> (r: Result<(Directive, usize), Fault>)
    requires
        open < tokens.len(),
        from <= to <= tokens.len(),
        specifier@ == run_text(tokens_view(tokens@), from as int, to as int),
    ensures
        found_view(r) == after_specifier(
            tokens_view(tokens@),
            open as int,
            option_view(prefix),
            from as int,
            to as int,
            end_expected,
        ),
{
    if to >= tokens.len() {
        return Err(Fault { expected: Expected::DirectiveEnd, at: open });
    }
    if to == from {
        return Err(Fault { expected: Expected::Specifier, at: to });
    }
    match &tokens[to].lexeme {
        Lexeme::Separator(Separator::BeginPostfixes) => {
            let (postfix, end) = literal_run(tokens, to + 1);
            close_directive(tokens, open, end, prefix, specifier, Some(postfix))
        },
        Lexeme::CloseBrace => close_directive(tokens, open, to, prefix, specifier, None),
        _ => Err(Fault { expected: end_expected, at: to }),
    }
}

/// Reads the directive whose opening braces are the tokens at `open` and
/// `open + 1`.
fn parse_directive(tokens: &Vec<Token>, open: usize) -> (r: Result<(Directive, usize), Fault>)
    requires
        open + 1 < tokens.len(),
    ensures
        found_view(r) == directive_at(tokens_view(tokens@), open as int),
{
    let first = open + 2;
    let (first_text, first_end) = literal_run(tokens, first);
    if first_end >= tokens.len() {
        return Err(Fault { expected: Expected::DirectiveEnd, at: open });
    }
    match &tokens[first_end].lexeme {
        Lexeme::Separator(Separator::EndPrefixes) => {
            let second = first_end + 1;
            let (specifier, second_end) = literal_run(tokens, second);
            finish_directive(
                tokens,
                open,
                Some(first_text),
                second,
                second_end,
                specifier,
                Expected::SpecifierEnd,
            )
        },
        _ => finish_directive(tokens, open, None, first, first_end, first_text, Expected::PrefixEnd),
    }
}

/// A string of one character.
fn single(c: char) -> (s: String)
    ensures
        s@ == seq![c],
{
    let mut s = String::new();
    push_char(&mut s, c);
    s
}

/// Whether a backslash may escape `c`.
pub fn escapable(c: char) -> (b: bool)
    ensures
        b == is_escapable(c),
{
    c == '\\' || c == '{' || c == '}'
}

/// Parses a sequence of tokens in one pass from left to right. The tokens
/// came from a segment that starts at `base_row`:`base_col` of a document;
/// this only shifts the position that an error reports.
pub fn parse(tokens: &Vec<Token>, base_row: usize, base_col: usize) -> (r: CurlyResult<
    Vec<AstNode>,
>)
    ensures
        parse_result_view(r) == parse_spec(tokens_view(tokens@), base_row as int, base_col as int),
{
    let ghost all = tokens_view(tokens@);
    let n = tokens.len();
    let mut nodes: Vec<AstNode> = Vec::new();
    let mut i: usize = 0;
    let mut failed: Option<Fault> = None;
    while failed.is_none() && i < n
        invariant
            n == tokens.len(),
            i <= n,
            all == tokens_view(tokens@),
            failed is None ==> prepend_all(nodes_view(nodes@), parse_from(all, i as int))
                == parse_from(all, 0),
            failed matches Some(f) ==> parse_from(all, 0) == Err::<Seq<NodeView>, FaultView>(f@)
                && f.at < n,
        decreases n - i, if failed is None { 1int } else { 0int },
    {
        let ghost before = nodes_view(nodes@);
        let ghost rest = parse_from(all, i as int);
        match &tokens[i].lexeme {
            Lexeme::Literal(t) => {
                let node = AstNode::Text(t.clone());
                proof {
                    lemma_nodes_view_push(nodes@, node);
                    lemma_prepend_step(before, node@, parse_from(all, i + 1));
                }
                nodes.push(node);
                i += 1;
            },
            Lexeme::Separator(s) => {
                let node = AstNode::Text(
                    match s {
                        Separator::EndPrefixes => single(':'),
                        Separator::BeginPostfixes => single('/'),
                    },
                );
                proof {
                    lemma_nodes_view_push(nodes@, node);
                    lemma_prepend_step(before, node@, parse_from(all, i + 1));
                }
                nodes.push(node);
                i += 1;
            },
            Lexeme::EscapedChar(c) => {
                if escapable(*c) {
                    let node = AstNode::Escaped(*c);
                    proof {
                        lemma_nodes_view_push(nodes@, node);
                        lemma_prepend_step(before, node@, parse_from(all, i + 1));
                    }
                    nodes.push(node);
                    i += 1;
                } else {
                    failed = Some(Fault { expected: Expected::EscapableCharacter, at: i });
                }
            },
            Lexeme::Backslash => {
                failed = Some(Fault { expected: Expected::EscapedCharacter, at: i });
            },
            Lexeme::CloseBrace => {
                failed = Some(Fault { expected: Expected::DirectiveOpening, at: i });
            },
            Lexeme::OpenBrace => {
                let mut opens = false;
                if i + 1 < n {
                    match &tokens[i + 1].lexeme {
                        Lexeme::OpenBrace => {
                            opens = true;
                        },
                        _ => {},
                    }
                }
                if opens {
                    proof {
                        lemma_directive_at_next(all, i as int);
                    }
                    match parse_directive(tokens, i) {
                        Ok((directive, next)) => {
                            let node = AstNode::Directive(directive);
                            proof {
                                lemma_nodes_view_push(nodes@, node);
                                lemma_prepend_step(before, node@, parse_from(all, next as int));
                            }
                            nodes.push(node);
                            i = next;
                        },
                        Err(f) => {
                            failed = Some(f);
                        },
                    }
                } else {
                    failed = Some(Fault { expected: Expected::DirectiveOpening, at: i });
                }
            },
        }
    }
    match failed {
        Some(f) => {
            let segment = source_of(tokens);
            Err(
                syntax_error(
                    describe(f.expected),
                    base_row,
                    base_col,
                    segment.as_str(),
                    tokens[f.at].position,
                ),
            )
        },
        None => {
            assert(nodes_view(nodes@) + Seq::<NodeView>::empty() == nodes_view(nodes@));
            Ok(nodes)
        },
    }
}

proof fn lemma_prepend_step(
    before: Seq<NodeView>,
    node: NodeView,
    rest: Result<Seq<NodeView>, FaultView>,
)
    ensures
        prepend_all(before, prepend_all(seq![node], rest)) == prepend_all(before.push(node), rest),
{
    match rest {
        Ok(more) => {
            assert(before + (seq![node] + more) =~= before.push(node) + more);
        },
        Err(f) => {},
    }
}

} // verus!

//! What holds of the stages together.

use crate::grid::{
    grid_rows, joined, lemma_line_end_bounds, lemma_rows_from_clean, lemma_without_cr_clean,
    line_end, rows_clean, rows_from, without_cr,
};
use crate::lexer::{
    ends_in_escape, escaped_char, is_special, lemma_literal_end_bounds, lex_from, literal_end,
    marker, token_at, LexemeView, Separator, TokenView,
};
use crate::errors::{unknown_key_message, Answer, ErrorView, Expected, FaultView};
use crate::formatters::{value_formatted, ValueView};
use crate::formatting::{default_flags, ContextView};
use crate::parser::{
    after_specifier, directive_at, escaped_node, is_close, is_escapable, is_literal, is_open,
    lemma_directive_at_next, lemma_run_end_bounds, lexeme_source, literal_text, parse_from,
    run_end, run_text, separator_text, source_text, text_node, DirectiveView, NodeView,
};
use crate::provider::{
    delegate_source, delegated, is_unknown, lookup, may_answer, obeys, values_source, EntryView,
    Provider,
};
use crate::specifier::{
    compile_spec, finished, no_transform, post_applied, post_flags_from, postfix_part,
    pre_flags_from, segment_text, specifier_offset, text_or_empty, Formatter, FormatterView,
    PostFlag, PreFlag,
};
use crate::text::pos_of;
use crate::template::{
    asked_at, compiled, directive_count, formatter_fits, formatter_for, lemma_outcome_exact,
    rendered, rendered_by, segment_formatter, stopped_at, template_nodes, template_outcome,
    template_rendered_by,
};
use vstd::prelude::*;

verus! {

/// `s` without the newline that ends it, if one does.
pub open spec fn chomped(s: Seq<char>) -> Seq<char> {
    if s.len() > 0 && s.last() == '\n' {
        s.drop_last()
    } else {
        s
    }
}

/// Whether `s` holds no carriage return.
pub open spec fn free_of_cr(s: Seq<char>) -> bool {
    forall|i: int| 0 <= i < s.len() ==> s[i] != '\r'
}

/// Whether a template comes back from the grid as it went in: it holds no
/// carriage return and does not end in a newline.
pub open spec fn grid_exact(s: Seq<char>) -> bool {
    free_of_cr(s) && chomped(s) == s
}

proof fn lemma_joined_prepend(first: Seq<char>, rest: Seq<Seq<char>>)
    ensures
        joined(seq![first] + rest) == if rest.len() == 0 {
            first
        } else {
            first + seq!['\n'] + joined(rest)
        },
    decreases rest.len(),
{
    let all = seq![first] + rest;
    if rest.len() == 0 {
        assert(all =~= seq![first]);
    } else {
        assert(all.drop_last() =~= seq![first] + rest.drop_last());
        assert(all.last() == rest.last());
        lemma_joined_prepend(first, rest.drop_last());
        if rest.len() == 1 {
            assert(joined(rest) == rest[0]);
            assert(rest.last() == rest[0]);
        } else {
            assert(first + seq!['\n'] + joined(rest.drop_last()) + seq!['\n'] + rest.last()
                =~= first + seq!['\n'] + (joined(rest.drop_last()) + seq!['\n'] + rest.last()));
        }
    }
}

proof fn lemma_rows_joined(s: Seq<char>, from: int)
    requires
        0 <= from <= s.len(),
    ensures
        joined(rows_from(s, from)) == chomped(s.subrange(from, s.len() as int)),
    decreases s.len() - from,
{
    let tail = s.subrange(from, s.len() as int);
    if from < s.len() {
        lemma_line_end_bounds(s, from);
        let end = line_end(s, from);
        if end >= s.len() {
            assert(rows_from(s, from) =~= seq![tail]);
            assert(tail.last() == s[s.len() - 1]);
        } else {
            let row = s.subrange(from, end);
            let rest = rows_from(s, end + 1);
            lemma_rows_joined(s, end + 1);
            lemma_joined_prepend(row, rest);
            let after = s.subrange(end + 1, s.len() as int);
            if end + 1 >= s.len() {
                assert(rest.len() == 0);
                assert(tail.last() == '\n');
                assert(tail.drop_last() =~= row);
            } else {
                lemma_line_end_bounds(s, end + 1);
                assert(rest.len() > 0);
                assert(tail.last() == after.last());
                assert(tail =~= row + seq!['\n'] + after);
                if after.last() == '\n' {
                    assert(tail.drop_last() =~= row + seq!['\n'] + after.drop_last());
                }
            }
        }
    } else {
        assert(tail =~= Seq::<char>::empty());
        assert(rows_from(s, from) =~= Seq::<Seq<char>>::empty());
    }
}

proof fn lemma_without_cr_same(s: Seq<char>)
    requires
        free_of_cr(s),
    ensures
        without_cr(s) == s,
    decreases s.len(),
{
    if s.len() > 0 {
        lemma_without_cr_same(s.drop_last());
        assert(s.drop_last().push(s.last()) =~= s);
    }
}

/// The text of a grid is the text it was built from, without its carriage
/// returns and without the newline that ends it, if one does.
pub proof fn law_grid_text(input: Seq<char>)
    ensures
        joined(grid_rows(input)) == chomped(without_cr(input)),
        grid_exact(input) ==> joined(grid_rows(input)) == input,
{
    let clean = without_cr(input);
    lemma_rows_joined(clean, 0);
    assert(clean.subrange(0, clean.len() as int) =~= clean);
    if grid_exact(input) {
        lemma_without_cr_same(input);
    }
}

proof fn lemma_source_prepend(first: TokenView, rest: Seq<TokenView>)
    ensures
        source_text(seq![first] + rest) == lexeme_source(first.lexeme) + source_text(rest),
    decreases rest.len(),
{
    let all = seq![first] + rest;
    if rest.len() == 0 {
        assert(all =~= seq![first]);
        assert(all.drop_last() =~= Seq::<TokenView>::empty());
        assert(source_text(all.drop_last()) =~= Seq::<char>::empty());
        assert(source_text(all) =~= lexeme_source(first.lexeme));
        assert(lexeme_source(first.lexeme) + source_text(rest) =~= lexeme_source(first.lexeme));
    } else {
        assert(all.drop_last() =~= seq![first] + rest.drop_last());
        assert(all.last() == rest.last());
        lemma_source_prepend(first, rest.drop_last());
        assert(lexeme_source(first.lexeme) + source_text(rest.drop_last()) + lexeme_source(
            rest.last().lexeme,
        ) =~= lexeme_source(first.lexeme) + (source_text(rest.drop_last()) + lexeme_source(
            rest.last().lexeme,
        )));
    }
}

proof fn lemma_lex_source(text: Seq<char>, from: int)
    requires
        0 <= from <= text.len(),
        !ends_in_escape(text, from),
    ensures
        source_text(lex_from(text, from)) == text.subrange(from, text.len() as int),
    decreases text.len() - from,
{
    let tail = text.subrange(from, text.len() as int);
    if from >= text.len() {
        assert(tail =~= Seq::<char>::empty());
    } else if text[from] == '\\' {
        let first = token_at(text, from, escaped_char(text[from + 1]));
        lemma_lex_source(text, from + 2);
        lemma_source_prepend(first, lex_from(text, from + 2));
        assert(tail =~= seq!['\\', text[from + 1]] + text.subrange(from + 2, text.len() as int));
    } else if is_special(text[from]) {
        let first = token_at(text, from, marker(text[from]));
        lemma_lex_source(text, from + 1);
        lemma_source_prepend(first, lex_from(text, from + 1));
        assert(lexeme_source(marker(text[from])) =~= seq![text[from]]);
        assert(tail =~= seq![text[from]] + text.subrange(from + 1, text.len() as int));
    } else {
        lemma_literal_end_bounds(text, from);
        let end = literal_end(text, from);
        let first = token_at(text, from, LexemeView::Literal(text.subrange(from, end)));
        lemma_escape_after_literal(text, from, end);
        lemma_lex_source(text, end);
        lemma_source_prepend(first, lex_from(text, end));
        assert(tail =~= text.subrange(from, end) + text.subrange(end, text.len() as int));
    }
}

/// Ordinary characters do not change whether the text ends in a
/// backslash with nothing after it.
proof fn lemma_escape_after_literal(text: Seq<char>, from: int, to: int)
    requires
        0 <= from <= to <= text.len(),
        forall|k: int| from <= k < to ==> !is_special(text[k]),
    ensures
        ends_in_escape(text, from) == ends_in_escape(text, to),
    decreases to - from,
{
    if from < to {
        lemma_escape_after_literal(text, from + 1, to);
    }
}

/// The tokens of a text stand for the text: their source texts, put
/// together, are the text that was lexed.
pub proof fn law_lexemes_keep_text(text: Seq<char>)
    requires
        !ends_in_escape(text, 0),
    ensures
        source_text(lex_from(text, 0)) == text,
{
    lemma_lex_source(text, 0);
    assert(text.subrange(0, text.len() as int) =~= text);
}

/// Whether `text[from..]` holds no directive and nothing that would be a
/// fault without one: every brace in it is escaped, and every backslash
/// escapes a backslash or a brace.
pub open spec fn plain_from(text: Seq<char>, from: int) -> bool
    decreases text.len() - from,
{
    if from < 0 || from >= text.len() {
        true
    } else if text[from] == '\\' {
        from + 1 < text.len() && is_escapable(text[from + 1]) && plain_from(text, from + 2)
    } else if text[from] == '{' || text[from] == '}' {
        false
    } else {
        plain_from(text, from + 1)
    }
}

/// `text[from..]` with its escape sequences resolved: of a backslash and
/// the character after it, the character stays.
pub open spec fn unescaped_from(text: Seq<char>, from: int) -> Seq<char>
    decreases text.len() - from,
{
    if from < 0 || from >= text.len() {
        Seq::empty()
    } else if text[from] == '\\' && from + 1 < text.len() {
        seq![text[from + 1]] + unescaped_from(text, from + 2)
    } else {
        seq![text[from]] + unescaped_from(text, from + 1)
    }
}

/// Whether `text` holds no backslash.
pub open spec fn free_of_escapes(text: Seq<char>) -> bool {
    forall|i: int| 0 <= i < text.len() ==> text[i] != '\\'
}

spec fn token_plain(token: TokenView) -> bool {
    match token.lexeme {
        LexemeView::Literal(_) => true,
        LexemeView::Separator(_) => true,
        LexemeView::EscapedChar(c) => is_escapable(c),
        _ => false,
    }
}

spec fn node_of(token: TokenView) -> NodeView {
    match token.lexeme {
        LexemeView::Literal(t) => text_node(t),
        LexemeView::Separator(s) => text_node(separator_text(s)),
        LexemeView::EscapedChar(c) => escaped_node(c),
        _ => text_node(Seq::empty()),
    }
}

spec fn node_text(node: NodeView) -> Seq<char> {
    match node {
        NodeView::Text(t) => t,
        NodeView::Escaped(c) => seq![c],
        NodeView::Directive(_) => Seq::empty(),
    }
}

spec fn nodes_text(nodes: Seq<NodeView>) -> Seq<char>
    decreases nodes.len(),
{
    if nodes.len() == 0 {
        Seq::empty()
    } else {
        nodes_text(nodes.drop_last()) + node_text(nodes.last())
    }
}

spec fn tokens_plain(tokens: Seq<TokenView>) -> bool {
    forall|i: int| 0 <= i < tokens.len() ==> token_plain(#[trigger] tokens[i])
}

spec fn plain_nodes(tokens: Seq<TokenView>) -> Seq<NodeView> {
    Seq::new(tokens.len(), |k: int| node_of(tokens[k]))
}

spec fn nodes_plain(nodes: Seq<NodeView>) -> bool {
    forall|i: int| 0 <= i < nodes.len() ==> !((#[trigger] nodes[i]) is Directive)
}

proof fn lemma_nodes_text_prepend(first: NodeView, rest: Seq<NodeView>)
    ensures
        nodes_text(seq![first] + rest) == node_text(first) + nodes_text(rest),
    decreases rest.len(),
{
    let all = seq![first] + rest;
    if rest.len() == 0 {
        assert(all =~= seq![first]);
        assert(all.drop_last() =~= Seq::<NodeView>::empty());
        assert(nodes_text(all.drop_last()) =~= Seq::<char>::empty());
        assert(nodes_text(all) =~= node_text(first));
        assert(node_text(first) + nodes_text(rest) =~= node_text(first));
    } else {
        assert(all.drop_last() =~= seq![first] + rest.drop_last());
        assert(all.last() == rest.last());
        lemma_nodes_text_prepend(first, rest.drop_last());
        assert(node_text(first) + nodes_text(rest.drop_last()) + node_text(rest.last())
            =~= node_text(first) + (nodes_text(rest.drop_last()) + node_text(rest.last())));
    }
}

proof fn lemma_unescaped_literal(text: Seq<char>, from: int, to: int)
    requires
        0 <= from <= to <= text.len(),
        forall|k: int| from <= k < to ==> !is_special(text[k]),
    ensures
        unescaped_from(text, from) == text.subrange(from, to) + unescaped_from(text, to),
        plain_from(text, from) == plain_from(text, to),
    decreases to - from,
{
    if from < to {
        lemma_unescaped_literal(text, from + 1, to);
        assert(seq![text[from]] + (text.subrange(from + 1, to) + unescaped_from(text, to))
            =~= text.subrange(from, to) + unescaped_from(text, to));
    } else {
        assert(text.subrange(from, to) + unescaped_from(text, to) =~= unescaped_from(text, to));
    }
}

/// The tokens of plain text are plain, and the nodes made of them hold
/// the text with its escape sequences resolved.
proof fn lemma_plain_lex(text: Seq<char>, from: int)
    requires
        0 <= from <= text.len(),
        plain_from(text, from),
    ensures
        !ends_in_escape(text, from),
        tokens_plain(lex_from(text, from)),
        nodes_text(plain_nodes(lex_from(text, from))) == unescaped_from(text, from),
    decreases text.len() - from,
{
    let tokens = lex_from(text, from);
    if from >= text.len() {
        assert(plain_nodes(tokens) =~= Seq::<NodeView>::empty());
    } else {
        let next = if text[from] == '\\' {
            from + 2
        } else if is_special(text[from]) {
            from + 1
        } else {
            literal_end(text, from)
        };
        lemma_literal_end_bounds(text, from);
        if !is_special(text[from]) {
            lemma_unescaped_literal(text, from, next);
            lemma_escape_after_literal(text, from, next);
        }
        lemma_plain_lex(text, next);
        let first = tokens[0];
        let rest = lex_from(text, next);
        assert(tokens == seq![first] + rest);
        assert(token_plain(first));
        assert forall|i: int| 0 <= i < tokens.len() implies token_plain(#[trigger] tokens[i]) by {
            if i > 0 {
                assert(tokens[i] == rest[i - 1]);
            }
        }
        assert(plain_nodes(tokens) =~= seq![node_of(first)] + plain_nodes(rest));
        lemma_nodes_text_prepend(node_of(first), plain_nodes(rest));
        if text[from] == '\\' {
        } else if is_special(text[from]) {
            assert(node_text(node_of(first)) =~= seq![text[from]]);
        } else {
        }
    }
}

/// Plain tokens parse to one node each.
proof fn lemma_plain_parse(tokens: Seq<TokenView>, from: int)
    requires
        0 <= from <= tokens.len(),
        tokens_plain(tokens),
    ensures
        parse_from(tokens, from) == Ok::<Seq<NodeView>, FaultView>(
            plain_nodes(tokens).subrange(from, tokens.len() as int),
        ),
    decreases tokens.len() - from,
{
    let nodes = plain_nodes(tokens);
    if from < tokens.len() {
        lemma_plain_parse(tokens, from + 1);
        assert(token_plain(tokens[from]));
        assert(seq![node_of(tokens[from])] + nodes.subrange(from + 1, tokens.len() as int)
            =~= nodes.subrange(from, tokens.len() as int));
    } else {
        assert(nodes.subrange(from, tokens.len() as int) =~= Seq::<NodeView>::empty());
    }
}

/// Nodes without a directive render to their text, whatever the
/// formatters and the answers.
proof fn lemma_plain_render(
    nodes: Seq<NodeView>,
    formatters: Seq<FormatterView>,
    answers: Seq<Answer>,
)
    requires
        nodes_plain(nodes),
    ensures
        directive_count(nodes) == 0,
        rendered(nodes, formatters, answers) == Ok::<Seq<char>, ErrorView>(nodes_text(nodes)),
    decreases nodes.len(),
{
    if nodes.len() > 0 {
        assert(nodes_plain(nodes.drop_last())) by {
            assert forall|i: int| 0 <= i < nodes.drop_last().len() implies !((
            #[trigger] nodes.drop_last()[i]) is Directive) by {
                assert(nodes.drop_last()[i] == nodes[i]);
            }
        }
        lemma_plain_render(nodes.drop_last(), formatters, answers);
        assert(!(nodes[nodes.len() - 1] is Directive));
    }
}

/// Nodes without a directive render to their text, whatever the
/// formatters and the source of answers.
proof fn lemma_plain_render_by(
    nodes: Seq<NodeView>,
    formatters: Seq<FormatterView>,
    source: spec_fn(ContextView, Seq<char>) -> Answer,
)
    requires
        nodes_plain(nodes),
    ensures
        rendered_by(nodes, formatters, source) == Ok::<Seq<char>, ErrorView>(nodes_text(nodes)),
    decreases nodes.len(),
{
    if nodes.len() > 0 {
        assert(nodes_plain(nodes.drop_last())) by {
            assert forall|i: int| 0 <= i < nodes.drop_last().len() implies !((
            #[trigger] nodes.drop_last()[i]) is Directive) by {
                assert(nodes.drop_last()[i] == nodes[i]);
            }
        }
        lemma_plain_render_by(nodes.drop_last(), formatters, source);
        assert(!(nodes[nodes.len() - 1] is Directive));
    }
}

/// The nodes of a plain template, and what they hold.
proof fn lemma_plain_nodes(template: Seq<char>) -> (nodes: Seq<NodeView>)
    requires
        plain_from(joined(grid_rows(template)), 0),
    ensures
        template_nodes(template) == Ok::<Seq<NodeView>, ErrorView>(nodes),
        nodes_plain(nodes),
        nodes_text(nodes) == unescaped_from(joined(grid_rows(template)), 0),
{
    let text = joined(grid_rows(template));
    lemma_plain_lex(text, 0);
    let tokens = lex_from(text, 0);
    lemma_plain_parse(tokens, 0);
    let nodes = plain_nodes(tokens);
    assert(nodes.subrange(0, tokens.len() as int) =~= nodes);
    assert(nodes_plain(nodes)) by {
        assert forall|i: int| 0 <= i < nodes.len() implies !((#[trigger] nodes[i]) is Directive) by {
            assert(token_plain(tokens[i]));
        }
    }
    nodes
}

/// A template without directives renders to its text with the escape
/// sequences resolved, whatever the provider. Its text is what the grid
/// keeps of it: the template without its carriage returns and without the
/// newline that ends it, if one does. So a template that the grid keeps as
/// it is, and that holds no escape sequence, renders to itself.
pub proof fn law_plain_template<P: Provider>(provider: &P, template: Seq<char>, result: Answer)
    requires
        plain_from(joined(grid_rows(template)), 0),
        template_outcome(provider, template, result),
    ensures
        result == Ok::<Seq<char>, ErrorView>(unescaped_from(joined(grid_rows(template)), 0)),
        joined(grid_rows(template)) == chomped(without_cr(template)),
        grid_exact(template) ==> joined(grid_rows(template)) == template,
        grid_exact(template) && free_of_escapes(template) ==> result == Ok::<Seq<char>, ErrorView>(
            template,
        ),
{
    let nodes = lemma_plain_nodes(template);
    let none = Seq::<FormatterView>::empty();
    let (answers, stop) = choose|answers: Seq<Answer>, stop: int| #[trigger]
        stopped_at(provider, nodes, none, answers, stop, result);
    let read = nodes.take(stop);
    assert(nodes_plain(read)) by {
        assert forall|i: int| 0 <= i < read.len() implies !((#[trigger] read[i]) is Directive) by {
            assert(read[i] == nodes[i]);
        }
    }
    lemma_plain_render(read, none, answers);
    assert(read == nodes);
    law_grid_text(template);
    if grid_exact(template) && free_of_escapes(template) {
        lemma_unescaped_same(template, 0);
        assert(template.subrange(0, template.len() as int) =~= template);
    }
}

/// A template without directives renders to its text with the escape
/// sequences resolved, whatever the source of answers.
pub proof fn law_plain_template_by(
    template: Seq<char>,
    source: spec_fn(ContextView, Seq<char>) -> Answer,
)
    requires
        plain_from(joined(grid_rows(template)), 0),
    ensures
        template_rendered_by(template, source) == Ok::<Seq<char>, ErrorView>(
            unescaped_from(joined(grid_rows(template)), 0),
        ),
{
    let nodes = lemma_plain_nodes(template);
    lemma_plain_render_by(nodes, Seq::<FormatterView>::empty(), source);
}

proof fn lemma_unescaped_same(text: Seq<char>, from: int)
    requires
        0 <= from <= text.len(),
        free_of_escapes(text),
    ensures
        unescaped_from(text, from) == text.subrange(from, text.len() as int),
    decreases text.len() - from,
{
    if from < text.len() {
        lemma_unescaped_same(text, from + 1);
        assert(seq![text[from]] + text.subrange(from + 1, text.len() as int) =~= text.subrange(
            from,
            text.len() as int,
        ));
    } else {
        assert(text.subrange(from, text.len() as int) =~= Seq::<char>::empty());
    }
}

/// Whether a part of a directive can stand in a template as it is: it
/// holds none of the characters `\`, `{`, `}`, `:` and `/`, and no
/// carriage return.
pub open spec fn part_wf(text: Seq<char>) -> bool {
    forall|i: int| 0 <= i < text.len() ==> !is_special(#[trigger] text[i]) && text[i] != '\r'
}

/// Whether the three parts of a directive can stand in a template as
/// they are, the specifier not being empty.
pub open spec fn parts_wf(
    prefix: Option<Seq<char>>,
    specifier: Seq<char>,
    postfix: Option<Seq<char>>,
) -> bool {
    &&& part_wf(text_or_empty(prefix))
    &&& part_wf(specifier)
    &&& specifier.len() > 0
    &&& part_wf(text_or_empty(postfix))
}

/// The one node of a template that is one directive.
pub open spec fn directive_node(
    prefix: Option<Seq<char>>,
    specifier: Seq<char>,
    postfix: Option<Seq<char>>,
) -> NodeView {
    NodeView::Directive(DirectiveView { prefix, specifier, postfix, row: 0, col: 0 })
}

spec fn open_token(text: Seq<char>, at: int) -> TokenView {
    token_at(text, at, LexemeView::OpenBrace)
}

spec fn close_token(text: Seq<char>, at: int) -> TokenView {
    token_at(text, at, LexemeView::CloseBrace)
}

spec fn colon_token(text: Seq<char>, at: int) -> TokenView {
    token_at(text, at, LexemeView::Separator(Separator::EndPrefixes))
}

spec fn slash_token(text: Seq<char>, at: int) -> TokenView {
    token_at(text, at, LexemeView::Separator(Separator::BeginPostfixes))
}

spec fn literal_token(text: Seq<char>, at: int, run: Seq<char>) -> TokenView {
    token_at(text, at, LexemeView::Literal(run))
}

spec fn run_tokens(text: Seq<char>, at: int, run: Seq<char>) -> Seq<TokenView> {
    if run.len() == 0 {
        Seq::empty()
    } else {
        seq![literal_token(text, at, run)]
    }
}

spec fn prefix_tokens(text: Seq<char>, prefix: Option<Seq<char>>) -> Seq<TokenView> {
    match prefix {
        Some(p) => run_tokens(text, 2, p).push(colon_token(text, 2 + p.len() as int)),
        None => Seq::empty(),
    }
}

spec fn postfix_tokens(text: Seq<char>, at: int, postfix: Option<Seq<char>>) -> Seq<TokenView> {
    match postfix {
        Some(q) => seq![slash_token(text, at)] + run_tokens(text, at + 1, q),
        None => Seq::empty(),
    }
}

/// Where the specifier ends in the text of its directive.
spec fn specifier_end(prefix: Option<Seq<char>>, specifier: Seq<char>) -> int {
    specifier_offset(prefix) + specifier.len()
}

/// Where the closing braces start in the text of a directive.
spec fn close_offset(
    prefix: Option<Seq<char>>,
    specifier: Seq<char>,
    postfix: Option<Seq<char>>,
) -> int {
    specifier_end(prefix, specifier) + postfix_part(postfix).len()
}

spec fn closing_tokens(text: Seq<char>, at: int) -> Seq<TokenView> {
    seq![close_token(text, at), close_token(text, at + 1)]
}

spec fn expected_tokens(
    prefix: Option<Seq<char>>,
    specifier: Seq<char>,
    postfix: Option<Seq<char>>,
) -> Seq<TokenView> {
    let text = segment_text(prefix, specifier, postfix);
    seq![open_token(text, 0), open_token(text, 1)] + prefix_tokens(text, prefix) + run_tokens(
        text,
        specifier_offset(prefix),
        specifier,
    ) + postfix_tokens(text, specifier_end(prefix, specifier), postfix) + closing_tokens(
        text,
        close_offset(prefix, specifier, postfix),
    )
}

/// Where each part stands in the text of a directive.
proof fn lemma_segment_layout(
    prefix: Option<Seq<char>>,
    specifier: Seq<char>,
    postfix: Option<Seq<char>>,
)
    ensures
        ({
            let text = segment_text(prefix, specifier, postfix);
            let start = specifier_offset(prefix);
            let end = specifier_end(prefix, specifier);
            let close = close_offset(prefix, specifier, postfix);
            &&& text.len() == close + 2
            &&& text[0] == '{'
            &&& text[1] == '{'
            &&& text[close] == '}'
            &&& text[close + 1] == '}'
            &&& forall|i: int| 0 <= i < specifier.len() ==> text[start + i] == specifier[i]
            &&& prefix matches Some(p) ==> start == 2 + p.len() as int + 1 && text[2 + p.len() as int] == ':'
                && forall|i: int| 0 <= i < p.len() ==> text[2 + i] == p[i]
            &&& prefix is None ==> start == 2
            &&& postfix matches Some(q) ==> close == end + 1 + q.len() && text[end] == '/'
                && forall|i: int| 0 <= i < q.len() ==> text[end + 1 + i] == q[i]
            &&& postfix is None ==> close == end
        }),
{
}

proof fn lemma_literal_end_exact(text: Seq<char>, from: int, to: int)
    requires
        0 <= from <= to <= text.len(),
        forall|k: int| from <= k < to ==> !is_special(text[k]),
        to == text.len() || is_special(text[to]),
    ensures
        literal_end(text, from) == to,
    decreases to - from,
{
    if from < to {
        lemma_literal_end_exact(text, from + 1, to);
    }
}

/// A run of ordinary characters before a special character is one
/// literal, or no token if the run is empty.
proof fn lemma_lex_run(text: Seq<char>, at: int, run: Seq<char>)
    requires
        0 <= at,
        at + run.len() < text.len(),
        forall|i: int| 0 <= i < run.len() ==> text[at + i] == run[i] && !is_special(run[i]),
        is_special(text[at + run.len()]),
    ensures
        lex_from(text, at) == run_tokens(text, at, run) + lex_from(text, at + run.len()),
{
    if run.len() == 0 {
        assert(run_tokens(text, at, run) + lex_from(text, at) =~= lex_from(text, at));
    } else {
        assert forall|k: int| at <= k < at + run.len() implies !is_special(text[k]) by {
            assert(text[at + (k - at)] == run[k - at]);
        }
        lemma_literal_end_exact(text, at, at + run.len());
        assert(text[at + 0] == run[0]);
        assert(text.subrange(at, at + run.len()) =~= run) by {
            assert forall|i: int| 0 <= i < run.len() implies text.subrange(at, at + run.len())[i]
                == run[i] by {
                assert(text[at + i] == run[i]);
            }
        }
    }
}

/// No backslash, no escape at the end.
proof fn lemma_no_escape(text: Seq<char>, from: int)
    requires
        0 <= from,
        free_of_escapes(text),
    ensures
        !ends_in_escape(text, from),
    decreases text.len() - from,
{
    if from < text.len() {
        lemma_no_escape(text, from + 1);
    }
}

proof fn lemma_lex_closing(
    prefix: Option<Seq<char>>,
    specifier: Seq<char>,
    postfix: Option<Seq<char>>,
)
    ensures
        ({
            let text = segment_text(prefix, specifier, postfix);
            let close = close_offset(prefix, specifier, postfix);
            lex_from(text, close) == closing_tokens(text, close)
        }),
{
    let text = segment_text(prefix, specifier, postfix);
    let close = close_offset(prefix, specifier, postfix);
    lemma_segment_layout(prefix, specifier, postfix);
    assert(lex_from(text, close + 2) =~= Seq::<TokenView>::empty());
    assert(lex_from(text, close + 1) =~= seq![close_token(text, close + 1)]);
    assert(lex_from(text, close) =~= closing_tokens(text, close));
}

proof fn lemma_lex_postfix(
    prefix: Option<Seq<char>>,
    specifier: Seq<char>,
    postfix: Option<Seq<char>>,
)
    requires
        parts_wf(prefix, specifier, postfix),
    ensures
        ({
            let text = segment_text(prefix, specifier, postfix);
            let end = specifier_end(prefix, specifier);
            let close = close_offset(prefix, specifier, postfix);
            lex_from(text, end) == postfix_tokens(text, end, postfix) + lex_from(text, close)
        }),
{
    let text = segment_text(prefix, specifier, postfix);
    let end = specifier_end(prefix, specifier);
    let close = close_offset(prefix, specifier, postfix);
    lemma_segment_layout(prefix, specifier, postfix);
    match postfix {
        Some(q) => {
            assert(part_wf(q));
            lemma_lex_run(text, end + 1, q);
            assert(lex_from(text, end) == seq![slash_token(text, end)] + lex_from(text, end + 1));
            assert(seq![slash_token(text, end)] + (run_tokens(text, end + 1, q) + lex_from(
                text,
                close,
            )) =~= postfix_tokens(text, end, postfix) + lex_from(text, close));
        },
        None => {
            assert(postfix_tokens(text, end, postfix) + lex_from(text, close) =~= lex_from(
                text,
                close,
            ));
        },
    }
}

proof fn lemma_lex_specifier(
    prefix: Option<Seq<char>>,
    specifier: Seq<char>,
    postfix: Option<Seq<char>>,
)
    requires
        parts_wf(prefix, specifier, postfix),
    ensures
        ({
            let text = segment_text(prefix, specifier, postfix);
            let start = specifier_offset(prefix);
            let end = specifier_end(prefix, specifier);
            lex_from(text, start) == run_tokens(text, start, specifier) + lex_from(text, end)
        }),
{
    let text = segment_text(prefix, specifier, postfix);
    lemma_segment_layout(prefix, specifier, postfix);
    assert(is_special(text[specifier_end(prefix, specifier)]));
    lemma_lex_run(text, specifier_offset(prefix), specifier);
}

proof fn lemma_lex_prefix(
    prefix: Option<Seq<char>>,
    specifier: Seq<char>,
    postfix: Option<Seq<char>>,
)
    requires
        parts_wf(prefix, specifier, postfix),
    ensures
        ({
            let text = segment_text(prefix, specifier, postfix);
            let start = specifier_offset(prefix);
            lex_from(text, 2) == prefix_tokens(text, prefix) + lex_from(text, start)
        }),
{
    let text = segment_text(prefix, specifier, postfix);
    let start = specifier_offset(prefix);
    lemma_segment_layout(prefix, specifier, postfix);
    match prefix {
        Some(p) => {
            assert(part_wf(p));
            lemma_lex_run(text, 2, p);
            assert(lex_from(text, 2 + p.len() as int) == seq![
                colon_token(text, 2 + p.len() as int),
            ] + lex_from(text, start));
            assert(run_tokens(text, 2, p) + (seq![colon_token(text, 2 + p.len() as int)]
                + lex_from(text, start)) =~= prefix_tokens(text, prefix) + lex_from(text, start));
        },
        None => {
            assert(prefix_tokens(text, prefix) + lex_from(text, start) =~= lex_from(text, start));
        },
    }
}

proof fn lemma_segment_clean(
    prefix: Option<Seq<char>>,
    specifier: Seq<char>,
    postfix: Option<Seq<char>>,
)
    requires
        parts_wf(prefix, specifier, postfix),
    ensures
        free_of_escapes(segment_text(prefix, specifier, postfix)),
        grid_exact(segment_text(prefix, specifier, postfix)),
{
    let text = segment_text(prefix, specifier, postfix);
    let start = specifier_offset(prefix);
    let end = specifier_end(prefix, specifier);
    let close = close_offset(prefix, specifier, postfix);
    lemma_segment_layout(prefix, specifier, postfix);
    assert forall|i: int| 0 <= i < text.len() implies text[i] != '\\' && text[i] != '\r' by {
        if 2 <= i < start {
            if i < start - 1 {
                assert(text[2 + (i - 2)] == prefix->0[i - 2]);
                assert(!is_special(prefix->0[i - 2]));
            }
        } else if start <= i < end {
            assert(text[start + (i - start)] == specifier[i - start]);
            assert(!is_special(specifier[i - start]));
        } else if end < i < close {
            assert(text[end + 1 + (i - end - 1)] == postfix->0[i - end - 1]);
            assert(!is_special(postfix->0[i - end - 1]));
        }
    }
    assert(text.last() == '}');
}

/// The tokens of the text of a directive.
proof fn lemma_lex_segment(
    prefix: Option<Seq<char>>,
    specifier: Seq<char>,
    postfix: Option<Seq<char>>,
)
    requires
        parts_wf(prefix, specifier, postfix),
    ensures
        lex_from(segment_text(prefix, specifier, postfix), 0) == expected_tokens(
            prefix,
            specifier,
            postfix,
        ),
{
    let text = segment_text(prefix, specifier, postfix);
    let start = specifier_offset(prefix);
    let end = specifier_end(prefix, specifier);
    let close = close_offset(prefix, specifier, postfix);
    lemma_segment_layout(prefix, specifier, postfix);
    lemma_lex_closing(prefix, specifier, postfix);
    lemma_lex_postfix(prefix, specifier, postfix);
    lemma_lex_specifier(prefix, specifier, postfix);
    lemma_lex_prefix(prefix, specifier, postfix);
    assert(lex_from(text, 1) == seq![open_token(text, 1)] + lex_from(text, 2));
    assert(lex_from(text, 0) == seq![open_token(text, 0)] + lex_from(text, 1));
    let a = seq![open_token(text, 0), open_token(text, 1)];
    let b = prefix_tokens(text, prefix);
    let c = run_tokens(text, start, specifier);
    let d = postfix_tokens(text, end, postfix);
    let e = closing_tokens(text, close);
    assert(seq![open_token(text, 0)] + (seq![open_token(text, 1)] + (b + (c + (d + e)))) =~= a
        + b + c + d + e);
}

/// The number of tokens of a run.
spec fn run_count(run: Seq<char>) -> int {
    if run.len() == 0 {
        0
    } else {
        1
    }
}

/// The number of tokens of a prefix with its `:`.
spec fn prefix_count(prefix: Option<Seq<char>>) -> int {
    match prefix {
        Some(p) => run_count(p) + 1,
        None => 0,
    }
}

/// The number of tokens of a postfix with its `/`.
spec fn postfix_count(postfix: Option<Seq<char>>) -> int {
    match postfix {
        Some(q) => run_count(q) + 1,
        None => 0,
    }
}

/// Which token stands where among the tokens of a directive.
proof fn lemma_tokens_layout(
    prefix: Option<Seq<char>>,
    specifier: Seq<char>,
    postfix: Option<Seq<char>>,
)
    requires
        specifier.len() > 0,
    ensures
        ({
            let tokens = expected_tokens(prefix, specifier, postfix);
            let b = prefix_count(prefix);
            let d = postfix_count(postfix);
            &&& tokens.len() == 5 + b + d
            &&& is_open(tokens[0]) && tokens[0].row == 0 && tokens[0].col == 0
            &&& is_open(tokens[1])
            &&& prefix matches Some(p) ==> tokens[1 + b].lexeme == LexemeView::Separator(
                Separator::EndPrefixes,
            ) && (p.len() > 0 ==> tokens[2].lexeme == LexemeView::Literal(p))
            &&& tokens[2 + b].lexeme == LexemeView::Literal(specifier)
            &&& postfix matches Some(q) ==> tokens[3 + b].lexeme == LexemeView::Separator(
                Separator::BeginPostfixes,
            ) && (q.len() > 0 ==> tokens[4 + b].lexeme == LexemeView::Literal(q))
            &&& is_close(tokens[3 + b + d])
            &&& is_close(tokens[4 + b + d])
        }),
{
    let text = segment_text(prefix, specifier, postfix);
    let tokens = expected_tokens(prefix, specifier, postfix);
    let a = seq![open_token(text, 0), open_token(text, 1)];
    let b = prefix_tokens(text, prefix);
    let c = run_tokens(text, specifier_offset(prefix), specifier);
    let d = postfix_tokens(text, specifier_end(prefix, specifier), postfix);
    let e = closing_tokens(text, close_offset(prefix, specifier, postfix));
    assert(tokens == a + b + c + d + e);
    let bn = b.len() as int;
    let dn = d.len() as int;
    assert(b.len() == prefix_count(prefix));
    assert(c.len() == 1);
    assert(d.len() == postfix_count(postfix));
    assert(e.len() == 2);
    assert(tokens[0] == a[0]);
    assert(tokens[1] == a[1]);
    assert(tokens[2 + bn] == c[0]);
    assert(tokens[3 + bn + dn] == e[0]);
    assert(tokens[4 + bn + dn] == e[1]);
    match prefix {
        Some(p) => {
            assert(tokens[1 + bn] == b[bn - 1]);
            if p.len() > 0 {
                assert(tokens[2] == b[0]);
            }
        },
        None => {},
    }
    match postfix {
        Some(q) => {
            assert(tokens[3 + bn] == d[0]);
            if q.len() > 0 {
                assert(tokens[4 + bn] == d[1]);
            }
        },
        None => {},
    }
}

/// A run of at most one literal before a token that is none.
proof fn lemma_run_known(tokens: Seq<TokenView>, from: int, run: Seq<char>)
    requires
        0 <= from,
        from + run_count(run) < tokens.len(),
        run.len() > 0 ==> tokens[from].lexeme == LexemeView::Literal(run),
        !is_literal(tokens[from + run_count(run)]),
    ensures
        run_end(tokens, from) == from + run_count(run),
        run_text(tokens, from, from + run_count(run)) == run,
{
    if run.len() > 0 {
        assert(run_end(tokens, from) == run_end(tokens, from + 1));
        assert(run_text(tokens, from, from) =~= Seq::<char>::empty());
        assert(run_text(tokens, from, from + 1) =~= run);
    } else {
        assert(run_text(tokens, from, from) =~= run);
    }
}

/// What follows the specifier among the tokens of a directive.
proof fn lemma_parse_after(
    prefix: Option<Seq<char>>,
    specifier: Seq<char>,
    postfix: Option<Seq<char>>,
    end_expected: Expected,
)
    requires
        specifier.len() > 0,
    ensures
        ({
            let tokens = expected_tokens(prefix, specifier, postfix);
            let from = 2 + prefix_count(prefix);
            run_text(tokens, from, from + 1) == specifier ==> after_specifier(
                tokens,
                0,
                prefix,
                from,
                from + 1,
                end_expected,
            ) == Ok::<(DirectiveView, int), FaultView>(
                (
                    DirectiveView { prefix, specifier, postfix, row: 0, col: 0 },
                    tokens.len() as int,
                ),
            )
        }),
{
    let tokens = expected_tokens(prefix, specifier, postfix);
    let from = 2 + prefix_count(prefix);
    lemma_tokens_layout(prefix, specifier, postfix);
    match postfix {
        Some(q) => {
            lemma_run_known(tokens, from + 2, q);
        },
        None => {},
    }
}

/// The tokens of a directive parse to the directive.
proof fn lemma_parse_segment(
    prefix: Option<Seq<char>>,
    specifier: Seq<char>,
    postfix: Option<Seq<char>>,
)
    requires
        specifier.len() > 0,
    ensures
        parse_from(expected_tokens(prefix, specifier, postfix), 0) == Ok::<
            Seq<NodeView>,
            FaultView,
        >(seq![directive_node(prefix, specifier, postfix)]),
{
    let tokens = expected_tokens(prefix, specifier, postfix);
    let found = (DirectiveView { prefix, specifier, postfix, row: 0, col: 0 }, tokens.len() as int);
    lemma_tokens_layout(prefix, specifier, postfix);
    assert(directive_at(tokens, 0) == Ok::<(DirectiveView, int), FaultView>(found)) by {
        match prefix {
            Some(p) => {
                lemma_run_known(tokens, 2, p);
                lemma_run_known(tokens, 2 + prefix_count(prefix), specifier);
                lemma_parse_after(prefix, specifier, postfix, Expected::SpecifierEnd);
            },
            None => {
                lemma_run_known(tokens, 2, specifier);
                lemma_parse_after(prefix, specifier, postfix, Expected::PrefixEnd);
            },
        }
    }
    assert(parse_from(tokens, tokens.len() as int) == Ok::<Seq<NodeView>, FaultView>(
        Seq::empty(),
    ));
    assert(seq![directive_node(prefix, specifier, postfix)] + Seq::<NodeView>::empty() =~= seq![
        directive_node(prefix, specifier, postfix),
    ]);
}

/// A directive that is written out parses to itself: the text made of
/// the three parts of a directive has one node, the directive with these
/// parts. And so a segment compiles to what its parts compile to.
pub proof fn law_segment_round_trip(
    prefix: Option<Seq<char>>,
    specifier: Seq<char>,
    postfix: Option<Seq<char>>,
    base_row: int,
    base_col: int,
)
    requires
        parts_wf(prefix, specifier, postfix),
    ensures
        template_nodes(segment_text(prefix, specifier, postfix)) == Ok::<Seq<NodeView>, ErrorView>(
            seq![directive_node(prefix, specifier, postfix)],
        ),
        segment_formatter(segment_text(prefix, specifier, postfix), base_row, base_col)
            == compile_spec(prefix, specifier, postfix, base_row, base_col),
{
    let text = segment_text(prefix, specifier, postfix);
    lemma_segment_clean(prefix, specifier, postfix);
    law_grid_text(text);
    lemma_no_escape(text, 0);
    lemma_lex_segment(prefix, specifier, postfix);
    lemma_parse_segment(prefix, specifier, postfix);
}

/// The formatter of a compiled directive writes the directive out so
/// that it reads back as it was: the segment of a formatter has one
/// node, the directive with the prefix, the specifier and the postfix of
/// the formatter.
pub proof fn law_formatter_round_trip(formatter: Formatter)
    requires
        parts_wf(formatter@.prefix, formatter.specifier(), formatter@.postfix),
    ensures
        template_nodes(
            segment_text(formatter@.prefix, formatter.specifier(), formatter@.postfix),
        ) == Ok::<Seq<NodeView>, ErrorView>(
            seq![directive_node(formatter@.prefix, formatter.specifier(), formatter@.postfix)],
        ),
{
    law_segment_round_trip(formatter@.prefix, formatter.specifier(), formatter@.postfix, 0, 0);
}

/// The context of a directive without prefix and postfix.
pub open spec fn bare_context(key: Seq<char>) -> ContextView {
    ContextView { custom_flags: None, flags: default_flags(), specifier: Some(key) }
}

/// What a bare directive compiles to, and what it renders.
proof fn lemma_bare_directive(key: Seq<char>)
    requires
        part_wf(key),
        key.len() > 0,
    ensures
        template_nodes(segment_text(None, key, None)) == Ok::<Seq<NodeView>, ErrorView>(
            seq![directive_node(None, key, None)],
        ),
        formatter_for(
            directive_node(None, key, None)->Directive_0,
            0,
            Seq::<FormatterView>::empty(),
        ) == Ok::<FormatterView, ErrorView>(bare_formatter(key)),
        forall|answer: Answer| #[trigger] finished(no_transform(), answer) == answer,
{
    law_segment_round_trip(None, key, None, 0, 0);
    assert(compile_spec(None, key, None, 0, 0) == Ok::<FormatterView, ErrorView>(
        bare_formatter(key),
    )) by {
        assert(pre_flags_from(Seq::<char>::empty(), 0) == Ok::<Seq<PreFlag>, FaultView>(
            Seq::empty(),
        ));
        assert(post_flags_from(Seq::<char>::empty(), 0) == Ok::<Seq<PostFlag>, FaultView>(
            Seq::empty(),
        ));
    }
    assert forall|answer: Answer| #[trigger] finished(no_transform(), answer) == answer by {
        match answer {
            Ok(text) => {
                assert(post_applied(no_transform(), text) == text);
            },
            Err(e) => {},
        }
    }
}

/// A template that is one directive with a key and nothing else renders
/// to what the provider answers for the key under its bare context, text
/// or error, with nothing added and nothing taken away.
pub proof fn law_bare_directive<P: Provider>(provider: &P, key: Seq<char>, result: Answer)
    requires
        part_wf(key),
        key.len() > 0,
        template_outcome(provider, segment_text(None, key, None), result),
    ensures
        may_answer(provider, bare_context(key), key, result),
{
    lemma_bare_directive(key);
    let nodes = seq![directive_node(None, key, None)];
    let none = Seq::<FormatterView>::empty();
    let (answers, stop) = choose|answers: Seq<Answer>, stop: int| #[trigger]
        stopped_at(provider, nodes, none, answers, stop, result);
    assert(rendered(nodes.take(0), none, answers) is Ok);
    assert(stop == 1);
    assert(nodes.take(1) == nodes);
    assert(nodes.drop_last() =~= Seq::<NodeView>::empty());
    assert(nodes.take(0) =~= Seq::<NodeView>::empty());
    assert(directive_count(nodes.drop_last()) == 0);
    assert(rendered(nodes.drop_last(), none, answers) == Ok::<Seq<char>, ErrorView>(Seq::empty()));
    assert(asked_at(provider, nodes, none, answers, 0));
    match answers[0] {
        Ok(text) => {
            assert(Seq::<char>::empty() + text =~= text);
        },
        Err(e) => {},
    }
}

/// A template that is one directive with a key and nothing else renders
/// to what the source of answers holds for the key under its bare
/// context.
pub proof fn law_bare_directive_by(
    key: Seq<char>,
    source: spec_fn(ContextView, Seq<char>) -> Answer,
)
    requires
        part_wf(key),
        key.len() > 0,
    ensures
        template_rendered_by(segment_text(None, key, None), source) == source(
            bare_context(key),
            key,
        ),
{
    lemma_bare_directive(key);
    let nodes = seq![directive_node(None, key, None)];
    let none = Seq::<FormatterView>::empty();
    assert(nodes.drop_last() =~= Seq::<NodeView>::empty());
    assert(directive_count(nodes.drop_last()) == 0);
    assert(rendered_by(nodes.drop_last(), none, source) == Ok::<Seq<char>, ErrorView>(
        Seq::empty(),
    ));
    match source(bare_context(key), key) {
        Ok(text) => {
            assert(Seq::<char>::empty() + text =~= text);
        },
        Err(e) => {},
    }
}

/// The formatter of a directive without prefix and postfix: what the
/// provider is asked with is its context, the bare context of the key.
pub open spec fn bare_formatter(key: Seq<char>) -> FormatterView {
    FormatterView { prefix: None, postfix: None, context: bare_context(key), post: no_transform() }
}

/// A value never fails with a generic error: that kind is for keys.
pub proof fn lemma_value_knows_its_key(value: ValueView, context: ContextView)
    ensures
        !is_unknown(value_formatted(value, context)),
{
}

/// The primary provider goes first: what it answers is what the two
/// providers answer together, unless it is a generic error; then, and
/// only then, the secondary provider answers.
pub proof fn law_primary_first(
    primary: Answer,
    secondary: Answer,
)
    ensures
        !is_unknown(primary) ==> delegated(primary, secondary) == primary,
        is_unknown(primary) ==> delegated(primary, secondary) == secondary,
{
}

/// Named values in front of another provider: a name that the values
/// hold resolves to their value, whatever the other provider answers
/// for this name.
pub proof fn law_values_first(
    values: Seq<EntryView>,
    secondary: spec_fn(ContextView, Seq<char>) -> Answer,
    context: ContextView,
    key: Seq<char>,
)
    requires
        lookup(values, key) is Some,
    ensures
        delegate_source(values_source(values), secondary)(context, key) == value_formatted(
            lookup(values, key)->0,
            context,
        ),
{
    lemma_value_knows_its_key(lookup(values, key)->0, context);
}

/// A directive whose key the values do not hold fails with a generic
/// error that names the key.
pub proof fn law_unknown_key(values: Seq<EntryView>, key: Seq<char>)
    requires
        part_wf(key),
        key.len() > 0,
        lookup(values, key) is None,
    ensures
        template_rendered_by(segment_text(None, key, None), values_source(values)) == Err::<
            Seq<char>,
            ErrorView,
        >(ErrorView::Generic(unknown_key_message(key))),
{
    law_bare_directive_by(key, values_source(values));
}

/// A template that ends in a backslash with nothing after it is a syntax
/// error, whatever the provider.
pub proof fn law_dangling_escape<P: Provider>(provider: &P, template: Seq<char>, result: Answer)
    requires
        ends_in_escape(joined(grid_rows(template)), 0),
        template_outcome(provider, template, result),
    ensures
        result matches Err(ErrorView::Syntax(_)),
{
}

/// What rendering a template gives with a provider that answers as
/// `source` says is exact: it is what the template renders by the source.
pub proof fn law_template_exact<P: Provider>(
    provider: &P,
    template: Seq<char>,
    result: Answer,
    source: spec_fn(ContextView, Seq<char>) -> Answer,
)
    requires
        template_outcome(provider, template, result),
        obeys(provider, source),
    ensures
        result == template_rendered_by(template, source),
{
    match template_nodes(template) {
        Ok(nodes) => {
            lemma_outcome_exact(provider, nodes, Seq::empty(), result, source);
        },
        Err(_) => {},
    }
}

/// Whether a token can have come from the lexer: a literal is not empty
/// and holds no special character and no carriage return, and no token
/// is a backslash alone.
pub open spec fn token_clean(token: TokenView) -> bool {
    match token.lexeme {
        LexemeView::Literal(t) => t.len() > 0 && part_wf(t),
        LexemeView::Backslash => false,
        _ => true,
    }
}

/// Whether all tokens can have come from the lexer.
pub open spec fn tokens_clean(tokens: Seq<TokenView>) -> bool {
    forall|i: int| 0 <= i < tokens.len() ==> token_clean(#[trigger] tokens[i])
}

/// Whether the parts of every directive among the nodes can stand in a
/// template as they are.
pub open spec fn directives_wf(nodes: Seq<NodeView>) -> bool {
    forall|i: int|
        0 <= i < nodes.len() ==> ((#[trigger] nodes[i]) matches NodeView::Directive(d)
            ==> parts_wf(d.prefix, d.specifier, d.postfix))
}

proof fn lemma_joined_clean(rows: Seq<Seq<char>>)
    requires
        rows_clean(rows),
    ensures
        free_of_cr(joined(rows)),
    decreases rows.len(),
{
    if rows.len() > 1 {
        let head = rows.drop_last();
        assert(rows_clean(head)) by {
            assert forall|i: int, j: int| 0 <= i < head.len() && 0 <= j < head[i].len() implies (
            #[trigger] head[i][j]) != '\n' && head[i][j] != '\r' by {
                assert(head[i][j] == rows[i][j]);
            }
        }
        lemma_joined_clean(head);
        let text = joined(rows);
        assert forall|k: int| 0 <= k < text.len() implies text[k] != '\r' by {
            if k > joined(head).len() {
                let j = k - joined(head).len() - 1;
                assert(text[k] == rows[rows.len() - 1][j]);
            }
        }
    } else if rows.len() == 1 {
        let text = joined(rows);
        assert forall|k: int| 0 <= k < text.len() implies text[k] != '\r' by {
            assert(text[k] == rows[0][k]);
        }
    }
}

/// What the lexer gives is clean, if the text holds no carriage return.
pub proof fn lemma_lexed_clean(text: Seq<char>, from: int)
    requires
        0 <= from <= text.len(),
        free_of_cr(text),
    ensures
        tokens_clean(lex_from(text, from)),
    decreases text.len() - from,
{
    let tokens = lex_from(text, from);
    if from < text.len() {
        lemma_literal_end_bounds(text, from);
        let next = if text[from] == '\\' {
            from + 2
        } else if is_special(text[from]) {
            from + 1
        } else {
            literal_end(text, from)
        };
        if next <= text.len() {
            lemma_lexed_clean(text, next);
            let rest = lex_from(text, next);
            assert(tokens == seq![tokens[0]] + rest);
            assert(token_clean(tokens[0])) by {
                if !is_special(text[from]) {
                    let run = text.subrange(from, next);
                    assert forall|i: int| 0 <= i < run.len() implies !is_special(
                        #[trigger] run[i],
                    ) && run[i] != '\r' by {
                        assert(run[i] == text[from + i]);
                    }
                }
            }
            assert forall|i: int| 0 <= i < tokens.len() implies token_clean(
                #[trigger] tokens[i],
            ) by {
                if i > 0 {
                    assert(tokens[i] == rest[i - 1]);
                }
            }
        }
    }
}

/// A run of clean literals is a part that can stand in a template, and
/// is not empty unless the run is.
proof fn lemma_run_wf(tokens: Seq<TokenView>, from: int, to: int)
    requires
        0 <= from <= to <= tokens.len(),
        tokens_clean(tokens),
        forall|k: int| from <= k < to ==> is_literal(tokens[k]),
    ensures
        part_wf(run_text(tokens, from, to)),
        from < to ==> run_text(tokens, from, to).len() > 0,
    decreases to - from,
{
    if from < to {
        lemma_run_wf(tokens, from, to - 1);
        let head = run_text(tokens, from, to - 1);
        let last = literal_text(tokens[to - 1]);
        assert(token_clean(tokens[to - 1]));
        assert(part_wf(last));
        let all = run_text(tokens, from, to);
        assert(all == head + last);
        assert forall|i: int| 0 <= i < all.len() implies !is_special(#[trigger] all[i]) && all[i]
            != '\r' by {
            if i < head.len() {
                assert(all[i] == head[i]);
            } else {
                assert(all[i] == last[i - head.len()]);
            }
        }
    }
}

proof fn lemma_directive_wf(tokens: Seq<TokenView>, open: int)
    requires
        0 <= open,
        tokens_clean(tokens),
    ensures
        directive_at(tokens, open) matches Ok(found) ==> parts_wf(
            found.0.prefix,
            found.0.specifier,
            found.0.postfix,
        ),
{
    let first = open + 2;
    if first <= tokens.len() {
        lemma_run_end_bounds(tokens, first);
        let first_end = run_end(tokens, first);
        lemma_run_wf(tokens, first, first_end);
        if first_end < tokens.len() {
            lemma_run_end_bounds(tokens, first_end + 1);
            let second_end = run_end(tokens, first_end + 1);
            lemma_run_wf(tokens, first_end + 1, second_end);
            if second_end < tokens.len() {
                lemma_run_end_bounds(tokens, second_end + 1);
                lemma_run_wf(tokens, second_end + 1, run_end(tokens, second_end + 1));
            }
        }
    }
    assert(part_wf(Seq::<char>::empty()));
}

proof fn lemma_parsed_wf(tokens: Seq<TokenView>, from: int)
    requires
        0 <= from,
        tokens_clean(tokens),
    ensures
        parse_from(tokens, from) matches Ok(nodes) ==> directives_wf(nodes),
    decreases tokens.len() - from,
{
    if from < tokens.len() {
        let next = match tokens[from].lexeme {
            LexemeView::OpenBrace => match directive_at(tokens, from) {
                Ok(found) => found.1,
                Err(_) => from + 1,
            },
            _ => from + 1,
        };
        lemma_directive_at_next(tokens, from);
        lemma_directive_wf(tokens, from);
        if next > from {
            lemma_parsed_wf(tokens, next);
        }
        match parse_from(tokens, from) {
            Ok(nodes) => {
                let rest = parse_from(tokens, next)->Ok_0;
                assert(nodes == seq![nodes[0]] + rest);
                assert forall|i: int| 0 <= i < nodes.len() implies ((
                #[trigger] nodes[i]) matches NodeView::Directive(d) ==> parts_wf(
                    d.prefix,
                    d.specifier,
                    d.postfix,
                )) by {
                    if i > 0 {
                        assert(nodes[i] == rest[i - 1]);
                    }
                }
            },
            Err(_) => {},
        }
    }
}

/// Every directive of a template reads back as it was: the parts of a
/// directive that was parsed can stand in a template as they are, so the
/// text made of them has one node, the directive with these parts, and
/// compiles as a segment to what the directive compiles to.
pub proof fn law_parsed_directive_round_trip(template: Seq<char>, i: int)
    requires
        template_nodes(template) is Ok,
        0 <= i < template_nodes(template)->Ok_0.len(),
        template_nodes(template)->Ok_0[i] is Directive,
    ensures
        ({
            let directive = template_nodes(template)->Ok_0[i]->Directive_0;
            let segment = segment_text(directive.prefix, directive.specifier, directive.postfix);
            &&& parts_wf(directive.prefix, directive.specifier, directive.postfix)
            &&& template_nodes(segment) == Ok::<Seq<NodeView>, ErrorView>(
                seq![directive_node(directive.prefix, directive.specifier, directive.postfix)],
            )
            &&& segment_formatter(segment, directive.row, directive.col) == compile_spec(
                directive.prefix,
                directive.specifier,
                directive.postfix,
                directive.row,
                directive.col,
            )
        }),
{
    let text = joined(grid_rows(template));
    lemma_without_cr_clean(template);
    lemma_rows_from_clean(without_cr(template), 0);
    lemma_joined_clean(grid_rows(template));
    lemma_lexed_clean(text, 0);
    lemma_parsed_wf(lex_from(text, 0), 0);
    let nodes = template_nodes(template)->Ok_0;
    assert(directives_wf(nodes));
    let directive = nodes[i]->Directive_0;
    law_segment_round_trip(
        directive.prefix,
        directive.specifier,
        directive.postfix,
        directive.row,
        directive.col,
    );
}


/// What a directive compiles to was compiled from its parts.
proof fn lemma_compiled_fits(directive: DirectiveView)
    ensures
        compile_spec(
            directive.prefix,
            directive.specifier,
            directive.postfix,
            directive.row,
            directive.col,
        ) matches Ok(formatter) ==> formatter_fits(formatter, directive),
{
}

proof fn lemma_compiled_before(
    nodes: Seq<NodeView>,
    formatters: Seq<FormatterView>,
    answers: Seq<Answer>,
)
    requires
        compiled(nodes) is Ok,
        compiled(nodes)->Ok_0.len() <= formatters.len(),
        formatters.take(compiled(nodes)->Ok_0.len() as int) == compiled(nodes)->Ok_0,
    ensures
        compiled(nodes)->Ok_0.len() == directive_count(nodes),
        rendered(nodes, formatters, answers) == rendered(nodes, Seq::empty(), answers),
    decreases nodes.len(),
{
    if nodes.len() > 0 {
        let head = nodes.drop_last();
        let before = compiled(head)->Ok_0;
        let all = compiled(nodes)->Ok_0;
        assert(before.len() <= all.len());
        assert(formatters.take(before.len() as int) =~= before) by {
            assert forall|k: int| 0 <= k < before.len() implies formatters[k] == before[k] by {
                assert(formatters.take(all.len() as int)[k] == all[k]);
            }
        }
        lemma_compiled_before(head, formatters, answers);
        match nodes.last() {
            NodeView::Directive(d) => {
                lemma_compiled_fits(d);
                let index = directive_count(head) as int;
                assert(formatters[index] == formatters.take(all.len() as int)[index]);
            },
            _ => {},
        }
    }
}

/// Compiling before rendering changes nothing: with the formatters that
/// its directives compile to, a template renders as it does when each
/// directive is compiled where it is reached.
pub proof fn law_compiled_before(nodes: Seq<NodeView>, answers: Seq<Answer>)
    requires
        compiled(nodes) is Ok,
    ensures
        rendered(nodes, compiled(nodes)->Ok_0, answers) == rendered(nodes, Seq::empty(), answers),
{
    let formatters = compiled(nodes)->Ok_0;
    assert(formatters.take(formatters.len() as int) =~= formatters);
    lemma_compiled_before(nodes, formatters, answers);
}

/// The position of an offset depends on the characters before it only.
proof fn lemma_pos_of_prefix(a: Seq<char>, b: Seq<char>, k: int)
    requires
        0 <= k <= a.len(),
        k <= b.len(),
        forall|i: int| 0 <= i < k ==> a[i] == b[i],
    ensures
        pos_of(a, k) == pos_of(b, k),
    decreases k,
{
    if k > 0 {
        lemma_pos_of_prefix(a, b, k - 1);
    }
}

/// After a newline and `j` characters that are none, the position is
/// column `j` of the next row.
proof fn lemma_pos_in_row(text: Seq<char>, start: int, j: int)
    requires
        0 < start,
        0 <= j,
        start + j <= text.len(),
        text[start - 1] == '\n',
        forall|i: int| start <= i < start + j ==> text[i] != '\n',
    ensures
        pos_of(text, start + j) == (pos_of(text, start - 1).0 + 1, j),
    decreases j,
{
    if j > 0 {
        lemma_pos_in_row(text, start, j - 1);
    }
}

/// In text without a newline, the position is the offset.
proof fn lemma_pos_in_first_row(text: Seq<char>, k: int)
    requires
        0 <= k <= text.len(),
        forall|i: int| 0 <= i < k ==> text[i] != '\n',
    ensures
        pos_of(text, k) == (0int, k),
    decreases k,
{
    if k > 0 {
        lemma_pos_in_first_row(text, k - 1);
    }
}

proof fn lemma_drop_last_clean(rows: Seq<Seq<char>>)
    requires
        rows_clean(rows),
        rows.len() > 0,
    ensures
        rows_clean(rows.drop_last()),
{
    let head = rows.drop_last();
    assert forall|i: int, j: int| 0 <= i < head.len() && 0 <= j < head[i].len() implies (
    #[trigger] head[i][j]) != '\n' && head[i][j] != '\r' by {
        assert(head[i][j] == rows[i][j]);
    }
}

/// The end of the text of a grid lies at the end of its last row.
proof fn lemma_pos_at_end(rows: Seq<Seq<char>>)
    requires
        rows_clean(rows),
        rows.len() > 0,
    ensures
        pos_of(joined(rows), joined(rows).len() as int) == (
            rows.len() - 1,
            rows.last().len() as int,
        ),
    decreases rows.len(),
{
    let text = joined(rows);
    if rows.len() == 1 {
        assert forall|i: int| 0 <= i < text.len() implies text[i] != '\n' by {
            assert(text[i] == rows[0][i]);
        }
        lemma_pos_in_first_row(text, text.len() as int);
    } else {
        let head = rows.drop_last();
        let before = joined(head);
        let last = rows.last();
        lemma_drop_last_clean(rows);
        lemma_pos_at_end(head);
        lemma_pos_of_prefix(text, before, before.len() as int);
        assert forall|i: int| before.len() + 1 <= i < text.len() implies text[i] != '\n' by {
            assert(text[i] == last[i - before.len() - 1]);
            assert(rows[rows.len() - 1][i - before.len() - 1] != '\n');
        }
        lemma_pos_in_row(text, before.len() as int + 1, last.len() as int);
    }
}

/// The positions that the stages after the grid report are places in the
/// grid: a character of the text of a grid, other than the newlines
/// between its rows, has as its position the row and the column at which
/// the grid holds it.
pub proof fn law_positions_in_grid(rows: Seq<Seq<char>>, offset: int)
    requires
        rows_clean(rows),
        0 <= offset < joined(rows).len(),
        joined(rows)[offset] != '\n',
    ensures
        ({
            let at = pos_of(joined(rows), offset);
            &&& 0 <= at.0 < rows.len()
            &&& 0 <= at.1 < rows[at.0].len()
            &&& rows[at.0][at.1] == joined(rows)[offset]
        }),
    decreases rows.len(),
{
    let text = joined(rows);
    if rows.len() == 1 {
        assert forall|i: int| 0 <= i < text.len() implies text[i] != '\n' by {
            assert(text[i] == rows[0][i]);
        }
        lemma_pos_in_first_row(text, offset);
    } else if rows.len() > 1 {
        let head = rows.drop_last();
        let before = joined(head);
        let last = rows.last();
        lemma_drop_last_clean(rows);
        if offset < before.len() {
            lemma_pos_of_prefix(text, before, offset);
            law_positions_in_grid(head, offset);
        } else {
            lemma_pos_at_end(head);
            lemma_pos_of_prefix(text, before, before.len() as int);
            let column = offset - before.len() - 1;
            assert forall|i: int| before.len() + 1 <= i < offset implies text[i] != '\n' by {
                assert(text[i] == last[i - before.len() - 1]);
                assert(rows[rows.len() - 1][i - before.len() - 1] != '\n');
            }
            lemma_pos_in_row(text, before.len() as int + 1, column);
            assert(text[offset] == last[column]);
        }
    }
}

} // verus!

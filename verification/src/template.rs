//! The renderer, and the whole way from template text to rendered text.

use crate::errors::{
    describe, description, fmt_result_view, syntax_error, syntax_message, unreachable_error,
    unreachable_message, Answer, CurlyFmtResult, CurlyResult, ErrorView, Expected,
};
use crate::formatting::{ContextView, CurlyContext};
use crate::grid::{grid_rows, joined, PositionGrid};
use crate::lexer::{lex, lex_spec};
use crate::parser::{
    nodes_view, parse, parse_result_view, parse_spec, AstNode, Directive, DirectiveView, NodeView,
};
use crate::provider::{
    lemma_values_obey, may_answer, obeys, values_source, Provider, Values,
};
use crate::specifier::{
    compile_at, compile_spec, finished, formatter_result_view, option_str_view, Formatter,
    FormatterView,
};
use crate::text::{absolute, option_view, push_char, text_of, Position};
use vstd::prelude::*;
use vstd::string::StringExecFns;

verus! {

/// The mathematical content of a sequence of formatters.
pub open spec fn formatters_view(formatters: Seq<Formatter>) -> Seq<FormatterView> {
    Seq::new(formatters.len(), |i: int| formatters[i]@)
}

/// The content of one more formatter is one more item of the content.
pub proof fn lemma_formatters_view_push(formatters: Seq<Formatter>, formatter: Formatter)
    ensures
        formatters_view(formatters.push(formatter)) == formatters_view(formatters).push(formatter@),
{
    assert(formatters_view(formatters.push(formatter)) =~= formatters_view(formatters).push(
        formatter@,
    ));
}

/// The number of directives among `nodes`.
pub open spec fn directive_count(nodes: Seq<NodeView>) -> nat
    decreases nodes.len(),
{
    if nodes.len() == 0 {
        0
    } else if nodes.last() is Directive {
        directive_count(nodes.drop_last()) + 1
    } else {
        directive_count(nodes.drop_last())
    }
}

/// Whether a formatter was compiled from the raw parts of this directive.
pub open spec fn formatter_fits(formatter: FormatterView, directive: DirectiveView) -> bool {
    &&& formatter.prefix == directive.prefix
    &&& formatter.context.specifier == Some(directive.specifier)
    &&& formatter.postfix == directive.postfix
}

/// The formatter of the directive at place `index` among the directives:
/// the one that stands at this place among `formatters`, which must have
/// been compiled from the raw parts of the directive, or, where
/// `formatters` ends before this place, the one that the directive
/// compiles to at its own position. A formatter that was compiled from
/// other text is an internal error.
pub open spec fn formatter_for(
    directive: DirectiveView,
    index: int,
    formatters: Seq<FormatterView>,
) -> Result<FormatterView, ErrorView> {
    if 0 <= index < formatters.len() {
        if formatter_fits(formatters[index], directive) {
            Ok(formatters[index])
        } else {
            Err(ErrorView::Internal(unreachable_message()))
        }
    } else {
        compile_spec(
            directive.prefix,
            directive.specifier,
            directive.postfix,
            directive.row,
            directive.col,
        )
    }
}

/// What the directive at place `index` among the directives renders,
/// where `answers[index]` is what the provider returned for its key: that
/// text after the transform of its postfix, or that error. A directive
/// without a formatter for it is not rendered: its error is the result.
pub open spec fn directive_rendered(
    directive: DirectiveView,
    index: int,
    formatters: Seq<FormatterView>,
    answers: Seq<Answer>,
) -> Answer {
    match formatter_for(directive, index, formatters) {
        Ok(formatter) => finished(formatter.post, answers[index]),
        Err(e) => Err(e),
    }
}

/// What the node at place `index` among the directives renders: text
/// renders itself, an escaped character renders itself without its
/// backslash, a directive renders as `directive_rendered` says.
pub open spec fn node_rendered(
    node: NodeView,
    index: int,
    formatters: Seq<FormatterView>,
    answers: Seq<Answer>,
) -> Answer {
    match node {
        NodeView::Text(t) => Ok(t),
        NodeView::Escaped(c) => Ok(seq![c]),
        NodeView::Directive(d) => directive_rendered(d, index, formatters, answers),
    }
}

/// What `nodes` render, in document order, where `answers` holds what the
/// provider returned for the directives, in their order: the texts of the
/// nodes one after another, or the first error.
pub open spec fn rendered(
    nodes: Seq<NodeView>,
    formatters: Seq<FormatterView>,
    answers: Seq<Answer>,
) -> Answer
    decreases nodes.len(),
{
    if nodes.len() == 0 {
        Ok(Seq::empty())
    } else {
        match rendered(nodes.drop_last(), formatters, answers) {
            Err(e) => Err(e),
            Ok(text) => match node_rendered(
                nodes.last(),
                directive_count(nodes.drop_last()) as int,
                formatters,
                answers,
            ) {
                Err(e) => Err(e),
                Ok(more) => Ok(text + more),
            },
        }
    }
}

/// Whether two optional strings hold the same text.
fn same_option(a: &Option<String>, b: &Option<String>) -> (same: bool)
    ensures
        same == (option_view(*a) == option_view(*b)),
{
    match (a, b) {
        (Some(x), Some(y)) => *x == *y,
        (None, None) => true,
        _ => false,
    }
}

/// Whether a formatter was compiled from the raw parts of this directive.
pub fn fits(formatter: &Formatter, directive: &Directive) -> (b: bool)
    ensures
        b == formatter_fits(formatter@, directive@),
{
    let specifier_same = match &formatter.context.specifier {
        Some(s) => *s == directive.specifier_text,
        None => false,
    };
    same_option(&formatter.prefix_text, &directive.prefix_text) && specifier_same && same_option(
        &formatter.postfix_text,
        &directive.postfix_text,
    )
}

/// The mathematical content of an optional formatter with its error.
pub open spec fn chosen_view(r: CurlyResult<Formatter>) -> Result<FormatterView, ErrorView> {
    match r {
        Ok(f) => Ok(f@),
        Err(e) => Err(e@),
    }
}

/// The formatter of the directive at place `index` among the directives.
pub fn select_formatter(directive: &Directive, index: usize, formatters: &Vec<Formatter>) -> (r:
    CurlyResult<Formatter>)
    ensures
        chosen_view(r) == formatter_for(directive@, index as int, formatters_view(formatters@)),
{
    if index < formatters.len() {
        if fits(&formatters[index], directive) {
            Ok(copy_of(&formatters[index]))
        } else {
            Err(unreachable_error())
        }
    } else {
        compile_directive(directive)
    }
}

/// A copy of an optional string.
fn copy_option(o: &Option<String>) -> (r: Option<String>)
    ensures
        option_view(r) == option_view(*o),
{
    match o {
        Some(s) => Some(s.clone()),
        None => None,
    }
}

/// A copy of a formatter.
fn copy_of(formatter: &Formatter) -> (r: Formatter)
    ensures
        r@ == formatter@,
{
    Formatter {
        prefix_text: copy_option(&formatter.prefix_text),
        postfix_text: copy_option(&formatter.postfix_text),
        context: CurlyContext {
            custom_flags: copy_option(&formatter.context.custom_flags),
            flags: formatter.context.flags,
            specifier: copy_option(&formatter.context.specifier),
        },
        post: formatter.post,
    }
}

/// What a node renders with a provider that answers as `source` says.
pub open spec fn node_rendered_by(
    node: NodeView,
    index: int,
    formatters: Seq<FormatterView>,
    source: spec_fn(ContextView, Seq<char>) -> Answer,
) -> Answer {
    match node {
        NodeView::Text(t) => Ok(t),
        NodeView::Escaped(c) => Ok(seq![c]),
        NodeView::Directive(d) => match formatter_for(d, index, formatters) {
            Ok(f) => finished(f.post, source(f.context, d.specifier)),
            Err(e) => Err(e),
        },
    }
}

/// What `nodes` render, in document order, with a provider that answers
/// as `source` says: the texts of the nodes one after another, or the
/// first error. Each directive asks for its specifier under the context
/// of its formatter.
pub open spec fn rendered_by(
    nodes: Seq<NodeView>,
    formatters: Seq<FormatterView>,
    source: spec_fn(ContextView, Seq<char>) -> Answer,
) -> Answer
    decreases nodes.len(),
{
    if nodes.len() == 0 {
        Ok(Seq::empty())
    } else {
        match rendered_by(nodes.drop_last(), formatters, source) {
            Err(e) => Err(e),
            Ok(text) => match node_rendered_by(
                nodes.last(),
                directive_count(nodes.drop_last()) as int,
                formatters,
                source,
            ) {
                Err(e) => Err(e),
                Ok(more) => Ok(text + more),
            },
        }
    }
}

/// Whether the answer for the directive at node `i`, if that node is a
/// directive with a formatter, is one that the provider may give for the
/// key of the directive under the context of its formatter.
pub open spec fn asked_at<P: Provider>(
    provider: &P,
    nodes: Seq<NodeView>,
    formatters: Seq<FormatterView>,
    answers: Seq<Answer>,
    i: int,
) -> bool {
    match nodes[i] {
        NodeView::Directive(d) => {
            let index = directive_count(nodes.take(i)) as int;
            match formatter_for(d, index, formatters) {
                Ok(f) => may_answer(provider, f.context, d.specifier, answers[index]),
                Err(_) => true,
            }
        },
        _ => true,
    }
}

/// Whether `answers` are what the provider may give for the directives
/// among `nodes`, each asked with the context of its formatter and its
/// specifier as the key.
pub open spec fn asked<P: Provider>(
    provider: &P,
    nodes: Seq<NodeView>,
    formatters: Seq<FormatterView>,
    answers: Seq<Answer>,
) -> bool {
    forall|i: int| 0 <= i < nodes.len() ==> #[trigger] asked_at(provider, nodes, formatters, answers, i)
}

/// Whether rendering with `answers` from the provider ended after `stop`
/// nodes with `result`: there is one answer for each directive among
/// these nodes, the result is what they render with these answers, and
/// rendering ended before the last node only with an error.
pub open spec fn stopped_at<P: Provider>(
    provider: &P,
    nodes: Seq<NodeView>,
    formatters: Seq<FormatterView>,
    answers: Seq<Answer>,
    stop: int,
    result: Answer,
) -> bool {
    &&& 0 <= stop <= nodes.len()
    &&& answers.len() == directive_count(nodes.take(stop))
    &&& result == rendered(nodes.take(stop), formatters, answers)
    &&& stop < nodes.len() ==> result is Err
    &&& asked(provider, nodes.take(stop), formatters, answers)
}

/// Whether `result` is what rendering `nodes` with the provider may give:
/// the nodes rendered, in document order, with answers that the provider
/// may give to what it is asked.
pub open spec fn render_outcome<P: Provider>(
    provider: &P,
    nodes: Seq<NodeView>,
    formatters: Seq<FormatterView>,
    result: Answer,
) -> bool {
    exists|answers: Seq<Answer>, stop: int| #[trigger]
        stopped_at(provider, nodes, formatters, answers, stop, result)
}

/// A directive among the first nodes comes before those that follow.
pub proof fn lemma_count_grows(nodes: Seq<NodeView>, from: int, to: int)
    requires
        0 <= from <= to <= nodes.len(),
    ensures
        directive_count(nodes.take(from)) <= directive_count(nodes.take(to)),
        from < to && nodes[from] is Directive ==> directive_count(nodes.take(from))
            < directive_count(nodes.take(to)),
    decreases to - from,
{
    if from < to {
        assert(nodes.take(to).drop_last() == nodes.take(to - 1));
        lemma_count_grows(nodes, from, to - 1);
    }
}

/// One more node, with one more answer if it is a directive, and the
/// answers are still what the provider may give.
proof fn lemma_asked_step<P: Provider>(
    provider: &P,
    nodes: Seq<NodeView>,
    formatters: Seq<FormatterView>,
    answers: Seq<Answer>,
    more: Seq<Answer>,
    i: int,
)
    requires
        0 <= i < nodes.len(),
        asked(provider, nodes.take(i), formatters, answers),
        answers.len() == directive_count(nodes.take(i)),
        answers.len() <= more.len(),
        more.take(answers.len() as int) == answers,
        asked_at(provider, nodes.take(i + 1), formatters, more, i),
    ensures
        asked(provider, nodes.take(i + 1), formatters, more),
{
    let shorter = nodes.take(i);
    let longer = nodes.take(i + 1);
    assert forall|k: int| 0 <= k < longer.len() implies #[trigger] asked_at(
        provider,
        longer,
        formatters,
        more,
        k,
    ) by {
        if k < i {
            assert(asked_at(provider, shorter, formatters, answers, k));
            assert(longer[k] == shorter[k]);
            assert(longer.take(k) == shorter.take(k));
            lemma_count_grows(shorter, k, i);
            assert(shorter.take(i) == shorter);
            if shorter[k] is Directive {
                let index = directive_count(shorter.take(k)) as int;
                assert(more[index] == more.take(answers.len() as int)[index]);
            }
        }
    }
}

/// Renders the nodes of a template in document order. `formatters` holds
/// directives that were compiled before, for the first directives among
/// the nodes and in their order; a directive for which it holds none is
/// compiled when it is reached. For each directive the provider is asked
/// once, with the context of its formatter and its specifier as the key,
/// and what it returns goes through `Formatter::finish`. The first error
/// ends the rendering: nothing is returned of what was rendered before
/// it.
///
/// What the provider returns is its own: the result is what the nodes
/// render with the provider's answers, whatever they were; of the answers
/// it is known what the provider promises of them.
pub fn render<P: Provider>(ast: &Vec<AstNode>, formatters: &Vec<Formatter>, provider: &P) -> (r:
    CurlyFmtResult)
    ensures
        render_outcome(
            provider,
            nodes_view(ast@),
            formatters_view(formatters@),
            fmt_result_view(r),
        ),
{
    let ghost nodes = nodes_view(ast@);
    let ghost compiled = formatters_view(formatters@);
    let ghost mut answers: Seq<Answer> = Seq::empty();
    let mut out = String::new();
    let mut directives: usize = 0;
    let mut i: usize = 0;
    while i < ast.len()
        invariant
            i <= ast.len(),
            nodes == nodes_view(ast@),
            compiled == formatters_view(formatters@),
            directives == directive_count(nodes.take(i as int)),
            directives <= i,
            answers.len() == directives,
            rendered(nodes.take(i as int), compiled, answers) == Ok::<Seq<char>, ErrorView>(out@),
            asked(provider, nodes.take(i as int), compiled, answers),
        decreases ast.len() - i,
    {
        proof {
            assert(nodes.take(i + 1).drop_last() == nodes.take(i as int));
            assert(nodes.take(i + 1).last() == ast@[i as int]@);
            assert(nodes.take(i + 1).take(i as int) == nodes.take(i as int));
            assert(answers.take(answers.len() as int) == answers);
        }
        match &ast[i] {
            AstNode::Text(t) => {
                out.append(t.as_str());
                proof {
                    lemma_asked_step(provider, nodes, compiled, answers, answers, i as int);
                }
            },
            AstNode::Escaped(c) => {
                let ghost before = out@;
                push_char(&mut out, *c);
                proof {
                    assert(before.push(*c) == before + seq![*c]);
                    lemma_asked_step(provider, nodes, compiled, answers, answers, i as int);
                }
            },
            AstNode::Directive(d) => {
                let formatter = match select_formatter(d, directives, formatters) {
                    Ok(formatter) => formatter,
                    Err(e) => {
                        proof {
                            let padded = answers.push(Err(e@));
                            assert(padded.take(answers.len() as int) == answers);
                            lemma_rendered_agree(nodes.take(i as int), compiled, answers, padded);
                            lemma_asked_step(provider, nodes, compiled, answers, padded, i as int);
                            assert(stopped_at(
                                provider,
                                nodes,
                                compiled,
                                padded,
                                i + 1,
                                Err::<Seq<char>, ErrorView>(e@),
                            ));
                        }
                        return Err(e);
                    },
                };
                let key = d.specifier_text.as_str();
                let provided = provider.provide(&formatter.context, key);
                proof {
                    assert(call_ensures(P::provide, (provider, &formatter.context, key), provided));
                    let longer = answers.push(fmt_result_view(provided));
                    assert(longer.take(answers.len() as int) == answers);
                    assert(may_answer(
                        provider,
                        formatter@.context,
                        d@.specifier,
                        longer[directives as int],
                    ));
                    lemma_rendered_agree(nodes.take(i as int), compiled, answers, longer);
                    lemma_asked_step(provider, nodes, compiled, answers, longer, i as int);
                    answers = longer;
                }
                match formatter.finish(provided) {
                    Ok(text) => {
                        out.append(text.as_str());
                    },
                    Err(e) => {
                        proof {
                            assert(stopped_at(
                                provider,
                                nodes,
                                compiled,
                                answers,
                                i + 1,
                                Err::<Seq<char>, ErrorView>(e@),
                            ));
                        }
                        return Err(e);
                    },
                }
                directives += 1;
            },
        }
        i += 1;
    }
    proof {
        assert(nodes.take(ast.len() as int) == nodes);
        assert(stopped_at(
            provider,
            nodes,
            compiled,
            answers,
            nodes.len() as int,
            Ok::<Seq<char>, ErrorView>(out@),
        ));
    }
    Ok(out)
}

/// An error among the first `k` nodes is the error of all nodes.
pub proof fn lemma_rendered_error(
    nodes: Seq<NodeView>,
    formatters: Seq<FormatterView>,
    answers: Seq<Answer>,
    k: int,
)
    requires
        0 <= k <= nodes.len(),
        rendered(nodes.take(k), formatters, answers) is Err,
    ensures
        rendered(nodes, formatters, answers) == rendered(nodes.take(k), formatters, answers),
    decreases nodes.len() - k,
{
    if k < nodes.len() {
        assert(nodes.take(k + 1).drop_last() == nodes.take(k));
        lemma_rendered_error(nodes, formatters, answers, k + 1);
    } else {
        assert(nodes.take(k) == nodes);
    }
}

/// Only the answers for the directives among the nodes count.
pub proof fn lemma_rendered_agree(
    nodes: Seq<NodeView>,
    formatters: Seq<FormatterView>,
    first: Seq<Answer>,
    second: Seq<Answer>,
)
    requires
        forall|k: int| 0 <= k < directive_count(nodes) ==> first[k] == second[k],
    ensures
        rendered(nodes, formatters, first) == rendered(nodes, formatters, second),
    decreases nodes.len(),
{
    if nodes.len() > 0 {
        lemma_rendered_agree(nodes.drop_last(), formatters, first, second);
    }
}

/// The formatters of the directives among `nodes`, in their order, or the
/// error of the first directive that does not compile. Each directive is
/// compiled at its own position.
pub open spec fn compiled(nodes: Seq<NodeView>) -> Result<Seq<FormatterView>, ErrorView>
    decreases nodes.len(),
{
    if nodes.len() == 0 {
        Ok(Seq::empty())
    } else {
        match compiled(nodes.drop_last()) {
            Err(e) => Err(e),
            Ok(formatters) => match nodes.last() {
                NodeView::Directive(d) => match compile_spec(
                    d.prefix,
                    d.specifier,
                    d.postfix,
                    d.row,
                    d.col,
                ) {
                    Ok(f) => Ok(formatters.push(f)),
                    Err(e) => Err(e),
                },
                _ => Ok(formatters),
            },
        }
    }
}

/// The mathematical content of the result of compiling all directives.
pub open spec fn formatters_result_view(r: CurlyResult<Vec<Formatter>>) -> Result<
    Seq<FormatterView>,
    ErrorView,
> {
    match r {
        Ok(formatters) => Ok(formatters_view(formatters@)),
        Err(e) => Err(e@),
    }
}

/// An optional string as an optional slice.
pub fn as_text(o: &Option<String>) -> (r: Option<&str>)
    ensures
        option_str_view(r) == option_view(*o),
{
    match o {
        Some(s) => Some(s.as_str()),
        None => None,
    }
}

/// Compiles one directive at its own position.
pub fn compile_directive(directive: &Directive) -> (r: CurlyResult<Formatter>)
    ensures
        formatter_result_view(r) == compile_spec(
            directive@.prefix,
            directive@.specifier,
            directive@.postfix,
            directive@.row,
            directive@.col,
        ),
{
    compile_at(
        as_text(&directive.prefix_text),
        directive.specifier_text.as_str(),
        as_text(&directive.postfix_text),
        directive.position.row,
        directive.position.col,
    )
}

/// Compiles the directives among the nodes of a template, in document
/// order. The first directive that does not compile ends it.
pub fn compile_ast(ast: &Vec<AstNode>) -> (r: CurlyResult<Vec<Formatter>>)
    ensures
        formatters_result_view(r) == compiled(nodes_view(ast@)),
{
    let ghost nodes = nodes_view(ast@);
    let mut formatters: Vec<Formatter> = Vec::new();
    let mut i: usize = 0;
    assert(formatters_view(formatters@) =~= Seq::empty());
    while i < ast.len()
        invariant
            i <= ast.len(),
            nodes == nodes_view(ast@),
            compiled(nodes.take(i as int)) == Ok::<Seq<FormatterView>, ErrorView>(
                formatters_view(formatters@),
            ),
        decreases ast.len() - i,
    {
        proof {
            assert(nodes.take(i + 1).drop_last() == nodes.take(i as int));
            assert(nodes.take(i + 1).last() == ast@[i as int]@);
        }
        match &ast[i] {
            AstNode::Directive(d) => {
                match compile_directive(d) {
                    Ok(formatter) => {
                        proof {
                            lemma_formatters_view_push(formatters@, formatter);
                        }
                        formatters.push(formatter);
                    },
                    Err(e) => {
                        proof {
                            lemma_compiled_error(nodes, i + 1);
                        }
                        return Err(e);
                    },
                }
            },
            _ => {},
        }
        i += 1;
    }
    assert(nodes.take(ast.len() as int) == nodes);
    Ok(formatters)
}

/// An error among the first `k` nodes is the error of all nodes.
pub proof fn lemma_compiled_error(nodes: Seq<NodeView>, k: int)
    requires
        0 <= k <= nodes.len(),
        compiled(nodes.take(k)) is Err,
    ensures
        compiled(nodes) == compiled(nodes.take(k)),
    decreases nodes.len() - k,
{
    if k < nodes.len() {
        assert(nodes.take(k + 1).drop_last() == nodes.take(k));
        lemma_compiled_error(nodes, k + 1);
    } else {
        assert(nodes.take(k) == nodes);
    }
}

/// The nodes of a template: its rows are lexed and the tokens parsed, the
/// template taken as a document of its own.
pub open spec fn template_nodes(template: Seq<char>) -> Result<Seq<NodeView>, ErrorView> {
    match lex_spec(joined(grid_rows(template)), 0, 0) {
        Err(e) => Err(e),
        Ok(tokens) => parse_spec(tokens, 0, 0),
    }
}

/// Lexes and parses a template.
pub fn parse_template(template: &str) -> (r: CurlyResult<Vec<AstNode>>)
    ensures
        parse_result_view(r) == template_nodes(template@),
{
    let grid = PositionGrid::build(template);
    match lex(&grid, 0, 0) {
        Ok(tokens) => parse(&tokens, 0, 0),
        Err(e) => Err(e),
    }
}

/// What a template renders with a provider that answers as `source`
/// says.
pub open spec fn template_rendered_by(
    template: Seq<char>,
    source: spec_fn(ContextView, Seq<char>) -> Answer,
) -> Answer {
    match template_nodes(template) {
        Err(e) => Err(e),
        Ok(nodes) => rendered_by(nodes, Seq::empty(), source),
    }
}

/// Whether `result` is what rendering a template with the provider may
/// give: the error of lexing or parsing, or else what its nodes may give
/// when they are rendered with the provider.
pub open spec fn template_outcome<P: Provider>(
    provider: &P,
    template: Seq<char>,
    result: Answer,
) -> bool {
    match template_nodes(template) {
        Err(e) => result == Err::<Seq<char>, ErrorView>(e),
        Ok(nodes) => render_outcome(provider, nodes, Seq::empty(), result),
    }
}

/// Renders a template with the values of a provider: the template is
/// lexed and parsed, and then its nodes are rendered in document order,
/// as `render` does.
pub fn render_template<P: Provider>(template: &str, provider: &P) -> (r: CurlyFmtResult)
    ensures
        template_outcome(provider, template@, fmt_result_view(r)),
{
    match parse_template(template) {
        Ok(ast) => {
            let none: Vec<Formatter> = Vec::new();
            assert(formatters_view(none@) =~= Seq::<FormatterView>::empty());
            render(&ast, &none, provider)
        },
        Err(e) => Err(e),
    }
}

/// An error among the first `k` nodes is the error of all nodes.
pub proof fn lemma_rendered_by_error(
    nodes: Seq<NodeView>,
    formatters: Seq<FormatterView>,
    source: spec_fn(ContextView, Seq<char>) -> Answer,
    k: int,
)
    requires
        0 <= k <= nodes.len(),
        rendered_by(nodes.take(k), formatters, source) is Err,
    ensures
        rendered_by(nodes, formatters, source) == rendered_by(nodes.take(k), formatters, source),
    decreases nodes.len() - k,
{
    if k < nodes.len() {
        assert(nodes.take(k + 1).drop_last() == nodes.take(k));
        lemma_rendered_by_error(nodes, formatters, source, k + 1);
    } else {
        assert(nodes.take(k) == nodes);
    }
}

/// With answers that a provider may give, and a provider that answers as
/// `source` says, nodes render as they do by the source.
proof fn lemma_rendered_as_source<P: Provider>(
    provider: &P,
    nodes: Seq<NodeView>,
    formatters: Seq<FormatterView>,
    answers: Seq<Answer>,
    source: spec_fn(ContextView, Seq<char>) -> Answer,
)
    requires
        asked(provider, nodes, formatters, answers),
        obeys(provider, source),
    ensures
        rendered(nodes, formatters, answers) == rendered_by(nodes, formatters, source),
    decreases nodes.len(),
{
    if nodes.len() > 0 {
        let head = nodes.drop_last();
        assert forall|i: int| 0 <= i < head.len() implies #[trigger] asked_at(
            provider,
            head,
            formatters,
            answers,
            i,
        ) by {
            assert(asked_at(provider, nodes, formatters, answers, i));
            assert(head.take(i) == nodes.take(i));
        }
        lemma_rendered_as_source(provider, head, formatters, answers, source);
        assert(asked_at(provider, nodes, formatters, answers, nodes.len() - 1));
        assert(nodes.take(nodes.len() - 1) == head);
    }
}

/// What rendering gives is what the nodes render with some answers.
pub proof fn lemma_outcome_rendered<P: Provider>(
    provider: &P,
    nodes: Seq<NodeView>,
    formatters: Seq<FormatterView>,
    result: Answer,
)
    requires
        render_outcome(provider, nodes, formatters, result),
    ensures
        exists|answers: Seq<Answer>| result == #[trigger] rendered(nodes, formatters, answers),
{
    let (answers, stop) = choose|answers: Seq<Answer>, stop: int| #[trigger]
        stopped_at(provider, nodes, formatters, answers, stop, result);
    if stop < nodes.len() {
        lemma_rendered_error(nodes, formatters, answers, stop);
    } else {
        assert(nodes.take(stop) == nodes);
    }
    assert(result == rendered(nodes, formatters, answers));
}

/// With a provider that answers as `source` says, rendering is exact: it
/// gives what the nodes render by the source.
pub proof fn lemma_outcome_exact<P: Provider>(
    provider: &P,
    nodes: Seq<NodeView>,
    formatters: Seq<FormatterView>,
    result: Answer,
    source: spec_fn(ContextView, Seq<char>) -> Answer,
)
    requires
        render_outcome(provider, nodes, formatters, result),
        obeys(provider, source),
    ensures
        result == rendered_by(nodes, formatters, source),
{
    let (answers, stop) = choose|answers: Seq<Answer>, stop: int| #[trigger]
        stopped_at(provider, nodes, formatters, answers, stop, result);
    lemma_rendered_as_source(provider, nodes.take(stop), formatters, answers, source);
    if stop < nodes.len() {
        lemma_rendered_by_error(nodes, formatters, source, stop);
    } else {
        assert(nodes.take(stop) == nodes);
    }
}

impl Values {
    /// Renders a template with these values.
    pub fn render(&self, template: &str) -> (r: CurlyFmtResult)
        ensures
            fmt_result_view(r) == template_rendered_by(template@, values_source(self@)),
    {
        let r = render_template(template, self);
        proof {
            lemma_values_obey(self);
            match template_nodes(template@) {
                Ok(nodes) => {
                    lemma_outcome_exact(
                        self,
                        nodes,
                        Seq::empty(),
                        fmt_result_view(r),
                        values_source(self@),
                    );
                },
                Err(_) => {},
            }
        }
        r
    }
}

/// The formatter of a segment that holds one directive and nothing else,
/// and starts at `base_row`:`base_col` of a document.
pub open spec fn segment_formatter(segment: Seq<char>, base_row: int, base_col: int) -> Result<
    FormatterView,
    ErrorView,
> {
    let text = joined(grid_rows(segment));
    match lex_spec(text, base_row, base_col) {
        Err(e) => Err(e),
        Ok(tokens) => match parse_spec(tokens, base_row, base_col) {
            Err(e) => Err(e),
            Ok(nodes) => if nodes.len() == 1 && nodes[0] is Directive {
                compile_spec(
                    nodes[0]->Directive_0.prefix,
                    nodes[0]->Directive_0.specifier,
                    nodes[0]->Directive_0.postfix,
                    base_row,
                    base_col,
                )
            } else {
                Err(
                    ErrorView::Syntax(
                        syntax_message(
                            description(Expected::SingleDirective),
                            absolute(base_row, base_col, (0, 0)),
                            text,
                            (0, 0),
                        ),
                    ),
                )
            },
        },
    }
}

/// The context of a segment that holds one directive and nothing else.
pub open spec fn segment_context(segment: Seq<char>, base_row: int, base_col: int) -> Result<
    ContextView,
    ErrorView,
> {
    match segment_formatter(segment, base_row, base_col) {
        Ok(f) => Ok(f.context),
        Err(e) => Err(e),
    }
}

/// The mathematical content of the result of `CurlyContext::from_segment`.
pub open spec fn context_result_view(r: CurlyResult<CurlyContext>) -> Result<
    ContextView,
    ErrorView,
> {
    match r {
        Ok(c) => Ok(c@),
        Err(e) => Err(e@),
    }
}

impl Formatter {
    /// Compiles a segment: the text of one directive, from its opening
    /// braces to its closing braces. `base_row` and `base_col` say where
    /// the segment starts in its document.
    pub fn from_segment(segment: &str, base_row: usize, base_col: usize) -> (r: CurlyResult<
        Formatter,
    >)
        ensures
            formatter_result_view(r) == segment_formatter(
                segment@,
                base_row as int,
                base_col as int,
            ),
    {
        let grid = PositionGrid::build(segment);
        let tokens = match lex(&grid, base_row, base_col) {
            Ok(tokens) => tokens,
            Err(e) => {
                return Err(e);
            },
        };
        let ast = match parse(&tokens, base_row, base_col) {
            Ok(ast) => ast,
            Err(e) => {
                return Err(e);
            },
        };
        if ast.len() == 1 {
            match &ast[0] {
                AstNode::Directive(d) => {
                    return compile_at(
                        as_text(&d.prefix_text),
                        d.specifier_text.as_str(),
                        as_text(&d.postfix_text),
                        base_row,
                        base_col,
                    );
                },
                _ => {},
            }
        }
        let text = text_of(&grid.text());
        Err(
            syntax_error(
                describe(Expected::SingleDirective),
                base_row,
                base_col,
                text.as_str(),
                Position { row: 0, col: 0 },
            ),
        )
    }
}

impl CurlyContext {
    /// The formatting context of a segment: the text of one directive, from
    /// its opening braces to its closing braces. `base_row` and `base_col`
    /// say where the segment starts in its document.
    pub fn from_segment(format_segment: &str, base_row: usize, base_col: usize) -> (r:
        CurlyResult<Self>)
        ensures
            context_result_view(r) == segment_context(
                format_segment@,
                base_row as int,
                base_col as int,
            ),
    {
        match Formatter::from_segment(format_segment, base_row, base_col) {
            Ok(formatter) => Ok(formatter.context),
            Err(e) => Err(e),
        }
    }
}

} // verus!

//! The closed set of failures that the engine reports.

use crate::text::{
    absolute, decimal, pos_of, position_at, push_char, push_decimal, text_of, Position,
};
use vstd::prelude::*;
use vstd::string::StringExecFns;

verus! {

/// An error message.
#[derive(Debug, Eq, PartialEq, Clone, Hash, Default)]
pub struct CurlyError {
    msg: String,
}

impl View for CurlyError {
    type V = Seq<char>;

    closed spec fn view(&self) -> Seq<char> {
        self.msg@
    }
}

impl CurlyError {
    /// An error that carries `msg`.
    pub fn from(msg: String) -> (e: Self)
        ensures
            e@ == msg@,
    {
        CurlyError { msg }
    }

    /// A boxed error that carries `msg`.
    pub fn from_boxed(msg: String) -> (e: Box<Self>)
        ensures
            e@ == msg@,
    {
        Box::new(CurlyError { msg })
    }

    /// The message of this error.
    pub fn message(&self) -> (s: &str)
        ensures
            s@ == self@,
    {
        self.msg.as_str()
    }

    /// The text shown for this error: its message.
    pub fn to_string(&self) -> (s: String)
        ensures
            s@ == self@,
    {
        self.msg.clone()
    }

    /// The error that `From` makes of a message carries the message.
    pub proof fn lemma_from_carries(msg: String)
        ensures
            <CurlyError as vstd::std_specs::convert::FromSpec<String>>::from_spec(msg)@ == msg@,
    {
    }
}

impl From<String> for CurlyError {
    fn from(msg: String) -> (e: Self) {
        CurlyError { msg }
    }
}

impl vstd::std_specs::convert::FromSpecImpl<String> for CurlyError {
    open spec fn obeys_from_spec() -> bool {
        true
    }

    closed spec fn from_spec(msg: String) -> Self {
        CurlyError { msg }
    }
}

/// What went wrong, by kind.
#[derive(Debug, Eq, PartialEq, Clone)]
pub enum CurlyErrorKind {
    /// A key that no provider in the chain knows.
    Generic(Box<CurlyError>),
    /// A malformed template or directive.
    Syntax(Box<CurlyError>),
    /// A state that the grammar should make impossible.
    Internal(Box<CurlyError>),
}

/// The mathematical content of a `CurlyErrorKind`: the kind with its message.
pub enum ErrorView {
    Generic(Seq<char>),
    Syntax(Seq<char>),
    Internal(Seq<char>),
}

impl View for CurlyErrorKind {
    type V = ErrorView;

    open spec fn view(&self) -> ErrorView {
        match self {
            CurlyErrorKind::Generic(e) => ErrorView::Generic(e@),
            CurlyErrorKind::Syntax(e) => ErrorView::Syntax(e@),
            CurlyErrorKind::Internal(e) => ErrorView::Internal(e@),
        }
    }
}

/// A result whose error is a `CurlyErrorKind`.
pub type CurlyResult<T> = Result<T, CurlyErrorKind>;

/// The result of formatting: the rendered text or the failure.
pub type CurlyFmtResult = CurlyResult<String>;

/// The mathematical content of a formatting result: the rendered text or
/// the failure. It is also what a provider answers.
pub type Answer = Result<Seq<char>, ErrorView>;

/// The mathematical content of a formatting result.
pub open spec fn fmt_result_view(r: CurlyFmtResult) -> Answer {
    match r {
        Ok(s) => Ok(s@),
        Err(e) => Err(e@),
    }
}

/// The message inside an error, whatever its kind.
pub open spec fn message_of(e: ErrorView) -> Seq<char> {
    match e {
        ErrorView::Generic(m) => m,
        ErrorView::Syntax(m) => m,
        ErrorView::Internal(m) => m,
    }
}

/// The text shown for an error: a heading that names the kind, then the
/// message.
pub open spec fn display_text(e: ErrorView) -> Seq<char> {
    match e {
        ErrorView::Generic(m) => "Error: "@ + m,
        ErrorView::Syntax(m) => "Syntax Error: "@ + m,
        ErrorView::Internal(m) => "Internal Error: "@ + m,
    }
}

/// The message of a syntax error: what was expected, where in the document,
/// the segment at fault and where in that segment.
pub open spec fn syntax_message(
    expected: Seq<char>,
    at: (int, int),
    segment: Seq<char>,
    within: (int, int),
) -> Seq<char> {
    "Expected "@ + expected + " at "@ + decimal(at.0 as nat) + ":"@ + decimal(at.1 as nat)
        + " (error is within segment '"@ + segment + "' at "@ + decimal(within.0 as nat) + ":"@
        + decimal(within.1 as nat) + ")"@
}

/// The message for a key that no provider knows.
pub open spec fn unknown_key_message(key: Seq<char>) -> Seq<char> {
    "Invalid format specifier `"@ + key + "`."@
}

/// The message of every internal error.
pub open spec fn unreachable_message() -> Seq<char> {
    "Unreachable!"@
}

impl CurlyErrorKind {
    /// The message of this error, without the heading of its kind.
    pub fn message(&self) -> (s: &str)
        ensures
            s@ == message_of(self@),
    {
        match self {
            CurlyErrorKind::Generic(e) => e.message(),
            CurlyErrorKind::Syntax(e) => e.message(),
            CurlyErrorKind::Internal(e) => e.message(),
        }
    }

    /// The text shown for this error.
    pub fn to_string(&self) -> (s: String)
        ensures
            s@ == display_text(self@),
    {
        match self {
            CurlyErrorKind::Generic(e) => String::from_str("Error: ").concat(e.message()),
            CurlyErrorKind::Syntax(e) => String::from_str("Syntax Error: ").concat(e.message()),
            CurlyErrorKind::Internal(e) => String::from_str("Internal Error: ").concat(
                e.message(),
            ),
        }
    }
}

/// A syntax error for something expected at `within`, a position inside
/// `segment`; the segment itself starts at `base_row`:`base_col` of the
/// document.
pub fn syntax_error(
    expected: &str,
    base_row: usize,
    base_col: usize,
    segment: &str,
    within: Position,
) -> (e: CurlyErrorKind)
    ensures
        e@ == ErrorView::Syntax(
            syntax_message(
                expected@,
                absolute(base_row as int, base_col as int, (within.row as int, within.col as int)),
                segment@,
                (within.row as int, within.col as int),
            ),
        ),
{
    let row: u128 = base_row as u128 + within.row as u128;
    let col: u128 = if within.row == 0 {
        base_col as u128 + within.col as u128
    } else {
        within.col as u128
    };
    let mut msg = String::from_str("Expected ");
    msg.append(expected);
    msg.append(" at ");
    push_decimal(&mut msg, row);
    msg.append(":");
    push_decimal(&mut msg, col);
    msg.append(" (error is within segment '");
    msg.append(segment);
    msg.append("' at ");
    push_decimal(&mut msg, within.row as u128);
    msg.append(":");
    push_decimal(&mut msg, within.col as u128);
    msg.append(")");
    CurlyErrorKind::Syntax(CurlyError::from_boxed(msg))
}

/// The error for a key that no provider knows.
pub fn unknown_key_error(key: &str) -> (e: CurlyErrorKind)
    ensures
        e@ == ErrorView::Generic(unknown_key_message(key@)),
{
    let mut msg = String::from_str("Invalid format specifier `");
    msg.append(key);
    msg.append("`.");
    CurlyErrorKind::Generic(CurlyError::from_boxed(msg))
}

/// The error for a state that should be impossible.
pub fn unreachable_error() -> (e: CurlyErrorKind)
    ensures
        e@ == ErrorView::Internal(unreachable_message()),
{
    CurlyErrorKind::Internal(CurlyError::from_boxed(String::from_str("Unreachable!")))
}

/// What was expected where reading stopped.
#[derive(Debug, Clone, Copy, PartialEq, Eq, Hash, Structural)]
pub enum Expected {
    /// The character that a backslash escapes.
    EscapedCharacter,
    /// One of the three characters that may be escaped.
    EscapableCharacter,
    /// Two braces that open a directive, where one brace stands alone.
    DirectiveOpening,
    /// The key of a directive.
    Specifier,
    /// The end of the first run of a directive.
    PrefixEnd,
    /// The end of the specifier.
    SpecifierEnd,
    /// The two braces that close a directive.
    DirectiveEnd,
    /// A single directive and nothing else.
    SingleDirective,
    /// The digits of a precision.
    PrecisionDigit,
    /// A width or precision that a machine word can hold.
    SmallerNumber,
    /// A character that the postfix grammar knows.
    PostfixFlag,
    /// A prefix character that a boolean knows.
    BooleanFlag,
}

/// The words that describe what was expected.
pub open spec fn description(expected: Expected) -> Seq<char> {
    match expected {
        Expected::EscapedCharacter => "an escaped character"@,
        Expected::EscapableCharacter => "one of `\\`, `{` or `}` after `\\`"@,
        Expected::DirectiveOpening => "`{{` (a single brace must be escaped)"@,
        Expected::Specifier => "a specifier"@,
        Expected::PrefixEnd => "`:`, `/` or `}}`"@,
        Expected::SpecifierEnd => "`/` or `}}`"@,
        Expected::DirectiveEnd => "`}}`"@,
        Expected::SingleDirective => "a single directive"@,
        Expected::PrecisionDigit => "a digit after `.`"@,
        Expected::SmallerNumber => "a number that fits a machine word"@,
        Expected::PostfixFlag => "one of `<`, `^`, `>`, `!`, `_`, `-` or a digit"@,
        Expected::BooleanFlag => "one of `q`, `Q` or `!`"@,
    }
}

/// The words that describe what was expected.
pub fn describe(expected: Expected) -> (words: &'static str)
    ensures
        words@ == description(expected),
{
    match expected {
        Expected::EscapedCharacter => "an escaped character",
        Expected::EscapableCharacter => "one of `\\`, `{` or `}` after `\\`",
        Expected::DirectiveOpening => "`{{` (a single brace must be escaped)",
        Expected::Specifier => "a specifier",
        Expected::PrefixEnd => "`:`, `/` or `}}`",
        Expected::SpecifierEnd => "`/` or `}}`",
        Expected::DirectiveEnd => "`}}`",
        Expected::SingleDirective => "a single directive",
        Expected::PrecisionDigit => "a digit after `.`",
        Expected::SmallerNumber => "a number that fits a machine word",
        Expected::PostfixFlag => "one of `<`, `^`, `>`, `!`, `_`, `-` or a digit",
        Expected::BooleanFlag => "one of `q`, `Q` or `!`",
    }
}

/// Where and why reading stopped: `at` counts the tokens, or the
/// characters, that were read without fault.
#[derive(Debug, Clone, Copy, PartialEq, Eq, Hash)]
pub struct Fault {
    pub expected: Expected,
    pub at: usize,
}

/// The mathematical content of a `Fault`.
pub struct FaultView {
    pub expected: Expected,
    pub at: int,
}

impl View for Fault {
    type V = FaultView;

    open spec fn view(&self) -> FaultView {
        FaultView { expected: self.expected, at: self.at as int }
    }
}

/// A fault at index `at`.
pub open spec fn fault(expected: Expected, at: int) -> FaultView {
    FaultView { expected, at }
}

/// `done` followed by what the rest of the input gave, unless that failed.
pub open spec fn extended<A>(done: Seq<A>, rest: Result<Seq<A>, FaultView>) -> Result<
    Seq<A>,
    FaultView,
> {
    match rest {
        Ok(more) => Ok(done + more),
        Err(f) => Err(f),
    }
}

/// `first` followed by what the rest of the input gave, unless that failed.
pub open spec fn with_first<A>(first: A, rest: Result<Seq<A>, FaultView>) -> Result<
    Seq<A>,
    FaultView,
> {
    extended(seq![first], rest)
}

/// One more item in front of the rest is one more item after what is
/// done.
pub proof fn lemma_extended_step<A>(done: Seq<A>, first: A, rest: Result<Seq<A>, FaultView>)
    ensures
        extended(done, with_first(first, rest)) == extended(done.push(first), rest),
{
    match rest {
        Ok(more) => {
            assert(done + (seq![first] + more) =~= done.push(first) + more);
        },
        Err(f) => {},
    }
}

/// What was expected, and the character that stands at `offset` of
/// `segment` in its place.
pub open spec fn found_message(expected: Expected, segment: Seq<char>, offset: int) -> Seq<char> {
    description(expected) + ", found `"@ + seq![segment[offset]] + "`"@
}

/// The syntax error for the character at `offset` of `segment`, a segment
/// that starts at `base_row`:`base_col` of its document.
pub open spec fn found_error_view(
    expected: Expected,
    base_row: int,
    base_col: int,
    segment: Seq<char>,
    offset: int,
) -> ErrorView {
    ErrorView::Syntax(
        syntax_message(
            found_message(expected, segment, offset),
            absolute(base_row, base_col, pos_of(segment, offset)),
            segment,
            pos_of(segment, offset),
        ),
    )
}

/// The syntax error for the character at `offset` of `segment`: it names
/// what was expected and the character found, and places it in the segment
/// and in the document.
pub fn found_error(
    expected: Expected,
    base_row: usize,
    base_col: usize,
    segment: &Vec<char>,
    offset: usize,
) -> (e: CurlyErrorKind)
    requires
        offset < segment.len(),
    ensures
        e@ == found_error_view(expected, base_row as int, base_col as int, segment@, offset as int),
{
    let mut words = String::from_str(describe(expected));
    words.append(", found `");
    push_char(&mut words, segment[offset]);
    words.append("`");
    assert(words@ =~= found_message(expected, segment@, offset as int));
    let text = text_of(segment);
    let within = position_at(segment, offset);
    syntax_error(words.as_str(), base_row, base_col, text.as_str(), within)
}

} // verus!

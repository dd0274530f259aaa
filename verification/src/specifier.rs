//! The specifier compiler: from the raw prefix and postfix text of a
//! directive to its flags.

use crate::errors::{
    extended, fault, fmt_result_view, found_error, found_error_view, lemma_extended_step,
    with_first, Answer, CurlyErrorKind, CurlyFmtResult, CurlyResult, ErrorView, Expected, Fault,
    FaultView,
};
use crate::formatting::{
    align_or, alignment_or, default_flags, pad, padded, Alignment, ContextView, CurlyContext,
    CurlyFlags, NumberType, Sign,
};
use crate::text::{
    chars_of, lowercase_of, option_view, push_char, push_range, text_of_range, to_lower,
    to_upper, uppercase_of,
};
use vstd::prelude::*;
use vstd::string::StringExecFns;

verus! {

/// One flag of a prefix, as read.
#[derive(Debug, Clone, Copy, PartialEq, Eq, Hash)]
pub enum PreFlag {
    /// `<`, `^` or `>`
    Align(Alignment),
    /// A run of digits.
    Width(usize),
    /// `.` and a run of digits.
    Precision(usize),
    /// `+` or `-`
    NumeralSign(Sign),
    /// `#`
    Alternate,
    /// `?`
    Debug,
    /// `0` where a run of digits would start.
    Zero,
    /// `$`, reserved.
    Plurality,
    /// One of `o x X p b e E`.
    Numeral(NumberType),
    /// Any other character: a custom flag.
    Other(char),
}

/// One flag of a postfix, as read.
#[derive(Debug, Clone, Copy, PartialEq, Eq, Hash)]
pub enum PostFlag {
    /// `<`, `^` or `>`
    Align(Alignment),
    /// A run of digits.
    Width(usize),
    /// Any other character, at the start of the postfix.
    PadChar(char),
    /// `!`
    ToUpper,
    /// `_`
    ToLower,
    /// `-`
    ToCapital,
}

/// What a postfix does to the rendered text besides aligning it.
#[derive(Debug, Clone, Copy, PartialEq, Eq, Hash)]
pub enum PostEffect {
    /// Pad with this character.
    Pad(char),
    /// Write every character in upper case.
    Upper,
    /// Write every character in lower case.
    Lower,
    /// Write the first character in upper case.
    Capital,
}

/// What the postfix of a directive asks for.
#[derive(Debug, Clone, Copy, PartialEq, Eq, Hash)]
pub struct PostTransform {
    /// Where padding goes.
    pub align: Option<Alignment>,
    /// The least number of characters to write.
    pub width: Option<usize>,
    /// The one effect that applies: the first that the postfix names.
    pub effect: Option<PostEffect>,
}

/// Whether a character is a decimal digit.
pub open spec fn is_digit(c: char) -> bool {
    '0' <= c && c <= '9'
}

/// The number that a decimal digit stands for.
pub open spec fn digit_value(c: char) -> nat {
    (c as int - '0' as int) as nat
}

/// The offset of the first character at or after `from` that is no digit.
pub open spec fn digits_end(text: Seq<char>, from: int) -> int
    decreases text.len() - from,
{
    if from < 0 || from >= text.len() || !is_digit(text[from]) {
        from
    } else {
        digits_end(text, from + 1)
    }
}

/// The number that the digits `text[from..to]` write in decimal.
pub open spec fn digits_value(text: Seq<char>, from: int, to: int) -> nat
    decreases to - from,
{
    if from >= to {
        0
    } else {
        digits_value(text, from, to - 1) * 10 + digit_value(text[to - 1])
    }
}

/// A run of digits ends at or after its start and within the text, and
/// after its start if a digit stands there.
pub proof fn lemma_digits_end_bounds(text: Seq<char>, from: int)
    requires
        0 <= from <= text.len(),
    ensures
        from <= digits_end(text, from) <= text.len(),
        from < text.len() && is_digit(text[from]) ==> from < digits_end(text, from),
    decreases text.len() - from,
{
    if from < text.len() && is_digit(text[from]) {
        lemma_digits_end_bounds(text, from + 1);
    }
}

/// The flag of a prefix character that stands for itself.
pub open spec fn simple_pre_flag(c: char) -> PreFlag {
    if c == '<' {
        PreFlag::Align(Alignment::Left)
    } else if c == '^' {
        PreFlag::Align(Alignment::Center)
    } else if c == '>' {
        PreFlag::Align(Alignment::Right)
    } else if c == '+' {
        PreFlag::NumeralSign(Sign::Plus)
    } else if c == '-' {
        PreFlag::NumeralSign(Sign::Minus)
    } else if c == '#' {
        PreFlag::Alternate
    } else if c == '?' {
        PreFlag::Debug
    } else if c == '0' {
        PreFlag::Zero
    } else if c == '$' {
        PreFlag::Plurality
    } else if c == 'o' {
        PreFlag::Numeral(NumberType::Octal)
    } else if c == 'x' {
        PreFlag::Numeral(NumberType::LowerHex)
    } else if c == 'X' {
        PreFlag::Numeral(NumberType::UpperHex)
    } else if c == 'p' {
        PreFlag::Numeral(NumberType::Pointer)
    } else if c == 'b' {
        PreFlag::Numeral(NumberType::Binary)
    } else if c == 'e' {
        PreFlag::Numeral(NumberType::LowerExp)
    } else if c == 'E' {
        PreFlag::Numeral(NumberType::UpperExp)
    } else {
        PreFlag::Other(c)
    }
}

/// The prefix flag for a width.
pub open spec fn width_flag(value: nat) -> PreFlag {
    PreFlag::Width(value as usize)
}

/// The prefix flag for a precision.
pub open spec fn precision_flag(value: nat) -> PreFlag {
    PreFlag::Precision(value as usize)
}

/// The flags of `text[from..]`, read from left to right. A run of digits
/// that starts with a digit other than `0` is a width; `.` and the run of
/// digits after it are a precision; every other character is one flag. The
/// faults: a `.` with no digit after it, and a number too large for a
/// machine word.
pub open spec fn pre_flags_from(text: Seq<char>, from: int) -> Result<Seq<PreFlag>, FaultView>
    decreases text.len() - from,
{
    if from < 0 || from >= text.len() {
        Ok(Seq::empty())
    } else if is_digit(text[from]) && text[from] != '0' {
        proof {
            lemma_digits_end_bounds(text, from);
        }
        let end = digits_end(text, from);
        let value = digits_value(text, from, end);
        if value > usize::MAX {
            Err(fault(Expected::SmallerNumber, from))
        } else {
            with_first(width_flag(value), pre_flags_from(text, end))
        }
    } else if text[from] == '.' {
        proof {
            lemma_digits_end_bounds(text, from + 1);
        }
        let end = digits_end(text, from + 1);
        let value = digits_value(text, from + 1, end);
        if end == from + 1 {
            Err(fault(Expected::PrecisionDigit, from + 1))
        } else if value > usize::MAX {
            Err(fault(Expected::SmallerNumber, from + 1))
        } else {
            with_first(precision_flag(value), pre_flags_from(text, end))
        }
    } else {
        with_first(simple_pre_flag(text[from]), pre_flags_from(text, from + 1))
    }
}

/// The flags after one more flag of a prefix. Of a flag that is given more
/// than once, the last counts.
pub open spec fn apply_pre(flags: CurlyFlags, flag: PreFlag) -> CurlyFlags {
    match flag {
        PreFlag::Align(a) => CurlyFlags { align: Some(a), ..flags },
        PreFlag::Width(n) => CurlyFlags { width: Some(n), ..flags },
        PreFlag::Precision(n) => CurlyFlags { precision: Some(n), ..flags },
        PreFlag::NumeralSign(s) => CurlyFlags { sign: Some(s), ..flags },
        PreFlag::Alternate => CurlyFlags { alternate: true, ..flags },
        PreFlag::Debug => CurlyFlags { debug_mode: true, ..flags },
        PreFlag::Zero => CurlyFlags { zero_pad: true, ..flags },
        PreFlag::Plurality => flags,
        PreFlag::Numeral(t) => CurlyFlags { number_type: t, ..flags },
        PreFlag::Other(_) => flags,
    }
}

/// The flags that a sequence of prefix flags sets.
pub open spec fn flags_of(pre: Seq<PreFlag>) -> CurlyFlags
    decreases pre.len(),
{
    if pre.len() == 0 {
        default_flags()
    } else {
        apply_pre(flags_of(pre.drop_last()), pre.last())
    }
}

/// The custom flags among a sequence of prefix flags, in their order.
pub open spec fn custom_of(pre: Seq<PreFlag>) -> Seq<char>
    decreases pre.len(),
{
    if pre.len() == 0 {
        Seq::empty()
    } else {
        match pre.last() {
            PreFlag::Other(c) => custom_of(pre.drop_last()).push(c),
            _ => custom_of(pre.drop_last()),
        }
    }
}

/// The flag of a postfix character that stands for itself, if it is one.
pub open spec fn simple_post_flag(c: char) -> Option<PostFlag> {
    if c == '<' {
        Some(PostFlag::Align(Alignment::Left))
    } else if c == '^' {
        Some(PostFlag::Align(Alignment::Center))
    } else if c == '>' {
        Some(PostFlag::Align(Alignment::Right))
    } else if c == '!' {
        Some(PostFlag::ToUpper)
    } else if c == '_' {
        Some(PostFlag::ToLower)
    } else if c == '-' {
        Some(PostFlag::ToCapital)
    } else {
        None
    }
}

/// The postfix flag for a width.
pub open spec fn post_width_flag(value: nat) -> PostFlag {
    PostFlag::Width(value as usize)
}

/// The postfix flag for a pad character.
pub open spec fn pad_flag(c: char) -> PostFlag {
    PostFlag::PadChar(c)
}

/// The flags of `text[from..]`, read from left to right. A run of digits
/// is a width; `<`, `^`, `>`, `!`, `_` and `-` are one flag each. Any other
/// character is a pad character if it is the first of the postfix, and a
/// fault elsewhere. A number too large for a machine word is a fault.
pub open spec fn post_flags_from(text: Seq<char>, from: int) -> Result<Seq<PostFlag>, FaultView>
    decreases text.len() - from,
{
    if from < 0 || from >= text.len() {
        Ok(Seq::empty())
    } else if is_digit(text[from]) {
        proof {
            lemma_digits_end_bounds(text, from);
        }
        let end = digits_end(text, from);
        let value = digits_value(text, from, end);
        if value > usize::MAX {
            Err(fault(Expected::SmallerNumber, from))
        } else {
            with_first(post_width_flag(value), post_flags_from(text, end))
        }
    } else {
        match simple_post_flag(text[from]) {
            Some(flag) => with_first(flag, post_flags_from(text, from + 1)),
            None => if from == 0 {
                with_first(pad_flag(text[from]), post_flags_from(text, from + 1))
            } else {
                Err(fault(Expected::PostfixFlag, from))
            },
        }
    }
}

/// The transform that asks for nothing.
pub open spec fn no_transform() -> PostTransform {
    PostTransform { align: None, width: None, effect: None }
}

/// The effect that a postfix flag names, if it names one.
pub open spec fn effect_of(flag: PostFlag) -> Option<PostEffect> {
    match flag {
        PostFlag::PadChar(c) => Some(PostEffect::Pad(c)),
        PostFlag::ToUpper => Some(PostEffect::Upper),
        PostFlag::ToLower => Some(PostEffect::Lower),
        PostFlag::ToCapital => Some(PostEffect::Capital),
        _ => None,
    }
}

/// The transform after one more flag of a postfix. The first alignment, the
/// first width and the first effect count; what follows them is read and
/// left aside.
pub open spec fn apply_post(transform: PostTransform, flag: PostFlag) -> PostTransform {
    match flag {
        PostFlag::Align(a) => if transform.align is None {
            PostTransform { align: Some(a), ..transform }
        } else {
            transform
        },
        PostFlag::Width(n) => if transform.width is None {
            PostTransform { width: Some(n), ..transform }
        } else {
            transform
        },
        _ => if transform.effect is None {
            PostTransform { effect: effect_of(flag), ..transform }
        } else {
            transform
        },
    }
}

/// The transform that a sequence of postfix flags asks for.
pub open spec fn transform_of(post: Seq<PostFlag>) -> PostTransform
    decreases post.len(),
{
    if post.len() == 0 {
        no_transform()
    } else {
        apply_post(transform_of(post.drop_last()), post.last())
    }
}

/// The mathematical content of a scanning result.
pub open spec fn scan_view<A>(r: Result<Vec<A>, Fault>) -> Result<Seq<A>, FaultView> {
    match r {
        Ok(flags) => Ok(flags@),
        Err(f) => Err(f@),
    }
}

/// Whether a character is a decimal digit.
pub fn digit(c: char) -> (b: bool)
    ensures
        b == is_digit(c),
{
    '0' <= c && c <= '9'
}

/// The value of a decimal digit.
fn value_of_digit(c: char) -> (d: usize)
    requires
        is_digit(c),
    ensures
        d == digit_value(c),
        d <= 9,
{
    (c as u32 - '0' as u32) as usize
}

/// Reads the run of digits that starts at `from`: where it ends, and the
/// number it writes if a machine word can hold it.
fn scan_number(text: &Vec<char>, from: usize) -> (run: (usize, Option<usize>))
    requires
        from <= text.len(),
    ensures
        run.0 == digits_end(text@, from as int),
        from <= run.0 <= text.len(),
        run.1 matches Some(v) ==> v == digits_value(text@, from as int, run.0 as int),
        run.1 is None ==> digits_value(text@, from as int, run.0 as int) > usize::MAX,
{
    let n = text.len();
    let mut i: usize = from;
    let mut value: Option<usize> = Some(0);
    while i < n && digit(text[i])
        invariant
            n == text.len(),
            from <= i <= n,
            digits_end(text@, from as int) == digits_end(text@, i as int),
            value matches Some(v) ==> v == digits_value(text@, from as int, i as int),
            value is None ==> digits_value(text@, from as int, i as int) > usize::MAX,
        decreases n - i,
    {
        let d = value_of_digit(text[i]);
        value =
        match value {
            Some(v) => if v > (usize::MAX - d) / 10 {
                None
            } else {
                Some(v * 10 + d)
            },
            None => None,
        };
        i += 1;
    }
    (i, value)
}

/// The flag of a prefix character that stands for itself.
fn simple_flag(c: char) -> (flag: PreFlag)
    ensures
        flag == simple_pre_flag(c),
{
    if c == '<' {
        PreFlag::Align(Alignment::Left)
    } else if c == '^' {
        PreFlag::Align(Alignment::Center)
    } else if c == '>' {
        PreFlag::Align(Alignment::Right)
    } else if c == '+' {
        PreFlag::NumeralSign(Sign::Plus)
    } else if c == '-' {
        PreFlag::NumeralSign(Sign::Minus)
    } else if c == '#' {
        PreFlag::Alternate
    } else if c == '?' {
        PreFlag::Debug
    } else if c == '0' {
        PreFlag::Zero
    } else if c == '$' {
        PreFlag::Plurality
    } else if c == 'o' {
        PreFlag::Numeral(NumberType::Octal)
    } else if c == 'x' {
        PreFlag::Numeral(NumberType::LowerHex)
    } else if c == 'X' {
        PreFlag::Numeral(NumberType::UpperHex)
    } else if c == 'p' {
        PreFlag::Numeral(NumberType::Pointer)
    } else if c == 'b' {
        PreFlag::Numeral(NumberType::Binary)
    } else if c == 'e' {
        PreFlag::Numeral(NumberType::LowerExp)
    } else if c == 'E' {
        PreFlag::Numeral(NumberType::UpperExp)
    } else {
        PreFlag::Other(c)
    }
}

/// Reads the flags of a prefix.
pub fn scan_pre_flags(text: &Vec<char>) -> (r: Result<Vec<PreFlag>, Fault>)
    ensures
        scan_view(r) == pre_flags_from(text@, 0),
        r matches Err(f) ==> f.at <= text.len(),
{
    let n = text.len();
    let mut flags: Vec<PreFlag> = Vec::new();
    let mut i: usize = 0;
    while i < n
        invariant
            n == text.len(),
            i <= n,
            extended(flags@, pre_flags_from(text@, i as int)) == pre_flags_from(text@, 0),
        decreases n - i,
    {
        let c = text[i];
        let ghost before = flags@;
        if digit(c) && c != '0' {
            let (end, value) = scan_number(text, i);
            proof {
                lemma_digits_end_bounds(text@, i as int);
            }
            match value {
                Some(v) => {
                    proof {
                        lemma_extended_step(before, width_flag(v as nat), pre_flags_from(text@, end as int));
                    }
                    flags.push(PreFlag::Width(v));
                    i = end;
                },
                None => {
                    return Err(Fault { expected: Expected::SmallerNumber, at: i });
                },
            }
        } else if c == '.' {
            let (end, value) = scan_number(text, i + 1);
            if end == i + 1 {
                return Err(Fault { expected: Expected::PrecisionDigit, at: i + 1 });
            }
            match value {
                Some(v) => {
                    proof {
                        lemma_extended_step(
                            before,
                            precision_flag(v as nat),
                            pre_flags_from(text@, end as int),
                        );
                    }
                    flags.push(PreFlag::Precision(v));
                    i = end;
                },
                None => {
                    return Err(Fault { expected: Expected::SmallerNumber, at: i + 1 });
                },
            }
        } else {
            proof {
                lemma_extended_step(before, simple_pre_flag(c), pre_flags_from(text@, i + 1));
            }
            flags.push(simple_flag(c));
            i += 1;
        }
    }
    assert(flags@ + Seq::<PreFlag>::empty() == flags@);
    Ok(flags)
}

/// The flag of a postfix character that stands for itself, if it is one.
fn simple_post(c: char) -> (flag: Option<PostFlag>)
    ensures
        flag == simple_post_flag(c),
{
    if c == '<' {
        Some(PostFlag::Align(Alignment::Left))
    } else if c == '^' {
        Some(PostFlag::Align(Alignment::Center))
    } else if c == '>' {
        Some(PostFlag::Align(Alignment::Right))
    } else if c == '!' {
        Some(PostFlag::ToUpper)
    } else if c == '_' {
        Some(PostFlag::ToLower)
    } else if c == '-' {
        Some(PostFlag::ToCapital)
    } else {
        None
    }
}

/// Reads the flags of a postfix.
pub fn scan_post_flags(text: &Vec<char>) -> (r: Result<Vec<PostFlag>, Fault>)
    ensures
        scan_view(r) == post_flags_from(text@, 0),
        r matches Err(f) ==> f.at < text.len(),
{
    let n = text.len();
    let mut flags: Vec<PostFlag> = Vec::new();
    let mut i: usize = 0;
    while i < n
        invariant
            n == text.len(),
            i <= n,
            extended(flags@, post_flags_from(text@, i as int)) == post_flags_from(text@, 0),
        decreases n - i,
    {
        let c = text[i];
        let ghost before = flags@;
        if digit(c) {
            let (end, value) = scan_number(text, i);
            proof {
                lemma_digits_end_bounds(text@, i as int);
            }
            match value {
                Some(v) => {
                    proof {
                        lemma_extended_step(
                            before,
                            post_width_flag(v as nat),
                            post_flags_from(text@, end as int),
                        );
                    }
                    flags.push(PostFlag::Width(v));
                    i = end;
                },
                None => {
                    return Err(Fault { expected: Expected::SmallerNumber, at: i });
                },
            }
        } else {
            match simple_post(c) {
                Some(flag) => {
                    proof {
                        lemma_extended_step(before, flag, post_flags_from(text@, i + 1));
                    }
                    flags.push(flag);
                    i += 1;
                },
                None => {
                    if i == 0 {
                        proof {
                            lemma_extended_step(before, pad_flag(c), post_flags_from(text@, i + 1));
                        }
                        flags.push(PostFlag::PadChar(c));
                        i += 1;
                    } else {
                        return Err(Fault { expected: Expected::PostfixFlag, at: i });
                    }
                },
            }
        }
    }
    assert(flags@ + Seq::<PostFlag>::empty() == flags@);
    Ok(flags)
}

/// Reads the flags of a prefix, from left to right.
pub fn parse_pre_flags(text: &str) -> (r: Result<Vec<PreFlag>, Fault>)
    ensures
        scan_view(r) == pre_flags_from(text@, 0),
{
    let chars = chars_of(text);
    scan_pre_flags(&chars)
}

/// Reads the flags of a postfix, from left to right.
pub fn parse_post_flags(text: &str) -> (r: Result<Vec<PostFlag>, Fault>)
    ensures
        scan_view(r) == post_flags_from(text@, 0),
{
    let chars = chars_of(text);
    scan_post_flags(&chars)
}

/// The flags and the custom flags that a sequence of prefix flags sets.
pub fn resolve_pre_flags(pre: &Vec<PreFlag>) -> (r: (CurlyFlags, String))
    ensures
        r.0 == flags_of(pre@),
        r.1@ == custom_of(pre@),
{
    let mut flags = CurlyFlags::default();
    let mut custom = String::new();
    let mut i: usize = 0;
    while i < pre.len()
        invariant
            i <= pre.len(),
            flags == flags_of(pre@.take(i as int)),
            custom@ == custom_of(pre@.take(i as int)),
        decreases pre.len() - i,
    {
        assert(pre@.take(i + 1).drop_last() == pre@.take(i as int));
        match pre[i] {
            PreFlag::Align(a) => {
                flags.align = Some(a);
            },
            PreFlag::Width(n) => {
                flags.width = Some(n);
            },
            PreFlag::Precision(n) => {
                flags.precision = Some(n);
            },
            PreFlag::NumeralSign(s) => {
                flags.sign = Some(s);
            },
            PreFlag::Alternate => {
                flags.alternate = true;
            },
            PreFlag::Debug => {
                flags.debug_mode = true;
            },
            PreFlag::Zero => {
                flags.zero_pad = true;
            },
            PreFlag::Plurality => {},
            PreFlag::Numeral(t) => {
                flags.number_type = t;
            },
            PreFlag::Other(c) => {
                push_char(&mut custom, c);
            },
        }
        i += 1;
    }
    assert(pre@.take(pre.len() as int) == pre@);
    (flags, custom)
}

/// The transform that a sequence of postfix flags asks for.
pub fn resolve_post_flags(post: &Vec<PostFlag>) -> (transform: PostTransform)
    ensures
        transform == transform_of(post@),
{
    let mut transform = PostTransform { align: None, width: None, effect: None };
    let mut i: usize = 0;
    while i < post.len()
        invariant
            i <= post.len(),
            transform == transform_of(post@.take(i as int)),
        decreases post.len() - i,
    {
        assert(post@.take(i + 1).drop_last() == post@.take(i as int));
        match post[i] {
            PostFlag::Align(a) => {
                if transform.align.is_none() {
                    transform.align = Some(a);
                }
            },
            PostFlag::Width(n) => {
                if transform.width.is_none() {
                    transform.width = Some(n);
                }
            },
            PostFlag::PadChar(c) => {
                if transform.effect.is_none() {
                    transform.effect = Some(PostEffect::Pad(c));
                }
            },
            PostFlag::ToUpper => {
                if transform.effect.is_none() {
                    transform.effect = Some(PostEffect::Upper);
                }
            },
            PostFlag::ToLower => {
                if transform.effect.is_none() {
                    transform.effect = Some(PostEffect::Lower);
                }
            },
            PostFlag::ToCapital => {
                if transform.effect.is_none() {
                    transform.effect = Some(PostEffect::Capital);
                }
            },
        }
        i += 1;
    }
    assert(post@.take(post.len() as int) == post@);
    transform
}

/// A compiled directive: its context for the value behind its key, the
/// transform for the rendered text, and the raw prefix and postfix from
/// which both were read.
#[derive(Debug, Clone, PartialEq, Eq, Hash)]
pub struct Formatter {
    /// The raw text before `:`, if the directive has a `:`.
    pub prefix_text: Option<String>,
    /// The raw text after `/`, if the directive has a `/`.
    pub postfix_text: Option<String>,
    /// What the prefix asks for, and the key.
    pub context: CurlyContext,
    /// What the postfix asks for.
    pub post: PostTransform,
}

/// The mathematical content of a `Formatter`.
pub struct FormatterView {
    pub prefix: Option<Seq<char>>,
    pub postfix: Option<Seq<char>>,
    pub context: ContextView,
    pub post: PostTransform,
}

impl View for Formatter {
    type V = FormatterView;

    open spec fn view(&self) -> FormatterView {
        FormatterView {
            prefix: option_view(self.prefix_text),
            postfix: option_view(self.postfix_text),
            context: self.context@,
            post: self.post,
        }
    }
}

/// The text of an optional part, empty when the part is missing.
pub open spec fn text_or_empty(part: Option<Seq<char>>) -> Seq<char> {
    match part {
        Some(t) => t,
        None => Seq::empty(),
    }
}

/// The prefix as it stands in a directive: with its `:`.
pub open spec fn prefix_part(prefix: Option<Seq<char>>) -> Seq<char> {
    match prefix {
        Some(p) => p.push(':'),
        None => Seq::empty(),
    }
}

/// The postfix as it stands in a directive: with its `/`.
pub open spec fn postfix_part(postfix: Option<Seq<char>>) -> Seq<char> {
    match postfix {
        Some(q) => seq!['/'] + q,
        None => Seq::empty(),
    }
}

/// The text of the directive with these three parts.
pub open spec fn segment_text(
    prefix: Option<Seq<char>>,
    specifier: Seq<char>,
    postfix: Option<Seq<char>>,
) -> Seq<char> {
    seq!['{', '{'] + prefix_part(prefix) + specifier + postfix_part(postfix) + seq!['}', '}']
}

/// Where the specifier starts in the text of its directive.
pub open spec fn specifier_offset(prefix: Option<Seq<char>>) -> int {
    2 + prefix_part(prefix).len() as int
}

/// Where the postfix starts in the text of its directive.
pub open spec fn postfix_offset(prefix: Option<Seq<char>>, specifier: Seq<char>) -> int {
    specifier_offset(prefix) + specifier.len() + 1
}

/// The custom flags of a context: none when no custom flag was written.
pub open spec fn custom_option(custom: Seq<char>) -> Option<Seq<char>> {
    if custom.len() == 0 {
        None
    } else {
        Some(custom)
    }
}

/// The outcome of compiling a directive that stands at
/// `base_row`:`base_col` of a document. The prefix is read first, then the
/// specifier is checked, then the postfix is read; the first fault ends
/// it. An error names what was expected and the character found, and
/// places it in the text of the directive, put together again from its
/// parts.
pub open spec fn compile_spec(
    prefix: Option<Seq<char>>,
    specifier: Seq<char>,
    postfix: Option<Seq<char>>,
    base_row: int,
    base_col: int,
) -> Result<FormatterView, ErrorView> {
    let segment = segment_text(prefix, specifier, postfix);
    match pre_flags_from(text_or_empty(prefix), 0) {
        Err(f) => Err(found_error_view(f.expected, base_row, base_col, segment, 2 + f.at)),
        Ok(pre) => if specifier.len() == 0 {
            Err(
                found_error_view(
                    Expected::Specifier,
                    base_row,
                    base_col,
                    segment,
                    specifier_offset(prefix),
                ),
            )
        } else {
            match post_flags_from(text_or_empty(postfix), 0) {
                Err(f) => Err(
                    found_error_view(
                        f.expected,
                        base_row,
                        base_col,
                        segment,
                        postfix_offset(prefix, specifier) + f.at,
                    ),
                ),
                Ok(post) => Ok(
                    FormatterView {
                        prefix,
                        postfix,
                        context: ContextView {
                            custom_flags: custom_option(custom_of(pre)),
                            flags: flags_of(pre),
                            specifier: Some(specifier),
                        },
                        post: transform_of(post),
                    },
                ),
            }
        },
    }
}

/// The mathematical content of an optional string slice.
pub open spec fn option_str_view(o: Option<&str>) -> Option<Seq<char>> {
    match o {
        Some(s) => Some(s@),
        None => None,
    }
}

/// The mathematical content of a compilation result.
pub open spec fn formatter_result_view(r: CurlyResult<Formatter>) -> Result<
    FormatterView,
    ErrorView,
> {
    match r {
        Ok(f) => Ok(f@),
        Err(e) => Err(e@),
    }
}

/// The characters of the directive with these three parts.
fn segment_chars(
    prefix: &Option<Vec<char>>,
    specifier: &Vec<char>,
    postfix: &Option<Vec<char>>,
) -> (segment: Vec<char>)
    ensures
        segment@ == segment_text(chars_option_view(*prefix), specifier@, chars_option_view(*postfix)),
{
    let mut segment: Vec<char> = Vec::new();
    segment.push('{');
    segment.push('{');
    match prefix {
        Some(p) => {
            push_all(&mut segment, p);
            segment.push(':');
        },
        None => {},
    }
    push_all(&mut segment, specifier);
    match postfix {
        Some(q) => {
            segment.push('/');
            push_all(&mut segment, q);
        },
        None => {},
    }
    segment.push('}');
    segment.push('}');
    assert(segment@ =~= segment_text(
        chars_option_view(*prefix),
        specifier@,
        chars_option_view(*postfix),
    ));
    segment
}

spec fn chars_option_view(o: Option<Vec<char>>) -> Option<Seq<char>> {
    match o {
        Some(v) => Some(v@),
        None => None,
    }
}

/// Appends all of `more` to `out`.
fn push_all(out: &mut Vec<char>, more: &Vec<char>)
    ensures
        final(out)@ == old(out)@ + more@,
{
    let mut i: usize = 0;
    while i < more.len()
        invariant
            i <= more.len(),
            out@ == old(out)@ + more@.take(i as int),
        decreases more.len() - i,
    {
        out.push(more[i]);
        assert(more@.take(i + 1) == more@.take(i as int).push(more@[i as int]));
        i += 1;
    }
    assert(more@.take(more.len() as int) == more@);
}

/// The characters of an optional string slice.
fn chars_of_option(o: Option<&str>) -> (r: Option<Vec<char>>)
    ensures
        chars_option_view(r) == option_str_view(o),
{
    match o {
        Some(s) => Some(chars_of(s)),
        None => None,
    }
}

/// A copy of an optional string slice.
fn owned_option(o: Option<&str>) -> (r: Option<String>)
    ensures
        option_view(r) == option_str_view(o),
{
    match o {
        Some(s) => Some(String::from_str(s)),
        None => None,
    }
}

/// The error for a fault at `at` of the prefix.
fn prefix_error(
    prefix: &Option<Vec<char>>,
    specifier: &Vec<char>,
    postfix: &Option<Vec<char>>,
    found: Fault,
    base_row: usize,
    base_col: usize,
) -> (e: CurlyErrorKind)
    requires
        found.at <= text_or_empty(chars_option_view(*prefix)).len(),
        prefix is Some,
    ensures
        e@ == found_error_view(
            found.expected,
            base_row as int,
            base_col as int,
            segment_text(chars_option_view(*prefix), specifier@, chars_option_view(*postfix)),
            2 + found.at,
        ),
{
    let segment = segment_chars(prefix, specifier, postfix);
    let total = segment.len();
    assert(total >= 2 + text_or_empty(chars_option_view(*prefix)).len() + 1);
    found_error(found.expected, base_row, base_col, &segment, 2 + found.at)
}

/// The error for a specifier that is empty.
fn specifier_error(
    prefix: &Option<Vec<char>>,
    specifier: &Vec<char>,
    postfix: &Option<Vec<char>>,
    base_row: usize,
    base_col: usize,
) -> (e: CurlyErrorKind)
    ensures
        e@ == found_error_view(
            Expected::Specifier,
            base_row as int,
            base_col as int,
            segment_text(chars_option_view(*prefix), specifier@, chars_option_view(*postfix)),
            specifier_offset(chars_option_view(*prefix)),
        ),
{
    let segment = segment_chars(prefix, specifier, postfix);
    let total = segment.len();
    assert(total >= specifier_offset(chars_option_view(*prefix)) + 2);
    let offset = match prefix {
        Some(p) => 2 + p.len() + 1,
        None => 2,
    };
    found_error(Expected::Specifier, base_row, base_col, &segment, offset)
}

/// The error for a fault at `at` of the postfix.
fn postfix_error(
    prefix: &Option<Vec<char>>,
    specifier: &Vec<char>,
    postfix: &Option<Vec<char>>,
    found: Fault,
    base_row: usize,
    base_col: usize,
) -> (e: CurlyErrorKind)
    requires
        found.at < text_or_empty(chars_option_view(*postfix)).len(),
    ensures
        e@ == found_error_view(
            found.expected,
            base_row as int,
            base_col as int,
            segment_text(chars_option_view(*prefix), specifier@, chars_option_view(*postfix)),
            postfix_offset(chars_option_view(*prefix), specifier@) + found.at,
        ),
{
    let segment = segment_chars(prefix, specifier, postfix);
    let total = segment.len();
    assert(total >= postfix_offset(chars_option_view(*prefix), specifier@) + text_or_empty(
        chars_option_view(*postfix),
    ).len() + 2);
    let offset = match prefix {
        Some(p) => 2 + p.len() + 1,
        None => 2,
    } + specifier.len() + 1 + found.at;
    found_error(found.expected, base_row, base_col, &segment, offset)
}

/// The formatter for the flags that were read.
fn assemble(
    prefix_text: Option<&str>,
    specifier_text: &str,
    postfix_text: Option<&str>,
    pre: &Vec<PreFlag>,
    post: &Vec<PostFlag>,
) -> (formatter: Formatter)
    ensures
        formatter@ == (FormatterView {
            prefix: option_str_view(prefix_text),
            postfix: option_str_view(postfix_text),
            context: ContextView {
                custom_flags: custom_option(custom_of(pre@)),
                flags: flags_of(pre@),
                specifier: Some(specifier_text@),
            },
            post: transform_of(post@),
        }),
{
    let (flags, custom) = resolve_pre_flags(pre);
    let custom_flags = if custom.as_str().is_empty() {
        None
    } else {
        Some(custom)
    };
    Formatter {
        prefix_text: owned_option(prefix_text),
        postfix_text: owned_option(postfix_text),
        context: CurlyContext {
            custom_flags,
            flags,
            specifier: Some(String::from_str(specifier_text)),
        },
        post: resolve_post_flags(post),
    }
}

/// Compiles the three parts of a directive that stands at
/// `base_row`:`base_col` of a document.
pub fn compile_at(
    prefix_text: Option<&str>,
    specifier_text: &str,
    postfix_text: Option<&str>,
    base_row: usize,
    base_col: usize,
) -> (r: CurlyResult<Formatter>)
    ensures
        formatter_result_view(r) == compile_spec(
            option_str_view(prefix_text),
            specifier_text@,
            option_str_view(postfix_text),
            base_row as int,
            base_col as int,
        ),
{
    let prefix = chars_of_option(prefix_text);
    let specifier = chars_of(specifier_text);
    let postfix = chars_of_option(postfix_text);
    let scanned = match &prefix {
        Some(p) => scan_pre_flags(p),
        None => Ok(Vec::new()),
    };
    let pre = match scanned {
        Ok(pre) => pre,
        Err(f) => {
            return Err(prefix_error(&prefix, &specifier, &postfix, f, base_row, base_col));
        },
    };
    if specifier.len() == 0 {
        return Err(specifier_error(&prefix, &specifier, &postfix, base_row, base_col));
    }
    let scanned = match &postfix {
        Some(q) => scan_post_flags(q),
        None => Ok(Vec::new()),
    };
    let post = match scanned {
        Ok(post) => post,
        Err(f) => {
            return Err(postfix_error(&prefix, &specifier, &postfix, f, base_row, base_col));
        },
    };
    Ok(assemble(prefix_text, specifier_text, postfix_text, &pre, &post))
}

/// Compiles the three parts of a directive. Errors place themselves in
/// the text of the directive alone.
pub fn compile(prefix_text: Option<&str>, specifier_text: &str, postfix_text: Option<&str>) -> (r:
    CurlyResult<Formatter>)
    ensures
        formatter_result_view(r) == compile_spec(
            option_str_view(prefix_text),
            specifier_text@,
            option_str_view(postfix_text),
            0,
            0,
        ),
{
    compile_at(prefix_text, specifier_text, postfix_text, 0, 0)
}

/// The text after the effect of a transform: in upper case, in lower case,
/// or with its first character in upper case. A pad character leaves the
/// text as it is.
pub open spec fn cased(effect: Option<PostEffect>, s: Seq<char>) -> Seq<char> {
    match effect {
        Some(PostEffect::Upper) => uppercase_of(s),
        Some(PostEffect::Lower) => lowercase_of(s),
        Some(PostEffect::Capital) => if s.len() == 0 {
            s
        } else {
            uppercase_of(s.take(1)) + s.skip(1)
        },
        _ => s,
    }
}

/// The character that a transform pads with: a space unless its effect
/// names another.
pub open spec fn pad_char(effect: Option<PostEffect>) -> char {
    match effect {
        Some(PostEffect::Pad(c)) => c,
        _ => ' ',
    }
}

/// The rendered text `s` after a transform: first its effect, then
/// padding to its width. The text stands left unless the transform says
/// otherwise.
pub open spec fn post_applied(transform: PostTransform, s: Seq<char>) -> Seq<char> {
    let text = cased(transform.effect, s);
    match transform.width {
        Some(w) => padded(
            text,
            w as nat,
            align_or(transform.align, Alignment::Left),
            pad_char(transform.effect),
        ),
        None => text,
    }
}

/// `s` with its first character in upper case.
fn capitalized(s: &str) -> (r: String)
    ensures
        r@ == cased(Some(PostEffect::Capital), s@),
{
    let chars = chars_of(s);
    if chars.len() == 0 {
        return String::from_str(s);
    }
    let first = text_of_range(&chars, 0, 1);
    let mut r = to_upper(first.as_str());
    push_range(&mut r, &chars, 1, chars.len());
    assert(s@.take(1) == s@.subrange(0, 1));
    assert(s@.skip(1) == s@.subrange(1, s@.len() as int));
    r
}

impl PostTransform {
    /// Applies the transform to rendered text.
    pub fn apply(&self, rendered: &str) -> (r: String)
        ensures
            r@ == post_applied(*self, rendered@),
    {
        let text = match self.effect {
            Some(PostEffect::Upper) => to_upper(rendered),
            Some(PostEffect::Lower) => to_lower(rendered),
            Some(PostEffect::Capital) => capitalized(rendered),
            _ => String::from_str(rendered),
        };
        let fill = match self.effect {
            Some(PostEffect::Pad(c)) => c,
            _ => ' ',
        };
        match self.width {
            Some(w) => pad(text.as_str(), w, alignment_or(self.align, Alignment::Left), fill),
            None => text,
        }
    }
}

impl Formatter {
    /// The key of the directive.
    pub open spec fn specifier(&self) -> Seq<char> {
        text_or_empty(self@.context.specifier)
    }

    /// The text of the directive, put together again from its raw parts.
    pub fn to_segment(&self) -> (segment: String)
        ensures
            segment@ == segment_text(self@.prefix, self.specifier(), self@.postfix),
    {
        let mut segment = String::from_str("{{");
        proof {
            reveal_strlit("{{");
            assert(segment@ =~= seq!['{', '{']);
        }
        match &self.prefix_text {
            Some(p) => {
                segment.append(p.as_str());
                push_char(&mut segment, ':');
            },
            None => {},
        }
        match &self.context.specifier {
            Some(s) => {
                segment.append(s.as_str());
            },
            None => {},
        }
        match &self.postfix_text {
            Some(q) => {
                push_char(&mut segment, '/');
                segment.append(q.as_str());
            },
            None => {},
        }
        push_char(&mut segment, '}');
        push_char(&mut segment, '}');
        assert(segment@ =~= segment_text(self@.prefix, self.specifier(), self@.postfix));
        segment
    }

    /// What the directive renders, given what the provider returned for its
    /// key: the provider's text after the transform of the postfix, or the
    /// provider's error as it came.
    pub fn finish(&self, provided: CurlyFmtResult) -> (r: CurlyFmtResult)
        ensures
            fmt_result_view(r) == finished(self@.post, fmt_result_view(provided)),
    {
        match provided {
            Ok(text) => Ok(self.post.apply(text.as_str())),
            Err(e) => Err(e),
        }
    }
}

/// What a directive renders, given what the provider returned for its key.
pub open spec fn finished(post: PostTransform, provided: Answer) -> Answer {
    match provided {
        Ok(text) => Ok(post_applied(post, text)),
        Err(e) => Err(e),
    }
}

} // verus!

//! How the built-in kinds of value render themselves.

use crate::errors::{
    fmt_result_view, found_error, found_error_view, unreachable_error, unreachable_message,
    Answer, CurlyFmtResult, ErrorView, Expected,
};
use crate::formatting::{
    align_or, alignment_or, formatted, pad, padded, Alignment, ContextView, CurlyContext,
    CurlyFlags, CurlyFmt, NumberType, Sign,
};
use crate::specifier::{segment_text, text_or_empty};
use crate::text::{
    chars_of, decimal, digit_char, digit_of, push_char, push_decimal, push_repeated, repeated,
    text_of_range,
};
use vstd::prelude::*;
use vstd::string::{StrSliceExecFns, StringExecFns};

verus! {

/// The character that writes an alignment.
pub open spec fn align_text(align: Option<Alignment>) -> Seq<char> {
    match align {
        Some(Alignment::Left) => seq!['<'],
        Some(Alignment::Center) => seq!['^'],
        Some(Alignment::Right) => seq!['>'],
        None => Seq::empty(),
    }
}

/// The character that writes a sign flag.
pub open spec fn sign_text(sign: Option<Sign>) -> Seq<char> {
    match sign {
        Some(Sign::Plus) => seq!['+'],
        Some(Sign::Minus) => seq!['-'],
        None => Seq::empty(),
    }
}

/// The character that writes a flag that is set, nothing for one that is
/// not.
pub open spec fn switch_text(set: bool, c: char) -> Seq<char> {
    if set {
        seq![c]
    } else {
        Seq::empty()
    }
}

/// The digits that write a width.
pub open spec fn width_text(width: Option<usize>) -> Seq<char> {
    match width {
        Some(w) => decimal(w as nat),
        None => Seq::empty(),
    }
}

/// The `.` and the digits that write a precision.
pub open spec fn precision_text(precision: Option<usize>) -> Seq<char> {
    match precision {
        Some(p) => seq!['.'] + decimal(p as nat),
        None => Seq::empty(),
    }
}

/// The character that writes a number type.
pub open spec fn number_text(number_type: NumberType) -> Seq<char> {
    match number_type {
        NumberType::Normal => Seq::empty(),
        NumberType::Octal => seq!['o'],
        NumberType::LowerHex => seq!['x'],
        NumberType::UpperHex => seq!['X'],
        NumberType::Pointer => seq!['p'],
        NumberType::Binary => seq!['b'],
        NumberType::LowerExp => seq!['e'],
        NumberType::UpperExp => seq!['E'],
    }
}

/// A prefix that sets these flags: alignment, sign, `#`, `?`, `0`, width,
/// precision and number type, in this order.
#[verifier::opaque]
pub open spec fn flags_text(flags: CurlyFlags) -> Seq<char> {
    align_text(flags.align) + sign_text(flags.sign) + switch_text(flags.alternate, '#')
        + switch_text(flags.debug_mode, '?') + switch_text(flags.zero_pad, '0') + width_text(
        flags.width,
    ) + precision_text(flags.precision) + number_text(flags.number_type)
}

/// A prefix that gives this context: its flags, then its custom flags.
pub open spec fn context_prefix(context: ContextView) -> Seq<char> {
    flags_text(context.flags) + text_or_empty(context.custom_flags)
}

/// The text of a directive that gives this context: its prefix, if it
/// needs one, and its key.
pub open spec fn context_segment(context: ContextView) -> Seq<char> {
    segment_text(
        if context_prefix(context).len() == 0 {
            None
        } else {
            Some(context_prefix(context))
        },
        text_or_empty(context.specifier),
        None,
    )
}

fn push_align(out: &mut String, align: Option<Alignment>)
    ensures
        final(out)@ == old(out)@ + align_text(align),
{
    match align {
        Some(Alignment::Left) => push_char(out, '<'),
        Some(Alignment::Center) => push_char(out, '^'),
        Some(Alignment::Right) => push_char(out, '>'),
        None => {},
    }
    assert(out@ =~= old(out)@ + align_text(align));
}

fn push_sign(out: &mut String, sign: Option<Sign>)
    ensures
        final(out)@ == old(out)@ + sign_text(sign),
{
    match sign {
        Some(Sign::Plus) => push_char(out, '+'),
        Some(Sign::Minus) => push_char(out, '-'),
        None => {},
    }
    assert(out@ =~= old(out)@ + sign_text(sign));
}

fn push_switch(out: &mut String, set: bool, c: char)
    ensures
        final(out)@ == old(out)@ + switch_text(set, c),
{
    if set {
        push_char(out, c);
    }
    assert(out@ =~= old(out)@ + switch_text(set, c));
}

fn push_width(out: &mut String, width: Option<usize>)
    ensures
        final(out)@ == old(out)@ + width_text(width),
{
    match width {
        Some(w) => push_decimal(out, w as u128),
        None => {},
    }
    assert(out@ =~= old(out)@ + width_text(width));
}

fn push_precision(out: &mut String, precision: Option<usize>)
    ensures
        final(out)@ == old(out)@ + precision_text(precision),
{
    match precision {
        Some(p) => {
            push_char(out, '.');
            push_decimal(out, p as u128);
        },
        None => {},
    }
    assert(out@ =~= old(out)@ + precision_text(precision));
}

fn push_number_type(out: &mut String, number_type: NumberType)
    ensures
        final(out)@ == old(out)@ + number_text(number_type),
{
    match number_type {
        NumberType::Normal => {},
        NumberType::Octal => push_char(out, 'o'),
        NumberType::LowerHex => push_char(out, 'x'),
        NumberType::UpperHex => push_char(out, 'X'),
        NumberType::Pointer => push_char(out, 'p'),
        NumberType::Binary => push_char(out, 'b'),
        NumberType::LowerExp => push_char(out, 'e'),
        NumberType::UpperExp => push_char(out, 'E'),
    }
    assert(out@ =~= old(out)@ + number_text(number_type));
}

/// Appends a prefix that sets `flags`.
fn push_flags(out: &mut String, flags: &CurlyFlags)
    ensures
        final(out)@ == old(out)@ + flags_text(*flags),
{
    push_align(out, flags.align);
    push_sign(out, flags.sign);
    push_switch(out, flags.alternate, '#');
    push_switch(out, flags.debug_mode, '?');
    push_switch(out, flags.zero_pad, '0');
    push_width(out, flags.width);
    push_precision(out, flags.precision);
    push_number_type(out, flags.number_type);
    proof {
        reveal(flags_text);
        lemma_parts_follow(
            old(out)@,
            align_text(flags.align),
            sign_text(flags.sign),
            switch_text(flags.alternate, '#'),
            switch_text(flags.debug_mode, '?'),
            switch_text(flags.zero_pad, '0'),
            width_text(flags.width),
            precision_text(flags.precision),
            number_text(flags.number_type),
        );
    }
}

proof fn lemma_parts_follow(
    h: Seq<char>,
    a: Seq<char>,
    b: Seq<char>,
    c: Seq<char>,
    d: Seq<char>,
    e: Seq<char>,
    f: Seq<char>,
    g: Seq<char>,
    i: Seq<char>,
)
    ensures
        h + a + b + c + d + e + f + g + i == h + (a + b + c + d + e + f + g + i),
{
    assert(h + a + b + c + d + e + f + g + i =~= h + (a + b + c + d + e + f + g + i));
}

impl CurlyContext {
    /// The text of a directive that gives this context, with its flags in
    /// a fixed order.
    pub fn to_segment(&self) -> (segment: String)
        ensures
            segment@ == context_segment(self@),
    {
        let mut prefix = String::new();
        push_flags(&mut prefix, &self.flags);
        match &self.custom_flags {
            Some(custom) => prefix.append(custom.as_str()),
            None => {},
        }
        assert(prefix@ =~= context_prefix(self@));
        let mut segment = String::new();
        push_char(&mut segment, '{');
        push_char(&mut segment, '{');
        if !prefix.as_str().is_empty() {
            segment.append(prefix.as_str());
            push_char(&mut segment, ':');
        }
        match &self.specifier {
            Some(s) => segment.append(s.as_str()),
            None => {},
        }
        push_char(&mut segment, '}');
        push_char(&mut segment, '}');
        assert(segment@ =~= context_segment(self@));
        segment
    }
}

/// `s` cut to `precision` characters, if it is longer.
pub open spec fn truncated(s: Seq<char>, precision: Option<usize>) -> Seq<char> {
    match precision {
        Some(p) => if p < s.len() {
            s.take(p as int)
        } else {
            s
        },
        None => s,
    }
}

/// Text under the flags of a context: cut to the precision, then padded
/// to the width with the fill character. The text stands left unless the
/// flags align it otherwise.
pub open spec fn text_formatted(s: Seq<char>, flags: CurlyFlags) -> Seq<char> {
    let text = truncated(s, flags.precision);
    match flags.width {
        Some(w) => padded(text, w as nat, align_or(flags.align, Alignment::Left), flags.fill),
        None => text,
    }
}

/// Text under the flags of a context.
pub fn format_text(s: &str, flags: &CurlyFlags) -> (r: String)
    ensures
        r@ == text_formatted(s@, *flags),
{
    let text = match flags.precision {
        Some(p) => {
            let chars = chars_of(s);
            if p < chars.len() {
                let cut = text_of_range(&chars, 0, p);
                assert(s@.take(p as int) == s@.subrange(0, p as int));
                cut
            } else {
                String::from_str(s)
            }
        },
        None => String::from_str(s),
    };
    match flags.width {
        Some(w) => pad(text.as_str(), w, alignment_or(flags.align, Alignment::Left), flags.fill),
        None => text,
    }
}

/// The debug form of a text, as `format!("{:?}", ..)` gives it.
pub uninterp spec fn debug_text_of(s: Seq<char>) -> Seq<char>;

/// The debug form of `s` (the `Debug` impl of `str`, through `format!`):
/// the text in quotes with its special characters escaped. Which
/// characters are escaped, and how, is the standard library's to say, so
/// the result only has a name.
#[verifier::external_body]
fn debug_text(s: &str) -> (r: String)
    ensures
        r@ == debug_text_of(s@),
{
    format!("{:?}", s)
}

/// What a text renders for display: itself under the flags. A text is no
/// number, so a number type is an internal error.
pub open spec fn text_displayed(s: Seq<char>, context: ContextView) -> Answer {
    if context.flags.number_type != NumberType::Normal {
        Err(ErrorView::Internal(unreachable_message()))
    } else {
        Ok(text_formatted(s, context.flags))
    }
}

/// What a text renders for debugging: its debug form, padded to the
/// width. A number type is an internal error.
pub open spec fn text_debugged(s: Seq<char>, context: ContextView) -> Answer {
    if context.flags.number_type != NumberType::Normal {
        Err(ErrorView::Internal(unreachable_message()))
    } else {
        Ok(text_formatted(debug_text_of(s), CurlyFlags { precision: None, ..context.flags }))
    }
}

/// Renders a text for display.
pub fn text_for_display(s: &str, context: &CurlyContext) -> (r: CurlyFmtResult)
    ensures
        fmt_result_view(r) == text_displayed(s@, context@),
{
    match context.flags.number_type {
        NumberType::Normal => Ok(format_text(s, &context.flags)),
        _ => Err(unreachable_error()),
    }
}

/// Renders a text for debugging.
pub fn text_for_debug(s: &str, context: &CurlyContext) -> (r: CurlyFmtResult)
    ensures
        fmt_result_view(r) == text_debugged(s@, context@),
{
    match context.flags.number_type {
        NumberType::Normal => {
            let mut flags = context.flags;
            flags.precision = None;
            let quoted = debug_text(s);
            Ok(format_text(quoted.as_str(), &flags))
        },
        _ => Err(unreachable_error()),
    }
}

impl CurlyFmt for String {
    fn fmt_display(&self, context: &CurlyContext) -> (r: CurlyFmtResult)
        ensures
            fmt_result_view(r) == text_displayed(self@, context@),
    {
        text_for_display(self.as_str(), context)
    }

    fn fmt_debug(&self, context: &CurlyContext) -> (r: CurlyFmtResult)
        ensures
            fmt_result_view(r) == text_debugged(self@, context@),
    {
        text_for_debug(self.as_str(), context)
    }
}

impl CurlyFmt for str {
    fn fmt_display(&self, context: &CurlyContext) -> (r: CurlyFmtResult)
        ensures
            fmt_result_view(r) == text_displayed(self@, context@),
    {
        text_for_display(self, context)
    }

    fn fmt_debug(&self, context: &CurlyContext) -> (r: CurlyFmtResult)
        ensures
            fmt_result_view(r) == text_debugged(self@, context@),
    {
        text_for_debug(self, context)
    }
}

/// The prefix characters that a boolean knows.
pub open spec fn is_boolean_flag(c: char) -> bool {
    c == 'q' || c == 'Q' || c == '!'
}

/// The offset of the first character at or after `from` that a boolean
/// does not know, or the length of `custom` when it knows them all.
pub open spec fn first_foreign(custom: Seq<char>, from: int) -> int
    decreases custom.len() - from,
{
    if from < 0 || from >= custom.len() || !is_boolean_flag(custom[from]) {
        from
    } else {
        first_foreign(custom, from + 1)
    }
}

/// Whether the flags invert the value: each `!` inverts it once.
pub open spec fn inverted(custom: Seq<char>) -> bool
    decreases custom.len(),
{
    if custom.len() == 0 {
        false
    } else {
        inverted(custom.drop_last()) != (custom.last() == '!')
    }
}

/// Whether the flags ask for the words yes and no: a `q` or a `Q` does.
pub open spec fn worded(custom: Seq<char>) -> bool
    decreases custom.len(),
{
    if custom.len() == 0 {
        false
    } else {
        worded(custom.drop_last()) || custom.last() == 'q' || custom.last() == 'Q'
    }
}

/// The word for a boolean under its flags.
pub open spec fn boolean_text(value: bool, custom: Seq<char>) -> Seq<char> {
    let shown = value != inverted(custom);
    if worded(custom) {
        if shown {
            "yes"@
        } else {
            "no"@
        }
    } else {
        if shown {
            "true"@
        } else {
            "false"@
        }
    }
}

/// What a boolean renders, for display and for debugging alike. A custom
/// flag other than `q`, `Q` and `!` is a syntax error that names the
/// character and the directive; a number type is an internal error.
pub open spec fn boolean_rendered(value: bool, context: ContextView) -> Answer {
    let custom = text_or_empty(context.custom_flags);
    let foreign = first_foreign(custom, 0);
    if foreign < custom.len() {
        Err(
            found_error_view(
                Expected::BooleanFlag,
                0,
                0,
                context_segment(context),
                2 + flags_text(context.flags).len() + foreign,
            ),
        )
    } else if context.flags.number_type != NumberType::Normal {
        Err(ErrorView::Internal(unreachable_message()))
    } else {
        Ok(text_formatted(boolean_text(value, custom), context.flags))
    }
}

/// Renders a boolean.
pub fn format_boolean(value: bool, context: &CurlyContext) -> (r: CurlyFmtResult)
    ensures
        fmt_result_view(r) == boolean_rendered(value, context@),
{
    let custom = match &context.custom_flags {
        Some(c) => chars_of(c.as_str()),
        None => Vec::new(),
    };
    let mut invert = false;
    let mut words = false;
    let mut i: usize = 0;
    while i < custom.len()
        invariant
            i <= custom.len(),
            custom@ == text_or_empty(context@.custom_flags),
            first_foreign(custom@, 0) == first_foreign(custom@, i as int),
            invert == inverted(custom@.take(i as int)),
            words == worded(custom@.take(i as int)),
        decreases custom.len() - i,
    {
        let c = custom[i];
        assert(custom@.take(i + 1).drop_last() == custom@.take(i as int));
        if c == '!' {
            invert = !invert;
        } else if c == 'q' || c == 'Q' {
            words = true;
        } else {
            let mut flags = String::new();
            push_flags(&mut flags, &context.flags);
            let before = flags.as_str().unicode_len();
            let segment = chars_of(context.to_segment().as_str());
            assert(flags@ =~= flags_text(context.flags));
            assert(custom@ == text_or_empty(context@.custom_flags));
            assert(context_prefix(context@).len() == before + custom.len());
            assert(first_foreign(custom@, 0) == i);
            let total = segment.len();
            assert(total >= 2 + (before + custom.len()) + 3);
            return Err(found_error(Expected::BooleanFlag, 0, 0, &segment, 2 + before + i));
        }
        i += 1;
    }
    assert(custom@.take(custom.len() as int) == custom@);
    match context.flags.number_type {
        NumberType::Normal => {},
        _ => {
            return Err(unreachable_error());
        },
    }
    let shown = value != invert;
    let word = if words {
        if shown {
            "yes"
        } else {
            "no"
        }
    } else {
        if shown {
            "true"
        } else {
            "false"
        }
    };
    Ok(format_text(word, &context.flags))
}

impl CurlyFmt for bool {
    fn fmt_display(&self, context: &CurlyContext) -> (r: CurlyFmtResult)
        ensures
            fmt_result_view(r) == boolean_rendered(*self, context@),
    {
        format_boolean(*self, context)
    }

    fn fmt_debug(&self, context: &CurlyContext) -> (r: CurlyFmtResult)
        ensures
            fmt_result_view(r) == boolean_rendered(*self, context@),
    {
        format_boolean(*self, context)
    }
}

/// The digit character for `d < 16`, with letters in upper case if `upper`.
pub open spec fn radix_digit(d: nat, upper: bool) -> char {
    if d < 10 {
        digit_char(d)
    } else if d == 10 {
        if upper {
            'A'
        } else {
            'a'
        }
    } else if d == 11 {
        if upper {
            'B'
        } else {
            'b'
        }
    } else if d == 12 {
        if upper {
            'C'
        } else {
            'c'
        }
    } else if d == 13 {
        if upper {
            'D'
        } else {
            'd'
        }
    } else if d == 14 {
        if upper {
            'E'
        } else {
            'e'
        }
    } else {
        if upper {
            'F'
        } else {
            'f'
        }
    }
}

/// The numeral of `n` in base `radix`, without leading zeros.
pub open spec fn radix_digits(n: nat, radix: nat, upper: bool) -> Seq<char>
    decreases n,
{
    if radix < 2 || n < radix {
        seq![radix_digit(n, upper)]
    } else {
        proof {
            lemma_quotient_smaller(n, radix);
        }
        radix_digits(n / radix, radix, upper).push(radix_digit(n % radix, upper))
    }
}

/// Dividing by the base makes a number smaller and leaves a digit.
pub proof fn lemma_quotient_smaller(n: nat, radix: nat)
    requires
        2 <= radix <= n,
    ensures
        n / radix < n,
        n % radix < radix,
{
    assert(n / radix < n && n % radix < radix) by (nonlinear_arith)
        requires
            2 <= radix <= n,
    ;
}

/// The base of a number type, for the types that write a number in
/// another base than ten.
pub open spec fn radix_of(number_type: NumberType) -> Option<nat> {
    match number_type {
        NumberType::Octal => Some(8),
        NumberType::LowerHex => Some(16),
        NumberType::UpperHex => Some(16),
        NumberType::Binary => Some(2),
        _ => None,
    }
}

/// What the alternate form writes in front of the digits.
pub open spec fn radix_prefix(number_type: NumberType) -> Seq<char> {
    match number_type {
        NumberType::Octal => seq!['0', 'o'],
        NumberType::LowerHex => seq!['0', 'x'],
        NumberType::UpperHex => seq!['0', 'x'],
        NumberType::Binary => seq!['0', 'b'],
        _ => Seq::empty(),
    }
}

/// What stands in front of the digits of an integer: its sign, and in the
/// alternate form the mark of its base. In base ten a negative number has
/// a `-`; in another base it is written as the machine holds it, and has
/// none. The flag `+` gives every other number a `+`.
pub open spec fn integer_head(value: int, flags: CurlyFlags) -> Seq<char> {
    let sign: Seq<char> = if value < 0 && flags.number_type == NumberType::Normal {
        seq!['-']
    } else if flags.sign == Some(Sign::Plus) {
        seq!['+']
    } else {
        Seq::empty()
    };
    if flags.alternate {
        sign + radix_prefix(flags.number_type)
    } else {
        sign
    }
}

/// The digits of an integer of a machine type with `modulus` values: in
/// base ten those of its absolute value; in another base those of the
/// number as the machine holds it, which for a negative number is
/// `modulus` more.
pub open spec fn integer_digits(value: int, modulus: int, flags: CurlyFlags) -> Seq<char> {
    match radix_of(flags.number_type) {
        Some(radix) => radix_digits(
            (if value < 0 {
                value + modulus
            } else {
                value
            }) as nat,
            radix,
            flags.number_type == NumberType::UpperHex,
        ),
        None => decimal(
            (if value < 0 {
                -value
            } else {
                value
            }) as nat,
        ),
    }
}

/// An integer under the flags of a context. With the flag `0` and a
/// width, zeros between head and digits fill the width; otherwise head
/// and digits are padded with the fill character, and stand right unless
/// the flags align them otherwise.
pub open spec fn integer_formatted(value: int, modulus: int, flags: CurlyFlags) -> Seq<char> {
    let head = integer_head(value, flags);
    let digits = integer_digits(value, modulus, flags);
    match flags.width {
        Some(w) => if flags.zero_pad {
            if head.len() + digits.len() >= w {
                head + digits
            } else {
                head + repeated('0', (w - head.len() - digits.len()) as nat) + digits
            }
        } else {
            padded(head + digits, w as nat, align_or(flags.align, Alignment::Right), flags.fill)
        },
        None => head + digits,
    }
}

/// What an integer renders, for display and for debugging alike. An
/// integer can be written in base ten, eight, sixteen and two; any other
/// number type is an internal error.
pub open spec fn integer_rendered(value: int, modulus: int, context: ContextView) -> Answer {
    if context.flags.number_type != NumberType::Normal && radix_of(context.flags.number_type)
        is None {
        Err(ErrorView::Internal(unreachable_message()))
    } else {
        Ok(integer_formatted(value, modulus, context.flags))
    }
}

/// The digit character of a number below sixteen.
fn radix_digit_of(d: u8, upper: bool) -> (c: char)
    requires
        d < 16,
    ensures
        c == radix_digit(d as nat, upper),
{
    if d < 10 {
        digit_of(d)
    } else if d == 10 {
        if upper {
            'A'
        } else {
            'a'
        }
    } else if d == 11 {
        if upper {
            'B'
        } else {
            'b'
        }
    } else if d == 12 {
        if upper {
            'C'
        } else {
            'c'
        }
    } else if d == 13 {
        if upper {
            'D'
        } else {
            'd'
        }
    } else if d == 14 {
        if upper {
            'E'
        } else {
            'e'
        }
    } else {
        if upper {
            'F'
        } else {
            'f'
        }
    }
}

/// Appends the numeral of `n` in base `radix`.
fn push_radix(out: &mut String, n: u128, radix: u128, upper: bool)
    requires
        2 <= radix <= 16,
    ensures
        final(out)@ == old(out)@ + radix_digits(n as nat, radix as nat, upper),
    decreases n,
{
    if n >= radix {
        proof {
            lemma_quotient_smaller(n as nat, radix as nat);
        }
        push_radix(out, n / radix, radix, upper);
        push_char(out, radix_digit_of((n % radix) as u8, upper));
    } else {
        push_char(out, radix_digit_of(n as u8, upper));
    }
    assert(out@ =~= old(out)@ + radix_digits(n as nat, radix as nat, upper));
}

/// Renders an integer of a machine type with `modulus` values.
fn format_integer(value: i128, modulus: u128, context: &CurlyContext) -> (r: CurlyFmtResult)
    requires
        0 < modulus <= 0x1_0000_0000_0000_0000,
        -modulus <= value < modulus,
    ensures
        fmt_result_view(r) == integer_rendered(value as int, modulus as int, context@),
{
    let flags = &context.flags;
    let radix: u128 = match flags.number_type {
        NumberType::Normal => 10,
        NumberType::Octal => 8,
        NumberType::LowerHex => 16,
        NumberType::UpperHex => 16,
        NumberType::Binary => 2,
        _ => {
            return Err(unreachable_error());
        },
    };
    let normal = match flags.number_type {
        NumberType::Normal => true,
        _ => false,
    };
    let upper = match flags.number_type {
        NumberType::UpperHex => true,
        _ => false,
    };
    let plus = match flags.sign {
        Some(Sign::Plus) => true,
        _ => false,
    };
    let mut head = String::new();
    if value < 0 && normal {
        push_char(&mut head, '-');
    } else if plus {
        push_char(&mut head, '+');
    }
    if flags.alternate && !normal {
        push_char(&mut head, '0');
        push_char(
            &mut head,
            match flags.number_type {
                NumberType::Octal => 'o',
                NumberType::Binary => 'b',
                _ => 'x',
            },
        );
    }
    assert(head@ =~= integer_head(value as int, *flags));
    let mut digits = String::new();
    if normal {
        let magnitude: u128 = if value < 0 {
            (-value) as u128
        } else {
            value as u128
        };
        push_decimal(&mut digits, magnitude);
    } else {
        let shown: u128 = if value < 0 {
            (value + modulus as i128) as u128
        } else {
            value as u128
        };
        push_radix(&mut digits, shown, radix, upper);
    }
    assert(digits@ =~= integer_digits(value as int, modulus as int, *flags));
    let mut text = String::new();
    match flags.width {
        Some(w) => {
            if flags.zero_pad {
                let head_len = head.as_str().unicode_len();
                let digits_len = digits.as_str().unicode_len();
                text.append(head.as_str());
                if head_len < w && digits_len < w - head_len {
                    push_repeated(&mut text, '0', w - head_len - digits_len);
                }
                text.append(digits.as_str());
                assert(text@ =~= integer_formatted(value as int, modulus as int, *flags));
                Ok(text)
            } else {
                text.append(head.as_str());
                text.append(digits.as_str());
                Ok(pad(text.as_str(), w, alignment_or(flags.align, Alignment::Right), flags.fill))
            }
        },
        None => {
            text.append(head.as_str());
            text.append(digits.as_str());
            assert(text@ =~= integer_formatted(value as int, modulus as int, *flags));
            Ok(text)
        },
    }
}

impl CurlyFmt for u8 {
    fn fmt_display(&self, context: &CurlyContext) -> (r: CurlyFmtResult)
        ensures
            fmt_result_view(r) == integer_rendered(*self as int, 0x100, context@),
    {
        format_integer(*self as i128, 0x100, context)
    }

    fn fmt_debug(&self, context: &CurlyContext) -> (r: CurlyFmtResult)
        ensures
            fmt_result_view(r) == integer_rendered(*self as int, 0x100, context@),
    {
        format_integer(*self as i128, 0x100, context)
    }
}

impl CurlyFmt for u16 {
    fn fmt_display(&self, context: &CurlyContext) -> (r: CurlyFmtResult)
        ensures
            fmt_result_view(r) == integer_rendered(*self as int, 0x1_0000, context@),
    {
        format_integer(*self as i128, 0x1_0000, context)
    }

    fn fmt_debug(&self, context: &CurlyContext) -> (r: CurlyFmtResult)
        ensures
            fmt_result_view(r) == integer_rendered(*self as int, 0x1_0000, context@),
    {
        format_integer(*self as i128, 0x1_0000, context)
    }
}

impl CurlyFmt for u32 {
    fn fmt_display(&self, context: &CurlyContext) -> (r: CurlyFmtResult)
        ensures
            fmt_result_view(r) == integer_rendered(*self as int, 0x1_0000_0000, context@),
    {
        format_integer(*self as i128, 0x1_0000_0000, context)
    }

    fn fmt_debug(&self, context: &CurlyContext) -> (r: CurlyFmtResult)
        ensures
            fmt_result_view(r) == integer_rendered(*self as int, 0x1_0000_0000, context@),
    {
        format_integer(*self as i128, 0x1_0000_0000, context)
    }
}

impl CurlyFmt for u64 {
    fn fmt_display(&self, context: &CurlyContext) -> (r: CurlyFmtResult)
        ensures
            fmt_result_view(r) == integer_rendered(*self as int, 0x1_0000_0000_0000_0000, context@),
    {
        format_integer(*self as i128, 0x1_0000_0000_0000_0000, context)
    }

    fn fmt_debug(&self, context: &CurlyContext) -> (r: CurlyFmtResult)
        ensures
            fmt_result_view(r) == integer_rendered(*self as int, 0x1_0000_0000_0000_0000, context@),
    {
        format_integer(*self as i128, 0x1_0000_0000_0000_0000, context)
    }
}

impl CurlyFmt for i8 {
    fn fmt_display(&self, context: &CurlyContext) -> (r: CurlyFmtResult)
        ensures
            fmt_result_view(r) == integer_rendered(*self as int, 0x100, context@),
    {
        format_integer(*self as i128, 0x100, context)
    }

    fn fmt_debug(&self, context: &CurlyContext) -> (r: CurlyFmtResult)
        ensures
            fmt_result_view(r) == integer_rendered(*self as int, 0x100, context@),
    {
        format_integer(*self as i128, 0x100, context)
    }
}

impl CurlyFmt for i16 {
    fn fmt_display(&self, context: &CurlyContext) -> (r: CurlyFmtResult)
        ensures
            fmt_result_view(r) == integer_rendered(*self as int, 0x1_0000, context@),
    {
        format_integer(*self as i128, 0x1_0000, context)
    }

    fn fmt_debug(&self, context: &CurlyContext) -> (r: CurlyFmtResult)
        ensures
            fmt_result_view(r) == integer_rendered(*self as int, 0x1_0000, context@),
    {
        format_integer(*self as i128, 0x1_0000, context)
    }
}

impl CurlyFmt for i32 {
    fn fmt_display(&self, context: &CurlyContext) -> (r: CurlyFmtResult)
        ensures
            fmt_result_view(r) == integer_rendered(*self as int, 0x1_0000_0000, context@),
    {
        format_integer(*self as i128, 0x1_0000_0000, context)
    }

    fn fmt_debug(&self, context: &CurlyContext) -> (r: CurlyFmtResult)
        ensures
            fmt_result_view(r) == integer_rendered(*self as int, 0x1_0000_0000, context@),
    {
        format_integer(*self as i128, 0x1_0000_0000, context)
    }
}

impl CurlyFmt for i64 {
    fn fmt_display(&self, context: &CurlyContext) -> (r: CurlyFmtResult)
        ensures
            fmt_result_view(r) == integer_rendered(*self as int, 0x1_0000_0000_0000_0000, context@),
    {
        format_integer(*self as i128, 0x1_0000_0000_0000_0000, context)
    }

    fn fmt_debug(&self, context: &CurlyContext) -> (r: CurlyFmtResult)
        ensures
            fmt_result_view(r) == integer_rendered(*self as int, 0x1_0000_0000_0000_0000, context@),
    {
        format_integer(*self as i128, 0x1_0000_0000_0000_0000, context)
    }
}

impl CurlyFmt for usize {
    fn fmt_display(&self, context: &CurlyContext) -> (r: CurlyFmtResult)
        ensures
            fmt_result_view(r) == integer_rendered(*self as int, usize::MAX + 1, context@),
    {
        format_integer(*self as i128, usize::MAX as u128 + 1, context)
    }

    fn fmt_debug(&self, context: &CurlyContext) -> (r: CurlyFmtResult)
        ensures
            fmt_result_view(r) == integer_rendered(*self as int, usize::MAX + 1, context@),
    {
        format_integer(*self as i128, usize::MAX as u128 + 1, context)
    }
}

impl CurlyFmt for isize {
    fn fmt_display(&self, context: &CurlyContext) -> (r: CurlyFmtResult)
        ensures
            fmt_result_view(r) == integer_rendered(*self as int, usize::MAX + 1, context@),
    {
        format_integer(*self as i128, usize::MAX as u128 + 1, context)
    }

    fn fmt_debug(&self, context: &CurlyContext) -> (r: CurlyFmtResult)
        ensures
            fmt_result_view(r) == integer_rendered(*self as int, usize::MAX + 1, context@),
    {
        format_integer(*self as i128, usize::MAX as u128 + 1, context)
    }
}

/// A value of one of the built-in kinds.
#[derive(Debug, Clone, PartialEq, Eq, Hash)]
pub enum Value {
    /// A text.
    Text(String),
    /// A boolean.
    Boolean(bool),
    /// A number without sign.
    Unsigned(u64),
    /// A number with sign.
    Signed(i64),
}

/// The mathematical content of a `Value`.
pub enum ValueView {
    Text(Seq<char>),
    Boolean(bool),
    Unsigned(u64),
    Signed(i64),
}

impl View for Value {
    type V = ValueView;

    open spec fn view(&self) -> ValueView {
        match self {
            Value::Text(t) => ValueView::Text(t@),
            Value::Boolean(b) => ValueView::Boolean(*b),
            Value::Unsigned(n) => ValueView::Unsigned(*n),
            Value::Signed(n) => ValueView::Signed(*n),
        }
    }
}

/// What a value renders for display.
pub open spec fn value_displayed(value: ValueView, context: ContextView) -> Answer {
    match value {
        ValueView::Text(t) => text_displayed(t, context),
        ValueView::Boolean(b) => boolean_rendered(b, context),
        ValueView::Unsigned(n) => integer_rendered(n as int, 0x1_0000_0000_0000_0000, context),
        ValueView::Signed(n) => integer_rendered(n as int, 0x1_0000_0000_0000_0000, context),
    }
}

/// What a value renders for debugging.
pub open spec fn value_debugged(value: ValueView, context: ContextView) -> Answer {
    match value {
        ValueView::Text(t) => text_debugged(t, context),
        _ => value_displayed(value, context),
    }
}

/// What a value renders under a context: its debug form if the context
/// asks for it, its display form otherwise.
pub open spec fn value_formatted(value: ValueView, context: ContextView) -> Answer {
    formatted(context, value_displayed(value, context), value_debugged(value, context))
}

impl CurlyFmt for Value {
    fn fmt_display(&self, context: &CurlyContext) -> (r: CurlyFmtResult)
        ensures
            fmt_result_view(r) == value_displayed(self@, context@),
    {
        match self {
            Value::Text(t) => t.fmt_display(context),
            Value::Boolean(b) => b.fmt_display(context),
            Value::Unsigned(n) => n.fmt_display(context),
            Value::Signed(n) => n.fmt_display(context),
        }
    }

    fn fmt_debug(&self, context: &CurlyContext) -> (r: CurlyFmtResult)
        ensures
            fmt_result_view(r) == value_debugged(self@, context@),
    {
        match self {
            Value::Text(t) => t.fmt_debug(context),
            Value::Boolean(b) => b.fmt_debug(context),
            Value::Unsigned(n) => n.fmt_debug(context),
            Value::Signed(n) => n.fmt_debug(context),
        }
    }
}

} // verus!

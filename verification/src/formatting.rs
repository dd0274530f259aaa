//! The formatting context of a directive and the interface through which a
//! value renders itself.

use crate::errors::{
    Answer, CurlyFmtResult, ErrorView,
};
use crate::text::{option_view, push_repeated, repeated};
use vstd::prelude::*;
use vstd::string::{StrSliceExecFns, StringExecFns};

verus! {

/// How a number is written.
#[derive(Debug, Eq, PartialEq, Copy, Clone, Hash, Structural)]
pub enum NumberType {
    /// In decimal.
    Normal,
    /// In octal (`o`).
    Octal,
    /// In hexadecimal with lower-case digits (`x`).
    LowerHex,
    /// In hexadecimal with upper-case digits (`X`).
    UpperHex,
    /// As a location in memory (`p`).
    Pointer,
    /// In binary (`b`).
    Binary,
    /// In scientific notation with a lower-case `e` (`e`).
    LowerExp,
    /// In scientific notation with an upper-case `E` (`E`).
    UpperExp,
}

/// The sign flag of a directive.
#[derive(Debug, Eq, PartialEq, Copy, Clone, Hash, Structural)]
pub enum Sign {
    /// Always write the sign (`+`).
    Plus,
    /// Reserved (`-`): read, and without effect.
    Minus,
}

/// Where padding goes.
#[derive(Debug, Eq, PartialEq, Copy, Clone, Hash, Structural)]
pub enum Alignment {
    /// The text stands left, the padding follows it (`<`).
    Left,
    /// The text stands right, the padding precedes it (`>`).
    Right,
    /// The text stands in the middle (`^`).
    Center,
}

/// The alignment that was asked for, or else `otherwise`.
pub open spec fn align_or(align: Option<Alignment>, otherwise: Alignment) -> Alignment {
    match align {
        Some(a) => a,
        None => otherwise,
    }
}

/// `s` padded with `fill` to `width` characters; text that is long enough
/// stays as it is. Centred text gets the smaller half of the padding in
/// front.
pub open spec fn padded(s: Seq<char>, width: nat, align: Alignment, fill: char) -> Seq<char> {
    if s.len() >= width {
        s
    } else {
        let gap = (width - s.len()) as nat;
        match align {
            Alignment::Left => s + repeated(fill, gap),
            Alignment::Right => repeated(fill, gap) + s,
            Alignment::Center => repeated(fill, gap / 2) + s + repeated(
                fill,
                (gap - gap / 2) as nat,
            ),
        }
    }
}

/// Pads `s` with `fill` to `width` characters.
pub fn pad(s: &str, width: usize, align: Alignment, fill: char) -> (r: String)
    ensures
        r@ == padded(s@, width as nat, align, fill),
{
    let len = s.unicode_len();
    if len >= width {
        return String::from_str(s);
    }
    let gap = width - len;
    let mut r = String::new();
    match align {
        Alignment::Left => {
            r.append(s);
            push_repeated(&mut r, fill, gap);
        },
        Alignment::Right => {
            push_repeated(&mut r, fill, gap);
            r.append(s);
        },
        Alignment::Center => {
            push_repeated(&mut r, fill, gap / 2);
            r.append(s);
            push_repeated(&mut r, fill, gap - gap / 2);
        },
    }
    r
}

/// The alignment that was asked for, or else `otherwise`.
pub fn alignment_or(align: Option<Alignment>, otherwise: Alignment) -> (a: Alignment)
    ensures
        a == align_or(align, otherwise),
{
    match align {
        Some(a) => a,
        None => otherwise,
    }
}

/// The flags of a directive that the engine itself understands.
#[derive(Debug, Eq, PartialEq, Copy, Clone, Hash)]
pub struct CurlyFlags {
    /// The character to pad with.
    pub fill: char,
    /// Where padding goes.
    pub align: Option<Alignment>,
    /// The least number of characters to write.
    pub width: Option<usize>,
    /// The precision.
    pub precision: Option<usize>,
    /// The sign flag.
    pub sign: Option<Sign>,
    /// Whether numbers are padded with zeros after their sign (`0`).
    pub zero_pad: bool,
    /// Whether the alternate form was asked for (`#`).
    pub alternate: bool,
    /// Whether the value is written in its debug form (`?`).
    pub debug_mode: bool,
    /// How numbers are written.
    pub number_type: NumberType,
}

/// The flags of a directive that sets none: padding with spaces, numbers in
/// decimal.
pub open spec fn default_flags() -> CurlyFlags {
    CurlyFlags {
        fill: ' ',
        align: None,
        width: None,
        precision: None,
        sign: None,
        zero_pad: false,
        alternate: false,
        debug_mode: false,
        number_type: NumberType::Normal,
    }
}

impl Default for CurlyFlags {
    fn default() -> (flags: Self)
        ensures
            flags == default_flags(),
    {
        Self {
            fill: ' ',
            align: None,
            width: None,
            precision: None,
            sign: None,
            zero_pad: false,
            alternate: false,
            debug_mode: false,
            number_type: NumberType::Normal,
        }
    }
}

/// The formatting context of one directive.
#[derive(Debug, Eq, PartialEq, Clone, Hash, Default)]
pub struct CurlyContext {
    /// The prefix characters that the engine does not interpret, in the
    /// order in which they were written: theirs to interpret is the value.
    pub custom_flags: Option<String>,
    /// The flags that the engine interprets.
    pub flags: CurlyFlags,
    /// The key of the directive.
    pub specifier: Option<String>,
}

/// The mathematical content of a `CurlyContext`.
pub struct ContextView {
    pub custom_flags: Option<Seq<char>>,
    pub flags: CurlyFlags,
    pub specifier: Option<Seq<char>>,
}

impl View for CurlyContext {
    type V = ContextView;

    open spec fn view(&self) -> ContextView {
        ContextView {
            custom_flags: option_view(self.custom_flags),
            flags: self.flags,
            specifier: option_view(self.specifier),
        }
    }
}

/// A value that can render itself under a formatting context, for display
/// and for debugging. The built-in kinds of value have it; a host gives it
/// to its own types.
pub trait CurlyFmt {
    /// Renders the value for display.
    fn fmt_display(&self, context: &CurlyContext) -> CurlyFmtResult;

    /// Renders the value for debugging.
    fn fmt_debug(&self, context: &CurlyContext) -> CurlyFmtResult;

    /// Renders the value as the context asks: for debugging if its debug
    /// flag is set, for display otherwise.
    fn curly_fmt(&self, context: &CurlyContext) -> (r: CurlyFmtResult)
        ensures
            context.flags.debug_mode ==> call_ensures(Self::fmt_debug, (self, context), r),
            !context.flags.debug_mode ==> call_ensures(Self::fmt_display, (self, context), r),
    {
        if context.flags.debug_mode {
            self.fmt_debug(context)
        } else {
            self.fmt_display(context)
        }
    }
}

/// What a value renders under a context, given what it renders for
/// display and for debugging.
pub open spec fn formatted(
    context: ContextView,
    displayed: Answer,
    debugged: Answer,
) -> Answer {
    if context.flags.debug_mode {
        debugged
    } else {
        displayed
    }
}

} // verus!

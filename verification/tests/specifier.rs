use curly::errors::{CurlyErrorKind, Expected, Fault};
use curly::formatting::{Alignment, CurlyContext, CurlyFlags, NumberType, Sign};
use curly::specifier::{
    compile, compile_at, parse_post_flags, parse_pre_flags, resolve_post_flags,
    resolve_pre_flags, Formatter, PostEffect, PostFlag, PostTransform, PreFlag,
};

#[test]
fn reads_every_kind_of_prefix_flag() {
    assert_eq!(
        parse_pre_flags("<^>+-#?08.3$oxXpbeE!q").unwrap(),
        vec![
            PreFlag::Align(Alignment::Left),
            PreFlag::Align(Alignment::Center),
            PreFlag::Align(Alignment::Right),
            PreFlag::NumeralSign(Sign::Plus),
            PreFlag::NumeralSign(Sign::Minus),
            PreFlag::Alternate,
            PreFlag::Debug,
            PreFlag::Zero,
            PreFlag::Width(8),
            PreFlag::Precision(3),
            PreFlag::Plurality,
            PreFlag::Numeral(NumberType::Octal),
            PreFlag::Numeral(NumberType::LowerHex),
            PreFlag::Numeral(NumberType::UpperHex),
            PreFlag::Numeral(NumberType::Pointer),
            PreFlag::Numeral(NumberType::Binary),
            PreFlag::Numeral(NumberType::LowerExp),
            PreFlag::Numeral(NumberType::UpperExp),
            PreFlag::Other('!'),
            PreFlag::Other('q'),
        ]
    );
}

#[test]
fn digit_runs_are_widths_and_precisions() {
    assert_eq!(parse_pre_flags("10").unwrap(), vec![PreFlag::Width(10)]);
    assert_eq!(parse_pre_flags("105.20").unwrap(), vec![PreFlag::Width(105), PreFlag::Precision(20)]);
    assert_eq!(parse_pre_flags(".0").unwrap(), vec![PreFlag::Precision(0)]);
    assert_eq!(parse_pre_flags(".007").unwrap(), vec![PreFlag::Precision(7)]);
    assert_eq!(parse_pre_flags("0").unwrap(), vec![PreFlag::Zero]);
    assert_eq!(parse_pre_flags("00").unwrap(), vec![PreFlag::Zero, PreFlag::Zero]);
    assert_eq!(parse_pre_flags("012").unwrap(), vec![PreFlag::Zero, PreFlag::Width(12)]);
    assert_eq!(
        parse_pre_flags("a1 2").unwrap(),
        vec![PreFlag::Other('a'), PreFlag::Width(1), PreFlag::Other(' '), PreFlag::Width(2)]
    );
    assert_eq!(parse_pre_flags("").unwrap(), vec![]);
}

#[test]
fn prefix_faults_are_located() {
    assert_eq!(
        parse_pre_flags("<."),
        Err(Fault { expected: Expected::PrecisionDigit, at: 2 })
    );
    assert_eq!(
        parse_pre_flags(".x"),
        Err(Fault { expected: Expected::PrecisionDigit, at: 1 })
    );
    assert_eq!(
        parse_pre_flags("+99999999999999999999999999"),
        Err(Fault { expected: Expected::SmallerNumber, at: 1 })
    );
    assert_eq!(
        parse_pre_flags(".99999999999999999999999999"),
        Err(Fault { expected: Expected::SmallerNumber, at: 1 })
    );
}

#[test]
fn largest_width_is_read() {
    let largest = format!("{}", usize::MAX);
    assert_eq!(parse_pre_flags(&largest).unwrap(), vec![PreFlag::Width(usize::MAX)]);
    let too_large = format!("{}0", usize::MAX);
    assert_eq!(
        parse_pre_flags(&too_large),
        Err(Fault { expected: Expected::SmallerNumber, at: 0 })
    );
}

#[test]
fn reads_every_kind_of_postfix_flag() {
    assert_eq!(
        parse_post_flags("*<^>010!_-").unwrap(),
        vec![
            PostFlag::PadChar('*'),
            PostFlag::Align(Alignment::Left),
            PostFlag::Align(Alignment::Center),
            PostFlag::Align(Alignment::Right),
            PostFlag::Width(10),
            PostFlag::ToUpper,
            PostFlag::ToLower,
            PostFlag::ToCapital,
        ]
    );
    assert_eq!(parse_post_flags("").unwrap(), vec![]);
    assert_eq!(parse_post_flags("7").unwrap(), vec![PostFlag::Width(7)]);
}

#[test]
fn pad_character_must_come_first() {
    assert_eq!(
        parse_post_flags("<*"),
        Err(Fault { expected: Expected::PostfixFlag, at: 1 })
    );
    assert_eq!(
        parse_post_flags("ab"),
        Err(Fault { expected: Expected::PostfixFlag, at: 1 })
    );
    assert_eq!(
        parse_post_flags("99999999999999999999999999"),
        Err(Fault { expected: Expected::SmallerNumber, at: 0 })
    );
}

#[test]
fn last_prefix_flag_of_a_kind_counts() {
    let flags = parse_pre_flags("<>5 7oxa.1.2b+-").unwrap();
    let (flags, custom) = resolve_pre_flags(&flags);
    assert_eq!(
        flags,
        CurlyFlags {
            fill: ' ',
            align: Some(Alignment::Right),
            width: Some(7),
            precision: Some(2),
            sign: Some(Sign::Minus),
            zero_pad: false,
            alternate: false,
            debug_mode: false,
            number_type: NumberType::Binary,
        }
    );
    assert_eq!(custom, " a");
}

#[test]
fn first_postfix_flag_of_a_kind_counts() {
    let flags = parse_post_flags("!_<>5-8").unwrap();
    assert_eq!(
        resolve_post_flags(&flags),
        PostTransform {
            align: Some(Alignment::Left),
            width: Some(5),
            effect: Some(PostEffect::Upper),
        }
    );
    let flags = parse_post_flags("*!").unwrap();
    assert_eq!(
        resolve_post_flags(&flags),
        PostTransform { align: None, width: None, effect: Some(PostEffect::Pad('*')) }
    );
    assert_eq!(resolve_post_flags(&vec![]), PostTransform { align: None, width: None, effect: None });
}

#[test]
fn compiles_a_directive() {
    let formatter = compile(Some("<8#?!q"), "key", Some("_>3")).unwrap();
    assert_eq!(
        formatter,
        Formatter {
            prefix_text: Some(String::from("<8#?!q")),
            postfix_text: Some(String::from("_>3")),
            context: CurlyContext {
                custom_flags: Some(String::from("!q")),
                flags: CurlyFlags {
                    fill: ' ',
                    align: Some(Alignment::Left),
                    width: Some(8),
                    precision: None,
                    sign: None,
                    zero_pad: false,
                    alternate: true,
                    debug_mode: true,
                    number_type: NumberType::Normal,
                },
                specifier: Some(String::from("key")),
            },
            post: PostTransform {
                align: Some(Alignment::Right),
                width: Some(3),
                effect: Some(PostEffect::Lower),
            },
        }
    );
}

#[test]
fn compiles_a_bare_directive_to_defaults() {
    let formatter = compile(None, "key", None).unwrap();
    assert_eq!(formatter.prefix_text, None);
    assert_eq!(formatter.postfix_text, None);
    assert_eq!(formatter.context.custom_flags, None);
    assert_eq!(formatter.context.flags, CurlyFlags::default());
    assert_eq!(formatter.context.specifier, Some(String::from("key")));
    assert_eq!(formatter.post, PostTransform { align: None, width: None, effect: None });
    let empty = compile(Some(""), "key", Some("")).unwrap();
    assert_eq!(empty.context, formatter.context);
    assert_eq!(empty.post, formatter.post);
    assert_eq!(empty.prefix_text, Some(String::new()));
    assert_eq!(empty.postfix_text, Some(String::new()));
}

#[test]
fn default_flags_pad_with_spaces_in_decimal() {
    assert_eq!(
        CurlyFlags::default(),
        CurlyFlags {
            fill: ' ',
            align: None,
            width: None,
            precision: None,
            sign: None,
            zero_pad: false,
            alternate: false,
            debug_mode: false,
            number_type: NumberType::Normal,
        }
    );
    assert_eq!(
        CurlyContext::default(),
        CurlyContext { custom_flags: None, flags: CurlyFlags::default(), specifier: None }
    );
}

fn message(result: Result<Formatter, CurlyErrorKind>) -> String {
    let error = result.unwrap_err();
    assert!(matches!(error, CurlyErrorKind::Syntax(_)));
    String::from(error.message())
}

#[test]
fn compile_errors_name_the_character_and_the_directive() {
    assert_eq!(
        message(compile(Some("."), "k", None)),
        "Expected a digit after `.`, found `:` at 0:3 (error is within segment '{{.:k}}' at 0:3)"
    );
    assert_eq!(
        message(compile(Some("<.x"), "k", Some("!"))),
        "Expected a digit after `.`, found `x` at 0:4 (error is within segment '{{<.x:k/!}}' at 0:4)"
    );
    assert_eq!(
        message(compile(None, "", None)),
        "Expected a specifier, found `}` at 0:2 (error is within segment '{{}}' at 0:2)"
    );
    assert_eq!(
        message(compile(Some("ab"), "", Some("c"))),
        "Expected a specifier, found `/` at 0:5 (error is within segment '{{ab:/c}}' at 0:5)"
    );
    assert_eq!(
        message(compile(None, "k", Some("a b"))),
        "Expected one of `<`, `^`, `>`, `!`, `_`, `-` or a digit, found ` ` at 0:5 \
         (error is within segment '{{k/a b}}' at 0:5)"
    );
    assert_eq!(
        message(compile(Some("x"), "key", Some("<99999999999999999999999999"))),
        "Expected a number that fits a machine word, found `9` at 0:9 \
         (error is within segment '{{x:key/<99999999999999999999999999}}' at 0:9)"
    );
}

#[test]
fn prefix_is_read_before_the_specifier_is_checked() {
    assert_eq!(
        message(compile(Some("."), "", Some("ab"))),
        "Expected a digit after `.`, found `:` at 0:3 (error is within segment '{{.:/ab}}' at 0:3)"
    );
    assert_eq!(
        message(compile(Some("x"), "", Some("ab"))),
        "Expected a specifier, found `/` at 0:4 (error is within segment '{{x:/ab}}' at 0:4)"
    );
}

#[test]
fn compile_errors_are_placed_in_the_document() {
    assert_eq!(
        message(compile_at(Some("."), "k", None, 3, 4)),
        "Expected a digit after `.`, found `:` at 3:7 (error is within segment '{{.:k}}' at 0:3)"
    );
    assert_eq!(
        message(compile_at(Some("a\n."), "k", None, 3, 4)),
        "Expected a digit after `.`, found `:` at 4:1 (error is within segment '{{a\n.:k}}' at 1:1)"
    );
}

#[test]
fn transform_changes_case() {
    let upper = PostTransform { align: None, width: None, effect: Some(PostEffect::Upper) };
    assert_eq!(upper.apply("hello World"), "HELLO WORLD");
    assert_eq!(upper.apply("straße"), "STRASSE");
    let lower = PostTransform { align: None, width: None, effect: Some(PostEffect::Lower) };
    assert_eq!(lower.apply("Hello WORLD"), "hello world");
    let capital = PostTransform { align: None, width: None, effect: Some(PostEffect::Capital) };
    assert_eq!(capital.apply("hello world"), "Hello world");
    assert_eq!(capital.apply("ßa"), "SSa");
    assert_eq!(capital.apply(""), "");
    let none = PostTransform { align: None, width: None, effect: None };
    assert_eq!(none.apply("As It Is"), "As It Is");
}

#[test]
fn transform_pads_to_its_width() {
    let left = PostTransform { align: None, width: Some(6), effect: Some(PostEffect::Pad('*')) };
    assert_eq!(left.apply("ab"), "ab****");
    let right = PostTransform {
        align: Some(Alignment::Right),
        width: Some(6),
        effect: Some(PostEffect::Pad('*')),
    };
    assert_eq!(right.apply("ab"), "****ab");
    let center = PostTransform { align: Some(Alignment::Center), width: Some(7), effect: None };
    assert_eq!(center.apply("ab"), "  ab   ");
    assert_eq!(center.apply("abcdefg"), "abcdefg");
    assert_eq!(center.apply("abcdefgh"), "abcdefgh");
    let upper = PostTransform {
        align: Some(Alignment::Left),
        width: Some(4),
        effect: Some(PostEffect::Upper),
    };
    assert_eq!(upper.apply("ab"), "AB  ");
    let counted = PostTransform { align: None, width: Some(3), effect: Some(PostEffect::Pad('.')) };
    assert_eq!(counted.apply("é"), "é..");
}

#[test]
fn formatter_writes_its_directive_out() {
    assert_eq!(compile(Some("!q"), "flag", Some("!")).unwrap().to_segment(), "{{!q:flag/!}}");
    assert_eq!(compile(None, "key", None).unwrap().to_segment(), "{{key}}");
    assert_eq!(compile(Some(""), "key", Some("")).unwrap().to_segment(), "{{:key/}}");
    assert_eq!(compile(None, "key", Some("<5")).unwrap().to_segment(), "{{key/<5}}");
}

#[test]
fn segment_reads_back_as_the_formatter() {
    for formatter in [
        compile(Some("<8#?!q"), "key", Some("_>3")).unwrap(),
        compile(None, "some.key_1", None).unwrap(),
        compile(Some(""), "key", Some("")).unwrap(),
        compile(Some("a\nb"), "k e y", Some("*12")).unwrap(),
    ] {
        let segment = formatter.to_segment();
        assert_eq!(Formatter::from_segment(&segment, 0, 0).unwrap(), formatter);
        assert_eq!(CurlyContext::from_segment(&segment, 0, 0).unwrap(), formatter.context);
    }
}

#[test]
fn context_of_a_segment() {
    let context = CurlyContext::from_segment("{{>12.3x#!:value/!}}", 0, 0).unwrap();
    assert_eq!(
        context,
        CurlyContext {
            custom_flags: Some(String::from("!")),
            flags: CurlyFlags {
                fill: ' ',
                align: Some(Alignment::Right),
                width: Some(12),
                precision: Some(3),
                sign: None,
                zero_pad: false,
                alternate: true,
                debug_mode: false,
                number_type: NumberType::LowerHex,
            },
            specifier: Some(String::from("value")),
        }
    );
}

fn segment_failure(segment: &str, row: usize, col: usize) -> String {
    let error = CurlyContext::from_segment(segment, row, col).unwrap_err();
    assert!(matches!(error, CurlyErrorKind::Syntax(_)));
    assert_eq!(
        error.message(),
        Formatter::from_segment(segment, row, col).unwrap_err().message()
    );
    String::from(error.message())
}

#[test]
fn segment_must_be_one_directive() {
    assert_eq!(
        segment_failure("text", 0, 0),
        "Expected a single directive at 0:0 (error is within segment 'text' at 0:0)"
    );
    assert_eq!(
        segment_failure("{{a}}{{b}}", 2, 3),
        "Expected a single directive at 2:3 (error is within segment '{{a}}{{b}}' at 0:0)"
    );
    assert_eq!(
        segment_failure("", 0, 0),
        "Expected a single directive at 0:0 (error is within segment '' at 0:0)"
    );
}

#[test]
fn segment_errors_are_placed_in_the_document() {
    assert_eq!(
        segment_failure("{{key", 2, 3),
        "Expected `}}` at 2:3 (error is within segment '{{key' at 0:0)"
    );
    assert_eq!(
        segment_failure("{{key\\", 2, 3),
        "Expected an escaped character, found end of input at 2:9 \
         (error is within segment '{{key\\' at 0:6)"
    );
    assert_eq!(
        segment_failure("{{.:key}}", 2, 3),
        "Expected a digit after `.`, found `:` at 2:6 (error is within segment '{{.:key}}' at 0:3)"
    );
}

#[test]
fn context_writes_a_directive_with_its_flags_in_order() {
    let context = CurlyContext::from_segment("{{!q+x.3>?12#0:key}}", 0, 0).unwrap();
    assert_eq!(context.to_segment(), "{{>+#?012.3x!q:key}}");
    assert_eq!(CurlyContext::from_segment(&context.to_segment(), 0, 0).unwrap(), context);
    let bare = CurlyContext::from_segment("{{key}}", 0, 0).unwrap();
    assert_eq!(bare.to_segment(), "{{key}}");
    assert_eq!(CurlyContext::default().to_segment(), "{{}}");
}

use curly::errors::CurlyErrorKind;
use curly::formatters::Value;
use curly::formatting::{Alignment, CurlyContext, CurlyFlags, CurlyFmt, NumberType, Sign};

fn context(prefix: &str) -> CurlyContext {
    let segment = if prefix.is_empty() {
        String::from("{{value}}")
    } else {
        format!("{{{{{}:value}}}}", prefix)
    };
    CurlyContext::from_segment(&segment, 0, 0).unwrap()
}

fn show<T: CurlyFmt + ?Sized>(value: &T, prefix: &str) -> String {
    value.curly_fmt(&context(prefix)).unwrap()
}

#[test]
fn boolean_words() {
    assert_eq!(show(&true, "q"), "yes");
    assert_eq!(show(&true, "!q"), "no");
    assert_eq!(show(&true, "q!"), "no");
    assert_eq!(show(&false, ""), "false");
    assert_eq!(show(&true, ""), "true");
    assert_eq!(show(&false, "q"), "no");
    assert_eq!(show(&false, "Q"), "no");
    assert_eq!(show(&true, "Q"), "yes");
    assert_eq!(show(&false, "!"), "true");
    assert_eq!(show(&false, "!Q"), "yes");
    assert_eq!(show(&true, "!!"), "true");
    assert_eq!(show(&true, "!q!"), "yes");
}

#[test]
fn boolean_is_padded_like_text() {
    assert_eq!(show(&true, "6q"), "yes   ");
    assert_eq!(show(&true, ">6"), "  true");
    assert_eq!(show(&false, "^7?"), " false ");
    assert_eq!(true.fmt_debug(&context("q")).unwrap(), "yes");
    assert_eq!(true.fmt_display(&context("q")).unwrap(), "yes");
}

#[test]
fn boolean_knows_no_other_flag() {
    let error = true.curly_fmt(&context("z")).unwrap_err();
    assert!(matches!(error, CurlyErrorKind::Syntax(_)));
    assert_eq!(
        error.message(),
        "Expected one of `q`, `Q` or `!`, found `z` at 0:2 (error is within segment '{{z:value}}' at 0:2)"
    );
    let error = false.curly_fmt(&context("q<5y!")).unwrap_err();
    assert_eq!(
        error.message(),
        "Expected one of `q`, `Q` or `!`, found `y` at 0:5 (error is within segment '{{<5qy!:value}}' at 0:5)"
    );
}

#[test]
fn boolean_is_no_number() {
    let error = true.curly_fmt(&context("x")).unwrap_err();
    assert!(matches!(error, CurlyErrorKind::Internal(_)));
    assert_eq!(error.to_string(), "Internal Error: Unreachable!");
}

#[test]
fn text_is_cut_and_padded() {
    let text = String::from("ab");
    assert_eq!(show(&text, ""), "ab");
    assert_eq!(show(&text, "5"), "ab   ");
    assert_eq!(show(&text, "<5"), "ab   ");
    assert_eq!(show(&text, ">5"), "   ab");
    assert_eq!(show(&text, "^5"), " ab  ");
    assert_eq!(show(&text, "^6"), "  ab  ");
    assert_eq!(show(&text, "1"), "ab");
    assert_eq!(show(&text, ".1"), "a");
    assert_eq!(show(&text, ".0"), "");
    assert_eq!(show(&text, ".5"), "ab");
    assert_eq!(show(&text, "4.1"), "a   ");
    assert_eq!(show("héllo", ">7.4"), "   héll");
    assert_eq!(show(&text, "+#0"), "ab");
    assert_eq!(show(&text, "~w$"), "ab");
}

#[test]
fn text_matches_the_standard_formatter() {
    assert_eq!(show("ab", ">5"), format!("{:>5}", "ab"));
    assert_eq!(show("ab", "^5"), format!("{:^5}", "ab"));
    assert_eq!(show("abcdef", "<4.3"), format!("{:<4.3}", "abcdef"));
}

#[test]
fn text_fill_comes_from_the_flags() {
    let mut context = context("^6");
    context.flags.fill = '-';
    assert_eq!(String::from("ab").curly_fmt(&context).unwrap(), "--ab--");
}

#[test]
fn text_in_debug_form_is_quoted() {
    assert_eq!(show("ab", "?"), "\"ab\"");
    assert_eq!(show("a\"b\n", "?"), "\"a\\\"b\\n\"");
    assert_eq!(show(&String::from("ab"), "?6"), "\"ab\"  ");
    assert_eq!(show("abcdef", "?.2"), "\"abcdef\"");
    assert_eq!(String::from("ab").fmt_debug(&context("")).unwrap(), "\"ab\"");
    assert_eq!(String::from("ab").fmt_display(&context("?")).unwrap(), "ab");
}

#[test]
fn text_is_no_number() {
    for prefix in ["x", "X", "o", "b", "p", "e", "E", "?x"] {
        let error = String::from("ab").curly_fmt(&context(prefix)).unwrap_err();
        assert!(matches!(error, CurlyErrorKind::Internal(_)));
        assert_eq!(error.message(), "Unreachable!");
        assert!(matches!("ab".curly_fmt(&context(prefix)), Err(CurlyErrorKind::Internal(_))));
    }
}

#[test]
fn integers_in_decimal() {
    assert_eq!(show(&0u8, ""), "0");
    assert_eq!(show(&255u8, ""), "255");
    assert_eq!(show(&-128i8, ""), "-128");
    assert_eq!(show(&u64::MAX, ""), "18446744073709551615");
    assert_eq!(show(&i64::MIN, ""), "-9223372036854775808");
    assert_eq!(show(&usize::MAX, ""), format!("{}", usize::MAX));
    assert_eq!(show(&isize::MIN, ""), format!("{}", isize::MIN));
    assert_eq!(show(&5i32, "+"), "+5");
    assert_eq!(show(&-5i32, "+"), "-5");
    assert_eq!(show(&0u16, "+"), "+0");
    assert_eq!(show(&5i32, "-"), "5");
    assert_eq!(show(&5i32, "#"), "5");
    assert_eq!(show(&1234u32, ".2"), "1234");
    assert_eq!(show(&7u16, "?"), "7");
}

#[test]
fn integers_in_other_bases() {
    assert_eq!(show(&255u8, "x"), "ff");
    assert_eq!(show(&255u8, "X"), "FF");
    assert_eq!(show(&255u8, "#x"), "0xff");
    assert_eq!(show(&255u8, "#X"), "0xFF");
    assert_eq!(show(&8u32, "o"), "10");
    assert_eq!(show(&8u32, "#o"), "0o10");
    assert_eq!(show(&5u64, "b"), "101");
    assert_eq!(show(&5u64, "#b"), "0b101");
    assert_eq!(show(&0u64, "#x"), "0x0");
    assert_eq!(show(&0xdead_beefu32, "x"), "deadbeef");
    assert_eq!(show(&5u8, "+x"), "+5");
    assert_eq!(show(&u64::MAX, "b"), format!("{:b}", u64::MAX));
}

#[test]
fn negative_integers_in_other_bases_are_written_as_held() {
    assert_eq!(show(&-1i8, "x"), "ff");
    assert_eq!(show(&-1i16, "x"), "ffff");
    assert_eq!(show(&-1i32, "X"), "FFFFFFFF");
    assert_eq!(show(&-1i64, "x"), "ffffffffffffffff");
    assert_eq!(show(&-128i8, "b"), "10000000");
    assert_eq!(show(&-2i8, "#o"), "0o376");
    assert_eq!(show(&-1isize, "x"), format!("{:x}", -1isize));
    assert_eq!(show(&i64::MIN, "x"), format!("{:x}", i64::MIN));
    assert_eq!(show(&-5i32, "+#x"), format!("{:+#x}", -5i32));
}

#[test]
fn integers_are_padded() {
    assert_eq!(show(&42u8, "5"), "   42");
    assert_eq!(show(&42u8, ">5"), "   42");
    assert_eq!(show(&42u8, "<5"), "42   ");
    assert_eq!(show(&42u8, "^5"), " 42  ");
    assert_eq!(show(&42u8, "^6"), "  42  ");
    assert_eq!(show(&42u8, "1"), "42");
    assert_eq!(show(&-5i32, "08"), "-0000005");
    assert_eq!(show(&5i32, "+08"), "+0000005");
    assert_eq!(show(&255u8, "#010x"), "0x000000ff");
    assert_eq!(show(&255u8, "<#010x"), "0x000000ff");
    assert_eq!(show(&255u8, "02"), "255");
    assert_eq!(show(&255u8, "0"), "255");
    assert_eq!(show(&-5i32, "6"), "    -5");
    assert_eq!(show(&255u8, "#7x"), "   0xff");
}

#[test]
fn integers_match_the_standard_formatter() {
    assert_eq!(show(&-5i32, "08"), format!("{:08}", -5i32));
    assert_eq!(show(&255u8, "#010x"), format!("{:#010x}", 255u8));
    assert_eq!(show(&42u8, "^6"), format!("{:^6}", 42u8));
    assert_eq!(show(&42u8, "<5"), format!("{:<5}", 42u8));
    assert_eq!(show(&-7i64, "+5"), format!("{:+5}", -7i64));
    assert_eq!(show(&1234567u32, "#o"), format!("{:#o}", 1234567u32));
}

#[test]
fn integers_know_four_bases() {
    for prefix in ["e", "E", "p"] {
        let error = 5u8.curly_fmt(&context(prefix)).unwrap_err();
        assert!(matches!(error, CurlyErrorKind::Internal(_)));
        assert_eq!(error.to_string(), "Internal Error: Unreachable!");
        assert!(matches!((-5i64).fmt_debug(&context(prefix)), Err(CurlyErrorKind::Internal(_))));
        assert!(matches!(5usize.fmt_display(&context(prefix)), Err(CurlyErrorKind::Internal(_))));
    }
}

#[test]
fn values_render_as_their_kind() {
    assert_eq!(show(&Value::Text(String::from("ab")), ">4"), "  ab");
    assert_eq!(show(&Value::Text(String::from("ab")), "?"), "\"ab\"");
    assert_eq!(show(&Value::Boolean(true), "q"), "yes");
    assert_eq!(show(&Value::Boolean(true), "?"), "true");
    assert_eq!(show(&Value::Unsigned(255), "#x"), "0xff");
    assert_eq!(show(&Value::Signed(-1), "x"), "ffffffffffffffff");
    assert_eq!(show(&Value::Signed(-1), ""), "-1");
    assert_eq!(Value::Signed(-1).fmt_display(&context("")).unwrap(), "-1");
    assert_eq!(Value::Text(String::from("a")).fmt_debug(&context("")).unwrap(), "\"a\"");
    assert!(matches!(
        Value::Boolean(true).curly_fmt(&context("x")),
        Err(CurlyErrorKind::Internal(_))
    ));
}

#[test]
fn flags_can_be_built_by_hand() {
    let context = CurlyContext {
        custom_flags: None,
        flags: CurlyFlags {
            fill: '.',
            align: Some(Alignment::Center),
            width: Some(9),
            precision: None,
            sign: Some(Sign::Plus),
            zero_pad: false,
            alternate: true,
            debug_mode: false,
            number_type: NumberType::Octal,
        },
        specifier: None,
    };
    assert_eq!(8u8.curly_fmt(&context).unwrap(), "..+0o10..");
}

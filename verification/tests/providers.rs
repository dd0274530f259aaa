use curly::errors::{unknown_key_error, unreachable_error, CurlyErrorKind, CurlyFmtResult};
use curly::formatters::Value;
use curly::formatting::{CurlyContext, CurlyFmt};
use curly::provider::{unknown, Delegate, Provider, Unknown, Values};
use curly::template::render_template;

/// A record with one field, as a host would write its provider by hand.
struct Record {
    value1: String,
}

impl Provider for Record {
    fn provide(&self, context: &CurlyContext, key: &str) -> CurlyFmtResult {
        match key {
            "value1" => self.value1.curly_fmt(context),
            _ => Err(unknown_key_error(key)),
        }
    }
}

#[test]
fn unknown_key_is_a_generic_error() {
    let record = Record { value1: String::from("one") };
    let error = render_template("{{value2}}", &record).unwrap_err();
    assert!(matches!(error, CurlyErrorKind::Generic(_)));
    assert_eq!(error.message(), "Invalid format specifier `value2`.");
    assert_eq!(error.to_string(), "Error: Invalid format specifier `value2`.");
}

#[test]
fn known_key_renders_its_value() {
    let record = Record { value1: String::from("one") };
    assert_eq!(render_template("{{value1}}", &record).unwrap(), "one");
    assert_eq!(render_template("a {{value1}} b", &record).unwrap(), "a one b");
}

#[test]
fn primary_values_take_precedence() {
    let primary = Values::new().with("value", Value::Text(String::from("primary")));
    let secondary = Values::new()
        .with("value", Value::Text(String::from("secondary")))
        .with("other", Value::Text(String::from("fallback")));
    let both = Delegate { primary, secondary };
    assert_eq!(render_template("{{value}}", &both).unwrap(), "primary");
    assert_eq!(render_template("{{other}}", &both).unwrap(), "fallback");
    let error = render_template("{{missing}}", &both).unwrap_err();
    assert_eq!(error.to_string(), "Error: Invalid format specifier `missing`.");
}

#[test]
fn values_delegate_to_a_record() {
    let primary = Values::new().with("string", Value::Text(String::from("Thanks!")));
    let both = Delegate { primary, secondary: Record { value1: String::from("one") } };
    assert_eq!(render_template("{{value1}} ({{string}})", &both).unwrap(), "one (Thanks!)");
}

#[test]
fn later_value_under_a_name_counts() {
    let values = Values::new()
        .with("n", Value::Unsigned(1))
        .with("n", Value::Unsigned(2));
    assert_eq!(values.len(), 2);
    assert_eq!(render_template("{{n}}", &values).unwrap(), "2");
}

#[test]
fn provider_without_keys_knows_none() {
    let error = render_template("{{anything}}", &Unknown {}).unwrap_err();
    assert!(matches!(error, CurlyErrorKind::Generic(_)));
    assert_eq!(error.message(), "Invalid format specifier `anything`.");
}

#[test]
fn values_render_a_template_themselves() {
    let values = Values::new()
        .with("name", Value::Text(String::from("world")))
        .with("n", Value::Signed(-7));
    assert_eq!(values.render("Hello, {{name/-}}: {{+:n}}").unwrap(), "Hello, World: -7");
    assert_eq!(values.render("").unwrap(), "");
    let error = values.render("{{other}}").unwrap_err();
    assert_eq!(error.to_string(), "Error: Invalid format specifier `other`.");
    assert!(matches!(values.render("{"), Err(CurlyErrorKind::Syntax(_))));
}

#[test]
fn answer_without_a_key_is_told_apart() {
    assert!(unknown(&Err(unknown_key_error("k"))));
    assert!(!unknown(&Ok(String::new())));
    assert!(!unknown(&Err(unreachable_error())));
}

#[test]
fn delegate_passes_other_errors_on() {
    let primary = Values::new().with("flag", Value::Boolean(true));
    let secondary = Values::new().with("flag", Value::Text(String::from("hidden")));
    let both = Delegate { primary, secondary };
    assert!(matches!(render_template("{{x:flag}}", &both), Err(CurlyErrorKind::Internal(_))));
    assert!(matches!(render_template("{{z:flag}}", &both), Err(CurlyErrorKind::Syntax(_))));
}

use ernie_translate::decimal::parse_decimal;
use ernie_translate::subst::substitute;
use ernie_translate::template::parse_template;
use ernie_translate::text::{chars_to_string, str_to_chars};

fn subst(s: &str, to: &str, text: &str) -> String {
    let out = substitute(
        &str_to_chars(s),
        &str_to_chars("$to$"),
        &str_to_chars(to),
        &str_to_chars("$src_text$"),
        &str_to_chars(text),
    );
    chars_to_string(&out)
}

#[test]
fn substitution_replaces_every_occurrence() {
    assert_eq!(
        subst("to $to$: $src_text$ ($to$)", "en", "hello"),
        "to en: hello (en)"
    );
}

#[test]
fn substitution_without_placeholders_is_identity() {
    assert_eq!(subst("plain text, no dollars", "en", "x"), "plain text, no dollars");
}

#[test]
fn substitution_with_empty_replacement() {
    assert_eq!(subst("[$src_text$]", "en", ""), "[]");
}

#[test]
fn decimal_accepts_plain_and_signed_tokens() {
    assert!(parse_decimal(&str_to_chars("0.6")).is_some());
    assert!(parse_decimal(&str_to_chars("-0.5")).is_some());
    assert!(parse_decimal(&str_to_chars("+1.25")).is_some());
    assert!(parse_decimal(&str_to_chars("12")).is_some());
}

#[test]
fn decimal_rejects_non_numbers() {
    assert!(parse_decimal(&str_to_chars("abc")).is_none());
    assert!(parse_decimal(&str_to_chars("")).is_none());
    assert!(parse_decimal(&str_to_chars("1.")).is_none());
    assert!(parse_decimal(&str_to_chars(".5")).is_none());
    assert!(parse_decimal(&str_to_chars("1.2.3")).is_none());
    assert!(parse_decimal(&str_to_chars("1e3")).is_none());
}

#[test]
fn decimal_range_checks_are_exact() {
    let d = parse_decimal(&str_to_chars("0.000001")).unwrap();
    assert!(d.gt_zero());
    assert!(d.le_small(1));
    let z = parse_decimal(&str_to_chars("0.000")).unwrap();
    assert!(!z.gt_zero());
    assert!(z.ge_zero());
    let neg = parse_decimal(&str_to_chars("-0.0")).unwrap();
    assert!(neg.ge_zero());
    let two = parse_decimal(&str_to_chars("2.000")).unwrap();
    assert!(two.le_small(2));
    let over = parse_decimal(&str_to_chars("2.0001")).unwrap();
    assert!(!over.le_small(2));
}

#[test]
fn template_accepts_escapes_and_extra_members() {
    let text = "[{\"role\":\"user\",\"content\":\"line\\nbreak \\u4f60\",\"extra\":\"kept out\"}]";
    let msgs = parse_template(&str_to_chars(text)).unwrap();
    assert_eq!(msgs.len(), 1);
    assert_eq!(msgs[0].content, "line\nbreak 你");
}

#[test]
fn template_accepts_surrogate_pair_escape() {
    let text = "[{\"role\":\"user\",\"content\":\"\\ud83d\\ude00\"}]";
    let msgs = parse_template(&str_to_chars(text)).unwrap();
    assert_eq!(msgs[0].content, "😀");
}

#[test]
fn template_rejects_lone_surrogate_and_bad_values() {
    assert!(parse_template(&str_to_chars("[{\"role\":\"user\",\"content\":\"\\ud83d\"}]")).is_none());
    assert!(parse_template(&str_to_chars("[{\"role\":\"user\",\"content\":42}]")).is_none());
    assert!(parse_template(&str_to_chars("[{\"content\":\"x\"}]")).is_none());
    assert!(parse_template(&str_to_chars("[]trailing")).is_none());
}

#[test]
fn template_empty_array_is_valid() {
    let msgs = parse_template(&str_to_chars(" [ ] ")).unwrap();
    assert_eq!(msgs.len(), 0);
}

#[test]
fn template_last_duplicate_member_wins() {
    let text = "[{\"role\":\"user\",\"role\":\"assistant\",\"content\":\"x\"}]";
    let msgs = parse_template(&str_to_chars(text)).unwrap();
    assert_eq!(msgs[0].role, "assistant");
}

#[test]
fn decimal_leading_zeros_and_negative_zero() {
    let d = parse_decimal(&str_to_chars("01.0")).unwrap();
    assert!(d.le_small(1));
    assert!(d.ge_one());
    let nz = parse_decimal(&str_to_chars("-0.0")).unwrap();
    assert!(nz.ge_zero());
    assert!(!nz.gt_zero());
}

#[test]
fn decimal_renders_canonically() {
    let d = parse_decimal(&str_to_chars("007.50")).unwrap();
    let out = chars_to_string(&ernie_translate::decimal::render_decimal(&d));
    assert_eq!(out, "7.50");
    let i = parse_decimal(&str_to_chars("000")).unwrap();
    let out2 = chars_to_string(&ernie_translate::decimal::render_decimal(&i));
    assert_eq!(out2, "0");
}

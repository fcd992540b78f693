use apexchainx_calculator::json_text::{escape_json, push_decimal_i128, push_decimal_u32, same_text};

#[test]
fn escape_json_plain_text_is_unchanged() {
    assert_eq!(escape_json("hold"), "hold");
    assert_eq!(escape_json(""), "");
    assert_eq!(escape_json("caf\u{e9} \u{1f600}"), "caf\u{e9} \u{1f600}");
}

#[test]
fn escape_json_quote_and_backslash() {
    assert_eq!(escape_json("reason-with-\"quote\""), r#"reason-with-\"quote\""#);
    assert_eq!(escape_json("a\\b"), r#"a\\b"#);
}

#[test]
fn escape_json_named_controls() {
    assert_eq!(escape_json("a\nb\rc\td"), r#"a\nb\rc\td"#);
}

#[test]
fn escape_json_other_controls_use_lowercase_hex() {
    assert_eq!(escape_json("\u{1}"), r#"\u0001"#);
    assert_eq!(escape_json("\u{1f}"), r#"\u001f"#);
    assert_eq!(escape_json("\u{0}x\u{b}"), r#"\u0000x\u000b"#);
    assert_eq!(escape_json("\u{20}"), " ");
}

#[test]
fn decimal_rendering_of_u32() {
    let mut s = String::new();
    push_decimal_u32(&mut s, 0);
    assert_eq!(s, "0");
    let mut s = String::from("x=");
    push_decimal_u32(&mut s, 4294967295);
    assert_eq!(s, "x=4294967295");
    let mut s = String::new();
    push_decimal_u32(&mut s, 20);
    assert_eq!(s, "20");
}

#[test]
fn decimal_rendering_of_i128() {
    let mut s = String::new();
    push_decimal_i128(&mut s, -1000);
    assert_eq!(s, "-1000");
    let mut s = String::new();
    push_decimal_i128(&mut s, 750);
    assert_eq!(s, "750");
    let mut s = String::new();
    push_decimal_i128(&mut s, i128::MIN);
    assert_eq!(s, i128::MIN.to_string());
    let mut s = String::new();
    push_decimal_i128(&mut s, i128::MAX);
    assert_eq!(s, i128::MAX.to_string());
    let mut s = String::new();
    push_decimal_i128(&mut s, -7);
    assert_eq!(s, "-7");
}

#[test]
fn same_text_compares_characters() {
    assert!(same_text("set_config", "set_config"));
    assert!(!same_text("set_config", "set_confi"));
    assert!(!same_text("pause", "unpause"));
    assert!(same_text("", ""));
    assert!(!same_text("abc", "abd"));
}

use m1_doc::escape::{escape_json_into, escape_json_string};

#[test]
fn spec_escapes_control_set_but_not_script_chars() {
    assert_eq!(escape_json_string("a\"b\\c", false), "\"a\\\"b\\\\c\"");
    assert_eq!(escape_json_string("\n\r\t", false), "\"\\n\\r\\t\"");
    assert_eq!(escape_json_string("\u{08}\u{0C}", false), "\"\\b\\f\"");
    assert_eq!(escape_json_string("\u{01}", false), "\"\\u0001\"");
    assert_eq!(escape_json_string("</x>", false), "\"</x>\"");
}

#[test]
fn script_safe_hardens_angle_brackets_and_slash() {
    assert_eq!(escape_json_string("<x>", true), "\"\\u003cx\\u003e\"");
    assert_eq!(escape_json_string("a/b", true), "\"a\\/b\"");
    assert!(!escape_json_string("</script>", true).contains("</"));
    assert!(escape_json_string("a\nb", true).contains("\\n"));
    assert_eq!(escape_json_string("\u{08}", true), "\"\\b\"");
}

#[test]
fn into_appends_without_quotes() {
    let mut out = String::from("x");
    escape_json_into(&mut out, "a\nb", false);
    assert_eq!(out, "xa\\nb");
}

use toml_export::render::render;
use toml_export::value::Value;

fn s(text: &str) -> Value {
    Value::String(text.to_string())
}

#[test]
fn identifier_string_renders_as_itself() {
    assert_eq!(render(&s("abc_123")), "abc_123");
    assert_eq!(render(&s("UPPER_lower_99")), "UPPER_lower_99");
}

#[test]
fn string_with_space_is_single_quoted() {
    assert_eq!(render(&s("a b")), "'a b'");
    assert_eq!(render(&s("hello world")), "'hello world'");
}

#[test]
fn string_with_single_quote_is_double_quoted() {
    // The document carries the quote escaped; the decoded content `it's`
    // cannot stand between single quotes, so it is double-quoted.
    let rendered = render(&s("\"it\\'s\""));
    assert_eq!(rendered, "\"it's\"");
    assert_eq!(snailquote::unescape(&rendered).unwrap(), "it's");
}

#[test]
fn bare_quote_characters_act_as_quoting_when_decoded() {
    // An unescaped quote in the document literal quotes its span and leaves
    // no character of its own in the decoded content.
    assert_eq!(render(&s("it's")), "its");
}

#[test]
fn empty_string_is_quoted_to_an_empty_word() {
    assert_eq!(render(&s("")), "''");
}

#[test]
fn control_characters_are_escaped() {
    assert_eq!(render(&s("tab\there")), "\"tab\\there\"");
    assert_eq!(render(&s("line\nbreak")), "\"line\\nbreak\"");
}

#[test]
fn rendered_strings_parse_back_to_their_raw_content() {
    for raw in ["a b", "tab\there", "x$y`z", "\\path\\", "", "semi;colon", "glob*?["] {
        let rendered = render(&s(raw));
        assert_eq!(snailquote::unescape(&rendered).unwrap(), raw);
    }
}

#[test]
fn quoted_document_literal_is_unescaped_before_quoting() {
    // The document carried a quoted literal: its content is decoded first,
    // then re-quoted for the shell.
    assert_eq!(render(&s("'hi there'")), "'hi there'");
    assert_eq!(render(&s("\"new\\nline\"")), "\"new\\nline\"");
}

#[test]
fn bare_integer_gets_a_trailing_newline() {
    // The one deliberate asymmetry: a root integer is newline-terminated.
    assert_eq!(render(&Value::Integer(42)), "42\n");
    assert_eq!(render(&Value::Integer(0)), "0\n");
    assert_eq!(render(&Value::Integer(-7)), "-7\n");
}

#[test]
fn integer_inside_array_has_no_newline() {
    assert_eq!(render(&Value::Array(vec![Value::Integer(42)])), "42");
}

#[test]
fn extreme_integers_render_exactly() {
    let v = Value::Array(vec![
        Value::Integer(i64::MIN),
        Value::Integer(i64::MAX),
    ]);
    assert_eq!(render(&v), "-9223372036854775808 9223372036854775807");
}

#[test]
fn booleans_render_bare() {
    assert_eq!(render(&Value::Boolean(true)), "true");
    assert_eq!(render(&Value::Boolean(false)), "false");
}

#[test]
fn float_and_timestamp_text_passes_through() {
    assert_eq!(render(&Value::Float("3.14".to_string())), "3.14");
    assert_eq!(
        render(&Value::Timestamp("1979-05-27T07:32:00Z".to_string())),
        "1979-05-27T07:32:00Z"
    );
}

#[test]
fn array_joins_scalars_with_single_spaces() {
    let v = Value::Array(vec![
        Value::Integer(1),
        Value::Boolean(true),
        Value::String("x y".to_string()),
    ]);
    assert_eq!(render(&v), "1 true 'x y'");
}

#[test]
fn array_skips_nested_composites_silently() {
    let v = Value::Array(vec![
        Value::Integer(1),
        Value::Table(Vec::new()),
        Value::Integer(2),
    ]);
    assert_eq!(render(&v), "1 2");
}

#[test]
fn array_of_only_composites_renders_empty() {
    let v = Value::Array(vec![
        Value::Array(vec![Value::Integer(1)]),
        Value::Table(Vec::new()),
    ]);
    assert_eq!(render(&v), "");
    assert_eq!(render(&Value::Array(Vec::new())), "");
}

#[test]
fn table_renders_assignments_in_document_order() {
    let v = Value::Table(vec![
        ("a".to_string(), Value::Integer(1)),
        ("b".to_string(), Value::Array(vec![Value::Integer(9)])),
    ]);
    assert_eq!(render(&v), "[a]=1");
}

#[test]
fn table_with_several_scalars() {
    let v = Value::Table(vec![
        ("one".to_string(), Value::Integer(1)),
        ("two words".to_string(), Value::String("a b".to_string())),
        ("flag".to_string(), Value::Boolean(false)),
    ]);
    assert_eq!(render(&v), "[one]=1 ['two words']='a b' [flag]=false");
}

#[test]
fn empty_table_renders_empty() {
    assert_eq!(render(&Value::Table(Vec::new())), "");
}

use toml_export::path::{get_path, ExportSpec};
use toml_export::render::render;
use toml_export::value::Value;

fn table(entries: Vec<(&str, Value)>) -> Value {
    Value::Table(
        entries
            .into_iter()
            .map(|(k, v)| (k.to_string(), v))
            .collect(),
    )
}

#[test]
fn from_str_splits_on_dots() {
    assert_eq!(ExportSpec::from_str("a.b.c").path, vec!["a", "b", "c"]);
    assert_eq!(ExportSpec::from_str("plain").path, vec!["plain"]);
}

#[test]
fn empty_request_is_one_empty_segment() {
    assert_eq!(ExportSpec::from_str("").path, vec![""]);
    assert_eq!(ExportSpec::from_str("a..b").path, vec!["a", "", "b"]);
}

#[test]
fn resolves_nested_tables_in_order() {
    let doc = table(vec![(
        "a",
        table(vec![("b", table(vec![("c", Value::Integer(7))]))]),
    )]);
    let spec = ExportSpec::from_str("a.b.c");
    let value = get_path(&doc, &spec.path).unwrap_or_else(|_| panic!("expected a value"));
    assert_eq!(render(value), "7\n");
}

#[test]
fn empty_path_resolves_the_empty_key() {
    let doc = table(vec![("", Value::Integer(5))]);
    let spec = ExportSpec::from_str("");
    let value = get_path(&doc, &spec.path).unwrap_or_else(|_| panic!("expected a value"));
    assert_eq!(render(value), "5\n");
}

#[test]
fn missing_final_segment_reports_the_full_path() {
    let doc = table(vec![("a", table(vec![("b", table(vec![]))]))]);
    let spec = ExportSpec::from_str("a.b.c");
    match get_path(&doc, &spec.path) {
        Err(e) => assert_eq!(e.key, "a.b.c"),
        Ok(_) => panic!("expected a missing key"),
    }
}

#[test]
fn missing_first_segment_reports_the_full_path() {
    let doc = table(vec![("x", Value::Integer(1))]);
    let spec = ExportSpec::from_str("a.b.c");
    match get_path(&doc, &spec.path) {
        Err(e) => assert_eq!(e.key, "a.b.c"),
        Ok(_) => panic!("expected a missing key"),
    }
}

#[test]
fn scalar_in_the_middle_reports_the_full_path() {
    let doc = table(vec![("a", Value::Integer(1))]);
    let spec = ExportSpec::from_str("a.b");
    match get_path(&doc, &spec.path) {
        Err(e) => assert_eq!(e.key, "a.b"),
        Ok(_) => panic!("expected a missing key"),
    }
}

#[test]
fn resolving_an_array_element_path_fails() {
    // Only plain key segments resolve: arrays are never indexed.
    let doc = table(vec![("a", Value::Array(vec![Value::Integer(1)]))]);
    let spec = ExportSpec::from_str("a.0");
    match get_path(&doc, &spec.path) {
        Err(e) => assert_eq!(e.key, "a.0"),
        Ok(_) => panic!("expected a missing key"),
    }
}

#[test]
fn empty_segments_survive_in_the_reported_path() {
    let doc = table(vec![("a", Value::Integer(1))]);
    let spec = ExportSpec::from_str("a..b");
    match get_path(&doc, &spec.path) {
        Err(e) => assert_eq!(e.key, "a..b"),
        Ok(_) => panic!("expected a missing key"),
    }
}

#[test]
fn resolved_composites_render_by_shape() {
    let doc = table(vec![(
        "list",
        Value::Array(vec![Value::Integer(1), Value::Integer(2)]),
    )]);
    let spec = ExportSpec::from_str("list");
    let value = get_path(&doc, &spec.path).unwrap_or_else(|_| panic!("expected a value"));
    assert_eq!(render(value), "1 2");
}

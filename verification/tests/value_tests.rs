use commit_report::field::Field;
use commit_report::value::{csv_header, csv_row, json_array, json_line, Value};

fn text(s: &str) -> Value {
    Value::Text(s.to_string())
}

fn list(items: &[&str]) -> Value {
    Value::List(items.iter().map(|s| s.to_string()).collect())
}

#[test]
fn text_as_json_is_quoted() {
    assert_eq!(text("Alice").to_json(), "\"Alice\"");
    assert_eq!(text("").to_json(), "\"\"");
    assert_eq!(text("a,b").to_json(), "\"a,b\"");
}

#[test]
fn text_as_json_is_escaped() {
    assert_eq!(text("say \"hi\"").to_json(), "\"say \\\"hi\\\"\"");
    assert_eq!(text("back\\slash").to_json(), "\"back\\\\slash\"");
    assert_eq!(text("line\nbreak\ttab\r").to_json(), "\"line\\nbreak\\ttab\\r\"");
    assert_eq!(text("\u{8}\u{c}").to_json(), "\"\\b\\f\"");
    assert_eq!(text("\u{0}\u{1}\u{1f}").to_json(), "\"\\u0000\\u0001\\u001f\"");
    assert_eq!(text("é/\u{7f}").to_json(), "\"é/\u{7f}\"");
}

#[test]
fn text_as_json_agrees_with_serde() {
    for s in ["", "plain", "q\"uote", "new\nline", "tab\t", "\u{2}", "日本語", "a\\b"] {
        assert_eq!(text(s).to_json(), serde_json::Value::String(s.to_string()).to_string());
    }
}

#[test]
fn number_as_json() {
    assert_eq!(Value::Integer(1700000000).to_json(), "1700000000");
    assert_eq!(Value::Integer(0).to_json(), "0");
    assert_eq!(Value::Integer(-5).to_json(), "-5");
    assert_eq!(Value::Integer(i64::MIN).to_json(), "-9223372036854775808");
}

#[test]
fn list_as_json() {
    assert_eq!(list(&[]).to_json(), "[]");
    assert_eq!(list(&["main"]).to_json(), "[\"main\"]");
    assert_eq!(list(&["main", "v1.0"]).to_json(), "[\"main\",\"v1.0\"]");
    assert_eq!(list(&["a\"b", ""]).to_json(), "[\"a\\\"b\",\"\"]");
    assert_eq!(json_array(&vec!["x".to_string(), "y".to_string()]), "[\"x\",\"y\"]");
}

#[test]
fn list_as_json_agrees_with_serde() {
    let items = vec!["one".to_string(), "t\"wo".to_string(), "th\nree".to_string()];
    let array = serde_json::Value::Array(
        items.iter().map(|s| serde_json::Value::String(s.clone())).collect(),
    );
    assert_eq!(Value::List(items).to_json(), array.to_string());
}

#[test]
fn cells_are_not_quoted() {
    assert_eq!(text("Alice").to_csv(), "Alice");
    assert_eq!(text("").to_csv(), "");
    assert_eq!(text("a,b \"c\"").to_csv(), "a,b \"c\"");
    assert_eq!(Value::Integer(1700000000).to_csv(), "1700000000");
    assert_eq!(Value::Integer(-12).to_csv(), "-12");
}

#[test]
fn list_cells_are_json_arrays() {
    assert_eq!(list(&[]).to_csv(), "[]");
    assert_eq!(list(&["main", "dev"]).to_csv(), "[\"main\",\"dev\"]");
}

#[test]
fn json_line_keeps_the_order_of_the_fields() {
    let fields = vec![Field::AuthorName, Field::AuthorTime];
    let row = vec![text("Alice"), Value::Integer(1700000000)];
    assert_eq!(json_line(&fields, &row), "{\"an\":\"Alice\",\"at\":1700000000}");
    let fields = vec![Field::Summary, Field::CommitHash, Field::RefNames];
    let row = vec![text("Zed"), text("00ff"), list(&["main"])];
    assert_eq!(json_line(&fields, &row), "{\"s\":\"Zed\",\"H\":\"00ff\",\"D\":[\"main\"]}");
}

#[test]
fn json_line_repeats_repeated_fields() {
    let fields = vec![Field::CommitHash, Field::CommitHash];
    let row = vec![text("ab"), text("ab")];
    assert_eq!(json_line(&fields, &row), "{\"H\":\"ab\",\"H\":\"ab\"}");
}

#[test]
fn json_line_without_fields() {
    assert_eq!(json_line(&vec![], &vec![]), "{}");
}

#[test]
fn csv_lines_for_the_same_record() {
    let fields = vec![Field::AuthorName, Field::AuthorTime];
    let row = vec![text("Alice"), Value::Integer(1700000000)];
    assert_eq!(json_line(&fields, &row), "{\"an\":\"Alice\",\"at\":1700000000}");
    assert_eq!(csv_header(&fields), "an,at");
    assert_eq!(csv_row(&row), "Alice,1700000000");
}

#[test]
fn csv_header_repeats_repeated_fields() {
    assert_eq!(csv_header(&vec![Field::FilesChanged, Field::RefNames, Field::FilesChanged]), "df,D,df");
    assert_eq!(csv_header(&vec![]), "");
    assert_eq!(csv_header(&vec![Field::Message]), "B");
}

#[test]
fn csv_row_does_not_escape_commas() {
    let row = vec![text("Doe, Jane"), text(""), list(&["a", "b"]), Value::Integer(3)];
    assert_eq!(csv_row(&row), "Doe, Jane,,[\"a\",\"b\"],3");
    assert_eq!(csv_row(&vec![]), "");
}

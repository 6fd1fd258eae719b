use rigg::diff_output::{
    format_change_text, format_report, format_text, format_value_preview, Change, ChangeKind,
    DiffResult, JsonValue, OutputFormat, ReportOutput,
};

#[test]
fn test_format_text_no_changes() {
    let result = DiffResult {
        is_equal: true,
        changes: vec![],
    };
    let output = format_text(&result, "test-index");
    assert!(output.contains("no changes"));
}

fn modified(path: &str, old: JsonValue, new: JsonValue) -> Change {
    Change {
        path: path.to_string(),
        kind: ChangeKind::Modified,
        old_value: Some(old),
        new_value: Some(new),
        description: None,
    }
}

#[test]
fn format_text_counts_and_lists_changes() {
    let result = DiffResult {
        is_equal: false,
        changes: vec![modified(
            "value",
            JsonValue::Number("1".into()),
            JsonValue::Number("2".into()),
        )],
    };
    let output = format_text(&result, "test-index");
    assert_eq!(output, "test-index: 1 change(s)\n  ~ value: was 1, now 2\n");
}

#[test]
fn a_description_replaces_the_generic_line() {
    let mut c = modified("description", JsonValue::Str("old".into()), JsonValue::Str("new".into()));
    c.description = Some("The description differs".to_string());
    assert_eq!(format_change_text(&c), "  The description differs\n");
}

#[test]
fn value_previews() {
    assert_eq!(format_value_preview(None), "(none)");
    assert_eq!(format_value_preview(Some(&JsonValue::Null)), "null");
    assert_eq!(format_value_preview(Some(&JsonValue::Bool(true))), "true");
    let small = JsonValue::Array(vec![
        JsonValue::Number("1".into()),
        JsonValue::Number("2".into()),
        JsonValue::Number("3".into()),
    ]);
    assert_eq!(format_value_preview(Some(&small)), "[1, 2, 3]");
    let strings = JsonValue::Array(vec![JsonValue::Str("a".into()), JsonValue::Str("b".into())]);
    assert_eq!(format_value_preview(Some(&strings)), "[\"a\", \"b\"]");
    let four = JsonValue::Array(vec![
        JsonValue::Number("1".into()),
        JsonValue::Number("2".into()),
        JsonValue::Number("3".into()),
        JsonValue::Number("4".into()),
    ]);
    assert_eq!(format_value_preview(Some(&four)), "[4 items]");
    assert_eq!(format_value_preview(Some(&JsonValue::Array(vec![]))), "[]");
    let complex = JsonValue::Array(vec![JsonValue::Object(vec![("a".into(), JsonValue::Number("1".into()))])]);
    assert_eq!(format_value_preview(Some(&complex)), "[1 items]");
    let obj = JsonValue::Object(vec![("a".into(), JsonValue::Null), ("b".into(), JsonValue::Null)]);
    assert_eq!(format_value_preview(Some(&obj)), "{...} (2 keys)");
}

#[test]
fn long_strings_are_truncated_with_their_byte_length() {
    let long = "a".repeat(600);
    let preview = format_value_preview(Some(&JsonValue::Str(long)));
    assert!(preview.contains("..."));
    assert!(preview.contains("600 chars"));
    let medium = "a".repeat(400);
    let preview = format_value_preview(Some(&JsonValue::Str(medium.clone())));
    assert_eq!(preview, format!("\"{}\"", medium));
}

#[test]
fn the_report_lists_changed_resources_and_counts_the_rest() {
    let diffs = vec![
        ("a".to_string(), DiffResult { is_equal: true, changes: vec![] }),
        (
            "b".to_string(),
            DiffResult {
                is_equal: false,
                changes: vec![Change {
                    path: "x".into(),
                    kind: ChangeKind::Added,
                    old_value: None,
                    new_value: Some(JsonValue::Bool(false)),
                    description: None,
                }],
            },
        ),
    ];
    match format_report(&diffs, OutputFormat::Text) {
        ReportOutput::Text(t) => assert_eq!(
            t,
            "Found 1 resource(s) with changes:\n\nb: 1 change(s)\n  + x: false\n\n1 resource(s) unchanged.\n"
        ),
        _ => panic!("expected text"),
    }
    let none = vec![("a".to_string(), DiffResult { is_equal: true, changes: vec![] })];
    match format_report(&none, OutputFormat::Text) {
        ReportOutput::Text(t) => assert_eq!(t, "No changes detected.\n"),
        _ => panic!("expected text"),
    }
    match format_report(&diffs, OutputFormat::Json) {
        ReportOutput::Json(rows) => {
            assert_eq!(rows.len(), 2);
            assert!(!rows[0].changed);
            assert!(rows[1].changed);
        }
        _ => panic!("expected rows"),
    }
}

fn s(text: &str) -> JsonValue {
    JsonValue::Str(text.to_string())
}

fn n(text: &str) -> JsonValue {
    JsonValue::Number(text.to_string())
}

#[test]
fn test_format_text_with_changes() {
    // What comparing {"name": "test", "value": 1} with {"name": "test", "value": 2} yields.
    let result = DiffResult { is_equal: false, changes: vec![modified("value", n("1"), n("2"))] };
    let output = format_text(&result, "test-index");
    assert!(output.contains("1 change"));
    assert!(output.contains("value"));
    assert!(output.contains("~"));
    assert!(output.contains("was"));
    assert!(output.contains("now"));
}

#[test]
fn test_format_text_uses_description_when_set() {
    let result = DiffResult {
        is_equal: false,
        changes: vec![Change {
            path: "description".to_string(),
            kind: ChangeKind::Modified,
            old_value: Some(s("old")),
            new_value: Some(s("new")),
            description: Some(
                "The description differs: locally has \"old\" while on the server has \"new\"".to_string(),
            ),
        }],
    };
    let output = format_text(&result, "test-index");
    assert!(output.contains("The description differs"));
    assert!(!output.contains("~"));
}

#[test]
fn test_format_value_preview_long_string() {
    let long = "a".repeat(600);
    let preview = format_value_preview(Some(&s(&long)));
    assert!(preview.contains("..."));
    assert!(preview.contains("600 chars"));
}

#[test]
fn test_format_value_preview_medium_string_not_truncated() {
    let medium = "a".repeat(400);
    let preview = format_value_preview(Some(&s(&medium)));
    assert!(!preview.contains("..."));
    assert_eq!(preview, format!("\"{}\"", medium));
}

#[test]
fn test_format_value_preview_small_array() {
    let preview = format_value_preview(Some(&JsonValue::Array(vec![n("1"), n("2"), n("3")])));
    assert_eq!(preview, "[1, 2, 3]");
}

#[test]
fn test_format_value_preview_small_string_array() {
    let preview = format_value_preview(Some(&JsonValue::Array(vec![s("a"), s("b")])));
    assert_eq!(preview, "[\"a\", \"b\"]");
}

#[test]
fn test_format_value_preview_large_array() {
    let preview = format_value_preview(Some(&JsonValue::Array(vec![n("1"), n("2"), n("3"), n("4")])));
    assert_eq!(preview, "[4 items]");
}

#[test]
fn test_format_value_preview_empty_array() {
    let preview = format_value_preview(Some(&JsonValue::Array(vec![])));
    assert_eq!(preview, "[]");
}

#[test]
fn test_format_value_preview_complex_array_items() {
    let item = JsonValue::Object(vec![("a".to_string(), n("1"))]);
    let preview = format_value_preview(Some(&JsonValue::Array(vec![item])));
    assert_eq!(preview, "[1 items]");
}

#[test]
fn test_modified_uses_english_phrasing() {
    let change = modified("description", s("old text"), s("new text"));
    let output = format_change_text(&change);
    assert!(output.contains("was"));
    assert!(output.contains("now"));
    assert!(!output.contains("->"));
}

use cargo_scholium::format_results::{FieldError, FieldVisitor, ResultFormatter};
use cargo_scholium::format_source_error::{
    FieldVisitor as SourceFields, SourceErrorFormatter,
};
use cargo_scholium::render::decimal;
use cargo_scholium::setup::FieldDetail;

fn result_fields() -> FieldVisitor {
    let mut v = FieldVisitor::default();
    v.record_debug("file", "src/lib.rs".to_owned()).unwrap();
    v.record_u64("line", 3).unwrap();
    v.record_u64("column", 4).unwrap();
    v.record_debug("reason", "because".to_owned()).unwrap();
    v.record_debug("message", "Alpha".to_owned()).unwrap();
    v
}

#[test]
fn decimal_numbers() {
    assert_eq!(decimal(0), "0");
    assert_eq!(decimal(7), "7");
    assert_eq!(decimal(10), "10");
    assert_eq!(decimal(1234567890), "1234567890");
    assert_eq!(decimal(u64::MAX), u64::MAX.to_string());
}

#[test]
fn compact_result() {
    let v = result_fields();
    let text = ResultFormatter::new(FieldDetail::Compact).format_fields(&v, false);
    assert_eq!(text, "src/lib.rs:3:5: Alpha: because");
}

#[test]
fn full_result() {
    let mut v = result_fields();
    v.record_debug("see_also", r#"["https://x","y"]"#.to_owned()).unwrap();
    v.record_debug("info", "more".to_owned()).unwrap();
    v.record_debug("report_id", "lint::alpha".to_owned()).unwrap();
    let text = ResultFormatter::new(FieldDetail::Full).format_fields(&v, false);
    assert_eq!(
        text,
        "Alpha\n  --> src/lib.rs:3:5\n  = reason: because\n  = see also: https://x\n  = see also: y\n  = info: more\n  = help: for further information run `cargo scholium explain lint::alpha`"
    );
}

#[test]
fn full_result_without_extras() {
    let mut v = result_fields();
    v.record_debug("info", String::new()).unwrap();
    let text = ResultFormatter::new(FieldDetail::Full).format_fields(&v, false);
    assert_eq!(text, "Alpha\n  --> src/lib.rs:3:5\n  = reason: because");
}

#[test]
fn coloured_result() {
    let v = result_fields();
    let text = ResultFormatter::new(FieldDetail::Full).format_fields(&v, true);
    assert_eq!(
        text,
        "Alpha\n\u{1b}[1;94m  --> \u{1b}[0msrc/lib.rs:3:5\n\u{1b}[1;94m  = reason: \u{1b}[0mbecause"
    );
}

#[test]
fn incomplete_result_is_empty() {
    let mut v = FieldVisitor::default();
    v.record_debug("file", "f".to_owned()).unwrap();
    assert_eq!(ResultFormatter::new(FieldDetail::Full).format_fields(&v, false), "");
}

#[test]
fn result_field_errors() {
    let mut v = FieldVisitor::default();
    assert_eq!(v.record_debug("colour", "x".to_owned()), Err(FieldError::Unsupported("colour".to_owned())));
    assert_eq!(v.record_u64("width", 1), Err(FieldError::Unsupported("width".to_owned())));
    assert_eq!(v.record_debug("see_also", "not json".to_owned()), Err(FieldError::NotStringList));
    assert_eq!(v, FieldVisitor::default());
}

#[test]
fn see_also_reads_back_what_was_written() {
    let items = vec!["a \"quoted\" \\ text".to_owned(), "line\nbreak".to_owned(), String::new()];
    let json = serde_json::to_string(&items).unwrap();
    let mut v = FieldVisitor::default();
    v.record_debug("see_also", json).unwrap();
    assert_eq!(v.see_also, items);
}

fn source_fields() -> SourceFields {
    let mut v = SourceFields::default();
    v.record_debug("file", "f.rs".to_owned()).unwrap();
    v.record_u64("line", 12).unwrap();
    v.record_u64("column", 4).unwrap();
    v.record_debug("message", "Syntax error".to_owned()).unwrap();
    v
}

#[test]
fn full_source_error() {
    let mut v = source_fields();
    v.record_debug("source_line", "let x = 1;".to_owned()).unwrap();
    v.record_debug("error", "expected ident".to_owned()).unwrap();
    let text = SourceErrorFormatter::new(FieldDetail::Full).format_fields(&v, false);
    assert_eq!(
        text,
        "Syntax error: expected ident\n  --> f.rs:12:5\n    | \n 12 | let x = 1;\n    |     ^\n    | "
    );
}

#[test]
fn full_source_error_at_first_column() {
    let mut v = source_fields();
    v.record_u64("column", 0).unwrap();
    v.record_debug("source_line", "x".to_owned()).unwrap();
    let text = SourceErrorFormatter::new(FieldDetail::Full).format_fields(&v, false);
    assert_eq!(text, "Syntax error\n  --> f.rs:12:1\n    | \n 12 | x\n    | ^\n    | ");
}

#[test]
fn source_error_without_source_line() {
    let mut v = source_fields();
    let text = SourceErrorFormatter::new(FieldDetail::Full).format_fields(&v, false);
    assert_eq!(text, "f.rs:12:5: Syntax error");
    v.record_debug("error", "boom".to_owned()).unwrap();
    v.record_debug("source_line", "s".to_owned()).unwrap();
    let text = SourceErrorFormatter::new(FieldDetail::Compact).format_fields(&v, false);
    assert_eq!(text, "f.rs:12:5: Syntax error: boom");
}

#[test]
fn source_error_field_errors() {
    let mut v = SourceFields::default();
    assert_eq!(v.record_debug("info", "x".to_owned()), Err(FieldError::Unsupported("info".to_owned())));
    assert_eq!(v.record_u64("depth", 1), Err(FieldError::Unsupported("depth".to_owned())));
    v.record_debug("report_id", "a::b".to_owned()).unwrap();
    assert_eq!(v.report_id.as_deref(), Some("a::b"));
}

#[test]
fn coloured_caret() {
    let mut v = source_fields();
    v.record_u64("column", 1).unwrap();
    v.record_debug("source_line", "ab".to_owned()).unwrap();
    let text = SourceErrorFormatter::new(FieldDetail::Full).format_fields(&v, true);
    let blue = |s: &str| format!("\u{1b}[1;94m{s}\u{1b}[0m");
    let expected = format!(
        "Syntax error\n{}f.rs:12:2\n{}\n{}ab\n{} \u{1b}[1;93m^\u{1b}[0m\n{}",
        blue("  --> "),
        blue("    | "),
        blue(" 12 | "),
        blue("    | "),
        blue("    | "),
    );
    assert_eq!(text, expected);
}

#[test]
fn full_result_as_documented() {
    let mut v = FieldVisitor::default();
    v.record_debug("file", "src/file.rs".to_owned()).unwrap();
    v.record_u64("line", 90).unwrap();
    v.record_u64("column", 17).unwrap();
    v.record_debug("reason", "user defined reason".to_owned()).unwrap();
    v.record_debug("message", "Future implementation".to_owned()).unwrap();
    v.record_debug("info", "Implement in the future".to_owned()).unwrap();
    v.record_debug("report_id", "group::future_imp".to_owned()).unwrap();
    v.record_debug("see_also", "[]".to_owned()).unwrap();
    let text = ResultFormatter::new(FieldDetail::Full).format_fields(&v, false);
    assert_eq!(
        text,
        "Future implementation\n  --> src/file.rs:90:18\n  = reason: user defined reason\n  = info: Implement in the future\n  = help: for further information run `cargo scholium explain group::future_imp`"
    );
}

#[test]
fn incomplete_fields_with_the_largest_column_are_empty() {
    let mut v = FieldVisitor::default();
    v.record_debug("file", "f".to_owned()).unwrap();
    v.record_u64("line", 1).unwrap();
    v.record_u64("column", u64::MAX).unwrap();
    v.record_debug("message", "m".to_owned()).unwrap();
    assert_eq!(ResultFormatter::new(FieldDetail::Full).format_fields(&v, false), "");
    let mut s = SourceFields::default();
    s.record_debug("file", "f".to_owned()).unwrap();
    s.record_u64("column", u64::MAX).unwrap();
    s.record_debug("message", "m".to_owned()).unwrap();
    assert_eq!(SourceErrorFormatter::new(FieldDetail::Full).format_fields(&s, false), "");
}
